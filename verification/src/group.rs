//! The component group abstraction: an ordered tuple of component types
//! that can be resolved to component ids, read as a typed tuple for a
//! matching entity, and written back.  Positional correspondence is the
//! heart of it: the id list and the tuple interpretation are produced in
//! lockstep order, so the first element of a tuple always belongs to the
//! first type of the group.  On top of it stand the filtered iteration
//! methods of the world: `each`, `each1` and `each_mut`.

use vstd::prelude::*;

use core::marker::PhantomData;
use crate::component::Component;
use crate::engine::PREFAB_ID;
use crate::world::Entity;
use crate::world::World;

verus! {

/// Entity `e` holds a cell for every component id of `ids`.
pub open spec fn has_all(w: World, e: u64, ids: Seq<u64>) -> bool {
    forall|i: int| 0 <= i < ids.len() ==> w.engine.has_cell(e, #[trigger] ids[i])
}

/// Entity `e` matches a filter over `ids`: it holds a cell for every listed
/// component and does not carry the prefab marker, which excludes template
/// entities from normal iteration.
pub open spec fn matches_ids(w: World, e: u64, ids: Seq<u64>) -> bool {
    has_all(w, e, ids) && !w.engine.has_cell(e, PREFAB_ID)
}

/// The entities of `alive`, in storage order, that hold cells for every id
/// of `ids` and are not prefab templates.
pub open spec fn matched_of(w: World, ids: Seq<u64>, alive: Seq<u64>) -> Seq<u64>
    decreases alive.len(),
{
    if alive.len() == 0 {
        Seq::empty()
    } else {
        let rest = matched_of(w, ids, alive.drop_last());
        if matches_ids(w, alive.last(), ids) {
            rest.push(alive.last())
        } else {
            rest
        }
    }
}

/// What a filtered iteration sees: the matched entities are exactly the
/// live non-template entities holding every listed component, each matched
/// once, in storage order.
pub proof fn lemma_matched_of(w: World, ids: Seq<u64>, alive: Seq<u64>)
    ensures
        forall|j: int|
            0 <= j < matched_of(w, ids, alive).len() ==> alive.contains(
                #[trigger] matched_of(w, ids, alive)[j],
            ) && matches_ids(w, matched_of(w, ids, alive)[j], ids),
        forall|e: u64|
            alive.contains(e) && matches_ids(w, e, ids) ==> matched_of(w, ids, alive).contains(e),
        (forall|i: int, j: int| 0 <= i < j < alive.len() ==> alive[i] != alive[j]) ==> (forall|
            i: int,
            j: int,
        |
            0 <= i < j < matched_of(w, ids, alive).len() ==> matched_of(w, ids, alive)[i]
                != matched_of(w, ids, alive)[j]),
    decreases alive.len(),
{
    let m = matched_of(w, ids, alive);
    if alive.len() == 0 {
        assert forall|e: u64| alive.contains(e) && matches_ids(w, e, ids) implies m.contains(e) by {
            let i = choose|i: int| 0 <= i < alive.len() && alive[i] == e;
        }
    } else {
        let prefix = alive.drop_last();
        let rest = matched_of(w, ids, prefix);
        lemma_matched_of(w, ids, prefix);
        assert forall|j: int|
            0 <= j < m.len() implies alive.contains(#[trigger] m[j]) && matches_ids(
            w,
            m[j],
            ids,
        ) by {
            if j < rest.len() {
                assert(prefix.contains(rest[j]));
                let i = choose|i: int| 0 <= i < prefix.len() && prefix[i] == rest[j];
                assert(alive[i] == rest[j]);
            } else {
                assert(alive[alive.len() - 1] == alive.last());
            }
        }
        assert forall|e: u64| alive.contains(e) && matches_ids(w, e, ids) implies m.contains(e) by {
            let i = choose|i: int| 0 <= i < alive.len() && alive[i] == e;
            if i < alive.len() - 1 {
                assert(prefix[i] == e);
                assert(prefix.contains(e));
                assert(rest.contains(e));
                let j = choose|j: int| 0 <= j < rest.len() && rest[j] == e;
                assert(m[j] == e);
            } else {
                assert(e == alive.last());
                assert(m[m.len() - 1] == e);
            }
        }
        if forall|i: int, j: int| 0 <= i < j < alive.len() ==> alive[i] != alive[j] {
            assert(forall|i: int, j: int| 0 <= i < j < prefix.len() ==> prefix[i] != prefix[j]);
            if matches_ids(w, alive.last(), ids) {
                assert forall|i: int, j: int|
                    0 <= i < j < m.len() implies m[i] != m[j] by {
                    if j < rest.len() {
                        assert(rest[i] != rest[j]);
                    } else {
                        assert(prefix.contains(rest[i]));
                        let k = choose|k: int| 0 <= k < prefix.len() && prefix[k] == rest[i];
                        assert(alive[k] == rest[i]);
                        assert(alive[k] != alive[alive.len() - 1]);
                    }
                }
            }
        }
    }
}

/// The typed rows of the matched entities: each entity paired with the
/// group tuple its cells decode to.
pub open spec fn group_rows<G: ComponentGroup>(w: World, m: Seq<u64>) -> Seq<(Entity, G)> {
    m.map_values(|e: u64| (Entity { id: e }, G::value_spec(w, e)->Some_0))
}

/// An ordered tuple of component types, resolvable to component ids in
/// tuple order and interpretable as a typed tuple for one entity.
pub trait ComponentGroup: Sized {
    /// Every type of the group is registered, sized consistently, and no
    /// two positions share a component id.
    spec fn registered_spec(w: World) -> bool;

    /// The component ids of the group's types, in tuple order.
    spec fn ids_spec(w: World) -> Seq<u64>;

    /// The tuple the entity's cells decode to, position by position, if the
    /// entity holds every component of the group.
    spec fn value_spec(w: World, e: u64) -> Option<Self>;

    /// A tuple decodes if and only if the entity holds every component.
    proof fn lemma_value_matches(w: World, e: u64)
        requires
            w.wf(),
            Self::registered_spec(w),
        ensures
            Self::value_spec(w, e) is Some <==> has_all(w, e, Self::ids_spec(w)),
    ;

    /// A world that binds the same registry and holds the same cells for
    /// the entity decodes it to the same tuple.
    proof fn lemma_value_frame(w1: World, w2: World, e: u64)
        requires
            w1.wf(),
            w2.wf(),
            Self::registered_spec(w1),
            w2.typed@ == w1.typed@,
            w2.engine.infos@ == w1.engine.infos@,
            forall|c: u64|
                Self::ids_spec(w1).contains(c) ==> (#[trigger] w2.engine.has_cell(e, c)
                    == w1.engine.has_cell(e, c) && (w1.engine.has_cell(e, c)
                    ==> w2.engine.cell_bytes(e, c) == w1.engine.cell_bytes(e, c))),
        ensures
            Self::registered_spec(w2),
            Self::ids_spec(w2) == Self::ids_spec(w1),
            Self::value_spec(w2, e) == Self::value_spec(w1, e),
    ;

    /// Resolves each type of the group to its component id, in tuple order.
    fn component_ids(w: &World) -> (ids: Vec<u64>)
        requires
            w.wf(),
            Self::registered_spec(*w),
        ensures
            ids@ == Self::ids_spec(*w),
    ;

    /// Reads the group tuple for one entity: nothing while the entity is
    /// not alive or lacks a component of the group.
    fn group_read(w: &World, e: u64) -> (r: Option<Self>)
        requires
            w.wf(),
            Self::registered_spec(*w),
        ensures
            r == if w.engine.is_alive(e) {
                Self::value_spec(*w, e)
            } else {
                Option::<Self>::None
            },
    ;

    /// Writes a group tuple to one entity, component by component in tuple
    /// order; cells of other entities and other components are untouched.
    fn group_write(w: &mut World, e: u64, value: Self)
        requires
            old(w).wf(),
            Self::registered_spec(*old(w)),
            old(w).engine.is_alive(e),
        ensures
            final(w).wf(),
            Self::registered_spec(*final(w)),
            Self::ids_spec(*final(w)) == Self::ids_spec(*old(w)),
            Self::value_spec(*final(w), e) == Some(value),
            forall|e2: u64, c2: u64|
                !(e2 == e && Self::ids_spec(*old(w)).contains(c2)) ==> (#[trigger] final(w).engine.has_cell(e2, c2) == old(w).engine.has_cell(e2, c2) && (old(w).engine.has_cell(e2, c2) ==> final(w).engine.cell_bytes(e2, c2) == old(w).engine.cell_bytes(e2, c2))),
            final(w).engine.infos@ == old(w).engine.infos@,
            final(w).engine.alive@ == old(w).engine.alive@,
            final(w).engine.names@ == old(w).engine.names@,
            final(w).engine.next_id == old(w).engine.next_id,
            final(w).engine.quit_flag == old(w).engine.quit_flag,
            final(w).engine.delta == old(w).engine.delta,
            final(w).engine.systems@ == old(w).engine.systems@,
            final(w).typed@ == old(w).typed@,
            final(w).dynamics@ == old(w).dynamics@,
    ;
}

impl<A: Component> ComponentGroup for (A,) {
    open spec fn registered_spec(w: World) -> bool {
        w.registered::<A>()
    }

    open spec fn ids_spec(w: World) -> Seq<u64> {
        seq![w.typed_id(A::key_spec())->Some_0]
    }

    open spec fn value_spec(w: World, e: u64) -> Option<(A,)> {
        match w.typed_value::<A>(e) {
            Some(a) => Some((a,)),
            None => None,
        }
    }

    proof fn lemma_value_matches(w: World, e: u64) {
        let ids = Self::ids_spec(w);
        assert(ids[0] == w.typed_id(A::key_spec())->Some_0);
        if w.engine.has_cell(e, ids[0]) {
            assert(has_all(w, e, ids));
        }
    }

    proof fn lemma_value_frame(w1: World, w2: World, e: u64) {
        let c = w1.typed_id(A::key_spec())->Some_0;
        assert(Self::ids_spec(w1)[0] == c);
        assert(Self::ids_spec(w1).contains(c));
        assert(Self::ids_spec(w2) =~= Self::ids_spec(w1));
    }

    fn component_ids(w: &World) -> (ids: Vec<u64>) {
        let mut ids: Vec<u64> = Vec::new();
        ids.push(w.comp_of::<A>());
        proof {
            assert(ids@ =~= Self::ids_spec(*w));
        }
        ids
    }

    fn group_read(w: &World, e: u64) -> (r: Option<(A,)>) {
        match w.get::<A>(Entity { id: e }) {
            Some(a) => Some((a,)),
            None => None,
        }
    }

    fn group_write(w: &mut World, e: u64, value: (A,)) {
        w.set::<A>(Entity { id: e }, value.0);
        proof {
            assert(Self::ids_spec(*w) =~= Self::ids_spec(*old(w)));
            let c = old(w).typed_id(A::key_spec())->Some_0;
            assert forall|e2: u64, c2: u64|
                !(e2 == e && Self::ids_spec(*old(w)).contains(c2)) implies (#[trigger] final(w).engine.has_cell(e2, c2) == old(w).engine.has_cell(e2, c2) && (old(w).engine.has_cell(e2, c2) ==> final(w).engine.cell_bytes(e2, c2) == old(w).engine.cell_bytes(e2, c2))) by {
                assert(Self::ids_spec(*old(w))[0] == c);
                assert(!(e2 == e && c2 == c));
            }
        }
    }
}

impl<A: Component, B: Component> ComponentGroup for (A, B) {
    open spec fn registered_spec(w: World) -> bool {
        &&& w.registered::<A>()
        &&& w.registered::<B>()
        &&& A::key_spec() != B::key_spec()
    }

    open spec fn ids_spec(w: World) -> Seq<u64> {
        seq![
            w.typed_id(A::key_spec())->Some_0,
            w.typed_id(B::key_spec())->Some_0,
        ]
    }

    open spec fn value_spec(w: World, e: u64) -> Option<(A, B)> {
        match (w.typed_value::<A>(e), w.typed_value::<B>(e)) {
            (Some(a), Some(b)) => Some((a, b)),
            _ => None,
        }
    }

    proof fn lemma_value_matches(w: World, e: u64) {
        let ids = Self::ids_spec(w);
        assert(ids[0] == w.typed_id(A::key_spec())->Some_0);
        assert(ids[1] == w.typed_id(B::key_spec())->Some_0);
        if w.engine.has_cell(e, ids[0]) && w.engine.has_cell(e, ids[1]) {
            assert(has_all(w, e, ids));
        }
    }

    proof fn lemma_value_frame(w1: World, w2: World, e: u64) {
        let ca = w1.typed_id(A::key_spec())->Some_0;
        let cb = w1.typed_id(B::key_spec())->Some_0;
        assert(Self::ids_spec(w1)[0] == ca);
        assert(Self::ids_spec(w1)[1] == cb);
        assert(Self::ids_spec(w1).contains(ca));
        assert(Self::ids_spec(w1).contains(cb));
        assert(Self::ids_spec(w2) =~= Self::ids_spec(w1));
    }

    fn component_ids(w: &World) -> (ids: Vec<u64>) {
        let mut ids: Vec<u64> = Vec::new();
        ids.push(w.comp_of::<A>());
        ids.push(w.comp_of::<B>());
        proof {
            assert(ids@ =~= Self::ids_spec(*w));
        }
        ids
    }

    fn group_read(w: &World, e: u64) -> (r: Option<(A, B)>) {
        match w.get::<A>(Entity { id: e }) {
            Some(a) => match w.get::<B>(Entity { id: e }) {
                Some(b) => Some((a, b)),
                None => None,
            },
            None => None,
        }
    }

    fn group_write(w: &mut World, e: u64, value: (A, B)) {
        let ghost mid_target = *old(w);
        proof {
            // distinct keys bind distinct component ids
            old(w).lemma_typed_has(A::key_spec());
            old(w).lemma_typed_has(B::key_spec());
        }
        let (a, b) = value;
        w.set::<A>(Entity { id: e }, a);
        w.set::<B>(Entity { id: e }, b);
        proof {
            let ca = old(w).typed_id(A::key_spec())->Some_0;
            let cb = old(w).typed_id(B::key_spec())->Some_0;
            let ia = crate::world::typed_at(old(w).typed@, A::key_spec());
            let ib = crate::world::typed_at(old(w).typed@, B::key_spec());
            assert(ia != ib);
            assert(ca != cb);
            assert(Self::ids_spec(*w) =~= Self::ids_spec(*old(w)));
            assert(final(w).engine.cell_bytes(e, ca) == a.enc());
            assert forall|e2: u64, c2: u64|
                !(e2 == e && Self::ids_spec(*old(w)).contains(c2)) implies (#[trigger] final(w).engine.has_cell(e2, c2) == old(w).engine.has_cell(e2, c2) && (old(w).engine.has_cell(e2, c2) ==> final(w).engine.cell_bytes(e2, c2) == old(w).engine.cell_bytes(e2, c2))) by {
                assert(Self::ids_spec(*old(w))[0] == ca);
                assert(Self::ids_spec(*old(w))[1] == cb);
                assert(!(e2 == e && c2 == ca));
                assert(!(e2 == e && c2 == cb));
            }
        }
    }
}

impl<A: Component, B: Component, C: Component> ComponentGroup for (A, B, C) {
    open spec fn registered_spec(w: World) -> bool {
        &&& w.registered::<A>()
        &&& w.registered::<B>()
        &&& w.registered::<C>()
        &&& A::key_spec() != B::key_spec()
        &&& A::key_spec() != C::key_spec()
        &&& B::key_spec() != C::key_spec()
    }

    open spec fn ids_spec(w: World) -> Seq<u64> {
        seq![
            w.typed_id(A::key_spec())->Some_0,
            w.typed_id(B::key_spec())->Some_0,
            w.typed_id(C::key_spec())->Some_0,
        ]
    }

    open spec fn value_spec(w: World, e: u64) -> Option<(A, B, C)> {
        match (w.typed_value::<A>(e), w.typed_value::<B>(e), w.typed_value::<C>(e)) {
            (Some(a), Some(b), Some(c)) => Some((a, b, c)),
            _ => None,
        }
    }

    proof fn lemma_value_matches(w: World, e: u64) {
        let ids = Self::ids_spec(w);
        assert(ids[0] == w.typed_id(A::key_spec())->Some_0);
        assert(ids[1] == w.typed_id(B::key_spec())->Some_0);
        assert(ids[2] == w.typed_id(C::key_spec())->Some_0);
        if w.engine.has_cell(e, ids[0]) && w.engine.has_cell(e, ids[1]) && w.engine.has_cell(
            e,
            ids[2],
        ) {
            assert(has_all(w, e, ids));
        }
    }

    proof fn lemma_value_frame(w1: World, w2: World, e: u64) {
        let ca = w1.typed_id(A::key_spec())->Some_0;
        let cb = w1.typed_id(B::key_spec())->Some_0;
        let cc = w1.typed_id(C::key_spec())->Some_0;
        assert(Self::ids_spec(w1)[0] == ca);
        assert(Self::ids_spec(w1)[1] == cb);
        assert(Self::ids_spec(w1)[2] == cc);
        assert(Self::ids_spec(w1).contains(ca));
        assert(Self::ids_spec(w1).contains(cb));
        assert(Self::ids_spec(w1).contains(cc));
        assert(Self::ids_spec(w2) =~= Self::ids_spec(w1));
    }

    fn component_ids(w: &World) -> (ids: Vec<u64>) {
        let mut ids: Vec<u64> = Vec::new();
        ids.push(w.comp_of::<A>());
        ids.push(w.comp_of::<B>());
        ids.push(w.comp_of::<C>());
        proof {
            assert(ids@ =~= Self::ids_spec(*w));
        }
        ids
    }

    fn group_read(w: &World, e: u64) -> (r: Option<(A, B, C)>) {
        match w.get::<A>(Entity { id: e }) {
            Some(a) => match w.get::<B>(Entity { id: e }) {
                Some(b) => match w.get::<C>(Entity { id: e }) {
                    Some(c) => Some((a, b, c)),
                    None => None,
                },
                None => None,
            },
            None => None,
        }
    }

    fn group_write(w: &mut World, e: u64, value: (A, B, C)) {
        proof {
            old(w).lemma_typed_has(A::key_spec());
            old(w).lemma_typed_has(B::key_spec());
            old(w).lemma_typed_has(C::key_spec());
        }
        let (a, b, c) = value;
        w.set::<A>(Entity { id: e }, a);
        w.set::<B>(Entity { id: e }, b);
        w.set::<C>(Entity { id: e }, c);
        proof {
            let ca = old(w).typed_id(A::key_spec())->Some_0;
            let cb = old(w).typed_id(B::key_spec())->Some_0;
            let cc = old(w).typed_id(C::key_spec())->Some_0;
            let ia = crate::world::typed_at(old(w).typed@, A::key_spec());
            let ib = crate::world::typed_at(old(w).typed@, B::key_spec());
            let ic = crate::world::typed_at(old(w).typed@, C::key_spec());
            assert(ia != ib && ia != ic && ib != ic);
            assert(ca != cb && ca != cc && cb != cc);
            assert(Self::ids_spec(*w) =~= Self::ids_spec(*old(w)));
            assert(final(w).engine.cell_bytes(e, ca) == a.enc());
            assert(final(w).engine.cell_bytes(e, cb) == b.enc());
            assert forall|e2: u64, c2: u64|
                !(e2 == e && Self::ids_spec(*old(w)).contains(c2)) implies (#[trigger] final(w).engine.has_cell(e2, c2) == old(w).engine.has_cell(e2, c2) && (old(w).engine.has_cell(e2, c2) ==> final(w).engine.cell_bytes(e2, c2) == old(w).engine.cell_bytes(e2, c2))) by {
                assert(Self::ids_spec(*old(w))[0] == ca);
                assert(Self::ids_spec(*old(w))[1] == cb);
                assert(Self::ids_spec(*old(w))[2] == cc);
                assert(!(e2 == e && c2 == ca));
                assert(!(e2 == e && c2 == cb));
                assert(!(e2 == e && c2 == cc));
            }
        }
    }
}

/// A built filter over a component group: the resolved id list, in tuple
/// order, of the group it was built from.
pub struct FilterGroup<G: ComponentGroup> {
    pub ids: Vec<u64>,
    pub group: PhantomData<G>,
}

impl<G: ComponentGroup> FilterGroup<G> {
    /// Builds the filter for the group from the world's registry.
    pub fn new(w: &World) -> (r: FilterGroup<G>)
        requires
            w.wf(),
            G::registered_spec(*w),
        ensures
            r.ids@ == G::ids_spec(*w),
    {
        FilterGroup { ids: G::component_ids(w), group: PhantomData }
    }

    /// Visits every entity currently matching the filter, prefab templates
    /// excluded: returns, in storage order, each matched entity with its
    /// decoded tuple.
    pub fn each(&self, w: &World) -> (r: Vec<(Entity, G)>)
        requires
            w.wf(),
            G::registered_spec(*w),
            self.ids@ == G::ids_spec(*w),
        ensures
            r@ == group_rows::<G>(*w, matched_of(*w, G::ids_spec(*w), w.engine.alive@)),
    {
        w.each::<G>()
    }

    /// Visits every matched entity and stores the tuple the callback
    /// returns for it.
    pub fn each_mut<F: Fn(Entity, G) -> G>(&self, w: &mut World, f: F)
        requires
            old(w).wf(),
            G::registered_spec(*old(w)),
            self.ids@ == G::ids_spec(*old(w)),
            forall|a: Entity, g: G| call_requires(f, (a, g)),
        ensures
            final(w).wf(),
            G::registered_spec(*final(w)),
            each_mut_post::<G, F>(*old(w), *final(w), f),
            final(w).engine.infos@ == old(w).engine.infos@,
            final(w).engine.alive@ == old(w).engine.alive@,
            final(w).engine.names@ == old(w).engine.names@,
            final(w).engine.next_id == old(w).engine.next_id,
            final(w).engine.quit_flag == old(w).engine.quit_flag,
            final(w).engine.delta == old(w).engine.delta,
            final(w).engine.systems@ == old(w).engine.systems@,
            final(w).typed@ == old(w).typed@,
            final(w).dynamics@ == old(w).dynamics@,
    {
        w.each_mut::<G, F>(f)
    }
}

/// Row `j` of the matched set was rewritten: the post-state decodes the
/// entity to a tuple the callback could have returned for its old tuple.
pub open spec fn row_updated<G: ComponentGroup, F: Fn(Entity, G) -> G>(
    pre: World,
    post: World,
    f: F,
    j: int,
) -> bool {
    let m = matched_of(pre, G::ids_spec(pre), pre.engine.alive@);
    exists|g2: G|
        call_ensures(f, (Entity { id: m[j] }, G::value_spec(pre, m[j])->Some_0), g2)
            && G::value_spec(post, m[j]) == Some(g2)
}

/// What a mutating iteration leaves behind: every matched entity of the
/// pre-state holds a tuple the callback could have returned for its old
/// tuple, and every other cell of the world is untouched.
pub open spec fn each_mut_post<G: ComponentGroup, F: Fn(Entity, G) -> G>(
    pre: World,
    post: World,
    f: F,
) -> bool {
    let ids = G::ids_spec(pre);
    let m = matched_of(pre, ids, pre.engine.alive@);
    &&& forall|j: int|
        0 <= j < m.len() ==> #[trigger] row_updated::<G, F>(pre, post, f, j)
    &&& forall|e2: u64, c2: u64|
        !(m.contains(e2) && ids.contains(c2)) ==> #[trigger] post.engine.has_cell(e2, c2)
            == pre.engine.has_cell(e2, c2)
    &&& forall|e2: u64, c2: u64|
        !(m.contains(e2) && ids.contains(c2)) && pre.engine.has_cell(e2, c2)
            ==> #[trigger] post.engine.cell_bytes(e2, c2) == pre.engine.cell_bytes(e2, c2)
}

/// Composes the frame of one positional write with the frame the iteration
/// has maintained so far: after writing the `k`-th matched entity, cells of
/// the still-pending matched entities and of everything outside the matched
/// set are as the pre-state left them.
proof fn lemma_iteration_frame(
    pre: World,
    mid: World,
    post: World,
    m: Seq<u64>,
    ids: Seq<u64>,
    e: u64,
    k: int,
)
    requires
        0 <= k < m.len(),
        m[k] == e,
        forall|i: int, j: int| 0 <= i < j < m.len() ==> m[i] != m[j],
        forall|j: int, c: u64|
            k <= j < m.len() && ids.contains(c) ==> #[trigger] mid.engine.has_cell(m[j], c)
                == pre.engine.has_cell(m[j], c),
        forall|j: int, c: u64|
            k <= j < m.len() && ids.contains(c) && pre.engine.has_cell(m[j], c)
                ==> #[trigger] mid.engine.cell_bytes(m[j], c) == pre.engine.cell_bytes(m[j], c),
        forall|e2: u64, c2: u64|
            !(m.contains(e2) && ids.contains(c2)) ==> #[trigger] mid.engine.has_cell(e2, c2)
                == pre.engine.has_cell(e2, c2),
        forall|e2: u64, c2: u64|
            !(m.contains(e2) && ids.contains(c2)) && pre.engine.has_cell(e2, c2)
                ==> #[trigger] mid.engine.cell_bytes(e2, c2) == pre.engine.cell_bytes(e2, c2),
        forall|e2: u64, c2: u64|
            !(e2 == e && ids.contains(c2)) ==> #[trigger] post.engine.has_cell(e2, c2)
                == mid.engine.has_cell(e2, c2),
        forall|e2: u64, c2: u64|
            !(e2 == e && ids.contains(c2)) && mid.engine.has_cell(e2, c2)
                ==> #[trigger] post.engine.cell_bytes(e2, c2) == mid.engine.cell_bytes(e2, c2),
    ensures
        forall|j: int, c: u64|
            k + 1 <= j < m.len() && ids.contains(c) ==> #[trigger] post.engine.has_cell(m[j], c)
                == pre.engine.has_cell(m[j], c),
        forall|j: int, c: u64|
            k + 1 <= j < m.len() && ids.contains(c) && pre.engine.has_cell(m[j], c)
                ==> #[trigger] post.engine.cell_bytes(m[j], c) == pre.engine.cell_bytes(m[j], c),
        forall|e2: u64, c2: u64|
            !(m.contains(e2) && ids.contains(c2)) ==> #[trigger] post.engine.has_cell(e2, c2)
                == pre.engine.has_cell(e2, c2),
        forall|e2: u64, c2: u64|
            !(m.contains(e2) && ids.contains(c2)) && pre.engine.has_cell(e2, c2)
                ==> #[trigger] post.engine.cell_bytes(e2, c2) == pre.engine.cell_bytes(e2, c2),
{
    assert forall|j: int, c: u64|
        k + 1 <= j < m.len() && ids.contains(c) implies #[trigger] post.engine.has_cell(m[j], c)
        == pre.engine.has_cell(m[j], c) by {
        assert(m[j] != e);
        assert(mid.engine.has_cell(m[j], c) == pre.engine.has_cell(m[j], c));
        assert(post.engine.has_cell(m[j], c) == mid.engine.has_cell(m[j], c));
    }
    assert forall|j: int, c: u64|
        k + 1 <= j < m.len() && ids.contains(c) && pre.engine.has_cell(m[j], c) implies #[trigger]
    post.engine.cell_bytes(m[j], c) == pre.engine.cell_bytes(m[j], c) by {
        assert(m[j] != e);
        assert(mid.engine.has_cell(m[j], c) == pre.engine.has_cell(m[j], c));
        assert(mid.engine.cell_bytes(m[j], c) == pre.engine.cell_bytes(m[j], c));
        assert(post.engine.has_cell(m[j], c) == mid.engine.has_cell(m[j], c));
        assert(post.engine.cell_bytes(m[j], c) == mid.engine.cell_bytes(m[j], c));
    }
    assert forall|e2: u64, c2: u64|
        !(m.contains(e2) && ids.contains(c2)) implies #[trigger] post.engine.has_cell(e2, c2)
        == pre.engine.has_cell(e2, c2) by {
        if e2 == e && ids.contains(c2) {
            assert(m.contains(e)) by {
                assert(m[k] == e);
            }
            assert(false);
        } else {
            assert(mid.engine.has_cell(e2, c2) == pre.engine.has_cell(e2, c2));
            assert(post.engine.has_cell(e2, c2) == mid.engine.has_cell(e2, c2));
        }
    }
    assert forall|e2: u64, c2: u64|
        !(m.contains(e2) && ids.contains(c2)) && pre.engine.has_cell(e2, c2) implies #[trigger]
    post.engine.cell_bytes(e2, c2) == pre.engine.cell_bytes(e2, c2) by {
        if e2 == e && ids.contains(c2) {
            assert(m.contains(e)) by {
                assert(m[k] == e);
            }
            assert(false);
        } else {
            assert(mid.engine.has_cell(e2, c2) == pre.engine.has_cell(e2, c2));
            assert(mid.engine.cell_bytes(e2, c2) == pre.engine.cell_bytes(e2, c2));
            assert(post.engine.has_cell(e2, c2) == mid.engine.has_cell(e2, c2));
            assert(post.engine.cell_bytes(e2, c2) == mid.engine.cell_bytes(e2, c2));
        }
    }
}

impl World {
    /// Builds a filter over the component group `G` from this world.
    pub fn filter<G: ComponentGroup>(&self) -> (r: FilterGroup<G>)
        requires
            self.wf(),
            G::registered_spec(*self),
        ensures
            r.ids@ == G::ids_spec(*self),
    {
        FilterGroup::<G>::new(self)
    }

    /// Visits every entity holding all components of the group `G`, prefab
    /// templates excluded: returns, in storage order, each matched entity
    /// with the tuple its cells decode to, position by position.
    pub fn each<G: ComponentGroup>(&self) -> (r: Vec<(Entity, G)>)
        requires
            self.wf(),
            G::registered_spec(*self),
        ensures
            r@ == group_rows::<G>(*self, matched_of(*self, G::ids_spec(*self), self.engine.alive@)),
    {
        let ghost ids = G::ids_spec(*self);
        let mut out: Vec<(Entity, G)> = Vec::new();
        let n = self.engine.alive.len();
        let mut k: usize = 0;
        while k < n
            invariant
                self.wf(),
                G::registered_spec(*self),
                n == self.engine.alive@.len(),
                k <= n,
                ids == G::ids_spec(*self),
                out@ == group_rows::<G>(*self, matched_of(*self, ids, self.engine.alive@.take(k as int))),
            decreases n - k,
        {
            let e = self.engine.alive[k];
            let tagged = self.engine.has_component(e, PREFAB_ID);
            let row = G::group_read(self, e);
            proof {
                G::lemma_value_matches(*self, e);
                assert(self.engine.is_alive(e)) by {
                    assert(self.engine.alive@[k as int] == e);
                }
                let taken = self.engine.alive@.take(k as int + 1);
                assert(taken.drop_last() =~= self.engine.alive@.take(k as int));
                assert(taken.last() == e);
            }
            match row {
                Some(g) => {
                    if !tagged {
                        out.push((Entity { id: e }, g));
                        proof {
                            let m1 = matched_of(*self, ids, self.engine.alive@.take(k as int + 1));
                            assert(out@ =~= group_rows::<G>(*self, m1));
                        }
                    } else {
                        proof {
                            let m1 = matched_of(*self, ids, self.engine.alive@.take(k as int + 1));
                            assert(out@ =~= group_rows::<G>(*self, m1));
                        }
                    }
                },
                None => {
                    proof {
                        let m1 = matched_of(*self, ids, self.engine.alive@.take(k as int + 1));
                        assert(out@ =~= group_rows::<G>(*self, m1));
                    }
                },
            }
            k = k + 1;
        }
        proof {
            assert(self.engine.alive@.take(n as int) =~= self.engine.alive@);
        }
        out
    }

    /// Visits every entity holding component `A`, prefab templates
    /// excluded: returns, in storage order, each matched entity with its
    /// value of `A`.
    pub fn each1<A: Component>(&self) -> (r: Vec<(Entity, A)>)
        requires
            self.wf(),
            self.registered::<A>(),
        ensures
            ({
                let m = matched_of(
                    *self,
                    seq![self.typed_id(A::key_spec())->Some_0],
                    self.engine.alive@,
                );
                &&& r@.len() == m.len()
                &&& forall|j: int|
                    0 <= j < m.len() ==> r@[j].0.id == m[j] && Some(r@[j].1)
                        == self.typed_value::<A>(m[j])
            }),
    {
        let rows = self.each::<(A,)>();
        let ghost m = matched_of(
            *self,
            seq![self.typed_id(A::key_spec())->Some_0],
            self.engine.alive@,
        );
        proof {
            assert(<(A,) as ComponentGroup>::ids_spec(*self) =~= seq![
                self.typed_id(A::key_spec())->Some_0,
            ]);
            lemma_matched_of(*self, <(A,) as ComponentGroup>::ids_spec(*self), self.engine.alive@);
        }
        let mut out: Vec<(Entity, A)> = Vec::new();
        let n = rows.len();
        let mut rows = rows;
        let mut k: usize = 0;
        while k < n
            invariant
                k <= n,
                n == m.len(),
                rows@ == group_rows::<(A,)>(*self, m).skip(k as int),
                self.wf(),
                self.registered::<A>(),
                m == matched_of(*self, <(A,) as ComponentGroup>::ids_spec(*self), self.engine.alive@),
                forall|j: int|
                    0 <= j < m.len() ==> has_all(
                        *self,
                        #[trigger] m[j],
                        <(A,) as ComponentGroup>::ids_spec(*self),
                    ),
                out@.len() == k,
                forall|j: int|
                    0 <= j < k ==> out@[j].0.id == m[j] && Some(out@[j].1)
                        == self.typed_value::<A>(m[j]),
            decreases n - k,
        {
            let ghost full = group_rows::<(A,)>(*self, m);
            proof {
                assert(full.skip(k as int)[0] == full[k as int]);
            }
            let (ent, tup) = rows.remove(0);
            proof {
                assert(full.skip(k as int).remove(0) =~= full.skip(k as int + 1));
                <(A,) as ComponentGroup>::lemma_value_matches(*self, m[k as int]);
            }
            out.push((ent, tup.0));
            k = k + 1;
        }
        out
    }

    /// Visits every entity holding all components of the group `G`, prefab
    /// templates excluded, and stores, position by position, the tuple the
    /// callback returns for it.  Cells of unmatched entities and of other
    /// components are untouched.
    #[verifier::rlimit(100)]
    pub fn each_mut<G: ComponentGroup, F: Fn(Entity, G) -> G>(&mut self, f: F)
        requires
            old(self).wf(),
            G::registered_spec(*old(self)),
            forall|a: Entity, g: G| call_requires(f, (a, g)),
        ensures
            final(self).wf(),
            G::registered_spec(*final(self)),
            each_mut_post::<G, F>(*old(self), *final(self), f),
            final(self).engine.infos@ == old(self).engine.infos@,
            final(self).engine.alive@ == old(self).engine.alive@,
            final(self).engine.names@ == old(self).engine.names@,
            final(self).engine.next_id == old(self).engine.next_id,
            final(self).engine.quit_flag == old(self).engine.quit_flag,
            final(self).engine.delta == old(self).engine.delta,
            final(self).engine.systems@ == old(self).engine.systems@,
            final(self).typed@ == old(self).typed@,
            final(self).dynamics@ == old(self).dynamics@,
    {
        let ghost pre = *old(self);
        let ghost ids = G::ids_spec(pre);
        let ghost m = matched_of(pre, ids, pre.engine.alive@);
        let rows = self.each::<G>();
        proof {
            lemma_matched_of(pre, ids, pre.engine.alive@);
            assert forall|j: int| 0 <= j < m.len() implies has_all(pre, #[trigger] m[j], ids)
                && pre.engine.is_alive(m[j]) by {
                assert(matches_ids(pre, m[j], ids));
                assert(pre.engine.alive@.contains(m[j]));
            }
        }
        let n = rows.len();
        let mut rows = rows;
        let mut k: usize = 0;
        while k < n
            invariant
                k <= n,
                n == m.len(),
                rows@ == group_rows::<G>(pre, m).skip(k as int),
                forall|a: Entity, g: G| call_requires(f, (a, g)),
                pre.wf(),
                G::registered_spec(pre),
                ids == G::ids_spec(pre),
                m == matched_of(pre, ids, pre.engine.alive@),
                forall|i: int, j: int| 0 <= i < j < m.len() ==> m[i] != m[j],
                forall|j: int| 0 <= j < m.len() ==> has_all(pre, #[trigger] m[j], ids),
                forall|j: int| 0 <= j < m.len() ==> pre.engine.is_alive(#[trigger] m[j]),
                self.wf(),
                G::registered_spec(*self),
                G::ids_spec(*self) == ids,
                self.engine.infos@ == pre.engine.infos@,
                self.engine.alive@ == pre.engine.alive@,
                self.engine.names@ == pre.engine.names@,
                self.engine.next_id == pre.engine.next_id,
                self.engine.quit_flag == pre.engine.quit_flag,
                self.engine.delta == pre.engine.delta,
                self.engine.systems@ == pre.engine.systems@,
                self.typed@ == pre.typed@,
                self.dynamics@ == pre.dynamics@,
                forall|j: int| #![trigger m[j]]
                    0 <= j < k ==> exists|g2: G|
                        call_ensures(
                            f,
                            (Entity { id: m[j] }, G::value_spec(pre, m[j])->Some_0),
                            g2,
                        ) && G::value_spec(*self, m[j]) == Some(g2),
                forall|j: int, c: u64|
                    k <= j < m.len() && ids.contains(c) ==> #[trigger] self.engine.has_cell(
                        m[j],
                        c,
                    ) == pre.engine.has_cell(m[j], c),
                forall|j: int, c: u64|
                    k <= j < m.len() && ids.contains(c) && pre.engine.has_cell(m[j], c)
                        ==> #[trigger] self.engine.cell_bytes(m[j], c) == pre.engine.cell_bytes(
                        m[j],
                        c,
                    ),
                forall|e2: u64, c2: u64|
                    !(m.contains(e2) && ids.contains(c2)) ==> #[trigger] self.engine.has_cell(
                        e2,
                        c2,
                    ) == pre.engine.has_cell(e2, c2),
                forall|e2: u64, c2: u64|
                    !(m.contains(e2) && ids.contains(c2)) && pre.engine.has_cell(e2, c2)
                        ==> #[trigger] self.engine.cell_bytes(e2, c2) == pre.engine.cell_bytes(
                        e2,
                        c2,
                    ),
            decreases n - k,
        {
            let ghost full = group_rows::<G>(pre, m);
            proof {
                assert(full.skip(k as int)[0] == full[k as int]);
            }
            let (ent, g) = rows.remove(0);
            proof {
                assert(full.skip(k as int).remove(0) =~= full.skip(k as int + 1));
                G::lemma_value_matches(pre, m[k as int]);
                assert(ent.id == m[k as int]);
            }
            let ghost mid = *self;
            proof {
                assert(self.engine.is_alive(ent.id)) by {
                    assert(pre.engine.is_alive(m[k as int]));
                }
            }
            let g2 = f(ent, g);
            G::group_write(self, ent.id, g2);
            proof {
                assert(G::ids_spec(mid) == ids);
                assert(G::value_spec(*self, m[k as int]) == Some(g2));
                assert(call_ensures(f, (Entity { id: m[k as int] }, G::value_spec(pre, m[k as int])->Some_0), g2));
                assert forall|j: int| #![trigger m[j]]
                    0 <= j < k + 1 implies exists|g3: G|
                    call_ensures(
                        f,
                        (Entity { id: m[j] }, G::value_spec(pre, m[j])->Some_0),
                        g3,
                    ) && G::value_spec(*self, m[j]) == Some(g3) by {
                    if j < k {
                        assert(exists|g3: G|
                            call_ensures(
                                f,
                                (Entity { id: m[j] }, G::value_spec(pre, m[j])->Some_0),
                                g3,
                            ) && G::value_spec(mid, m[j]) == Some(g3));
                        let g3 = choose|g3: G|
                            call_ensures(
                                f,
                                (Entity { id: m[j] }, G::value_spec(pre, m[j])->Some_0),
                                g3,
                            ) && G::value_spec(mid, m[j]) == Some(g3);
                        assert forall|c: u64|
                            G::ids_spec(mid).contains(c) implies (#[trigger] self.engine.has_cell(
                            m[j],
                            c,
                        ) == mid.engine.has_cell(m[j], c) && (mid.engine.has_cell(m[j], c)
                            ==> self.engine.cell_bytes(m[j], c) == mid.engine.cell_bytes(
                            m[j],
                            c,
                        ))) by {
                            assert(m[j] != m[k as int]);
                        }
                        G::lemma_value_frame(mid, *self, m[j]);
                        assert(G::value_spec(*self, m[j]) == Some(g3));
                    }
                }
                assert forall|e2: u64, c2: u64|
                    !(e2 == ent.id && ids.contains(c2)) implies #[trigger] self.engine.has_cell(
                    e2,
                    c2,
                ) == mid.engine.has_cell(e2, c2) by {
                    assert(!(e2 == ent.id && G::ids_spec(mid).contains(c2)));
                }
                assert forall|e2: u64, c2: u64|
                    !(e2 == ent.id && ids.contains(c2)) && mid.engine.has_cell(e2, c2) implies #[trigger]
                self.engine.cell_bytes(e2, c2) == mid.engine.cell_bytes(e2, c2) by {
                    assert(!(e2 == ent.id && G::ids_spec(mid).contains(c2)));
                    assert(self.engine.has_cell(e2, c2) == mid.engine.has_cell(e2, c2));
                }
                lemma_iteration_frame(pre, mid, *self, m, ids, ent.id, k as int);
            }
            k = k + 1;
        }
        proof {
            assert forall|j: int|
                0 <= j < m.len() implies #[trigger] row_updated::<G, F>(pre, *self, f, j) by {
                assert(0 <= j < k);
                assert(matched_of(pre, G::ids_spec(pre), pre.engine.alive@) == m);
                assert(exists|g2: G|
                    call_ensures(
                        f,
                        (Entity { id: m[j] }, G::value_spec(pre, m[j])->Some_0),
                        g2,
                    ) && G::value_spec(*self, m[j]) == Some(g2));
            }
            assert(each_mut_post::<G, F>(pre, *self, f));
        }
    }
}

} // verus!
