//! Filter, query and system builders: construction objects that assemble an
//! engine-level descriptor — an ordered list of component ids — and the
//! built descriptors that drive iteration over matching entities.  A filter
//! is built and iterated; a query is the same descriptor kept around to be
//! iterated repeatedly; a system is a named descriptor registered with the
//! world so the engine's own scheduler can drive it.

use vstd::prelude::*;

use crate::component::Component;
use crate::engine::PREFAB_ID;
use crate::group::has_all;
use crate::group::matched_of;
use crate::group::matches_ids;
use crate::world::Entity;
use crate::world::World;

verus! {

/// Whether the entity holds a cell for every id of the list.
fn holds_all(w: &World, e: u64, ids: &Vec<u64>) -> (r: bool)
    requires
        w.wf(),
    ensures
        r == has_all(*w, e, ids@),
{
    let mut k: usize = 0;
    while k < ids.len()
        invariant
            w.wf(),
            k <= ids@.len(),
            forall|i: int| 0 <= i < k ==> w.engine.has_cell(e, #[trigger] ids@[i]),
        decreases ids@.len() - k,
    {
        let present = w.engine.read_cell(e, ids[k]);
        if present.is_none() {
            proof {
                assert(!w.engine.has_cell(e, ids@[k as int]));
            }
            return false;
        }
        k = k + 1;
    }
    true
}

/// The entities currently matching the id list: the live entities holding
/// every listed component, prefab templates excluded, in storage order.
fn matching_entities(w: &World, ids: &Vec<u64>) -> (r: Vec<Entity>)
    requires
        w.wf(),
    ensures
        ({
            let m = matched_of(*w, ids@, w.engine.alive@);
            &&& r@.len() == m.len()
            &&& forall|j: int| 0 <= j < m.len() ==> r@[j].id == #[trigger] m[j]
        }),
{
    let mut out: Vec<Entity> = Vec::new();
    let n = w.engine.alive.len();
    let mut k: usize = 0;
    while k < n
        invariant
            w.wf(),
            n == w.engine.alive@.len(),
            k <= n,
            ({
                let m = matched_of(*w, ids@, w.engine.alive@.take(k as int));
                &&& out@.len() == m.len()
                &&& forall|j: int| 0 <= j < m.len() ==> out@[j].id == #[trigger] m[j]
            }),
        decreases n - k,
    {
        let e = w.engine.alive[k];
        proof {
            let taken = w.engine.alive@.take(k as int + 1);
            assert(taken.drop_last() =~= w.engine.alive@.take(k as int));
            assert(taken.last() == e);
        }
        let tagged = w.engine.has_component(e, PREFAB_ID);
        if holds_all(w, e, ids) && !tagged {
            proof {
                assert(matches_ids(*w, e, ids@));
            }
            out.push(Entity { id: e });
        }
        k = k + 1;
    }
    proof {
        assert(w.engine.alive@.take(n as int) =~= w.engine.alive@);
    }
    out
}

/// A built engine-level filter descriptor: selects entities whose storage
/// includes every listed component id, in the order the builder gave them.
pub struct Filter {
    pub ids: Vec<u64>,
}

impl Filter {
    /// Builds the filter over a single component type.
    pub fn new_1<A: Component>(w: &World) -> (r: Filter)
        requires
            w.wf(),
            w.typed_id(A::key_spec()) is Some,
        ensures
            r.ids@ == seq![w.typed_id(A::key_spec())->Some_0],
    {
        let mut ids: Vec<u64> = Vec::new();
        ids.push(w.comp_of::<A>());
        proof {
            assert(ids@ =~= seq![w.typed_id(A::key_spec())->Some_0]);
        }
        Filter { ids }
    }

    /// The entities currently matching the filter, prefab templates
    /// excluded, in storage order.
    pub fn entities(&self, w: &World) -> (r: Vec<Entity>)
        requires
            w.wf(),
        ensures
            ({
                let m = matched_of(*w, self.ids@, w.engine.alive@);
                &&& r@.len() == m.len()
                &&& forall|j: int| 0 <= j < m.len() ==> r@[j].id == #[trigger] m[j]
            }),
    {
        matching_entities(w, &self.ids)
    }
}

/// A single-use construction object for a `Filter`: component ids are added
/// one by one, in the positional order the tuple interpretation will use.
pub struct FilterBuilder {
    pub ids: Vec<u64>,
}

impl FilterBuilder {
    /// An empty builder.
    pub fn empty() -> (r: FilterBuilder)
        ensures
            r.ids@ == Seq::<u64>::empty(),
    {
        FilterBuilder { ids: Vec::new() }
    }

    /// Appends a component id to the descriptor, returning the builder.
    pub fn with_id(self, comp: u64) -> (r: FilterBuilder)
        ensures
            r.ids@ == self.ids@.push(comp),
    {
        let mut ids = self.ids;
        ids.push(comp);
        FilterBuilder { ids }
    }

    /// Appends the component id of a registered type, returning the builder.
    pub fn with_component<T: Component>(self, w: &World) -> (r: FilterBuilder)
        requires
            w.wf(),
            w.typed_id(T::key_spec()) is Some,
        ensures
            r.ids@ == self.ids@.push(w.typed_id(T::key_spec())->Some_0),
    {
        let c = w.comp_of::<T>();
        self.with_id(c)
    }

    /// Builds the filter.
    pub fn build(self) -> (r: Filter)
        ensures
            r.ids@ == self.ids@,
    {
        Filter { ids: self.ids }
    }
}

/// A built query: the same descriptor as a filter, kept to be iterated
/// repeatedly across many calls, amortizing construction cost.
pub struct Query {
    pub ids: Vec<u64>,
}

impl Query {
    /// The entities currently matching the query, prefab templates
    /// excluded, in storage order.
    pub fn entities(&self, w: &World) -> (r: Vec<Entity>)
        requires
            w.wf(),
        ensures
            ({
                let m = matched_of(*w, self.ids@, w.engine.alive@);
                &&& r@.len() == m.len()
                &&& forall|j: int| 0 <= j < m.len() ==> r@[j].id == #[trigger] m[j]
            }),
    {
        matching_entities(w, &self.ids)
    }
}

/// A single-use construction object for a `Query`.
pub struct QueryBuilder {
    pub ids: Vec<u64>,
}

impl QueryBuilder {
    /// An empty builder.
    pub fn empty() -> (r: QueryBuilder)
        ensures
            r.ids@ == Seq::<u64>::empty(),
    {
        QueryBuilder { ids: Vec::new() }
    }

    /// Appends a component id to the descriptor, returning the builder.
    pub fn with_id(self, comp: u64) -> (r: QueryBuilder)
        ensures
            r.ids@ == self.ids@.push(comp),
    {
        let mut ids = self.ids;
        ids.push(comp);
        QueryBuilder { ids }
    }

    /// Appends the component id of a registered type, returning the builder.
    pub fn with_component<T: Component>(self, w: &World) -> (r: QueryBuilder)
        requires
            w.wf(),
            w.typed_id(T::key_spec()) is Some,
        ensures
            r.ids@ == self.ids@.push(w.typed_id(T::key_spec())->Some_0),
    {
        let c = w.comp_of::<T>();
        self.with_id(c)
    }

    /// Builds the query.
    pub fn build(self) -> (r: Query)
        ensures
            r.ids@ == self.ids@,
    {
        Query { ids: self.ids }
    }
}

/// A single-use construction object for a system: a name plus the ordered
/// component-id list the engine's scheduler needs to order systems safely.
pub struct SystemBuilder {
    pub label: Option<String>,
    pub ids: Vec<u64>,
}

impl SystemBuilder {
    /// An empty builder.
    pub fn empty() -> (r: SystemBuilder)
        ensures
            r.label is None,
            r.ids@ == Seq::<u64>::empty(),
    {
        SystemBuilder { label: None, ids: Vec::new() }
    }

    /// Names the system, returning the builder.
    pub fn named(self, text: &str) -> (r: SystemBuilder)
        ensures
            r.ids@ == self.ids@,
            r.label is Some && r.label->Some_0@ == text@,
    {
        SystemBuilder { label: Some(text.to_owned()), ids: self.ids }
    }

    /// Appends the component id of a registered type, returning the builder.
    pub fn with_component<T: Component>(self, w: &World) -> (r: SystemBuilder)
        requires
            w.wf(),
            w.typed_id(T::key_spec()) is Some,
        ensures
            r.label == self.label,
            r.ids@ == self.ids@.push(w.typed_id(T::key_spec())->Some_0),
    {
        let c = w.comp_of::<T>();
        let mut ids = self.ids;
        ids.push(c);
        SystemBuilder { label: self.label, ids }
    }

    /// Registers the system with the world: mints a system entity, names it
    /// if the builder holds a name, and hands the descriptor — the ordered
    /// component-id list — to the engine's scheduler.  Returns the system's
    /// entity id.
    pub fn build(self, w: &mut World) -> (r: u64)
        requires
            old(w).wf(),
            old(w).engine.next_id < u64::MAX,
        ensures
            final(w).wf(),
            r == old(w).engine.next_id,
            final(w).engine.next_id == old(w).engine.next_id + 1,
            final(w).engine.is_alive(r),
            forall|x: u64|
                final(w).engine.is_alive(x) <==> (old(w).engine.is_alive(x) || x == r),
            final(w).engine.systems@.len() == old(w).engine.systems@.len() + 1,
            final(w).engine.systems@.last().entity == r,
            final(w).engine.systems@.last().comps@ == self.ids@,
            forall|i: int|
                0 <= i < old(w).engine.systems@.len() ==> final(w).engine.systems@[i] == old(w).engine.systems@[i],
            final(w).engine.infos@ == old(w).engine.infos@,
            final(w).engine.cells@ == old(w).engine.cells@,
            final(w).engine.quit_flag == old(w).engine.quit_flag,
            final(w).engine.delta == old(w).engine.delta,
            final(w).typed@ == old(w).typed@,
            final(w).dynamics@ == old(w).dynamics@,
            self.label is Some ==> final(w).engine.named_entity(self.label->Some_0@) is Some,
            self.label is Some && old(w).engine.named_entity(self.label->Some_0@) is None ==> final(w).engine.named_entity(self.label->Some_0@) == Some(r),
    {
        let id = w.engine.new_id();
        w.engine.register_system(id, self.ids);
        let e = Entity { id };
        match self.label {
            Some(text) => {
                let e = e.named(w, text.as_str());
                e.id
            },
            None => e.id,
        }
    }
}

impl World {
    /// A builder for a named, schedulable system on this world.
    pub fn system(&self) -> (r: SystemBuilder)
        ensures
            r.label is None,
            r.ids@ == Seq::<u64>::empty(),
    {
        SystemBuilder::empty()
    }

    /// A builder for an engine-level filter descriptor.
    pub fn filter_builder(&self) -> (r: FilterBuilder)
        ensures
            r.ids@ == Seq::<u64>::empty(),
    {
        FilterBuilder::empty()
    }

    /// A builder for a reusable query.
    pub fn query(&self) -> (r: QueryBuilder)
        ensures
            r.ids@ == Seq::<u64>::empty(),
    {
        QueryBuilder::empty()
    }
}

} // verus!
