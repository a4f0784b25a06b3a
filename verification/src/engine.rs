//! The storage engine model: entity liveness, component metadata, and
//! per-(entity, component) byte cells.  Every operation of the engine
//! interface — minting ids, registering component layouts, attaching and
//! writing cells, name records, and the progress/quit flag — is stated and
//! proved here over mathematical views of the underlying vectors.

use vstd::prelude::*;

verus! {

/// The component id reserved for the prefab marker: entities carrying it are
/// templates, excluded from normal iteration by convention.
pub const PREFAB_ID: u64 = 1;

/// Metadata recorded for one registered component id.
pub struct CompInfo {
    pub id: u64,
    pub size: usize,
    pub align: usize,
}

/// One storage cell: the bytes of one component on one entity.
pub struct StorageCell {
    pub entity: u64,
    pub comp: u64,
    pub bytes: Vec<u8>,
}

/// A name record: the entity that carries the name, and the name itself.
pub struct NameEntry {
    pub entity: u64,
    pub text: String,
}

/// No two entries of `infos` register the same component id.
pub open spec fn infos_unique(infos: Seq<CompInfo>) -> bool {
    forall|i: int, j: int| 0 <= i < j < infos.len() ==> infos[i].id != infos[j].id
}

/// No two cells share the same (entity, component) key.
pub open spec fn cells_unique(cells: Seq<StorageCell>) -> bool {
    forall|i: int, j: int|
        0 <= i < j < cells.len() ==> !(cells[i].entity == cells[j].entity && cells[i].comp
            == cells[j].comp)
}

/// Whether some entry of `infos` registers component id `c`.
pub open spec fn registered_in(infos: Seq<CompInfo>, c: u64) -> bool {
    exists|i: int| 0 <= i < infos.len() && infos[i].id == c
}

/// The index of the entry registering `c`; meaningful when ids are unique.
pub open spec fn info_at(infos: Seq<CompInfo>, c: u64) -> int {
    choose|i: int| 0 <= i < infos.len() && infos[i].id == c
}

/// Whether a cell for `(e, c)` is present.
pub open spec fn cell_in(cells: Seq<StorageCell>, e: u64, c: u64) -> bool {
    exists|i: int| 0 <= i < cells.len() && cells[i].entity == e && cells[i].comp == c
}

/// The index of the cell for `(e, c)`; meaningful when cell keys are unique.
pub open spec fn cell_at(cells: Seq<StorageCell>, e: u64, c: u64) -> int {
    choose|i: int| 0 <= i < cells.len() && cells[i].entity == e && cells[i].comp == c
}

/// The entity named `n` that stands earliest in the name records, if any.
pub open spec fn first_named(names: Seq<NameEntry>, n: Seq<char>) -> Option<u64>
    decreases names.len(),
{
    if names.len() == 0 {
        None
    } else if names[0].text@ == n {
        Some(names[0].entity)
    } else {
        first_named(names.drop_first(), n)
    }
}

/// If no record among the first `i` carries the name, the first match of the
/// whole sequence is the first match of the remainder.
pub proof fn lemma_first_named_skip(names: Seq<NameEntry>, n: Seq<char>, i: int)
    requires
        0 <= i <= names.len(),
        forall|j: int| 0 <= j < i ==> names[j].text@ != n,
    ensures
        first_named(names, n) == first_named(names.skip(i), n),
    decreases i,
{
    if i > 0 {
        assert(names.drop_first() == names.skip(1));
        assert forall|j: int| 0 <= j < i - 1 implies names.drop_first()[j].text@ != n by {
            assert(names.drop_first()[j] == names[j + 1]);
        }
        lemma_first_named_skip(names.drop_first(), n, i - 1);
        assert(names.drop_first().skip(i - 1) =~= names.skip(i));
    } else {
        assert(names.skip(0) =~= names);
    }
}

/// If exactly one record carries the name, the name resolves to that
/// record's entity.
pub proof fn lemma_first_named_unique(names: Seq<NameEntry>, n: Seq<char>, i: int)
    requires
        0 <= i < names.len(),
        names[i].text@ == n,
        forall|j: int| 0 <= j < names.len() && j != i ==> names[j].text@ != n,
    ensures
        first_named(names, n) == Some(names[i].entity),
    decreases i,
{
    if i > 0 {
        assert(names[0].text@ != n);
        assert forall|j: int|
            0 <= j < names.drop_first().len() && j != i - 1 implies names.drop_first()[j].text@
            != n by {
            assert(names.drop_first()[j] == names[j + 1]);
        }
        assert(names.drop_first()[i - 1] == names[i]);
        lemma_first_named_unique(names.drop_first(), n, i - 1);
    }
}

/// If some record carries the name, the name resolves to an entity.
pub proof fn lemma_first_named_some(names: Seq<NameEntry>, n: Seq<char>, i: int)
    requires
        0 <= i < names.len(),
        names[i].text@ == n,
    ensures
        first_named(names, n) is Some,
    decreases i,
{
    if names[0].text@ != n {
        assert(names.drop_first()[i - 1] == names[i]);
        lemma_first_named_some(names.drop_first(), n, i - 1);
    }
}

/// A zero-filled byte vector of the given length.
pub fn zero_bytes(n: usize) -> (r: Vec<u8>)
    ensures
        r@ == Seq::new(n as nat, |i: int| 0u8),
{
    let mut r: Vec<u8> = Vec::new();
    let mut k: usize = 0;
    while k < n
        invariant
            k <= n,
            r@ == Seq::new(k as nat, |i: int| 0u8),
        decreases n - k,
    {
        r.push(0u8);
        k = k + 1;
        proof {
            assert(r@ =~= Seq::new(k as nat, |i: int| 0u8));
        }
    }
    r
}

/// A system descriptor handed to the engine's scheduler: the system's own
/// entity id and the ordered component-id list it reads and writes.
pub struct SystemRecord {
    pub entity: u64,
    pub comps: Vec<u64>,
}

/// The storage engine: mints entity and component ids from one counter,
/// keeps component metadata, per-(entity, component) byte cells, name
/// records, the system descriptors handed to its scheduler, and the quit
/// flag driven by `progress`/`quit`.
pub struct Engine {
    pub next_id: u64,
    pub alive: Vec<u64>,
    pub infos: Vec<CompInfo>,
    pub cells: Vec<StorageCell>,
    pub names: Vec<NameEntry>,
    pub systems: Vec<SystemRecord>,
    pub quit_flag: bool,
    pub delta: u64,
}

impl Engine {
    /// Component id `c` has been registered.
    pub open spec fn comp_registered(self, c: u64) -> bool {
        registered_in(self.infos@, c)
    }

    /// The registered byte size of component `c`.
    pub open spec fn comp_size(self, c: u64) -> usize {
        self.infos@[info_at(self.infos@, c)].size
    }

    /// The registered alignment of component `c`.
    pub open spec fn comp_align(self, c: u64) -> usize {
        self.infos@[info_at(self.infos@, c)].align
    }

    /// Entity `e` currently names live storage.
    pub open spec fn is_alive(self, e: u64) -> bool {
        self.alive@.contains(e)
    }

    /// Entity `e` currently holds a cell for component `c`.
    pub open spec fn has_cell(self, e: u64, c: u64) -> bool {
        cell_in(self.cells@, e, c)
    }

    /// The bytes stored for component `c` on entity `e`.
    pub open spec fn cell_bytes(self, e: u64, c: u64) -> Seq<u8> {
        self.cells@[cell_at(self.cells@, e, c)].bytes@
    }

    /// The entity a name resolves to, if any record carries it.
    pub open spec fn named_entity(self, n: Seq<char>) -> Option<u64> {
        first_named(self.names@, n)
    }

    /// Well-formedness: ids are unique and below the mint counter, cell keys
    /// are unique, every cell belongs to a registered component and holds
    /// exactly its registered size, every registered component id is itself
    /// a live entity, each entity has at most one name record, and the
    /// prefab marker is registered as a zero-sized tag.
    pub open spec fn wf(self) -> bool {
        &&& infos_unique(self.infos@)
        &&& forall|i: int|
            0 <= i < self.infos@.len() ==> 1 <= #[trigger] self.infos@[i].id < self.next_id
        &&& cells_unique(self.cells@)
        &&& forall|i: int|
            0 <= i < self.cells@.len() ==> self.comp_registered(#[trigger] self.cells@[i].comp)
                && self.cells@[i].bytes@.len() == self.comp_size(self.cells@[i].comp)
        &&& forall|i: int|
            0 <= i < self.alive@.len() ==> 1 <= #[trigger] self.alive@[i] < self.next_id
        &&& forall|i: int, j: int|
            0 <= i < j < self.alive@.len() ==> self.alive@[i] != self.alive@[j]
        &&& forall|i: int|
            0 <= i < self.infos@.len() ==> self.is_alive(#[trigger] self.infos@[i].id)
        &&& forall|i: int, j: int|
            0 <= i < j < self.names@.len() ==> self.names@[i].entity != self.names@[j].entity
        &&& self.comp_registered(PREFAB_ID)
        &&& self.comp_size(PREFAB_ID) == 0
        &&& 2 <= self.next_id
    }

    /// Any index whose entry registers `c` is the index `info_at` denotes.
    pub proof fn lemma_info_at(self, c: u64, i: int)
        requires
            infos_unique(self.infos@),
            0 <= i < self.infos@.len(),
            self.infos@[i].id == c,
        ensures
            self.comp_registered(c),
            info_at(self.infos@, c) == i,
            self.comp_size(c) == self.infos@[i].size,
            self.comp_align(c) == self.infos@[i].align,
    {
        assert(registered_in(self.infos@, c));
        let k = info_at(self.infos@, c);
        assert(0 <= k < self.infos@.len() && self.infos@[k].id == c);
        if k < i {
            assert(self.infos@[k].id != self.infos@[i].id);
        } else if i < k {
            assert(self.infos@[i].id != self.infos@[k].id);
        }
    }

    /// The index `info_at` denotes is a real entry registering `c`.
    pub proof fn lemma_comp_registered(self, c: u64)
        requires
            infos_unique(self.infos@),
            self.comp_registered(c),
        ensures
            0 <= info_at(self.infos@, c) < self.infos@.len(),
            self.infos@[info_at(self.infos@, c)].id == c,
    {
        let k = choose|i: int| 0 <= i < self.infos@.len() && self.infos@[i].id == c;
        assert(0 <= k < self.infos@.len() && self.infos@[k].id == c);
        self.lemma_info_at(c, k);
    }

    /// Any index whose cell is keyed `(e, c)` is the index `cell_at` denotes.
    pub proof fn lemma_cell_at(self, e: u64, c: u64, i: int)
        requires
            cells_unique(self.cells@),
            0 <= i < self.cells@.len(),
            self.cells@[i].entity == e,
            self.cells@[i].comp == c,
        ensures
            self.has_cell(e, c),
            cell_at(self.cells@, e, c) == i,
            self.cell_bytes(e, c) == self.cells@[i].bytes@,
    {
        assert(cell_in(self.cells@, e, c));
        let k = cell_at(self.cells@, e, c);
        assert(0 <= k < self.cells@.len() && self.cells@[k].entity == e && self.cells@[k].comp == c);
        if k < i {
            assert(!(self.cells@[k].entity == self.cells@[i].entity
                && self.cells@[k].comp == self.cells@[i].comp));
        } else if i < k {
            assert(!(self.cells@[i].entity == self.cells@[k].entity
                && self.cells@[i].comp == self.cells@[k].comp));
        }
    }

    /// The index `cell_at` denotes is a real cell keyed `(e, c)`.
    pub proof fn lemma_has_cell(self, e: u64, c: u64)
        requires
            self.wf(),
            self.has_cell(e, c),
        ensures
            0 <= cell_at(self.cells@, e, c) < self.cells@.len(),
            self.cells@[cell_at(self.cells@, e, c)].entity == e,
            self.cells@[cell_at(self.cells@, e, c)].comp == c,
            self.cell_bytes(e, c).len() == self.comp_size(c),
            self.comp_registered(c),
    {
        let k = choose|i: int|
            0 <= i < self.cells@.len() && self.cells@[i].entity == e && self.cells@[i].comp == c;
        assert(0 <= k < self.cells@.len() && self.cells@[k].entity == e && self.cells@[k].comp == c);
        self.lemma_cell_at(e, c, k);
    }

    /// A fresh engine: empty storage, no quit signal, and the prefab marker
    /// pre-registered as a zero-sized tag on a live builtin entity.
    pub fn init() -> (e: Engine)
        ensures
            e.wf(),
            e.next_id == 2,
            e.comp_registered(PREFAB_ID),
            e.comp_size(PREFAB_ID) == 0,
            e.cells@.len() == 0,
            e.names@.len() == 0,
            e.systems@.len() == 0,
            !e.quit_flag,
            e.delta == 0,
            forall|x: u64| e.is_alive(x) <==> x == PREFAB_ID,
            forall|c: u64| e.comp_registered(c) ==> c == PREFAB_ID,
    {
        let mut alive: Vec<u64> = Vec::new();
        alive.push(PREFAB_ID);
        let mut infos: Vec<CompInfo> = Vec::new();
        infos.push(CompInfo { id: PREFAB_ID, size: 0, align: 1 });
        let e = Engine {
            next_id: 2,
            alive,
            infos,
            cells: Vec::new(),
            names: Vec::new(),
            systems: Vec::new(),
            quit_flag: false,
            delta: 0,
        };
        proof {
            assert(e.infos@[0].id == PREFAB_ID);
            assert(registered_in(e.infos@, PREFAB_ID));
            e.lemma_info_at(PREFAB_ID, 0);
            assert forall|x: u64| e.is_alive(x) implies x == PREFAB_ID by {
                let i = choose|i: int| 0 <= i < e.alive@.len() && e.alive@[i] == x;
                assert(e.alive@[0] == PREFAB_ID);
            }
            assert(e.is_alive(PREFAB_ID)) by {
                assert(e.alive@[0] == PREFAB_ID);
            }
            assert forall|c: u64| e.comp_registered(c) implies c == PREFAB_ID by {
                let i = choose|i: int| 0 <= i < e.infos@.len() && e.infos@[i].id == c;
            }
        }
        e
    }

    /// Mints a fresh entity id and marks it live.
    pub fn new_id(&mut self) -> (r: u64)
        requires
            old(self).wf(),
            old(self).next_id < u64::MAX,
        ensures
            final(self).wf(),
            r == old(self).next_id,
            final(self).next_id == old(self).next_id + 1,
            final(self).is_alive(r),
            !old(self).is_alive(r),
            forall|x: u64| final(self).is_alive(x) <==> (old(self).is_alive(x) || x == r),
            final(self).infos@ == old(self).infos@,
            final(self).cells@ == old(self).cells@,
            final(self).names@ == old(self).names@,
            final(self).quit_flag == old(self).quit_flag,
            final(self).delta == old(self).delta,
            final(self).systems@ == old(self).systems@,
    {
        let r = self.next_id;
        self.alive.push(r);
        self.next_id = self.next_id + 1;
        proof {
            let n = self.alive@.len() - 1;
            assert(self.alive@[n] == r);
            assert(self.is_alive(r));
            if old(self).is_alive(r) {
                let i = choose|i: int|
                    0 <= i < old(self).alive@.len() && old(self).alive@[i] == r;
                assert(old(self).alive@[i] < r);
            }
            assert forall|x: u64| final(self).is_alive(x) implies (old(self).is_alive(x) || x
                == r) by {
                let i = choose|i: int|
                    0 <= i < final(self).alive@.len() && final(self).alive@[i] == x;
                if i < n {
                    assert(old(self).alive@[i] == x);
                }
            }
            assert forall|x: u64| old(self).is_alive(x) implies final(self).is_alive(x) by {
                let i = choose|i: int|
                    0 <= i < old(self).alive@.len() && old(self).alive@[i] == x;
                assert(final(self).alive@[i] == x);
            }
        }
        r
    }

    /// Whether an id currently names live storage.
    pub fn is_valid(&self, e: u64) -> (r: bool)
        ensures
            r == self.is_alive(e),
    {
        let mut k: usize = 0;
        while k < self.alive.len()
            invariant
                k <= self.alive@.len(),
                forall|i: int| 0 <= i < k ==> self.alive@[i] != e,
            decreases self.alive@.len() - k,
        {
            if self.alive[k] == e {
                return true;
            }
            k = k + 1;
        }
        proof {
            if self.is_alive(e) {
                let i = choose|i: int| 0 <= i < self.alive@.len() && self.alive@[i] == e;
            }
        }
        false
    }

    /// Mints a fresh component id sized and aligned as given.  The component
    /// id is itself a live entity.
    pub fn new_component(&mut self, size: usize, align: usize) -> (r: u64)
        requires
            old(self).wf(),
            old(self).next_id < u64::MAX,
        ensures
            final(self).wf(),
            r == old(self).next_id,
            final(self).next_id == old(self).next_id + 1,
            !old(self).comp_registered(r),
            final(self).comp_registered(r),
            final(self).comp_size(r) == size,
            final(self).comp_align(r) == align,
            forall|c: u64|
                old(self).comp_registered(c) ==> final(self).comp_registered(c)
                    && final(self).comp_size(c) == old(self).comp_size(c)
                    && final(self).comp_align(c) == old(self).comp_align(c),
            forall|c: u64|
                final(self).comp_registered(c) <==> (old(self).comp_registered(c) || c == r),
            final(self).cells@ == old(self).cells@,
            final(self).names@ == old(self).names@,
            final(self).quit_flag == old(self).quit_flag,
            final(self).delta == old(self).delta,
            final(self).systems@ == old(self).systems@,
            forall|x: u64| final(self).is_alive(x) <==> (old(self).is_alive(x) || x == r),
    {
        let r = self.next_id;
        self.alive.push(r);
        self.infos.push(CompInfo { id: r, size, align });
        self.next_id = self.next_id + 1;
        proof {
            let n = self.infos@.len() - 1;
            assert(self.infos@[n].id == r);
            if old(self).comp_registered(r) {
                let i = choose|i: int|
                    0 <= i < old(self).infos@.len() && old(self).infos@[i].id == r;
                assert(old(self).infos@[i].id < r);
            }
            assert forall|i: int, j: int|
                0 <= i < j < self.infos@.len() implies self.infos@[i].id != self.infos@[j].id by {
                if j < n {
                    assert(old(self).infos@[i].id != old(self).infos@[j].id);
                } else {
                    assert(old(self).infos@[i].id < r);
                }
            }
            self.lemma_info_at(r, n);
            assert forall|c: u64|
                old(self).comp_registered(c) implies final(self).comp_registered(c)
                && final(self).comp_size(c) == old(self).comp_size(c)
                && final(self).comp_align(c) == old(self).comp_align(c) by {
                let i = choose|i: int|
                    0 <= i < old(self).infos@.len() && old(self).infos@[i].id == c;
                assert(final(self).infos@[i].id == c);
                final(self).lemma_info_at(c, i);
                old(self).lemma_info_at(c, i);
            }
            assert forall|c: u64|
                final(self).comp_registered(c) implies (old(self).comp_registered(c) || c
                == r) by {
                let i = choose|i: int|
                    0 <= i < final(self).infos@.len() && final(self).infos@[i].id == c;
                if i < n {
                    assert(old(self).infos@[i].id == c);
                }
            }
            let m = self.alive@.len() - 1;
            assert(self.alive@[m] == r);
            assert forall|x: u64| final(self).is_alive(x) implies (old(self).is_alive(x) || x
                == r) by {
                let i = choose|i: int|
                    0 <= i < final(self).alive@.len() && final(self).alive@[i] == x;
                if i < m {
                    assert(old(self).alive@[i] == x);
                }
            }
            assert forall|x: u64| old(self).is_alive(x) implies final(self).is_alive(x) by {
                let i = choose|i: int|
                    0 <= i < old(self).alive@.len() && old(self).alive@[i] == x;
                assert(final(self).alive@[i] == x);
            }
            old(self).lemma_comp_registered(PREFAB_ID);
        }
        r
    }

    /// The registered size and alignment of a component id, if registered.
    pub fn component_info(&self, c: u64) -> (r: Option<(usize, usize)>)
        requires
            self.wf(),
        ensures
            r == if self.comp_registered(c) {
                Some((self.comp_size(c), self.comp_align(c)))
            } else {
                Option::<(usize, usize)>::None
            },
    {
        let mut k: usize = 0;
        while k < self.infos.len()
            invariant
                self.wf(),
                k <= self.infos@.len(),
                forall|i: int| 0 <= i < k ==> self.infos@[i].id != c,
            decreases self.infos@.len() - k,
        {
            if self.infos[k].id == c {
                proof {
                    self.lemma_info_at(c, k as int);
                }
                return Some((self.infos[k].size, self.infos[k].align));
            }
            k = k + 1;
        }
        proof {
            if self.comp_registered(c) {
                let i = choose|i: int| 0 <= i < self.infos@.len() && self.infos@[i].id == c;
            }
        }
        None
    }

    /// The position of the cell for `(e, c)` in storage, if present.
    fn find_cell(&self, e: u64, c: u64) -> (r: Option<usize>)
        requires
            self.wf(),
        ensures
            r is Some ==> self.has_cell(e, c) && r->Some_0 == cell_at(self.cells@, e, c)
                && r->Some_0 < self.cells@.len(),
            r is None ==> !self.has_cell(e, c),
    {
        let mut k: usize = 0;
        while k < self.cells.len()
            invariant
                self.wf(),
                k <= self.cells@.len(),
                forall|i: int|
                    0 <= i < k ==> !(self.cells@[i].entity == e && self.cells@[i].comp == c),
            decreases self.cells@.len() - k,
        {
            if self.cells[k].entity == e && self.cells[k].comp == c {
                proof {
                    self.lemma_cell_at(e, c, k as int);
                }
                return Some(k);
            }
            k = k + 1;
        }
        proof {
            if self.has_cell(e, c) {
                let i = choose|i: int|
                    0 <= i < self.cells@.len() && self.cells@[i].entity == e && self.cells@[i].comp
                        == c;
            }
        }
        None
    }

    /// Attaches component `c` to entity `e`: creates a zero-filled cell of
    /// the registered size if none is present, and otherwise leaves the
    /// existing cell as it stands.
    pub fn attach(&mut self, e: u64, c: u64)
        requires
            old(self).wf(),
            old(self).comp_registered(c),
        ensures
            final(self).wf(),
            final(self).has_cell(e, c),
            final(self).cell_bytes(e, c) == if old(self).has_cell(e, c) {
                old(self).cell_bytes(e, c)
            } else {
                Seq::new(old(self).comp_size(c) as nat, |i: int| 0u8)
            },
            forall|e2: u64, c2: u64|
                !(e2 == e && c2 == c) ==> #[trigger] final(self).has_cell(e2, c2) == old(self).has_cell(e2, c2),
            forall|e2: u64, c2: u64|
                !(e2 == e && c2 == c) && old(self).has_cell(e2, c2) ==> #[trigger] final(self).cell_bytes(e2, c2) == old(self).cell_bytes(e2, c2),
            final(self).infos@ == old(self).infos@,
            final(self).alive@ == old(self).alive@,
            final(self).names@ == old(self).names@,
            final(self).next_id == old(self).next_id,
            final(self).quit_flag == old(self).quit_flag,
            final(self).delta == old(self).delta,
            final(self).systems@ == old(self).systems@,
    {
        let found = self.find_cell(e, c);
        match found {
            Some(_) => {
                proof {
                    old(self).lemma_has_cell(e, c);
                }
            },
            None => {
                proof {
                    self.lemma_comp_registered(c);
                }
                let info = self.component_info(c);
                let size = match info {
                    Some((s, _)) => s,
                    None => 0,
                };
                let bytes = zero_bytes(size);
                self.cells.push(StorageCell { entity: e, comp: c, bytes });
                proof {
                    let n = self.cells@.len() - 1;
                    assert forall|i: int, j: int|
                        0 <= i < j < self.cells@.len() implies !(self.cells@[i].entity
                        == self.cells@[j].entity && self.cells@[i].comp
                        == self.cells@[j].comp) by {
                        if j < n {
                            assert(!(old(self).cells@[i].entity == old(self).cells@[j].entity
                                && old(self).cells@[i].comp == old(self).cells@[j].comp));
                        } else {
                            assert(!(old(self).cells@[i].entity == e && old(self).cells@[i].comp
                                == c));
                        }
                    }
                    self.lemma_cell_at(e, c, n);
                    assert forall|e2: u64, c2: u64|
                        !(e2 == e && c2 == c) implies #[trigger] final(self).has_cell(e2, c2)
                        == old(self).has_cell(e2, c2) by {
                        if old(self).has_cell(e2, c2) {
                            let i = choose|i: int|
                                0 <= i < old(self).cells@.len() && old(self).cells@[i].entity == e2
                                    && old(self).cells@[i].comp == c2;
                            assert(final(self).cells@[i].entity == e2);
                        }
                        if final(self).has_cell(e2, c2) {
                            let i = choose|i: int|
                                0 <= i < final(self).cells@.len() && final(self).cells@[i].entity
                                    == e2 && final(self).cells@[i].comp == c2;
                            assert(i < n);
                            assert(old(self).cells@[i].entity == e2);
                        }
                    }
                    assert forall|e2: u64, c2: u64|
                        !(e2 == e && c2 == c) && old(self).has_cell(e2, c2) implies #[trigger]
                    final(self).cell_bytes(e2, c2) == old(self).cell_bytes(e2, c2) by {
                        let i = choose|i: int|
                            0 <= i < old(self).cells@.len() && old(self).cells@[i].entity == e2
                                && old(self).cells@[i].comp == c2;
                        old(self).lemma_cell_at(e2, c2, i);
                        final(self).lemma_cell_at(e2, c2, i);
                    }
                }
            },
        }
    }

    /// Overwrites the cell for `(e, c)` with the given bytes, attaching the
    /// cell first if absent.  The bytes must be exactly the registered size.
    pub fn write_cell(&mut self, e: u64, c: u64, data: &[u8])
        requires
            old(self).wf(),
            old(self).comp_registered(c),
            data@.len() == old(self).comp_size(c),
        ensures
            final(self).wf(),
            final(self).has_cell(e, c),
            final(self).cell_bytes(e, c) == data@,
            forall|e2: u64, c2: u64|
                !(e2 == e && c2 == c) ==> #[trigger] final(self).has_cell(e2, c2) == old(self).has_cell(e2, c2),
            forall|e2: u64, c2: u64|
                !(e2 == e && c2 == c) && old(self).has_cell(e2, c2) ==> #[trigger] final(self).cell_bytes(e2, c2) == old(self).cell_bytes(e2, c2),
            final(self).infos@ == old(self).infos@,
            final(self).alive@ == old(self).alive@,
            final(self).names@ == old(self).names@,
            final(self).next_id == old(self).next_id,
            final(self).quit_flag == old(self).quit_flag,
            final(self).delta == old(self).delta,
            final(self).systems@ == old(self).systems@,
    {
        let found = self.find_cell(e, c);
        let bytes = vstd::slice::slice_to_vec(data);
        match found {
            Some(k) => {
                proof {
                    old(self).lemma_has_cell(e, c);
                }
                self.cells[k] = StorageCell { entity: e, comp: c, bytes };
                proof {
                    let ghost k = k as int;
                    assert forall|i: int, j: int|
                        0 <= i < j < self.cells@.len() implies !(self.cells@[i].entity
                        == self.cells@[j].entity && self.cells@[i].comp
                        == self.cells@[j].comp) by {
                        if i != k && j != k {
                            assert(!(old(self).cells@[i].entity == old(self).cells@[j].entity
                                && old(self).cells@[i].comp == old(self).cells@[j].comp));
                        } else if i == k {
                            assert(!(old(self).cells@[k].entity == old(self).cells@[j].entity
                                && old(self).cells@[k].comp == old(self).cells@[j].comp));
                        } else {
                            assert(!(old(self).cells@[i].entity == old(self).cells@[k].entity
                                && old(self).cells@[i].comp == old(self).cells@[k].comp));
                        }
                    }
                    self.lemma_cell_at(e, c, k);
                    assert forall|i: int|
                        0 <= i < self.cells@.len() implies self.comp_registered(
                        #[trigger] self.cells@[i].comp,
                    ) && self.cells@[i].bytes@.len() == self.comp_size(self.cells@[i].comp) by {
                        if i != k {
                            assert(old(self).cells@[i].comp == self.cells@[i].comp);
                        }
                    }
                    assert forall|e2: u64, c2: u64|
                        !(e2 == e && c2 == c) implies #[trigger] final(self).has_cell(e2, c2)
                        == old(self).has_cell(e2, c2) by {
                        if old(self).has_cell(e2, c2) {
                            let i = choose|i: int|
                                0 <= i < old(self).cells@.len() && old(self).cells@[i].entity == e2
                                    && old(self).cells@[i].comp == c2;
                            assert(i != k);
                            assert(final(self).cells@[i].entity == e2);
                        }
                        if final(self).has_cell(e2, c2) {
                            let i = choose|i: int|
                                0 <= i < final(self).cells@.len() && final(self).cells@[i].entity
                                    == e2 && final(self).cells@[i].comp == c2;
                            assert(i != k);
                            assert(old(self).cells@[i].entity == e2);
                        }
                    }
                    assert forall|e2: u64, c2: u64|
                        !(e2 == e && c2 == c) && old(self).has_cell(e2, c2) implies #[trigger]
                    final(self).cell_bytes(e2, c2) == old(self).cell_bytes(e2, c2) by {
                        let i = choose|i: int|
                            0 <= i < old(self).cells@.len() && old(self).cells@[i].entity == e2
                                && old(self).cells@[i].comp == c2;
                        assert(i != k);
                        old(self).lemma_cell_at(e2, c2, i);
                        final(self).lemma_cell_at(e2, c2, i);
                    }
                }
            },
            None => {
                self.cells.push(StorageCell { entity: e, comp: c, bytes });
                proof {
                    let n = self.cells@.len() - 1;
                    assert forall|i: int, j: int|
                        0 <= i < j < self.cells@.len() implies !(self.cells@[i].entity
                        == self.cells@[j].entity && self.cells@[i].comp
                        == self.cells@[j].comp) by {
                        if j < n {
                            assert(!(old(self).cells@[i].entity == old(self).cells@[j].entity
                                && old(self).cells@[i].comp == old(self).cells@[j].comp));
                        } else {
                            assert(!(old(self).cells@[i].entity == e && old(self).cells@[i].comp
                                == c));
                        }
                    }
                    self.lemma_cell_at(e, c, n);
                    assert forall|e2: u64, c2: u64|
                        !(e2 == e && c2 == c) implies #[trigger] final(self).has_cell(e2, c2)
                        == old(self).has_cell(e2, c2) by {
                        if old(self).has_cell(e2, c2) {
                            let i = choose|i: int|
                                0 <= i < old(self).cells@.len() && old(self).cells@[i].entity == e2
                                    && old(self).cells@[i].comp == c2;
                            assert(final(self).cells@[i].entity == e2);
                        }
                        if final(self).has_cell(e2, c2) {
                            let i = choose|i: int|
                                0 <= i < final(self).cells@.len() && final(self).cells@[i].entity
                                    == e2 && final(self).cells@[i].comp == c2;
                            assert(i < n);
                            assert(old(self).cells@[i].entity == e2);
                        }
                    }
                    assert forall|e2: u64, c2: u64|
                        !(e2 == e && c2 == c) && old(self).has_cell(e2, c2) implies #[trigger]
                    final(self).cell_bytes(e2, c2) == old(self).cell_bytes(e2, c2) by {
                        let i = choose|i: int|
                            0 <= i < old(self).cells@.len() && old(self).cells@[i].entity == e2
                                && old(self).cells@[i].comp == c2;
                        old(self).lemma_cell_at(e2, c2, i);
                        final(self).lemma_cell_at(e2, c2, i);
                    }
                }
            },
        }
    }

    /// The bytes currently stored for `(e, c)`, if a cell is present.
    pub fn read_cell(&self, e: u64, c: u64) -> (r: Option<Vec<u8>>)
        requires
            self.wf(),
        ensures
            r is Some <==> self.has_cell(e, c),
            r is Some ==> r->Some_0@ == self.cell_bytes(e, c),
    {
        let found = self.find_cell(e, c);
        match found {
            Some(k) => {
                let bytes = vstd::slice::slice_to_vec(self.cells[k].bytes.as_slice());
                Some(bytes)
            },
            None => None,
        }
    }

    /// Records a name for an entity: updates the entity's record in place if
    /// it has one, and otherwise appends a new record.  Every other entity's
    /// record is untouched, so a name that was unbound before now resolves to
    /// exactly this entity.
    pub fn set_name(&mut self, e: u64, text: String)
        requires
            old(self).wf(),
        ensures
            final(self).wf(),
            final(self).infos@ == old(self).infos@,
            final(self).cells@ == old(self).cells@,
            final(self).alive@ == old(self).alive@,
            final(self).next_id == old(self).next_id,
            final(self).quit_flag == old(self).quit_flag,
            final(self).delta == old(self).delta,
            final(self).systems@ == old(self).systems@,
            old(self).names@.len() <= final(self).names@.len() <= old(self).names@.len() + 1,
            forall|i: int|
                0 <= i < old(self).names@.len() && old(self).names@[i].entity != e ==> final(self).names@[i] == old(self).names@[i],
            forall|i: int|
                0 <= i < final(self).names@.len() && #[trigger] final(self).names@[i].entity == e
                    ==> final(self).names@[i].text@ == text@,
            exists|i: int|
                0 <= i < final(self).names@.len() && #[trigger] final(self).names@[i].entity == e
                    && final(self).names@[i].text@ == text@,
            old(self).named_entity(text@) is None ==> final(self).named_entity(text@) == Some(e),
    {
        let mut k: usize = 0;
        while k < self.names.len()
            invariant
                self.wf(),
                *self == *old(self),
                k <= self.names@.len(),
                forall|j: int| 0 <= j < k ==> self.names@[j].entity != e,
            decreases self.names@.len() - k,
        {
            if self.names[k].entity == e {
                self.names[k] = NameEntry { entity: e, text };
                proof {
                    let ki = k as int;
                    assert(final(self).names@[ki].entity == e);
                    assert forall|i: int, j: int|
                        0 <= i < j < self.names@.len() implies self.names@[i].entity
                        != self.names@[j].entity by {
                        if i != ki && j != ki {
                            assert(old(self).names@[i].entity != old(self).names@[j].entity);
                        } else if i == ki {
                            assert(old(self).names@[ki].entity != old(self).names@[j].entity);
                        } else {
                            assert(old(self).names@[i].entity != old(self).names@[ki].entity);
                        }
                    }
                    if old(self).named_entity(text@) is None {
                        assert forall|j: int|
                            0 <= j < final(self).names@.len() && j != ki implies final(self).names@[j].text@ != text@ by {
                            if final(self).names@[j].text@ == text@ {
                                lemma_first_named_some(old(self).names@, text@, j);
                            }
                        }
                        lemma_first_named_unique(final(self).names@, text@, ki);
                    }
                }
                return ;
            }
            k = k + 1;
        }
        self.names.push(NameEntry { entity: e, text });
        proof {
            let n = self.names@.len() - 1;
            assert(final(self).names@[n].entity == e);
            assert forall|i: int, j: int|
                0 <= i < j < self.names@.len() implies self.names@[i].entity
                != self.names@[j].entity by {
                if j < n {
                    assert(old(self).names@[i].entity != old(self).names@[j].entity);
                } else {
                    assert(old(self).names@[i].entity != e);
                }
            }
            if old(self).named_entity(text@) is None {
                assert forall|j: int|
                    0 <= j < final(self).names@.len() && j != n implies final(self).names@[j].text@
                    != text@ by {
                    if final(self).names@[j].text@ == text@ {
                        lemma_first_named_some(old(self).names@, text@, j);
                    }
                }
                lemma_first_named_unique(final(self).names@, text@, n);
            }
        }
    }

    /// Resolves a name to the entity whose record stands earliest with it.
    pub fn find_named(&self, text: &str) -> (r: Option<u64>)
        ensures
            r == self.named_entity(text@),
    {
        let wanted: String = text.to_owned();
        let mut k: usize = 0;
        while k < self.names.len()
            invariant
                wanted@ == text@,
                k <= self.names@.len(),
                forall|j: int| 0 <= j < k ==> self.names@[j].text@ != text@,
            decreases self.names@.len() - k,
        {
            if self.names[k].text == wanted {
                proof {
                    lemma_first_named_skip(self.names@, text@, k as int);
                    assert(self.names@.skip(k as int)[0] == self.names@[k as int]);
                }
                return Some(self.names[k].entity);
            }
            k = k + 1;
        }
        proof {
            lemma_first_named_skip(self.names@, text@, self.names@.len() as int);
            assert(self.names@.skip(self.names@.len() as int).len() == 0);
        }
        None
    }

    /// The name recorded for an entity, if any record names it.
    pub fn name_of(&self, e: u64) -> (r: Option<String>)
        ensures
            r is Some ==> exists|i: int|
                0 <= i < self.names@.len() && self.names@[i].entity == e && self.names@[i].text@
                    == r->Some_0@,
            r is None ==> forall|i: int|
                0 <= i < self.names@.len() ==> self.names@[i].entity != e,
    {
        let mut k: usize = 0;
        while k < self.names.len()
            invariant
                k <= self.names@.len(),
                forall|j: int| 0 <= j < k ==> self.names@[j].entity != e,
            decreases self.names@.len() - k,
        {
            if self.names[k].entity == e {
                return Some(self.names[k].text.clone());
            }
            k = k + 1;
        }
        None
    }

    /// Signals that the next `advance` must report a stop.
    pub fn request_quit(&mut self)
        requires
            old(self).wf(),
        ensures
            final(self).wf(),
            final(self).quit_flag,
            final(self).infos@ == old(self).infos@,
            final(self).cells@ == old(self).cells@,
            final(self).alive@ == old(self).alive@,
            final(self).names@ == old(self).names@,
            final(self).next_id == old(self).next_id,
            final(self).delta == old(self).delta,
            final(self).systems@ == old(self).systems@,
    {
        self.quit_flag = true;
    }

    /// Whether a quit has been signalled.
    pub fn should_quit(&self) -> (r: bool)
        ensures
            r == self.quit_flag,
    {
        self.quit_flag
    }

    /// Advances one scheduler iteration by the given timestep and reports
    /// whether the loop should continue: false once a quit was signalled.
    pub fn advance(&mut self, delta_time: u64) -> (r: bool)
        requires
            old(self).wf(),
        ensures
            final(self).wf(),
            r == !old(self).quit_flag,
            final(self).delta == delta_time,
            final(self).quit_flag == old(self).quit_flag,
            final(self).infos@ == old(self).infos@,
            final(self).cells@ == old(self).cells@,
            final(self).alive@ == old(self).alive@,
            final(self).names@ == old(self).names@,
            final(self).next_id == old(self).next_id,
            final(self).systems@ == old(self).systems@,
    {
        self.delta = delta_time;
        !self.quit_flag
    }

    /// Whether the entity currently holds a cell for the component.
    pub fn has_component(&self, e: u64, c: u64) -> (r: bool)
        requires
            self.wf(),
        ensures
            r == self.has_cell(e, c),
    {
        self.find_cell(e, c).is_some()
    }

    /// Hands a system descriptor to the engine's scheduler: the system's
    /// entity id and the ordered component-id list it touches.
    pub fn register_system(&mut self, entity: u64, comps: Vec<u64>)
        requires
            old(self).wf(),
        ensures
            final(self).wf(),
            final(self).systems@.len() == old(self).systems@.len() + 1,
            final(self).systems@.last().entity == entity,
            final(self).systems@.last().comps@ == comps@,
            forall|i: int|
                0 <= i < old(self).systems@.len() ==> final(self).systems@[i] == old(self).systems@[i],
            final(self).infos@ == old(self).infos@,
            final(self).cells@ == old(self).cells@,
            final(self).alive@ == old(self).alive@,
            final(self).names@ == old(self).names@,
            final(self).next_id == old(self).next_id,
            final(self).quit_flag == old(self).quit_flag,
            final(self).delta == old(self).delta,
    {
        self.systems.push(SystemRecord { entity, comps });
    }
}

} // verus!
