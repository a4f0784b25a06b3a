//! The world: owns one storage engine instance together with the per-world
//! component metadata registry, and exposes entity creation, component
//! registration, typed and untyped get/set, singleton access, name lookup,
//! and the progress/quit lifecycle.

use vstd::prelude::*;

use crate::component::Component;
use crate::engine::Engine;
use crate::engine::PREFAB_ID;

verus! {

/// A capability reference into engine-managed storage: a 64-bit identifier.
/// Validity must be checked against the engine before dereferencing.
#[derive(Clone, Copy, PartialEq, Eq, Structural, Debug)]
pub struct Entity {
    pub id: u64,
}

impl Entity {
    /// Wraps an identifier as a handle.
    pub fn new(id: u64) -> (r: Entity)
        ensures
            r.id == id,
    {
        Entity { id }
    }

    /// The raw identifier.
    pub fn raw(&self) -> (r: u64)
        ensures
            r == self.id,
    {
        self.id
    }

    /// Whether the identifier still names live storage in the given world.
    pub fn is_valid(&self, world: &World) -> (r: bool)
        ensures
            r == world.engine.is_alive(self.id),
    {
        world.engine.is_valid(self.id)
    }

    /// Names this entity, returning the handle for chaining.  A name that
    /// was unbound before now resolves to exactly this entity; other
    /// entities' name records are untouched.
    pub fn named(self, world: &mut World, text: &str) -> (r: Entity)
        requires
            old(world).wf(),
        ensures
            r == self,
            final(world).wf(),
            final(world).engine.named_entity(text@) is Some,
            old(world).engine.named_entity(text@) is None ==> final(world).engine.named_entity(
                text@,
            ) == Some(self.id),
            final(world).engine.infos@ == old(world).engine.infos@,
            final(world).engine.cells@ == old(world).engine.cells@,
            final(world).engine.alive@ == old(world).engine.alive@,
            final(world).engine.next_id == old(world).engine.next_id,
            final(world).engine.quit_flag == old(world).engine.quit_flag,
            final(world).engine.delta == old(world).engine.delta,
            final(world).engine.systems@ == old(world).engine.systems@,
            final(world).typed@ == old(world).typed@,
            final(world).dynamics@ == old(world).dynamics@,
            old(world).engine.names@.len() <= final(world).engine.names@.len() <= old(world).engine.names@.len() + 1,
            forall|i: int|
                0 <= i < old(world).engine.names@.len() && old(world).engine.names@[i].entity
                    != self.id ==> final(world).engine.names@[i] == old(world).engine.names@[i],
            forall|i: int|
                0 <= i < final(world).engine.names@.len() && #[trigger] final(world).engine.names@[i].entity == self.id ==> final(world).engine.names@[i].text@
                    == text@,
            exists|i: int|
                0 <= i < final(world).engine.names@.len() && #[trigger] final(world).engine.names@[i].entity == self.id && final(world).engine.names@[i].text@
                    == text@,
    {
        world.engine.set_name(self.id, text.to_owned());
        proof {
            let i = choose|i: int|
                0 <= i < world.engine.names@.len() && world.engine.names@[i].entity == self.id
                    && world.engine.names@[i].text@ == text@;
            crate::engine::lemma_first_named_some(world.engine.names@, text@, i);
        }
        self
    }

    /// Attaches the component with the given id, returning the handle for
    /// chaining.
    pub fn add_id(self, world: &mut World, comp: u64) -> (r: Entity)
        requires
            old(world).wf(),
            old(world).engine.comp_registered(comp),
        ensures
            r == self,
            final(world).wf(),
            final(world).engine.has_cell(self.id, comp),
            forall|e2: u64, c2: u64|
                !(e2 == self.id && c2 == comp) ==> #[trigger] final(world).engine.has_cell(e2, c2)
                    == old(world).engine.has_cell(e2, c2),
            forall|e2: u64, c2: u64|
                !(e2 == self.id && c2 == comp) && old(world).engine.has_cell(e2, c2)
                    ==> #[trigger] final(world).engine.cell_bytes(e2, c2) == old(world).engine.cell_bytes(e2, c2),
            final(world).engine.infos@ == old(world).engine.infos@,
            final(world).engine.alive@ == old(world).engine.alive@,
            final(world).engine.names@ == old(world).engine.names@,
            final(world).engine.next_id == old(world).engine.next_id,
            final(world).engine.quit_flag == old(world).engine.quit_flag,
            final(world).engine.delta == old(world).engine.delta,
            final(world).engine.systems@ == old(world).engine.systems@,
            final(world).typed@ == old(world).typed@,
            final(world).dynamics@ == old(world).dynamics@,
    {
        world.engine.attach(self.id, comp);
        self
    }
}

/// The error the untyped write path reports instead of silently dropping a
/// write whose byte length does not match the registered component size.
#[derive(Clone, Copy, PartialEq, Eq, Debug)]
pub enum ComponentError {
    SizeMismatch { expected: usize, actual: usize },
}

/// A registry entry binding a static type identity token to a component id.
pub struct TypedReg {
    pub key: u64,
    pub comp: u64,
}

/// A registry entry binding a dynamic symbol to a component id.
pub struct DynReg {
    pub symbol: String,
    pub comp: u64,
}

/// Whether some entry binds the type identity `key`.
pub open spec fn typed_has(reg: Seq<TypedReg>, key: u64) -> bool {
    exists|i: int| 0 <= i < reg.len() && reg[i].key == key
}

/// The index of the entry binding `key`; meaningful when keys are unique.
pub open spec fn typed_at(reg: Seq<TypedReg>, key: u64) -> int {
    choose|i: int| 0 <= i < reg.len() && reg[i].key == key
}

/// Whether some entry binds the dynamic symbol `sym`.
pub open spec fn dyn_has(reg: Seq<DynReg>, sym: Seq<char>) -> bool {
    exists|i: int| 0 <= i < reg.len() && reg[i].symbol@ == sym
}

/// The index of the entry binding `sym`; meaningful when symbols are unique.
pub open spec fn dyn_at(reg: Seq<DynReg>, sym: Seq<char>) -> int {
    choose|i: int| 0 <= i < reg.len() && reg[i].symbol@ == sym
}

/// No two typed entries share a key, and no two share a component id.
pub open spec fn typed_unique(reg: Seq<TypedReg>) -> bool {
    forall|i: int, j: int|
        0 <= i < j < reg.len() ==> reg[i].key != reg[j].key && reg[i].comp != reg[j].comp
}

/// No two dynamic entries share a symbol.
pub open spec fn dyn_unique(reg: Seq<DynReg>) -> bool {
    forall|i: int, j: int| 0 <= i < j < reg.len() ==> reg[i].symbol@ != reg[j].symbol@
}

/// A world: one storage engine instance, the component metadata registry
/// attached to it, and the ownership flag of the engine handle.
pub struct World {
    pub engine: Engine,
    pub typed: Vec<TypedReg>,
    pub dynamics: Vec<DynReg>,
    pub owned: bool,
}

impl World {
    /// The component id the type identity `key` is registered under, if any.
    pub open spec fn typed_id(self, key: u64) -> Option<u64> {
        if typed_has(self.typed@, key) {
            Some(self.typed@[typed_at(self.typed@, key)].comp)
        } else {
            None
        }
    }

    /// The component id the dynamic symbol `sym` is registered under, if any.
    pub open spec fn dyn_id(self, sym: Seq<char>) -> Option<u64> {
        if dyn_has(self.dynamics@, sym) {
            Some(self.dynamics@[dyn_at(self.dynamics@, sym)].comp)
        } else {
            None
        }
    }

    /// Type `T` is registered, under a component id whose registered size is
    /// `T`'s byte size.
    pub open spec fn registered<T: Component>(self) -> bool {
        &&& self.typed_id(T::key_spec()) is Some
        &&& self.engine.comp_registered(self.typed_id(T::key_spec())->Some_0)
        &&& self.engine.comp_size(self.typed_id(T::key_spec())->Some_0) == T::size_spec()
    }

    /// If `T`'s identity token is bound at all, it is bound consistently with
    /// `T`'s byte size.  This is what distinct identity tokens for distinct
    /// types guarantee; registration preserves it.
    pub open spec fn key_consistent<T: Component>(self) -> bool {
        self.typed_id(T::key_spec()) is Some ==> self.registered::<T>()
    }

    /// The typed value of component `T` on entity `e`: the decoding of the
    /// stored cell, if `T` is registered and the cell is present.
    pub open spec fn typed_value<T: Component>(self, e: u64) -> Option<T> {
        match self.typed_id(T::key_spec()) {
            Some(c) => if self.engine.has_cell(e, c) {
                Some(T::dec(self.engine.cell_bytes(e, c)))
            } else {
                None
            },
            None => None,
        }
    }

    /// The singleton value of component `T`: the value stored on the entity
    /// whose id equals `T`'s own component id.
    pub open spec fn singleton_value<T: Component>(self) -> Option<T> {
        match self.typed_id(T::key_spec()) {
            Some(c) => self.typed_value::<T>(c),
            None => None,
        }
    }

    /// Well-formedness: the engine is well-formed, registry keys, component
    /// ids and symbols are unique, and every registered component id is
    /// registered with the engine.
    pub open spec fn wf(self) -> bool {
        &&& self.engine.wf()
        &&& typed_unique(self.typed@)
        &&& dyn_unique(self.dynamics@)
        &&& forall|i: int|
            0 <= i < self.typed@.len() ==> self.engine.comp_registered(
                #[trigger] self.typed@[i].comp,
            )
        &&& forall|i: int|
            0 <= i < self.dynamics@.len() ==> self.engine.comp_registered(
                #[trigger] self.dynamics@[i].comp,
            )
    }

    /// Any index whose entry binds `key` is the index `typed_at` denotes.
    pub proof fn lemma_typed_at(self, key: u64, i: int)
        requires
            typed_unique(self.typed@),
            0 <= i < self.typed@.len(),
            self.typed@[i].key == key,
        ensures
            typed_has(self.typed@, key),
            typed_at(self.typed@, key) == i,
            self.typed_id(key) == Some(self.typed@[i].comp),
    {
        assert(typed_has(self.typed@, key));
        let k = typed_at(self.typed@, key);
        assert(0 <= k < self.typed@.len() && self.typed@[k].key == key);
        if k < i {
            assert(self.typed@[k].key != self.typed@[i].key);
        } else if i < k {
            assert(self.typed@[i].key != self.typed@[k].key);
        }
    }

    /// The index `typed_at` denotes is a real entry binding `key`.
    pub proof fn lemma_typed_has(self, key: u64)
        requires
            typed_unique(self.typed@),
            typed_has(self.typed@, key),
        ensures
            0 <= typed_at(self.typed@, key) < self.typed@.len(),
            self.typed@[typed_at(self.typed@, key)].key == key,
    {
        let k = choose|i: int| 0 <= i < self.typed@.len() && self.typed@[i].key == key;
        self.lemma_typed_at(key, k);
    }

    /// Any index whose entry binds `sym` is the index `dyn_at` denotes.
    pub proof fn lemma_dyn_at(self, sym: Seq<char>, i: int)
        requires
            dyn_unique(self.dynamics@),
            0 <= i < self.dynamics@.len(),
            self.dynamics@[i].symbol@ == sym,
        ensures
            dyn_has(self.dynamics@, sym),
            dyn_at(self.dynamics@, sym) == i,
            self.dyn_id(sym) == Some(self.dynamics@[i].comp),
    {
        assert(dyn_has(self.dynamics@, sym));
        let k = dyn_at(self.dynamics@, sym);
        assert(0 <= k < self.dynamics@.len() && self.dynamics@[k].symbol@ == sym);
        if k < i {
            assert(self.dynamics@[k].symbol@ != self.dynamics@[i].symbol@);
        } else if i < k {
            assert(self.dynamics@[i].symbol@ != self.dynamics@[k].symbol@);
        }
    }

    /// Creates a new world owning a fresh engine instance.
    pub fn new() -> (w: World)
        ensures
            w.wf(),
            w.owned,
            w.typed@.len() == 0,
            w.dynamics@.len() == 0,
            w.engine.next_id == 2,
            w.engine.cells@.len() == 0,
            w.engine.names@.len() == 0,
            w.engine.systems@.len() == 0,
            !w.engine.quit_flag,
            forall|x: u64| w.engine.is_alive(x) <==> x == PREFAB_ID,
            forall|k: u64| w.typed_id(k) is None,
            forall|s: Seq<char>| w.dyn_id(s) is None,
    {
        let w = World { engine: Engine::init(), typed: Vec::new(), dynamics: Vec::new(), owned: true };
        w
    }

    /// Wraps an engine handle supplied from outside; the world is borrowed
    /// and will never finalize the engine.
    pub fn new_from(engine: Engine) -> (w: World)
        requires
            engine.wf(),
        ensures
            w.wf(),
            !w.owned,
            w.engine == engine,
            w.typed@.len() == 0,
            w.dynamics@.len() == 0,
            forall|k: u64| w.typed_id(k) is None,
            forall|s: Seq<char>| w.dyn_id(s) is None,
    {
        World { engine, typed: Vec::new(), dynamics: Vec::new(), owned: false }
    }

    /// The underlying engine instance.
    pub fn raw(&self) -> (r: &Engine)
        ensures
            *r == self.engine,
    {
        &self.engine
    }

    /// Mints a fresh entity.
    pub fn entity(&mut self) -> (r: Entity)
        requires
            old(self).wf(),
            old(self).engine.next_id < u64::MAX,
        ensures
            final(self).wf(),
            r.id == old(self).engine.next_id,
            final(self).engine.next_id == old(self).engine.next_id + 1,
            final(self).engine.is_alive(r.id),
            !old(self).engine.is_alive(r.id),
            forall|x: u64|
                final(self).engine.is_alive(x) <==> (old(self).engine.is_alive(x) || x == r.id),
            final(self).engine.infos@ == old(self).engine.infos@,
            final(self).engine.cells@ == old(self).engine.cells@,
            final(self).engine.names@ == old(self).engine.names@,
            final(self).engine.quit_flag == old(self).engine.quit_flag,
            final(self).engine.delta == old(self).engine.delta,
            final(self).engine.systems@ == old(self).engine.systems@,
            final(self).typed@ == old(self).typed@,
            final(self).dynamics@ == old(self).dynamics@,
    {
        let id = self.engine.new_id();
        Entity { id }
    }

    /// Mints an entity, names it, and tags it with the prefab marker so the
    /// engine's conventions exclude it from normal iteration.
    pub fn prefab(&mut self, text: &str) -> (r: Entity)
        requires
            old(self).wf(),
            old(self).engine.next_id < u64::MAX,
        ensures
            final(self).wf(),
            r.id == old(self).engine.next_id,
            final(self).engine.next_id == old(self).engine.next_id + 1,
            final(self).engine.is_alive(r.id),
            forall|x: u64|
                final(self).engine.is_alive(x) <==> (old(self).engine.is_alive(x) || x == r.id),
            final(self).engine.has_cell(r.id, PREFAB_ID),
            final(self).engine.named_entity(text@) is Some,
            old(self).engine.named_entity(text@) is None ==> final(self).engine.named_entity(text@)
                == Some(r.id),
            final(self).typed@ == old(self).typed@,
            final(self).dynamics@ == old(self).dynamics@,
            final(self).engine.infos@ == old(self).engine.infos@,
            final(self).engine.quit_flag == old(self).engine.quit_flag,
            final(self).engine.delta == old(self).engine.delta,
            final(self).engine.systems@ == old(self).engine.systems@,
            forall|e2: u64, c2: u64|
                !(e2 == r.id && c2 == PREFAB_ID) ==> #[trigger] final(self).engine.has_cell(e2, c2)
                    == old(self).engine.has_cell(e2, c2),
            forall|e2: u64, c2: u64|
                !(e2 == r.id && c2 == PREFAB_ID) && old(self).engine.has_cell(e2, c2)
                    ==> #[trigger] final(self).engine.cell_bytes(e2, c2) == old(self).engine.cell_bytes(e2, c2),
    {
        let id = self.engine.new_id();
        let e = Entity { id };
        let e = e.named(self, text);
        let e = e.add_id(self, PREFAB_ID);
        e
    }

    /// Advances one iteration of the engine's scheduler by the given
    /// timestep (in microseconds); returns false once a quit was signalled.
    pub fn progress(&mut self, delta_time: u64) -> (r: bool)
        requires
            old(self).wf(),
        ensures
            final(self).wf(),
            r == !old(self).engine.quit_flag,
            final(self).engine.delta == delta_time,
            final(self).engine.quit_flag == old(self).engine.quit_flag,
            final(self).engine.systems@ == old(self).engine.systems@,
            final(self).engine.next_id == old(self).engine.next_id,
            final(self).engine.infos@ == old(self).engine.infos@,
            final(self).engine.cells@ == old(self).engine.cells@,
            final(self).engine.alive@ == old(self).engine.alive@,
            final(self).engine.names@ == old(self).engine.names@,
            final(self).typed@ == old(self).typed@,
            final(self).dynamics@ == old(self).dynamics@,
    {
        self.engine.advance(delta_time)
    }

    /// The timestep of the latest scheduler iteration, in microseconds.
    pub fn delta_time(&self) -> (r: u64)
        ensures
            r == self.engine.delta,
    {
        self.engine.delta
    }

    /// Signals that the application should quit: the next call to `progress`
    /// returns false.
    pub fn quit(&mut self)
        requires
            old(self).wf(),
        ensures
            final(self).wf(),
            final(self).engine.quit_flag,
            final(self).engine.systems@ == old(self).engine.systems@,
            final(self).engine.next_id == old(self).engine.next_id,
            final(self).engine.delta == old(self).engine.delta,
            final(self).engine.infos@ == old(self).engine.infos@,
            final(self).engine.cells@ == old(self).engine.cells@,
            final(self).engine.alive@ == old(self).engine.alive@,
            final(self).engine.names@ == old(self).engine.names@,
            final(self).typed@ == old(self).typed@,
            final(self).dynamics@ == old(self).dynamics@,
    {
        self.engine.request_quit();
    }

    /// Validates an externally supplied identifier against current engine
    /// liveness: a handle comes back only while the id names live storage.
    pub fn find_entity(&self, entity: u64) -> (r: Option<Entity>)
        ensures
            r == if self.engine.is_alive(entity) {
                Some(Entity { id: entity })
            } else {
                Option::<Entity>::None
            },
    {
        if self.engine.is_valid(entity) {
            Some(Entity { id: entity })
        } else {
            None
        }
    }

    /// Resolves a name to an entity, if any entity carries it.
    pub fn lookup(&self, text: &str) -> (r: Option<Entity>)
        ensures
            r == match self.engine.named_entity(text@) {
                Some(e) => Some(Entity { id: e }),
                None => Option::<Entity>::None,
            },
    {
        match self.engine.find_named(text) {
            Some(e) => Some(Entity { id: e }),
            None => None,
        }
    }

    /// The name recorded for an entity, if it has one.
    pub fn name(&self, entity: Entity) -> (r: Option<String>)
        ensures
            r is Some ==> exists|i: int|
                0 <= i < self.engine.names@.len() && self.engine.names@[i].entity == entity.id
                    && self.engine.names@[i].text@ == r->Some_0@,
            r is None ==> forall|i: int|
                0 <= i < self.engine.names@.len() ==> self.engine.names@[i].entity != entity.id,
    {
        self.engine.name_of(entity.id)
    }

    /// The component id bound to the type identity `key`, if registered.
    fn typed_lookup(&self, key: u64) -> (r: Option<u64>)
        requires
            self.wf(),
        ensures
            r == self.typed_id(key),
    {
        let mut k: usize = 0;
        while k < self.typed.len()
            invariant
                self.wf(),
                k <= self.typed@.len(),
                forall|i: int| 0 <= i < k ==> self.typed@[i].key != key,
            decreases self.typed@.len() - k,
        {
            if self.typed[k].key == key {
                proof {
                    self.lemma_typed_at(key, k as int);
                }
                return Some(self.typed[k].comp);
            }
            k = k + 1;
        }
        proof {
            if typed_has(self.typed@, key) {
                let i = choose|i: int| 0 <= i < self.typed@.len() && self.typed@[i].key == key;
            }
        }
        None
    }

    /// The component id of a registered type, for the crate's own resolvers.
    pub(crate) fn comp_of<T: Component>(&self) -> (r: u64)
        requires
            self.wf(),
            self.typed_id(T::key_spec()) is Some,
        ensures
            Some(r) == self.typed_id(T::key_spec()),
    {
        match self.typed_lookup(T::type_key()) {
            Some(c) => c,
            None => {
                proof {
                    assert(false);
                }
                0
            },
        }
    }

    /// Registers component type `T` against this world: returns the existing
    /// id if `T` is already registered, and otherwise mints a new component
    /// id sized per `T`'s byte layout and records the binding.  Registration
    /// is idempotent: a second registration returns the same id and leaves
    /// the world unchanged.
    pub fn component<T: Component>(&mut self) -> (r: Entity)
        requires
            old(self).wf(),
            old(self).typed_id(T::key_spec()) is None ==> old(self).engine.next_id < u64::MAX,
            old(self).key_consistent::<T>(),
        ensures
            final(self).wf(),
            final(self).registered::<T>(),
            final(self).typed_id(T::key_spec()) == Some(r.id),
            old(self).typed_id(T::key_spec()) is Some ==> *final(self) == *old(self) && Some(r.id)
                == old(self).typed_id(T::key_spec()),
            old(self).typed_id(T::key_spec()) is None ==> {
                &&& r.id == old(self).engine.next_id
                &&& final(self).engine.next_id == old(self).engine.next_id + 1
                &&& !old(self).engine.comp_registered(r.id)
                &&& final(self).engine.comp_size(r.id) == T::size_spec()
                &&& final(self).engine.comp_align(r.id) == T::align_spec()
                &&& forall|x: u64|
                    final(self).engine.is_alive(x) <==> (old(self).engine.is_alive(x) || x == r.id)
            },
            forall|k: u64| k != T::key_spec() ==> final(self).typed_id(k) == old(self).typed_id(k),
            forall|c: u64|
                old(self).engine.comp_registered(c) ==> final(self).engine.comp_registered(c)
                    && final(self).engine.comp_size(c) == old(self).engine.comp_size(c),
            final(self).engine.cells@ == old(self).engine.cells@,
            final(self).engine.names@ == old(self).engine.names@,
            final(self).engine.quit_flag == old(self).engine.quit_flag,
            final(self).engine.delta == old(self).engine.delta,
            final(self).engine.systems@ == old(self).engine.systems@,
            final(self).dynamics@ == old(self).dynamics@,
    {
        let existing = self.typed_lookup(T::type_key());
        match existing {
            Some(comp) => {
                proof {
                    self.lemma_typed_has(T::key_spec());
                }
                Entity { id: comp }
            },
            None => {
                let comp = self.engine.new_component(T::byte_size(), T::byte_align());
                self.typed.push(TypedReg { key: T::type_key(), comp });
                proof {
                    let n = self.typed@.len() - 1;
                    assert forall|i: int, j: int|
                        0 <= i < j < self.typed@.len() implies self.typed@[i].key
                        != self.typed@[j].key && self.typed@[i].comp != self.typed@[j].comp by {
                        if j < n {
                            assert(old(self).typed@[i].key != old(self).typed@[j].key);
                            assert(old(self).typed@[i].comp != old(self).typed@[j].comp);
                        } else {
                            if old(self).typed@[i].key == T::key_spec() {
                                old(self).lemma_typed_at(T::key_spec(), i);
                            }
                            assert(old(self).engine.comp_registered(old(self).typed@[i].comp));
                        }
                    }
                    self.lemma_typed_at(T::key_spec(), n);
                    assert forall|k: u64| k != T::key_spec() implies final(self).typed_id(k) == old(self).typed_id(k) by {
                        if typed_has(old(self).typed@, k) {
                            let i = choose|i: int|
                                0 <= i < old(self).typed@.len() && old(self).typed@[i].key == k;
                            old(self).lemma_typed_at(k, i);
                            final(self).lemma_typed_at(k, i);
                        } else {
                            if typed_has(final(self).typed@, k) {
                                let i = choose|i: int|
                                    0 <= i < final(self).typed@.len() && final(self).typed@[i].key
                                        == k;
                                assert(i < n);
                                assert(old(self).typed@[i].key == k);
                            }
                        }
                    }
                }
                Entity { id: comp }
            },
        }
    }

    /// Registers component type `T` and names its component entity.
    pub fn component_named<T: Component>(&mut self, text: &str) -> (r: u64)
        requires
            old(self).wf(),
            old(self).typed_id(T::key_spec()) is None ==> old(self).engine.next_id < u64::MAX,
            old(self).key_consistent::<T>(),
        ensures
            final(self).wf(),
            final(self).registered::<T>(),
            final(self).typed_id(T::key_spec()) == Some(r),
            final(self).engine.named_entity(text@) is Some,
            old(self).engine.named_entity(text@) is None ==> final(self).engine.named_entity(text@)
                == Some(r),
            final(self).engine.next_id == if old(self).typed_id(T::key_spec()) is Some {
                old(self).engine.next_id
            } else {
                (old(self).engine.next_id + 1) as u64
            },
            forall|x: u64|
                final(self).engine.is_alive(x) <==> (old(self).engine.is_alive(x) || (old(self).typed_id(T::key_spec()) is None && x == r)),
            forall|k: u64| k != T::key_spec() ==> final(self).typed_id(k) == old(self).typed_id(k),
            forall|c: u64|
                old(self).engine.comp_registered(c) ==> final(self).engine.comp_registered(c)
                    && final(self).engine.comp_size(c) == old(self).engine.comp_size(c),
            final(self).engine.cells@ == old(self).engine.cells@,
            final(self).engine.quit_flag == old(self).engine.quit_flag,
            final(self).engine.delta == old(self).engine.delta,
            final(self).engine.systems@ == old(self).engine.systems@,
            final(self).dynamics@ == old(self).dynamics@,
    {
        let e = self.component::<T>();
        let e = e.named(self, text);
        e.id
    }

    /// The component id bound to the dynamic symbol, if registered.
    fn dyn_lookup(&self, symbol: &str) -> (r: Option<u64>)
        requires
            self.wf(),
        ensures
            r == self.dyn_id(symbol@),
    {
        let wanted: String = symbol.to_owned();
        let mut k: usize = 0;
        while k < self.dynamics.len()
            invariant
                self.wf(),
                wanted@ == symbol@,
                k <= self.dynamics@.len(),
                forall|i: int| 0 <= i < k ==> self.dynamics@[i].symbol@ != symbol@,
            decreases self.dynamics@.len() - k,
        {
            if self.dynamics[k].symbol == wanted {
                proof {
                    self.lemma_dyn_at(symbol@, k as int);
                }
                return Some(self.dynamics[k].comp);
            }
            k = k + 1;
        }
        proof {
            if dyn_has(self.dynamics@, symbol@) {
                let i = choose|i: int|
                    0 <= i < self.dynamics@.len() && self.dynamics@[i].symbol@ == symbol@;
            }
        }
        None
    }

    /// Registers a component with no static identity, driven purely by an
    /// explicitly supplied byte size and alignment.  Idempotent per symbol:
    /// re-registering a symbol returns the existing id unchanged.
    pub fn component_dynamic(&mut self, symbol: &str, size: usize, align: usize) -> (r: u64)
        requires
            old(self).wf(),
            old(self).dyn_id(symbol@) is None ==> old(self).engine.next_id < u64::MAX,
        ensures
            final(self).wf(),
            final(self).dyn_id(symbol@) == Some(r),
            final(self).engine.comp_registered(r),
            old(self).dyn_id(symbol@) is Some ==> *final(self) == *old(self) && Some(r) == old(self).dyn_id(symbol@),
            old(self).dyn_id(symbol@) is None ==> {
                &&& r == old(self).engine.next_id
                &&& final(self).engine.next_id == old(self).engine.next_id + 1
                &&& final(self).engine.comp_size(r) == size
                &&& final(self).engine.comp_align(r) == align
                &&& forall|x: u64|
                    final(self).engine.is_alive(x) <==> (old(self).engine.is_alive(x) || x == r)
            },
            forall|s: Seq<char>| s != symbol@ ==> final(self).dyn_id(s) == old(self).dyn_id(s),
            forall|k: u64| final(self).typed_id(k) == old(self).typed_id(k),
            forall|c: u64|
                old(self).engine.comp_registered(c) ==> final(self).engine.comp_registered(c)
                    && final(self).engine.comp_size(c) == old(self).engine.comp_size(c),
            final(self).engine.cells@ == old(self).engine.cells@,
            final(self).engine.names@ == old(self).engine.names@,
            final(self).engine.quit_flag == old(self).engine.quit_flag,
            final(self).engine.delta == old(self).engine.delta,
            final(self).engine.systems@ == old(self).engine.systems@,
            final(self).typed@ == old(self).typed@,
    {
        let existing = self.dyn_lookup(symbol);
        match existing {
            Some(comp) => comp,
            None => {
                let comp = self.engine.new_component(size, align);
                self.dynamics.push(DynReg { symbol: symbol.to_owned(), comp });
                proof {
                    let n = self.dynamics@.len() - 1;
                    assert forall|i: int, j: int|
                        0 <= i < j < self.dynamics@.len() implies self.dynamics@[i].symbol@
                        != self.dynamics@[j].symbol@ by {
                        if j < n {
                            assert(old(self).dynamics@[i].symbol@ != old(self).dynamics@[j].symbol@);
                        } else {
                            if old(self).dynamics@[i].symbol@ == symbol@ {
                                old(self).lemma_dyn_at(symbol@, i);
                            }
                        }
                    }
                    self.lemma_dyn_at(symbol@, n);
                    assert forall|s: Seq<char>| s != symbol@ implies final(self).dyn_id(s) == old(self).dyn_id(s) by {
                        if dyn_has(old(self).dynamics@, s) {
                            let i = choose|i: int|
                                0 <= i < old(self).dynamics@.len() && old(self).dynamics@[i].symbol@
                                    == s;
                            old(self).lemma_dyn_at(s, i);
                            final(self).lemma_dyn_at(s, i);
                        } else {
                            if dyn_has(final(self).dynamics@, s) {
                                let i = choose|i: int|
                                    0 <= i < final(self).dynamics@.len() && final(self).dynamics@[i].symbol@ == s;
                                assert(i < n);
                                assert(old(self).dynamics@[i].symbol@ == s);
                            }
                        }
                    }
                }
                comp
            },
        }
    }

    /// Registers a dynamic component and names its component entity.
    pub fn component_dynamic_named(&mut self, symbol: &str, text: &str, size: usize, align: usize) -> (r: u64)
        requires
            old(self).wf(),
            old(self).dyn_id(symbol@) is None ==> old(self).engine.next_id < u64::MAX,
        ensures
            final(self).wf(),
            final(self).dyn_id(symbol@) == Some(r),
            final(self).engine.comp_registered(r),
            final(self).engine.named_entity(text@) is Some,
            old(self).engine.named_entity(text@) is None ==> final(self).engine.named_entity(text@)
                == Some(r),
            final(self).engine.next_id == if old(self).dyn_id(symbol@) is Some {
                old(self).engine.next_id
            } else {
                (old(self).engine.next_id + 1) as u64
            },
            forall|x: u64|
                final(self).engine.is_alive(x) <==> (old(self).engine.is_alive(x) || (old(self).dyn_id(symbol@) is None && x == r)),
            forall|s: Seq<char>| s != symbol@ ==> final(self).dyn_id(s) == old(self).dyn_id(s),
            forall|k: u64| final(self).typed_id(k) == old(self).typed_id(k),
            forall|c: u64|
                old(self).engine.comp_registered(c) ==> final(self).engine.comp_registered(c)
                    && final(self).engine.comp_size(c) == old(self).engine.comp_size(c),
            final(self).engine.cells@ == old(self).engine.cells@,
            final(self).engine.quit_flag == old(self).engine.quit_flag,
            final(self).engine.delta == old(self).engine.delta,
            final(self).engine.systems@ == old(self).engine.systems@,
            final(self).typed@ == old(self).typed@,
    {
        let comp = self.component_dynamic(symbol, size, align);
        let e = Entity { id: comp };
        let e = e.named(self, text);
        e.id
    }

    /// The entity handle of `T`'s component id, if `T` has been registered.
    pub fn id<T: Component>(&self) -> (r: Option<Entity>)
        requires
            self.wf(),
        ensures
            r == match self.typed_id(T::key_spec()) {
                Some(c) => Some(Entity { id: c }),
                None => Option::<Entity>::None,
            },
    {
        match self.typed_lookup(T::type_key()) {
            Some(c) => Some(Entity { id: c }),
            None => None,
        }
    }

    /// The component id of a registered type; callers must have registered
    /// `T` first, as every typed accessor requires.
    pub fn component_id<T: Component>(&mut self) -> (r: u64)
        requires
            old(self).wf(),
            old(self).typed_id(T::key_spec()) is Some,
        ensures
            *final(self) == *old(self),
            Some(r) == old(self).typed_id(T::key_spec()),
    {
        let r = self.typed_lookup(T::type_key());
        match r {
            Some(c) => c,
            None => {
                proof {
                    assert(false);
                }
                0
            },
        }
    }

    /// Attaches a zero-initialized slot of type `T` to the live entity,
    /// registering `T` first if needed; an existing slot is left as it
    /// stands, so attaching twice is the same as attaching once.
    pub fn add<T: Component>(&mut self, entity: Entity)
        requires
            old(self).wf(),
            old(self).engine.is_alive(entity.id),
            old(self).key_consistent::<T>(),
            old(self).typed_id(T::key_spec()) is None ==> old(self).engine.next_id < u64::MAX,
        ensures
            final(self).wf(),
            final(self).registered::<T>(),
            forall|k: u64| k != T::key_spec() ==> final(self).typed_id(k) == old(self).typed_id(k),
            ({
                let c = final(self).typed_id(T::key_spec())->Some_0;
                &&& final(self).engine.has_cell(entity.id, c)
                &&& final(self).engine.cell_bytes(entity.id, c) == if old(self).registered::<T>()
                    && old(self).engine.has_cell(entity.id, old(self).typed_id(T::key_spec())->Some_0) {
                    old(self).engine.cell_bytes(entity.id, c)
                } else {
                    Seq::new(T::size_spec() as nat, |i: int| 0u8)
                }
                &&& forall|e2: u64, c2: u64|
                    !(e2 == entity.id && c2 == c) ==> #[trigger] final(self).engine.has_cell(
                        e2,
                        c2,
                    ) == old(self).engine.has_cell(e2, c2)
                &&& forall|e2: u64, c2: u64|
                    !(e2 == entity.id && c2 == c) && old(self).engine.has_cell(e2, c2)
                        ==> #[trigger] final(self).engine.cell_bytes(e2, c2) == old(self).engine.cell_bytes(e2, c2)
            }),
            final(self).engine.next_id == if old(self).typed_id(T::key_spec()) is Some {
                old(self).engine.next_id
            } else {
                (old(self).engine.next_id + 1) as u64
            },
            forall|x: u64|
                final(self).engine.is_alive(x) <==> (old(self).engine.is_alive(x) || (old(self).typed_id(T::key_spec()) is None && x == final(self).typed_id(
                    T::key_spec(),
                )->Some_0)),
            forall|c2: u64|
                old(self).engine.comp_registered(c2) ==> final(self).engine.comp_registered(c2)
                    && final(self).engine.comp_size(c2) == old(self).engine.comp_size(c2),
            final(self).engine.names@ == old(self).engine.names@,
            final(self).engine.quit_flag == old(self).engine.quit_flag,
            final(self).engine.delta == old(self).engine.delta,
            final(self).engine.systems@ == old(self).engine.systems@,
            final(self).dynamics@ == old(self).dynamics@,
    {
        let comp = self.component::<T>();
        let c = comp.id;
        proof {
            if old(self).typed_id(T::key_spec()) is None {
                if old(self).engine.has_cell(entity.id, c) {
                    old(self).engine.lemma_has_cell(entity.id, c);
                }
            }
        }
        self.engine.attach(entity.id, c);
    }

    /// Ensures `T` is attached to the live entity (attaching if absent),
    /// then overwrites the component's storage with `value`.  Afterwards
    /// `get` on the same entity returns exactly `value`.
    pub fn set<T: Component>(&mut self, entity: Entity, value: T)
        requires
            old(self).wf(),
            old(self).registered::<T>(),
            old(self).engine.is_alive(entity.id),
        ensures
            final(self).wf(),
            final(self).registered::<T>(),
            final(self).typed_value::<T>(entity.id) == Some(value),
            ({
                let c = old(self).typed_id(T::key_spec())->Some_0;
                &&& final(self).engine.has_cell(entity.id, c)
                &&& final(self).engine.cell_bytes(entity.id, c) == value.enc()
                &&& forall|e2: u64, c2: u64|
                    !(e2 == entity.id && c2 == c) ==> #[trigger] final(self).engine.has_cell(
                        e2,
                        c2,
                    ) == old(self).engine.has_cell(e2, c2)
                &&& forall|e2: u64, c2: u64|
                    !(e2 == entity.id && c2 == c) && old(self).engine.has_cell(e2, c2)
                        ==> #[trigger] final(self).engine.cell_bytes(e2, c2) == old(self).engine.cell_bytes(e2, c2)
            }),
            final(self).engine.infos@ == old(self).engine.infos@,
            final(self).engine.alive@ == old(self).engine.alive@,
            final(self).engine.names@ == old(self).engine.names@,
            final(self).engine.next_id == old(self).engine.next_id,
            final(self).engine.quit_flag == old(self).engine.quit_flag,
            final(self).engine.delta == old(self).engine.delta,
            final(self).engine.systems@ == old(self).engine.systems@,
            final(self).typed@ == old(self).typed@,
            final(self).dynamics@ == old(self).dynamics@,
    {
        let c = match self.typed_lookup(T::type_key()) {
            Some(c) => c,
            None => {
                proof {
                    assert(false);
                }
                0
            },
        };
        let bytes = value.to_bytes();
        proof {
            value.lemma_round_trip();
        }
        self.engine.write_cell(entity.id, c, bytes.as_slice());
    }

    /// Returns the value of component `T` on the entity: nothing while the
    /// entity is not alive or lacks the component, and otherwise the stored
    /// value.  Reading neither registers nor mutates anything.
    pub fn get<T: Component>(&self, entity: Entity) -> (r: Option<T>)
        requires
            self.wf(),
            self.registered::<T>(),
        ensures
            r == if self.engine.is_alive(entity.id) {
                self.typed_value::<T>(entity.id)
            } else {
                Option::<T>::None
            },
    {
        if !self.engine.is_valid(entity.id) {
            return None;
        }
        let c = match self.typed_lookup(T::type_key()) {
            Some(c) => c,
            None => {
                proof {
                    assert(false);
                }
                0
            },
        };
        match self.engine.read_cell(entity.id, c) {
            Some(bytes) => {
                proof {
                    self.engine.lemma_has_cell(entity.id, c);
                }
                Some(T::from_bytes(bytes.as_slice()))
            },
            None => None,
        }
    }

    /// Sets the singleton instance of component `T`, registering `T` first
    /// if needed.  The singleton is stored on the entity whose id equals
    /// `T`'s own component id; singletons of distinct types are independent.
    pub fn set_singleton<T: Component>(&mut self, value: T)
        requires
            old(self).wf(),
            old(self).typed_id(T::key_spec()) is None ==> old(self).engine.next_id < u64::MAX,
            old(self).key_consistent::<T>(),
        ensures
            final(self).wf(),
            final(self).registered::<T>(),
            final(self).singleton_value::<T>() == Some(value),
            final(self).engine.next_id == if old(self).typed_id(T::key_spec()) is Some {
                old(self).engine.next_id
            } else {
                (old(self).engine.next_id + 1) as u64
            },
            forall|x: u64|
                final(self).engine.is_alive(x) <==> (old(self).engine.is_alive(x) || (old(self).typed_id(T::key_spec()) is None && x == final(self).typed_id(
                    T::key_spec(),
                )->Some_0)),
            forall|k: u64| k != T::key_spec() ==> final(self).typed_id(k) == old(self).typed_id(k),
            ({
                let c = final(self).typed_id(T::key_spec())->Some_0;
                &&& forall|e2: u64, c2: u64|
                    !(e2 == c && c2 == c) && old(self).engine.has_cell(e2, c2) ==> #[trigger] final(self).engine.has_cell(e2, c2) && final(self).engine.cell_bytes(e2, c2) == old(self).engine.cell_bytes(e2, c2)
                &&& forall|e2: u64, c2: u64|
                    !(e2 == c && c2 == c) && !old(self).engine.has_cell(e2, c2) ==> !(#[trigger] final(self).engine.has_cell(e2, c2))
            }),
            forall|c2: u64|
                old(self).engine.comp_registered(c2) ==> final(self).engine.comp_registered(c2)
                    && final(self).engine.comp_size(c2) == old(self).engine.comp_size(c2),
            final(self).engine.names@ == old(self).engine.names@,
            final(self).engine.quit_flag == old(self).engine.quit_flag,
            final(self).engine.delta == old(self).engine.delta,
            final(self).engine.systems@ == old(self).engine.systems@,
            final(self).dynamics@ == old(self).dynamics@,
    {
        let comp = self.component::<T>();
        let c = comp.id;
        let bytes = value.to_bytes();
        proof {
            value.lemma_round_trip();
        }
        self.engine.write_cell(c, c, bytes.as_slice());
    }

    /// The singleton value a read-modify-write of component `T` starts
    /// from: the stored instance, or a zero-initialized one where none has
    /// been stored yet.
    pub open spec fn singleton_before<T: Component>(self) -> T {
        match self.singleton_value::<T>() {
            Some(v) => v,
            None => T::dec(Seq::new(T::size_spec() as nat, |i: int| 0u8)),
        }
    }

    /// Mutates the singleton instance of component `T` in place, registering
    /// `T` and attaching a zero-initialized instance first if needed: the
    /// writer receives the current value and what it returns is stored.
    pub fn update_singleton<T: Component, F: Fn(T) -> T>(&mut self, writer: F)
        requires
            old(self).wf(),
            old(self).typed_id(T::key_spec()) is None ==> old(self).engine.next_id < u64::MAX,
            old(self).key_consistent::<T>(),
            forall|t: T| call_requires(writer, (t,)),
        ensures
            final(self).wf(),
            final(self).registered::<T>(),
            exists|t2: T|
                #[trigger] call_ensures(writer, (old(self).singleton_before::<T>(),), t2)
                    && final(self).singleton_value::<T>() == Some(t2),
            final(self).engine.next_id == if old(self).typed_id(T::key_spec()) is Some {
                old(self).engine.next_id
            } else {
                (old(self).engine.next_id + 1) as u64
            },
            forall|k: u64| k != T::key_spec() ==> final(self).typed_id(k) == old(self).typed_id(k),
            ({
                let c = final(self).typed_id(T::key_spec())->Some_0;
                &&& forall|e2: u64, c2: u64|
                    !(e2 == c && c2 == c) && old(self).engine.has_cell(e2, c2) ==> #[trigger] final(self).engine.has_cell(e2, c2) && final(self).engine.cell_bytes(e2, c2) == old(self).engine.cell_bytes(e2, c2)
                &&& forall|e2: u64, c2: u64|
                    !(e2 == c && c2 == c) && !old(self).engine.has_cell(e2, c2) ==> !(#[trigger] final(self).engine.has_cell(e2, c2))
            }),
            final(self).engine.names@ == old(self).engine.names@,
            final(self).engine.quit_flag == old(self).engine.quit_flag,
            final(self).engine.delta == old(self).engine.delta,
            final(self).engine.systems@ == old(self).engine.systems@,
            final(self).dynamics@ == old(self).dynamics@,
    {
        let comp = self.component::<T>();
        let c = comp.id;
        proof {
            if old(self).typed_id(T::key_spec()) is None {
                if old(self).engine.has_cell(c, c) {
                    old(self).engine.lemma_has_cell(c, c);
                }
            }
        }
        self.engine.attach(c, c);
        let current = match self.engine.read_cell(c, c) {
            Some(b) => b,
            None => {
                proof {
                    assert(false);
                }
                Vec::new()
            },
        };
        proof {
            self.engine.lemma_has_cell(c, c);
        }
        let before = T::from_bytes(current.as_slice());
        let ghost before_saved = before;
        let after = writer(before);
        let bytes = after.to_bytes();
        proof {
            after.lemma_round_trip();
            before_saved.lemma_round_trip();
        }
        self.engine.write_cell(c, c, bytes.as_slice());
        proof {
            assert(before_saved == old(self).singleton_before::<T>());
            assert(call_ensures(writer, (old(self).singleton_before::<T>(),), after));
            assert(self.singleton_value::<T>() == Some(after));
        }
    }

    /// Returns the singleton instance of component `T`; callers must have
    /// registered `T` first, as every typed accessor requires.
    pub fn get_singleton<T: Component>(&self) -> (r: Option<T>)
        requires
            self.wf(),
            self.registered::<T>(),
        ensures
            r == self.singleton_value::<T>(),
    {
        let c = match self.typed_lookup(T::type_key()) {
            Some(c) => c,
            None => {
                proof {
                    assert(false);
                }
                0
            },
        };
        proof {
            // a registered component id is itself a live entity
            self.engine.lemma_comp_registered(c);
        }
        self.get::<T>(Entity { id: c })
    }

    /// The untyped write path: overwrites the component's storage with the
    /// given bytes.  A byte length that does not equal the registered
    /// component size is reported as an error and leaves storage unchanged.
    pub fn set_component(&mut self, entity: u64, comp: u64, data: &[u8]) -> (r: Result<
        (),
        ComponentError,
    >)
        requires
            old(self).wf(),
            old(self).engine.comp_registered(comp),
        ensures
            final(self).wf(),
            data@.len() == old(self).engine.comp_size(comp) ==> {
                &&& r is Ok
                &&& final(self).engine.has_cell(entity, comp)
                &&& final(self).engine.cell_bytes(entity, comp) == data@
                &&& forall|e2: u64, c2: u64|
                    !(e2 == entity && c2 == comp) ==> #[trigger] final(self).engine.has_cell(
                        e2,
                        c2,
                    ) == old(self).engine.has_cell(e2, c2)
                &&& forall|e2: u64, c2: u64|
                    !(e2 == entity && c2 == comp) && old(self).engine.has_cell(e2, c2)
                        ==> #[trigger] final(self).engine.cell_bytes(e2, c2) == old(self).engine.cell_bytes(e2, c2)
            },
            data@.len() != old(self).engine.comp_size(comp) ==> {
                &&& r == Result::<(), ComponentError>::Err(
                    ComponentError::SizeMismatch {
                        expected: old(self).engine.comp_size(comp),
                        actual: data@.len() as usize,
                    },
                )
                &&& *final(self) == *old(self)
            },
            final(self).engine.infos@ == old(self).engine.infos@,
            final(self).engine.alive@ == old(self).engine.alive@,
            final(self).engine.names@ == old(self).engine.names@,
            final(self).engine.next_id == old(self).engine.next_id,
            final(self).engine.quit_flag == old(self).engine.quit_flag,
            final(self).engine.delta == old(self).engine.delta,
            final(self).engine.systems@ == old(self).engine.systems@,
            final(self).typed@ == old(self).typed@,
            final(self).dynamics@ == old(self).dynamics@,
    {
        let info = self.engine.component_info(comp);
        let (size, _align) = match info {
            Some(p) => p,
            None => {
                proof {
                    assert(false);
                }
                (0, 0)
            },
        };
        if data.len() == size {
            self.engine.write_cell(entity, comp, data);
            Ok(())
        } else {
            Err(ComponentError::SizeMismatch { expected: size, actual: data.len() })
        }
    }

    /// The untyped read path: the bytes stored for the component on the
    /// entity, sized from the registry, or nothing while the entity is not
    /// alive or lacks the component.
    pub fn read_component(&self, entity: u64, comp: u64) -> (r: Option<Vec<u8>>)
        requires
            self.wf(),
            self.engine.comp_registered(comp),
        ensures
            r is Some <==> (self.engine.is_alive(entity) && self.engine.has_cell(entity, comp)),
            r is Some ==> r->Some_0@ == self.engine.cell_bytes(entity, comp)
                && r->Some_0@.len() == self.engine.comp_size(comp),
    {
        if !self.engine.is_valid(entity) {
            return None;
        }
        let r = self.engine.read_cell(entity, comp);
        proof {
            if self.engine.has_cell(entity, comp) {
                self.engine.lemma_has_cell(entity, comp);
            }
        }
        r
    }

    /// The untyped read-modify-write path: hands the current bytes of the
    /// component (attaching a zero-initialized cell if absent) to the writer
    /// and stores what it returns.  A result whose length does not equal the
    /// registered size is reported as an error and leaves the cell as the
    /// writer found it.
    pub fn write_component<F: Fn(Vec<u8>) -> Vec<u8>>(
        &mut self,
        entity: u64,
        comp: u64,
        writer: F,
    ) -> (r: Result<(), ComponentError>)
        requires
            old(self).wf(),
            old(self).engine.comp_registered(comp),
            forall|b: Vec<u8>|
                b@.len() == old(self).engine.comp_size(comp) ==> call_requires(writer, (b,)),
        ensures
            final(self).wf(),
            ({
                let before = if old(self).engine.has_cell(entity, comp) {
                    old(self).engine.cell_bytes(entity, comp)
                } else {
                    Seq::new(old(self).engine.comp_size(comp) as nat, |i: int| 0u8)
                };
                exists|inp: Vec<u8>, out: Vec<u8>|
                    {
                        &&& inp@ == before
                        &&& #[trigger] call_ensures(writer, (inp,), out)
                        &&& final(self).engine.has_cell(entity, comp)
                        &&& (out@.len() == old(self).engine.comp_size(comp) ==> r is Ok && final(self).engine.cell_bytes(entity, comp) == out@)
                        &&& (out@.len() != old(self).engine.comp_size(comp) ==> r is Err && final(self).engine.cell_bytes(entity, comp) == before)
                    }
            }),
            forall|e2: u64, c2: u64|
                !(e2 == entity && c2 == comp) ==> #[trigger] final(self).engine.has_cell(e2, c2)
                    == old(self).engine.has_cell(e2, c2),
            forall|e2: u64, c2: u64|
                !(e2 == entity && c2 == comp) && old(self).engine.has_cell(e2, c2)
                    ==> #[trigger] final(self).engine.cell_bytes(e2, c2) == old(self).engine.cell_bytes(e2, c2),
            final(self).engine.infos@ == old(self).engine.infos@,
            final(self).engine.alive@ == old(self).engine.alive@,
            final(self).engine.names@ == old(self).engine.names@,
            final(self).engine.next_id == old(self).engine.next_id,
            final(self).engine.quit_flag == old(self).engine.quit_flag,
            final(self).engine.delta == old(self).engine.delta,
            final(self).engine.systems@ == old(self).engine.systems@,
            final(self).typed@ == old(self).typed@,
            final(self).dynamics@ == old(self).dynamics@,
    {
        let info = self.engine.component_info(comp);
        let (size, _align) = match info {
            Some(p) => p,
            None => {
                proof {
                    assert(false);
                }
                (0, 0)
            },
        };
        self.engine.attach(entity, comp);
        let current = match self.engine.read_cell(entity, comp) {
            Some(b) => b,
            None => {
                proof {
                    assert(false);
                }
                Vec::new()
            },
        };
        let ghost inp_saved = current;
        let out = writer(current);
        if out.len() == size {
            self.engine.write_cell(entity, comp, out.as_slice());
            proof {
                assert(call_ensures(writer, (inp_saved,), out));
            }
            Ok(())
        } else {
            proof {
                assert(call_ensures(writer, (inp_saved,), out));
            }
            Err(ComponentError::SizeMismatch { expected: size, actual: out.len() })
        }
    }
}

/// The set/get round trip: a world whose cell for component `T` on entity
/// `e` holds the encoding of `v` — which is what `set(e, v)` leaves behind —
/// reads back as exactly `v` through the typed get path, for every
/// registered `T`, every entity and every value.
pub proof fn lemma_set_get_round_trip<T: Component>(w: World, e: u64, v: T)
    requires
        w.wf(),
        w.registered::<T>(),
        w.engine.has_cell(e, w.typed_id(T::key_spec())->Some_0),
        w.engine.cell_bytes(e, w.typed_id(T::key_spec())->Some_0) == v.enc(),
    ensures
        w.typed_value::<T>(e) == Some(v),
{
    v.lemma_round_trip();
}

/// Singleton isolation: a singleton write of component `T` — which touches
/// only the cell stored under `T`'s own component id and `T`'s own registry
/// binding, as `set_singleton` ensures — leaves the singleton of every
/// distinct component type `U` exactly as it was.
pub proof fn lemma_singleton_isolation<T: Component, U: Component>(pre: World, post: World)
    requires
        T::key_spec() != U::key_spec(),
        pre.wf(),
        post.wf(),
        post.typed_id(T::key_spec()) is Some,
        post.typed_id(U::key_spec()) == pre.typed_id(U::key_spec()),
        ({
            let c = post.typed_id(T::key_spec())->Some_0;
            forall|e2: u64, c2: u64|
                !(e2 == c && c2 == c) && pre.engine.has_cell(e2, c2) ==> #[trigger] post.engine.has_cell(
                    e2,
                    c2,
                ) && post.engine.cell_bytes(e2, c2) == pre.engine.cell_bytes(e2, c2)
        }),
        ({
            let c = post.typed_id(T::key_spec())->Some_0;
            forall|e2: u64, c2: u64|
                !(e2 == c && c2 == c) && !pre.engine.has_cell(e2, c2) ==> !(#[trigger] post.engine.has_cell(
                    e2,
                    c2,
                ))
        }),
    ensures
        post.singleton_value::<U>() == pre.singleton_value::<U>(),
{
    let ct = post.typed_id(T::key_spec())->Some_0;
    match pre.typed_id(U::key_spec()) {
        Some(cu) => {
            post.lemma_typed_has(T::key_spec());
            post.lemma_typed_has(U::key_spec());
            let it = typed_at(post.typed@, T::key_spec());
            let iu = typed_at(post.typed@, U::key_spec());
            assert(it != iu);
            if it < iu {
                assert(post.typed@[it].comp != post.typed@[iu].comp);
            } else {
                assert(post.typed@[iu].comp != post.typed@[it].comp);
            }
            assert(ct != cu);
            assert(!(cu == ct && cu == ct));
            if pre.engine.has_cell(cu, cu) {
                assert(post.engine.has_cell(cu, cu));
                assert(post.engine.cell_bytes(cu, cu) == pre.engine.cell_bytes(cu, cu));
            } else {
                assert(!post.engine.has_cell(cu, cu));
            }
        },
        None => {
        },
    }
}

} // verus!
