use typed_ecs::Component;
use typed_ecs::Entity;
use typed_ecs::World;

#[derive(Clone, Copy, Debug, PartialEq, Eq, Default)]
struct Position {
    x: i32,
    y: i32,
    z: i32,
}

#[derive(Clone, Copy, Debug, PartialEq, Eq, Default)]
struct Velocity {
    x: i32,
    y: i32,
    z: i32,
}

fn triple_to_bytes(x: i32, y: i32, z: i32) -> Vec<u8> {
    let mut b = Vec::new();
    b.extend_from_slice(&x.to_le_bytes());
    b.extend_from_slice(&y.to_le_bytes());
    b.extend_from_slice(&z.to_le_bytes());
    b
}

fn triple_from_bytes(b: &[u8]) -> (i32, i32, i32) {
    let x = i32::from_le_bytes([b[0], b[1], b[2], b[3]]);
    let y = i32::from_le_bytes([b[4], b[5], b[6], b[7]]);
    let z = i32::from_le_bytes([b[8], b[9], b[10], b[11]]);
    (x, y, z)
}

impl Component for Position {
    fn key_spec() -> u64 {
        unreachable!()
    }

    fn align_spec() -> usize {
        unreachable!()
    }

    fn size_spec() -> usize {
        unreachable!()
    }

    fn enc(self) -> vstd::seq::Seq<u8> {
        unreachable!()
    }

    fn dec(_bytes: vstd::seq::Seq<u8>) -> Self {
        unreachable!()
    }

    fn lemma_round_trip(self) {}

    fn type_key() -> u64 {
        0x2001
    }

    fn byte_size() -> usize {
        12
    }

    fn byte_align() -> usize {
        4
    }

    fn to_bytes(&self) -> Vec<u8> {
        triple_to_bytes(self.x, self.y, self.z)
    }

    fn from_bytes(b: &[u8]) -> Position {
        let (x, y, z) = triple_from_bytes(b);
        Position { x, y, z }
    }
}

impl Component for Velocity {
    fn key_spec() -> u64 {
        unreachable!()
    }

    fn align_spec() -> usize {
        unreachable!()
    }

    fn size_spec() -> usize {
        unreachable!()
    }

    fn enc(self) -> vstd::seq::Seq<u8> {
        unreachable!()
    }

    fn dec(_bytes: vstd::seq::Seq<u8>) -> Self {
        unreachable!()
    }

    fn lemma_round_trip(self) {}

    fn type_key() -> u64 {
        0x2002
    }

    fn byte_size() -> usize {
        12
    }

    fn byte_align() -> usize {
        4
    }

    fn to_bytes(&self) -> Vec<u8> {
        triple_to_bytes(self.x, self.y, self.z)
    }

    fn from_bytes(b: &[u8]) -> Velocity {
        let (x, y, z) = triple_from_bytes(b);
        Velocity { x, y, z }
    }
}

#[test]
fn positional_correspondence() {
    let mut w = World::new();
    w.component::<Position>();
    w.component::<Velocity>();

    let only_pos = w.entity();
    w.set(only_pos, Position { x: 1, y: 0, z: 0 });
    let only_vel = w.entity();
    w.set(only_vel, Velocity { x: 2, y: 0, z: 0 });
    let both = w.entity();
    w.set(both, Position { x: 3, y: 0, z: 0 });
    w.set(both, Velocity { x: 4, y: 0, z: 0 });

    let rows = w.each::<(Position, Velocity)>();
    assert_eq!(rows.len(), 1);
    let (e, (p, v)) = rows[0];
    assert_eq!(e.id, both.id);
    // the first element is always the Position, the second the Velocity
    assert_eq!(p, Position { x: 3, y: 0, z: 0 });
    assert_eq!(v, Velocity { x: 4, y: 0, z: 0 });

    let swapped = w.each::<(Velocity, Position)>();
    assert_eq!(swapped.len(), 1);
    let (e2, (v2, p2)) = swapped[0];
    assert_eq!(e2.id, both.id);
    assert_eq!(v2, Velocity { x: 4, y: 0, z: 0 });
    assert_eq!(p2, Position { x: 3, y: 0, z: 0 });
}

#[test]
fn each1_visits_every_holder() {
    let mut w = World::new();
    w.component::<Position>();
    let a = w.entity();
    w.set(a, Position { x: 1, y: 1, z: 1 });
    let _bare = w.entity();
    let b = w.entity();
    w.set(b, Position { x: 2, y: 2, z: 2 });

    let rows = w.each1::<Position>();
    assert_eq!(rows.len(), 2);
    assert_eq!(rows[0].0.id, a.id);
    assert_eq!(rows[0].1, Position { x: 1, y: 1, z: 1 });
    assert_eq!(rows[1].0.id, b.id);
    assert_eq!(rows[1].1, Position { x: 2, y: 2, z: 2 });
}

#[test]
fn three_entities_integration() {
    let mut w = World::new();
    w.component::<Position>();
    w.component::<Velocity>();
    for _ in 0..3 {
        let e = w.entity();
        w.set(e, Position::default());
        w.set(e, Velocity { x: 1, y: 1, z: 1 });
    }

    w.each_mut::<(Velocity, Position), _>(|_e: Entity, (vel, pos): (Velocity, Position)| {
        let moved = Position { x: pos.x + vel.x, y: pos.y + vel.y, z: pos.z + vel.z };
        (vel, moved)
    });

    let rows = w.each1::<Position>();
    assert_eq!(rows.len(), 3);
    for (_e, p) in rows {
        assert_eq!(p, Position { x: 1, y: 1, z: 1 });
    }
}

#[test]
fn filter_group_iterates() {
    let mut w = World::new();
    w.component::<Position>();
    let e = w.entity();
    w.set(e, Position { x: 8, y: 8, z: 8 });

    let filter = w.filter::<(Position,)>();
    let rows = filter.each(&w);
    assert_eq!(rows.len(), 1);
    assert_eq!(rows[0].0.id, e.id);
    assert_eq!((rows[0].1).0, Position { x: 8, y: 8, z: 8 });

    filter.each_mut(&mut w, |_e: Entity, (p,): (Position,)| {
        (Position { x: p.x + 1, y: p.y, z: p.z },)
    });
    assert_eq!(w.get::<Position>(e), Some(Position { x: 9, y: 8, z: 8 }));
}

#[test]
fn filter_builder_selects_matching_entities() {
    let mut w = World::new();
    w.component::<Position>();
    w.component::<Velocity>();
    let both = w.entity();
    w.set(both, Position { x: 1, y: 2, z: 3 });
    w.set(both, Velocity { x: 0, y: 0, z: 0 });
    let only_pos = w.entity();
    w.set(only_pos, Position { x: 5, y: 5, z: 5 });

    let filter = w
        .filter_builder()
        .with_component::<Position>(&w)
        .with_component::<Velocity>(&w)
        .build();
    let hits = filter.entities(&w);
    assert_eq!(hits.len(), 1);
    assert_eq!(hits[0].id, both.id);
}

#[test]
fn query_is_reusable() {
    let mut w = World::new();
    w.component::<Position>();
    let q = w.query().with_component::<Position>(&w).build();

    assert_eq!(q.entities(&w).len(), 0);
    let e = w.entity();
    w.set(e, Position { x: 1, y: 1, z: 1 });
    assert_eq!(q.entities(&w).len(), 1);
    let e2 = w.entity();
    w.set(e2, Position { x: 2, y: 2, z: 2 });
    let hits = q.entities(&w);
    assert_eq!(hits.len(), 2);
    assert_eq!(hits[0].id, e.id);
    assert_eq!(hits[1].id, e2.id);
}

#[test]
fn system_builder_registers_named_system() {
    let mut w = World::new();
    w.component::<Position>();
    let sys = w
        .system()
        .named("movement")
        .with_component::<Position>(&w)
        .build(&mut w);
    let found = w.lookup("movement").expect("system entity resolves by name");
    assert_eq!(found.id, sys);
}

#[test]
fn dynamic_components_register_by_symbol() {
    let mut w = World::new();
    let c1 = w.component_dynamic("Health", 4, 4);
    let c2 = w.component_dynamic("Health", 4, 4);
    assert_eq!(c1, c2);
    let c3 = w.component_dynamic_named("Mana", "mana_pool", 8, 8);
    assert_ne!(c1, c3);
    let found = w.lookup("mana_pool").expect("named component resolves");
    assert_eq!(found.id, c3);

    let e = w.entity();
    assert_eq!(w.set_component(e.id, c1, &[1, 0, 0, 0]), Ok(()));
    assert_eq!(w.read_component(e.id, c1).unwrap(), vec![1, 0, 0, 0]);
}

#[test]
fn builtin_integer_components() {
    let mut w = World::new();
    w.component::<u8>();
    w.component::<u64>();
    let e = w.entity();
    w.set(e, 200u8);
    w.set(e, 123_456_789_000u64);
    assert_eq!(w.get::<u8>(e), Some(200u8));
    assert_eq!(w.get::<u64>(e), Some(123_456_789_000u64));
    w.set_singleton(77u8);
    assert_eq!(w.get_singleton::<u8>(), Some(77u8));
}

#[test]
fn entity_builder_chaining() {
    let mut w = World::new();
    let marker = w.component_dynamic("Marker", 0, 1);
    let e = w.entity();
    let e = e.named(&mut w, "chained").add_id(&mut w, marker);
    assert_eq!(e.raw(), w.lookup("chained").unwrap().id);
    assert!(e.is_valid(&w));
}

#[derive(Clone, Copy, Debug, PartialEq, Eq, Default)]
struct Health {
    points: i32,
}

impl Component for Health {
    fn key_spec() -> u64 {
        unreachable!()
    }

    fn align_spec() -> usize {
        unreachable!()
    }

    fn size_spec() -> usize {
        unreachable!()
    }

    fn enc(self) -> vstd::seq::Seq<u8> {
        unreachable!()
    }

    fn dec(_bytes: vstd::seq::Seq<u8>) -> Self {
        unreachable!()
    }

    fn lemma_round_trip(self) {}

    fn type_key() -> u64 {
        0x2003
    }

    fn byte_size() -> usize {
        4
    }

    fn byte_align() -> usize {
        4
    }

    fn to_bytes(&self) -> Vec<u8> {
        self.points.to_le_bytes().to_vec()
    }

    fn from_bytes(b: &[u8]) -> Health {
        Health { points: i32::from_le_bytes([b[0], b[1], b[2], b[3]]) }
    }
}

#[test]
fn three_component_group() {
    let mut w = World::new();
    w.component::<Position>();
    w.component::<Velocity>();
    w.component::<Health>();

    let full = w.entity();
    w.set(full, Position { x: 1, y: 0, z: 0 });
    w.set(full, Velocity { x: 2, y: 0, z: 0 });
    w.set(full, Health { points: 3 });
    let partial = w.entity();
    w.set(partial, Position { x: 9, y: 9, z: 9 });
    w.set(partial, Health { points: 9 });

    let rows = w.each::<(Position, Velocity, Health)>();
    assert_eq!(rows.len(), 1);
    let (e, (p, v, h)) = rows[0];
    assert_eq!(e.id, full.id);
    assert_eq!(p, Position { x: 1, y: 0, z: 0 });
    assert_eq!(v, Velocity { x: 2, y: 0, z: 0 });
    assert_eq!(h, Health { points: 3 });

    w.each_mut::<(Position, Velocity, Health), _>(
        |_e: Entity, (pos, vel, hp): (Position, Velocity, Health)| {
            (Position { x: pos.x + vel.x, y: pos.y, z: pos.z }, vel, Health { points: hp.points - 1 })
        },
    );
    assert_eq!(w.get::<Position>(full), Some(Position { x: 3, y: 0, z: 0 }));
    assert_eq!(w.get::<Health>(full), Some(Health { points: 2 }));
    assert_eq!(w.get::<Position>(partial), Some(Position { x: 9, y: 9, z: 9 }));
}

#[test]
fn single_component_filter() {
    let mut w = World::new();
    w.component::<Health>();
    let a = w.entity();
    w.set(a, Health { points: 10 });
    let _bare = w.entity();

    let filter = typed_ecs::Filter::new_1::<Health>(&w);
    let hits = filter.entities(&w);
    assert_eq!(hits.len(), 1);
    assert_eq!(hits[0].id, a.id);
}

#[test]
fn quit_is_sticky_across_progress() {
    let mut w = World::new();
    w.quit();
    assert!(!w.progress(1_000));
    assert!(!w.progress(1_000));
}

#[test]
fn prefab_is_excluded_from_iteration() {
    let mut w = World::new();
    w.component::<Position>();
    let plain = w.entity();
    w.set(plain, Position { x: 1, y: 1, z: 1 });
    let tmpl = w.prefab("unit_template");
    w.set(tmpl, Position { x: 9, y: 9, z: 9 });

    let rows = w.each1::<Position>();
    assert_eq!(rows.len(), 1);
    assert_eq!(rows[0].0.id, plain.id);

    let filter = typed_ecs::Filter::new_1::<Position>(&w);
    let hits = filter.entities(&w);
    assert_eq!(hits.len(), 1);
    assert_eq!(hits[0].id, plain.id);

    // the template itself still reads back through the typed path
    assert_eq!(w.get::<Position>(tmpl), Some(Position { x: 9, y: 9, z: 9 }));
}

#[test]
fn system_descriptor_is_recorded() {
    let mut w = World::new();
    w.component::<Position>();
    w.component::<Velocity>();
    let before = w.raw().systems.len();
    let sys = w
        .system()
        .named("integrate")
        .with_component::<Velocity>(&w)
        .with_component::<Position>(&w)
        .build(&mut w);
    let records = &w.raw().systems;
    assert_eq!(records.len(), before + 1);
    let rec = records.last().unwrap();
    assert_eq!(rec.entity, sys);
    assert_eq!(rec.comps.len(), 2);
    let vel = w.id::<Velocity>().unwrap().id;
    let pos = w.id::<Position>().unwrap().id;
    assert_eq!(rec.comps[0], vel);
    assert_eq!(rec.comps[1], pos);
}
