use typed_ecs::Component;
use typed_ecs::ComponentError;
use typed_ecs::Engine;
use typed_ecs::World;

#[derive(Clone, Copy, Debug, PartialEq, Eq, Default)]
struct Position {
    x: i32,
    y: i32,
    z: i32,
}

#[derive(Clone, Copy, Debug, PartialEq, Eq, Default)]
struct Velocity {
    x: i32,
    y: i32,
    z: i32,
}

fn triple_to_bytes(x: i32, y: i32, z: i32) -> Vec<u8> {
    let mut b = Vec::new();
    b.extend_from_slice(&x.to_le_bytes());
    b.extend_from_slice(&y.to_le_bytes());
    b.extend_from_slice(&z.to_le_bytes());
    b
}

fn triple_from_bytes(b: &[u8]) -> (i32, i32, i32) {
    let x = i32::from_le_bytes([b[0], b[1], b[2], b[3]]);
    let y = i32::from_le_bytes([b[4], b[5], b[6], b[7]]);
    let z = i32::from_le_bytes([b[8], b[9], b[10], b[11]]);
    (x, y, z)
}

impl Component for Position {
    fn key_spec() -> u64 {
        unreachable!()
    }

    fn align_spec() -> usize {
        unreachable!()
    }

    fn size_spec() -> usize {
        unreachable!()
    }

    fn enc(self) -> vstd::seq::Seq<u8> {
        unreachable!()
    }

    fn dec(_bytes: vstd::seq::Seq<u8>) -> Self {
        unreachable!()
    }

    fn lemma_round_trip(self) {}

    fn type_key() -> u64 {
        0x2001
    }

    fn byte_size() -> usize {
        12
    }

    fn byte_align() -> usize {
        4
    }

    fn to_bytes(&self) -> Vec<u8> {
        triple_to_bytes(self.x, self.y, self.z)
    }

    fn from_bytes(b: &[u8]) -> Position {
        let (x, y, z) = triple_from_bytes(b);
        Position { x, y, z }
    }
}

impl Component for Velocity {
    fn key_spec() -> u64 {
        unreachable!()
    }

    fn align_spec() -> usize {
        unreachable!()
    }

    fn size_spec() -> usize {
        unreachable!()
    }

    fn enc(self) -> vstd::seq::Seq<u8> {
        unreachable!()
    }

    fn dec(_bytes: vstd::seq::Seq<u8>) -> Self {
        unreachable!()
    }

    fn lemma_round_trip(self) {}

    fn type_key() -> u64 {
        0x2002
    }

    fn byte_size() -> usize {
        12
    }

    fn byte_align() -> usize {
        4
    }

    fn to_bytes(&self) -> Vec<u8> {
        triple_to_bytes(self.x, self.y, self.z)
    }

    fn from_bytes(b: &[u8]) -> Velocity {
        let (x, y, z) = triple_from_bytes(b);
        Velocity { x, y, z }
    }
}

#[test]
fn registration_is_idempotent() {
    let mut w = World::new();
    let first = w.component::<Position>();
    let second = w.component::<Position>();
    assert_eq!(first.id, second.id);
    let third = w.component::<Position>();
    assert_eq!(first.id, third.id);
}

#[test]
fn registration_distinct_types_distinct_ids() {
    let mut w = World::new();
    let p = w.component::<Position>();
    let v = w.component::<Velocity>();
    assert_ne!(p.id, v.id);
}

#[test]
fn id_reports_registration() {
    let mut w = World::new();
    assert!(w.id::<Position>().is_none());
    let c = w.component::<Position>();
    let found = w.id::<Position>().expect("registered type has an id");
    assert_eq!(found.id, c.id);
    assert_eq!(w.component_id::<Position>(), c.id);
}

#[test]
fn set_get_round_trip() {
    let mut w = World::new();
    w.component::<Position>();
    let e = w.entity();
    let v = Position { x: 7, y: -3, z: 42 };
    w.set(e, v);
    assert_eq!(w.get::<Position>(e), Some(v));
}

#[test]
fn get_absent_component_is_none() {
    let mut w = World::new();
    w.component::<Position>();
    let e = w.entity();
    assert_eq!(w.get::<Position>(e), None);
}

#[test]
fn set_overwrites_in_place() {
    let mut w = World::new();
    w.component::<Position>();
    let e = w.entity();
    w.set(e, Position { x: 1, y: 1, z: 1 });
    w.set(e, Position { x: 9, y: 9, z: 9 });
    assert_eq!(w.get::<Position>(e), Some(Position { x: 9, y: 9, z: 9 }));
}

#[test]
fn add_attaches_zeroed_slot() {
    let mut w = World::new();
    w.component::<Position>();
    let e = w.entity();
    w.add::<Position>(e);
    assert_eq!(w.get::<Position>(e), Some(Position { x: 0, y: 0, z: 0 }));
}

#[test]
fn singleton_round_trip() {
    let mut w = World::new();
    let v = Position { x: 5, y: 6, z: 7 };
    w.set_singleton(v);
    assert_eq!(w.get_singleton::<Position>(), Some(v));
}

#[test]
fn singleton_isolation_between_types() {
    let mut w = World::new();
    let p = Position { x: 1, y: 2, z: 3 };
    let v = Velocity { x: 9, y: 8, z: 7 };
    w.set_singleton(p);
    w.set_singleton(v);
    assert_eq!(w.get_singleton::<Position>(), Some(p));
    assert_eq!(w.get_singleton::<Velocity>(), Some(v));
    let p2 = Position { x: -1, y: -2, z: -3 };
    w.set_singleton(p2);
    assert_eq!(w.get_singleton::<Position>(), Some(p2));
    assert_eq!(w.get_singleton::<Velocity>(), Some(v));
}

#[test]
fn untyped_size_guard_reports_mismatch() {
    let mut w = World::new();
    let c = w.component::<Position>();
    let e = w.entity();
    w.set(e, Position { x: 4, y: 5, z: 6 });
    let short = vec![0u8; 5];
    let r = w.set_component(e.id, c.id, &short);
    assert_eq!(
        r,
        Err(ComponentError::SizeMismatch { expected: 12, actual: 5 })
    );
    // the destination is left unchanged
    assert_eq!(w.get::<Position>(e), Some(Position { x: 4, y: 5, z: 6 }));
}

#[test]
fn untyped_set_and_read_round_trip() {
    let mut w = World::new();
    let c = w.component::<Position>();
    let e = w.entity();
    let bytes = triple_to_bytes(10, 20, 30);
    assert_eq!(w.set_component(e.id, c.id, &bytes), Ok(()));
    let back = w.read_component(e.id, c.id).expect("bytes were written");
    assert_eq!(back, bytes);
    assert_eq!(w.get::<Position>(e), Some(Position { x: 10, y: 20, z: 30 }));
}

#[test]
fn read_component_invalid_entity_is_none() {
    let mut w = World::new();
    let c = w.component::<Position>();
    assert_eq!(w.read_component(999_999, c.id), None);
}

#[test]
fn write_component_applies_writer() {
    let mut w = World::new();
    let c = w.component::<Position>();
    let e = w.entity();
    w.set(e, Position { x: 1, y: 0, z: 0 });
    let r = w.write_component(e.id, c.id, |mut bytes: Vec<u8>| {
        bytes[0] = 2;
        bytes
    });
    assert_eq!(r, Ok(()));
    assert_eq!(w.get::<Position>(e), Some(Position { x: 2, y: 0, z: 0 }));
}

#[test]
fn write_component_rejects_resized_result() {
    let mut w = World::new();
    let c = w.component::<Position>();
    let e = w.entity();
    w.set(e, Position { x: 1, y: 2, z: 3 });
    let r = w.write_component(e.id, c.id, |_bytes: Vec<u8>| Vec::new());
    assert_eq!(r, Err(ComponentError::SizeMismatch { expected: 12, actual: 0 }));
    assert_eq!(w.get::<Position>(e), Some(Position { x: 1, y: 2, z: 3 }));
}

#[test]
fn find_entity_validity() {
    let mut w = World::new();
    let e = w.entity();
    let found = w.find_entity(e.id).expect("live entity is found");
    assert_eq!(found.id, e.id);
    assert!(w.find_entity(424_242).is_none());
}

#[test]
fn lookup_resolves_names() {
    let mut w = World::new();
    let e = w.entity();
    let e = e.named(&mut w, "player");
    let found = w.lookup("player").expect("named entity resolves");
    assert_eq!(found.id, e.id);
    assert!(w.lookup("monster").is_none());
    let got = w.name(e).expect("entity has a name");
    assert_eq!(got, "player");
}

#[test]
fn prefab_is_tagged_and_named() {
    let mut w = World::new();
    let tmpl = w.prefab("template");
    let found = w.lookup("template").expect("prefab resolves by name");
    assert_eq!(found.id, tmpl.id);
    assert!(tmpl.is_valid(&w));
}

#[test]
fn quit_makes_progress_return_false() {
    let mut w = World::new();
    let _e = w.entity();
    assert!(w.progress(16_000));
    w.quit();
    assert!(!w.progress(16_000));
}

#[test]
fn delta_time_records_timestep() {
    let mut w = World::new();
    assert_eq!(w.delta_time(), 0);
    w.progress(16_000);
    assert_eq!(w.delta_time(), 16_000);
}

#[test]
fn borrowed_world_from_engine() {
    let engine = Engine::init();
    let mut w = World::new_from(engine);
    w.component::<Position>();
    let e = w.entity();
    w.set(e, Position { x: 3, y: 3, z: 3 });
    assert_eq!(w.get::<Position>(e), Some(Position { x: 3, y: 3, z: 3 }));
    assert!(w.raw().is_valid(e.id));
}

#[test]
fn component_named_resolves() {
    let mut w = World::new();
    let c = w.component_named::<Position>("position");
    let found = w.lookup("position").expect("named component resolves");
    assert_eq!(found.id, c);
    assert_eq!(w.component_id::<Position>(), c);
}

#[test]
fn lookup_returns_earliest_name_record() {
    let mut w = World::new();
    let first = w.entity().named(&mut w, "twin");
    let _second = w.entity().named(&mut w, "twin");
    let found = w.lookup("twin").expect("name resolves");
    assert_eq!(found.id, first.id);
}

#[test]
fn renaming_updates_the_record() {
    let mut w = World::new();
    let e = w.entity().named(&mut w, "before");
    let e = e.named(&mut w, "after");
    assert_eq!(w.lookup("after").unwrap().id, e.id);
    assert_eq!(w.name(e).unwrap(), "after");
}

#[test]
fn add_registers_if_needed() {
    let mut w = World::new();
    let e = w.entity();
    w.add::<Position>(e);
    let c = w.id::<Position>().expect("add registered the type");
    assert!(c.id >= 2);
    assert_eq!(w.get::<Position>(e), Some(Position { x: 0, y: 0, z: 0 }));
}

#[test]
fn get_on_invalid_entity_is_none() {
    let mut w = World::new();
    w.component::<Position>();
    assert_eq!(w.get::<Position>(typed_ecs::Entity::new(777_777)), None);
}

#[test]
fn registration_records_layout() {
    let mut w = World::new();
    let c = w.component::<Position>();
    let info = w.raw().component_info(c.id).expect("registered component has info");
    assert_eq!(info, (12, 4));
}

#[test]
fn update_singleton_read_modify_write() {
    let mut w = World::new();
    w.set_singleton(Position { x: 1, y: 2, z: 3 });
    w.update_singleton::<Position, _>(|p: Position| Position { x: p.x + 10, y: p.y, z: p.z });
    assert_eq!(w.get_singleton::<Position>(), Some(Position { x: 11, y: 2, z: 3 }));
}

#[test]
fn update_singleton_starts_zeroed_when_absent() {
    let mut w = World::new();
    w.update_singleton::<Position, _>(|p: Position| Position { x: p.x + 5, y: p.y, z: p.z });
    assert_eq!(w.get_singleton::<Position>(), Some(Position { x: 5, y: 0, z: 0 }));
}
