use airspace::geometry::{Compass, Movement, Position, COORD_LIMIT, DIR_SCALE, FULL_TURN, PICO_PER_UNIT};
use airspace::spawn::{runway_number, SceneConfig, PLANE_SCALE, RUNWAY_WIDTH, UNIT_SCALE};
use airspace::world::{Attribute, Entity, Kind, Look, Record, Slot, Transform, World};
use rand::rngs::StdRng;
use rand::SeedableRng;

fn compass() -> Compass {
    let mut table = Vec::new();
    for h in 0..FULL_TURN {
        let angle = (h as f64) * std::f64::consts::PI / 1800.0;
        let east = (angle.sin() * DIR_SCALE as f64).round() as i32;
        let north = (angle.cos() * DIR_SCALE as f64).round() as i32;
        table.push((east, north));
    }
    Compass::from_table(table).expect("valid")
}

fn position_of(w: &World, e: Entity) -> Position {
    w.record(e).unwrap().position.unwrap()
}

fn transform_of(w: &World, e: Entity) -> Transform {
    w.record(e).unwrap().transform.unwrap()
}

#[test]
fn runway_numbers() {
    assert_eq!(runway_number(2350), 23);
    assert_eq!(runway_number(0), 0);
    assert_eq!(runway_number(3599), 35);
    assert_eq!(runway_number(99), 0);
    assert_eq!(runway_number(100), 1);
}

#[test]
fn plane_carries_its_label() {
    let mut w = World::new();
    let p = Position { x: 5, y: -6 };
    let m = Movement { heading: 2350, speed: 30_000 };
    let (plane, label) = w.spawn_plane(p, m);
    assert_eq!(plane.index, 0);
    assert_eq!(label.index, 1);
    let rec = w.record(plane).unwrap();
    assert_eq!(rec.kind, Some(Kind::Plane));
    assert_eq!(rec.position, Some(p));
    assert_eq!(rec.movement, Some(m));
    assert_eq!(rec.transform, Some(Transform { x: 5, y: -6, rotation: -2350, scale: PLANE_SCALE }));
    assert_eq!(rec.look, Some(Look::PlaneIcon));
    let lab = w.record(label).unwrap();
    assert_eq!(lab.look, Some(Look::Number(23)));
    assert_eq!(lab.transform, Some(Transform { x: 5, y: -6, rotation: -2350, scale: UNIT_SCALE }));
    assert_eq!(lab.position, None);
}

#[test]
fn due_north_moves_only_up() {
    let c = compass();
    let mut w = World::new();
    let start = Position { x: 3 * PICO_PER_UNIT, y: -2 * PICO_PER_UNIT };
    let (plane, _) = w.spawn_plane(start, Movement { heading: 0, speed: 30_000 });
    assert!(w.advance(&c, 2000));
    let p = position_of(&w, plane);
    assert_eq!(p.x, start.x);
    assert_eq!(p.y - start.y, 60 * PICO_PER_UNIT);
}

#[test]
fn due_east_moves_only_right() {
    let c = compass();
    let mut w = World::new();
    let start = Position { x: 0, y: 7 };
    let (plane, _) = w.spawn_plane(start, Movement { heading: 900, speed: 20_000 });
    assert!(w.advance(&c, 500));
    let p = position_of(&w, plane);
    assert_eq!(p.x - start.x, 10 * PICO_PER_UNIT);
    assert_eq!(p.y, start.y);
}

#[test]
fn south_west_moves_both_ways() {
    let c = compass();
    let mut w = World::new();
    let (plane, _) = w.spawn_plane(Position { x: 0, y: 0 }, Movement { heading: 2250, speed: 1_000 });
    assert!(w.advance(&c, 1000));
    let p = position_of(&w, plane);
    assert_eq!(p, Position { x: -707_107_000_000, y: -707_107_000_000 });
}

#[test]
fn zero_time_step_changes_nothing() {
    let c = compass();
    let mut w = World::new();
    let mut rng = StdRng::seed_from_u64(7);
    w.populate(&mut rng, &SceneConfig::standard());
    let before: Vec<Option<Record>> = (0..w.len()).map(|i| w.record(Entity { index: i })).collect();
    assert!(w.advance(&c, 0));
    let after: Vec<Option<Record>> = (0..w.len()).map(|i| w.record(Entity { index: i })).collect();
    assert_eq!(before, after);
}

#[test]
fn two_steps_equal_one_summed_step() {
    let c = compass();
    let mut rng = StdRng::seed_from_u64(11);
    let mut a = World::new();
    a.populate(&mut rng, &SceneConfig::standard());
    let mut rng = StdRng::seed_from_u64(11);
    let mut b = World::new();
    b.populate(&mut rng, &SceneConfig::standard());
    assert!(a.advance(&c, 16));
    assert!(a.advance(&c, 1234));
    assert!(b.advance(&c, 1250));
    for i in 0..a.len() {
        assert_eq!(a.record(Entity { index: i }), b.record(Entity { index: i }));
    }
}

#[test]
fn transform_follows_position() {
    let c = compass();
    let mut w = World::new();
    let (plane, label) = w.spawn_plane(Position { x: 100, y: 200 }, Movement { heading: 1800, speed: 1 });
    assert!(w.advance(&c, 3));
    let p = position_of(&w, plane);
    let t = transform_of(&w, plane);
    assert_eq!(p, Position { x: 100, y: 200 - 3_000_000 });
    assert_eq!((t.x, t.y), (p.x, p.y));
    assert_eq!(t.rotation, -1800);
    // the label is not a mover
    assert_eq!(transform_of(&w, label), Transform { x: 100, y: 200, rotation: -1800, scale: UNIT_SCALE });
}

#[test]
fn static_entities_stay() {
    let c = compass();
    let mut w = World::new();
    let r = w.spawn_runway(Position { x: 1, y: 2 }, 270 * PICO_PER_UNIT as u64, 900);
    let g = w.spawn_ground_station(Position { x: 0, y: 0 });
    assert!(w.advance(&c, 1000));
    assert_eq!(position_of(&w, r), Position { x: 1, y: 2 });
    assert_eq!(position_of(&w, g), Position { x: 0, y: 0 });
    assert_eq!(
        w.record(r).unwrap().look,
        Some(Look::Strip { width: RUNWAY_WIDTH, length: 270 * PICO_PER_UNIT as u64 })
    );
    assert_eq!(transform_of(&w, r).rotation, -900);
}

#[test]
fn advance_refuses_to_leave_the_range() {
    let c = compass();
    let mut w = World::new();
    let (a, _) = w.spawn_plane(Position { x: 0, y: 0 }, Movement { heading: 900, speed: 1_000 });
    let (b, _) = w.spawn_plane(Position { x: COORD_LIMIT - 5, y: 0 }, Movement { heading: 900, speed: 1 });
    assert!(!w.advance(&c, 1));
    assert_eq!(position_of(&w, a), Position { x: 0, y: 0 });
    assert_eq!(position_of(&w, b), Position { x: COORD_LIMIT - 5, y: 0 });
    // heading west is fine
    w.detach(b, Slot::Movement);
    w.attach(b, Attribute::Movement(Movement { heading: 2700, speed: 1 }));
    assert!(w.advance(&c, 1));
    assert_eq!(position_of(&w, b), Position { x: COORD_LIMIT - 5 - 1_000_000, y: 0 });
}

#[test]
fn heading_beyond_a_turn_wraps() {
    let c = compass();
    let mut w = World::new();
    let (plane, _) = w.spawn_plane(Position { x: 0, y: 0 }, Movement { heading: 4500, speed: 1 });
    assert!(w.advance(&c, 1));
    assert_eq!(position_of(&w, plane), Position { x: 1_000_000, y: 0 });
}

#[test]
fn attach_detach_and_query() {
    let mut w = World::new();
    let e0 = w.create_entity();
    let e1 = w.create_entity();
    let e2 = w.create_entity();
    assert_eq!(w.len(), 3);
    assert!(w.attach(e0, Attribute::Position(Position { x: 1, y: 1 })));
    assert!(w.attach(e2, Attribute::Position(Position { x: 2, y: 2 })));
    assert!(w.attach(e2, Attribute::Movement(Movement { heading: 0, speed: 1 })));
    assert!(w.attach(e1, Attribute::Kind(Kind::Runway)));
    assert_eq!(w.query(&vec![Slot::Position]), vec![e0, e2]);
    assert_eq!(w.query(&vec![Slot::Position, Slot::Movement]), vec![e2]);
    assert_eq!(w.query(&vec![Slot::Kind]), vec![e1]);
    assert_eq!(w.query(&vec![]), vec![e0, e1, e2]);
    assert_eq!(w.query(&vec![Slot::Look]), vec![]);
    assert!(w.detach(e2, Slot::Movement));
    assert_eq!(w.query(&vec![Slot::Position, Slot::Movement]), vec![]);
    // replacing an attribute keeps one value
    assert!(w.attach(e0, Attribute::Position(Position { x: 9, y: 9 })));
    assert_eq!(position_of(&w, e0), Position { x: 9, y: 9 });
}

#[test]
fn removed_entities_are_gone() {
    let mut w = World::new();
    let e0 = w.create_entity();
    let e1 = w.create_entity();
    assert!(w.attach(e0, Attribute::Look(Look::TowerIcon)));
    assert!(w.remove(e0));
    assert!(!w.remove(e0));
    assert!(!w.attach(e0, Attribute::Look(Look::TowerIcon)));
    assert!(!w.detach(e0, Slot::Look));
    assert_eq!(w.record(e0).unwrap().look, None);
    assert!(!w.record(e0).unwrap().alive);
    assert_eq!(w.query(&vec![]), vec![e1]);
    // handles are not reused
    let e2 = w.create_entity();
    assert_eq!(e2.index, 2);
    let missing = Entity { index: 40 };
    assert!(!w.attach(missing, Attribute::Kind(Kind::Plane)));
    assert_eq!(w.record(missing), None);
}
