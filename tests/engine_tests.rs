use caveripper::engine::{generate, world_doors, DoorSpot, GenerationError, SublevelSpec, UnitTemplate};
use caveripper::layout::{Direction, Door, Entity, Layout, Rect};

fn spot(dx: u16, dz: u16, dir: Direction) -> DoorSpot {
    DoorSpot { dx, dz, dir }
}

fn corridor_spec(budget: usize) -> SublevelSpec {
    SublevelSpec {
        start: UnitTemplate { w: 2, h: 2, weight: 0, doors: vec![spot(2, 1, Direction::East)], spawns: vec![] },
        candidates: vec![UnitTemplate {
            w: 2,
            h: 2,
            weight: 1,
            doors: vec![spot(0, 1, Direction::West), spot(2, 1, Direction::East)],
            spawns: vec![],
        }],
        budget,
    }
}

fn assert_sound(layout: &Layout) {
    for i in 0..layout.num_units() {
        for j in 0..layout.num_units() {
            if i != j {
                assert!(!layout.unit(i).overlaps(&layout.unit(j)));
            }
        }
    }
    for (a, b) in layout.links() {
        assert!(a.meets(b));
    }
}

#[test]
fn single_unit_budget_succeeds() {
    let spec = SublevelSpec {
        start: UnitTemplate { w: 3, h: 3, weight: 0, doors: vec![], spawns: vec![] },
        candidates: vec![],
        budget: 1,
    };
    let layout = generate(7, &spec).unwrap();
    assert_eq!(layout.num_units(), 1);
    assert_eq!(layout.unit(0), Rect { x: 0, z: 0, w: 3, h: 3 });
    assert!(layout.open_doors().is_empty());
    assert!(layout.links().is_empty());
}

#[test]
fn start_doors_are_open() {
    let layout = generate(0, &corridor_spec(1)).unwrap();
    assert_eq!(layout.open_doors(), &vec![Door { x: 2, z: 1, dir: Direction::East }]);
}

#[test]
fn zero_budget_is_invalid() {
    assert_eq!(generate(0, &corridor_spec(0)).err(), Some(GenerationError::InvalidSpec));
}

#[test]
fn zero_weights_are_invalid() {
    let mut spec = corridor_spec(3);
    spec.candidates[0].weight = 0;
    assert_eq!(generate(0, &spec).err(), Some(GenerationError::InvalidSpec));
}

#[test]
fn weights_beyond_32_bits_are_invalid() {
    let mut spec = corridor_spec(3);
    spec.candidates[0].weight = u32::MAX;
    spec.candidates.push(UnitTemplate { w: 1, h: 1, weight: 1, doors: vec![], spawns: vec![] });
    assert_eq!(generate(0, &spec).err(), Some(GenerationError::InvalidSpec));
}

#[test]
fn corridor_generates_sound_layout() {
    let layout = generate(0x12345678, &corridor_spec(5)).unwrap();
    assert_eq!(layout.num_units(), 5);
    assert_eq!(layout.unit(0), Rect { x: 0, z: 0, w: 2, h: 2 });
    for i in 0..5 {
        assert_eq!(layout.unit(i), Rect { x: 2 * i as isize, z: 0, w: 2, h: 2 });
    }
    assert_eq!(layout.links().len(), 4);
    assert_eq!(layout.open_doors(), &vec![Door { x: 10, z: 1, dir: Direction::East }]);
    assert_sound(&layout);
}

#[test]
fn same_seed_same_layout() {
    let spec = corridor_spec(6);
    let a = generate(0x12345678, &spec).unwrap();
    let b = generate(0x12345678, &spec).unwrap();
    assert_eq!(a.num_units(), b.num_units());
    for i in 0..a.num_units() {
        assert_eq!(a.unit(i), b.unit(i));
    }
    assert_eq!(a.links(), b.links());
    assert_eq!(a.open_doors(), b.open_doors());
}

#[test]
fn unsatisfiable_spec_fails_for_every_seed() {
    let spec = SublevelSpec {
        start: UnitTemplate { w: 2, h: 2, weight: 0, doors: vec![spot(2, 1, Direction::East)], spawns: vec![] },
        candidates: vec![UnitTemplate { w: 2, h: 2, weight: 1, doors: vec![spot(0, 1, Direction::East)], spawns: vec![] }],
        budget: 2,
    };
    for seed in 0..200u32 {
        assert_eq!(generate(seed, &spec).err(), Some(GenerationError::GenerationFailure));
    }
}

#[test]
fn dead_end_fails() {
    let spec = SublevelSpec {
        start: UnitTemplate { w: 2, h: 2, weight: 0, doors: vec![], spawns: vec![] },
        candidates: vec![UnitTemplate { w: 2, h: 2, weight: 1, doors: vec![spot(0, 1, Direction::West)], spawns: vec![] }],
        budget: 2,
    };
    assert_eq!(generate(1, &spec).err(), Some(GenerationError::GenerationFailure));
}

#[test]
fn world_doors_offset_from_corner() {
    let r = Rect { x: 10, z: -4, w: 3, h: 3 };
    let ds = world_doors(r, &vec![spot(0, 1, Direction::West), spot(3, 2, Direction::East)]).unwrap();
    assert_eq!(
        ds,
        vec![Door { x: 10, z: -3, dir: Direction::West }, Door { x: 13, z: -2, dir: Direction::East }]
    );
    assert!(world_doors(Rect { x: isize::MAX, z: 0, w: 1, h: 1 }, &vec![spot(1, 0, Direction::East)]).is_none());
}

#[test]
fn corridor_slug_lists_units_in_order() {
    let layout = generate(0x12345678, &corridor_spec(5)).unwrap();
    assert_eq!(layout.kind(0), 0);
    assert_eq!(layout.kind(4), 1);
    assert_eq!(layout.slug(), "0@0,0;1@2,0;1@4,0;1@6,0;1@8,0");
}

#[test]
fn same_seed_same_slug() {
    let spec = corridor_spec(4);
    assert_eq!(generate(0x12345678, &spec).unwrap().slug(), generate(0x12345678, &spec).unwrap().slug());
}

#[test]
fn empty_spawn_table_spawns_nothing() {
    let spec = SublevelSpec {
        start: UnitTemplate { w: 3, h: 3, weight: 0, doors: vec![], spawns: vec![] },
        candidates: vec![],
        budget: 1,
    };
    let layout = generate(99, &spec).unwrap();
    assert_eq!(layout.num_units(), 1);
    assert!(layout.entities().is_empty());
}

#[test]
fn spawn_pass_draws_type_then_offset() {
    let spec = SublevelSpec {
        start: UnitTemplate { w: 3, h: 3, weight: 0, doors: vec![], spawns: vec![0, 5] },
        candidates: vec![],
        budget: 1,
    };
    let layout = generate(1, &spec).unwrap();
    assert_eq!(layout.entities(), &vec![Entity { kind: 1, unit: 0, x: 0, z: 0 }]);
}

#[test]
fn spawned_entities_stand_in_their_units() {
    let mut spec = corridor_spec(5);
    spec.candidates[0].spawns = vec![1, 1, 1];
    let layout = generate(0x12345678, &spec).unwrap();
    assert_eq!(layout.entities().len(), 4);
    for e in layout.entities() {
        assert!(e.unit >= 1 && e.kind < 3);
        let r = layout.unit(e.unit);
        assert!(r.x <= e.x && e.x < r.x + 2 && r.z <= e.z && e.z < r.z + 2);
    }
}

#[test]
fn oversized_spawn_table_is_invalid() {
    let mut spec = corridor_spec(2);
    spec.start.spawns = vec![u32::MAX, 1];
    assert_eq!(generate(0, &spec).err(), Some(GenerationError::InvalidSpec));
}
