use caveripper::layout::{boxes_overlap, Direction, Door, Layout, Rect};

#[test]
fn test_collision() {
    assert!(!boxes_overlap(0, 0, 5, 7, 5, 5, 5, 5))
}

#[test]
fn overlapping_boxes_are_detected() {
    assert!(boxes_overlap(0, 0, 5, 7, 4, 6, 5, 5));
    assert!(boxes_overlap(-3, -3, 10, 10, 0, 0, 1, 1));
}

#[test]
fn corner_contact_is_not_overlap() {
    assert!(!boxes_overlap(0, 0, 5, 5, 5, 5, 5, 5));
    assert!(!boxes_overlap(0, 0, 5, 5, 0, 5, 5, 5));
}

#[test]
fn degenerate_boxes_overlap_nothing() {
    assert!(!boxes_overlap(2, 2, 0, 3, 0, 0, 5, 5));
    assert!(!boxes_overlap(0, 0, 5, 5, 1, 1, 3, 0));
    assert!(!boxes_overlap(1, 1, 0, 0, 1, 1, 0, 0));
}

#[test]
fn extreme_coordinates_do_not_overflow() {
    assert!(boxes_overlap(isize::MAX - 1, 0, 10, 1, isize::MAX - 2, 0, 2, 1));
    assert!(!boxes_overlap(isize::MIN, 0, 1, 1, isize::MAX, 0, 1, 1));
}

fn room(x: isize, z: isize) -> Rect {
    Rect { x, z, w: 4, h: 4 }
}

#[test]
fn single_unit_layout_without_doors() {
    let layout = Layout::new(room(0, 0), 0, vec![]);
    assert_eq!(layout.num_units(), 1);
    assert_eq!(layout.unit(0), room(0, 0));
    assert!(layout.open_doors().is_empty());
    assert!(layout.links().is_empty());
}

#[test]
fn placement_joins_meeting_doors() {
    let east = Door { x: 4, z: 2, dir: Direction::East };
    let north = Door { x: 2, z: 0, dir: Direction::North };
    let mut layout = Layout::new(room(0, 0), 0, vec![north, east]);
    let west = Door { x: 4, z: 2, dir: Direction::West };
    let far = Door { x: 8, z: 1, dir: Direction::East };
    assert!(layout.try_place(room(4, 0), 1, vec![far, west], 1, 1));
    assert_eq!(layout.num_units(), 2);
    assert_eq!(layout.unit(1), room(4, 0));
    assert_eq!(layout.links(), &vec![(east, west)]);
    assert_eq!(layout.open_doors(), &vec![north, far]);
}

#[test]
fn placement_rejects_overlap() {
    let east = Door { x: 4, z: 2, dir: Direction::East };
    let mut layout = Layout::new(room(0, 0), 0, vec![east]);
    let west = Door { x: 4, z: 2, dir: Direction::West };
    assert!(!layout.try_place(room(3, 0), 1, vec![west], 0, 0));
    assert_eq!(layout.num_units(), 1);
    assert_eq!(layout.open_doors(), &vec![east]);
    assert!(layout.links().is_empty());
}

#[test]
fn placement_rejects_doors_that_do_not_meet() {
    let east = Door { x: 4, z: 2, dir: Direction::East };
    let mut layout = Layout::new(room(0, 0), 0, vec![east]);
    let same_way = Door { x: 4, z: 2, dir: Direction::East };
    let elsewhere = Door { x: 4, z: 3, dir: Direction::West };
    assert!(!layout.try_place(room(4, 0), 1, vec![same_way], 0, 0));
    assert!(!layout.try_place(room(4, 0), 1, vec![elsewhere], 0, 0));
    assert!(!layout.try_place(room(4, 0), 1, vec![elsewhere], 1, 0));
    assert!(!layout.try_place(room(4, 0), 1, vec![elsewhere], 0, 1));
    assert_eq!(layout.num_units(), 1);
}

#[test]
fn placed_units_never_overlap() {
    let east = Door { x: 4, z: 2, dir: Direction::East };
    let mut layout = Layout::new(room(0, 0), 0, vec![east]);
    let west = Door { x: 4, z: 2, dir: Direction::West };
    let south = Door { x: 6, z: 4, dir: Direction::South };
    assert!(layout.try_place(room(4, 0), 1, vec![west, south], 0, 0));
    let north = Door { x: 6, z: 4, dir: Direction::North };
    assert!(layout.try_place(room(4, 4), 1, vec![north], 0, 0));
    for i in 0..layout.num_units() {
        for j in 0..layout.num_units() {
            if i != j {
                assert!(!layout.unit(i).overlaps(&layout.unit(j)));
            }
        }
    }
    for (a, b) in layout.links() {
        assert!(a.meets(b));
        assert_eq!((a.x, a.z), (b.x, b.z));
        assert_eq!(b.dir, a.dir.opposite());
    }
    assert!(layout.open_doors().is_empty());
}

#[test]
fn opposite_directions() {
    assert_eq!(Direction::North.opposite(), Direction::South);
    assert_eq!(Direction::East.opposite(), Direction::West);
    assert_eq!(Direction::South.opposite(), Direction::North);
    assert_eq!(Direction::West.opposite(), Direction::East);
}

#[test]
fn slug_of_single_unit() {
    let layout = Layout::new(Rect { x: 0, z: 0, w: 3, h: 3 }, 0, vec![]);
    assert_eq!(layout.slug(), "0@0,0");
}

#[test]
fn slug_writes_negative_corners() {
    let west = Door { x: 0, z: 2, dir: Direction::West };
    let mut layout = Layout::new(room(0, 0), 0, vec![west]);
    let east = Door { x: 0, z: 2, dir: Direction::East };
    assert!(layout.try_place(room(-4, 0), 12, vec![east], 0, 0));
    assert_eq!(layout.kind(1), 12);
    assert_eq!(layout.slug(), "0@0,0;12@-4,0");
}
