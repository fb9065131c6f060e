use caveripper::point::Point;

#[test]
fn swap_exchanges_axes() {
    let mut p = Point([1i64, 2, 3]);
    p.swap(0, 2);
    assert_eq!(p.0, [3, 2, 1]);
    p.swap(1, 1);
    assert_eq!(p.0, [3, 2, 1]);
}

#[test]
fn perpendicular_turns_a_quarter() {
    let p = Point([3i64, 4]);
    assert_eq!(p.perpendicular().0, [-4, 3]);
    assert_eq!(p.perpendicular().perpendicular().0, [-3, -4]);
}

#[test]
fn projection_drops_height() {
    let p: Point<2, i64> = Point::from(Point([1i64, 9, 5]));
    assert_eq!(p.0, [1, 5]);
}

#[test]
fn default_is_origin() {
    let p: Point<3, i64> = Point::default();
    assert_eq!(p.0, [0, 0, 0]);
}

#[test]
fn coordinate_arithmetic() {
    let a = Point([6i64, -8]);
    let b = Point([2i64, 3]);
    assert_eq!(a.add(&b).0, [8, -5]);
    assert_eq!(a.sub(&b).0, [4, -11]);
    assert_eq!(a.sub_scalar(1).0, [5, -9]);
    assert_eq!(a.mul(&b).0, [12, -24]);
    assert_eq!(a.mul_scalar(-2).0, [-12, 16]);
    assert_eq!(a.div(&b).0, [3, -2]);
    assert_eq!(a.div_scalar(4).0, [1, -2]);
    assert_eq!(Point([-7i64, 7]).div_scalar(-2).0, [3, -3]);
}

#[test]
fn accessors() {
    let mut p = Point([1i64, 2]);
    assert_eq!(*p.get(1), 2);
    p.set(0, 10);
    assert_eq!(p.0, [10, 2]);
}

#[test]
fn squared_distance_of_three_four_five() {
    let p = Point([3i64, 4]);
    let o: Point<2, i64> = Point::default();
    assert_eq!(p.dist_sq(&o), 25);
    assert_eq!(Point([i64::MAX]).dist_sq(&Point([i64::MIN])), (u64::MAX as u128) * (u64::MAX as u128));
}

#[test]
fn text_lists_coordinates() {
    assert_eq!(Point([3i64, -4]).to_text(), "(3, -4)");
    assert_eq!(Point([7i64, 0, 1]).to_text(), "(7, 0, 1)");
}

#[test]
fn add_assign_adds_in_place() {
    let mut p = Point([1i64, -2]);
    p.add_assign(&Point([10i64, 20]));
    assert_eq!(p.0, [11, 18]);
}

#[test]
fn text_of_single_coordinate() {
    assert_eq!(Point([-12i64]).to_text(), "(-12)");
}
