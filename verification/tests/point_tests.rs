use quadtree::{Point, UserData};

#[test]
fn new_point_has_no_payload() {
    let p = Point::new(3, -4);
    assert_eq!(p.x, 3);
    assert_eq!(p.y, -4);
    assert!(p.data.is_null());
    assert_eq!(p, Point::with_data(3, -4, UserData::null()));
}

#[test]
fn with_data_keeps_the_token() {
    let p = Point::with_data(3, -4, UserData::from_addr(0xbeef));
    assert_eq!(p.data.addr, 0xbeef);
    assert!(!p.data.is_null());
    assert_ne!(p, Point::new(3, -4));
}

#[test]
fn within_accepts_on_taxicab_distance_against_squared_radius() {
    let origin = Point::new(0, 0);
    assert!(Point::new(3, 4).within(&origin, 3));
    assert!(Point::new(-3, -4).within(&origin, 3));
    assert!(Point::new(9, 0).within(&origin, 3));
    assert!(Point::new(0, 9).within(&origin, 3));
    assert!(!Point::new(10, 0).within(&origin, 3));
    assert!(!Point::new(5, 5).within(&origin, 3));
    assert!(Point::new(4, 5).within(&origin, 3));
}

#[test]
fn within_refuses_beyond_both_tests() {
    let origin = Point::new(0, 0);
    assert!(!Point::new(3, 4).within(&origin, 2));
    assert!(!Point::new(1, 5).within(&origin, 2));
    assert!(!Point::new(2, 3).within(&origin, 2));
    assert!(Point::new(2, 2).within(&origin, 2));
    assert!(Point::new(0, 4).within(&origin, 2));
}

#[test]
fn within_at_small_radii() {
    let c = Point::new(7, 7);
    assert!(Point::new(7, 7).within(&c, 0));
    assert!(!Point::new(7, 8).within(&c, 0));
    assert!(Point::new(7, 8).within(&c, 1));
    assert!(Point::new(8, 7).within(&c, 1));
    assert!(!Point::new(8, 8).within(&c, 1));
}

#[test]
fn within_squares_a_negative_radius() {
    let origin = Point::new(0, 0);
    assert!(Point::new(1, 1).within(&origin, -3));
    assert!(Point::new(0, 9).within(&origin, -3));
    assert!(!Point::new(0, 10).within(&origin, -3));
}

#[test]
fn within_is_symmetric_and_ignores_payloads() {
    let a = Point::with_data(5, 5, UserData::from_addr(1));
    let b = Point::with_data(6, 5, UserData::from_addr(2));
    assert!(a.within(&b, 2));
    assert!(b.within(&a, 2));
    assert!(Point::new(5, 5).within(&Point::new(6, 5), 2));
    assert!(!a.within(&Point::new(1, 1), 2));
}

#[test]
fn within_at_the_ends_of_the_coordinate_range() {
    let low = Point::new(i32::MIN, i32::MIN);
    let high = Point::new(i32::MAX, i32::MAX);
    assert!(!low.within(&high, 92681));
    assert!(low.within(&high, 92682));
    assert!(low.within(&high, i32::MAX));
    assert!(low.within(&high, i32::MIN));
    assert!(!low.within(&high, 0));
    assert!(low.within(&low, 0));
}
