use quadtree::rectangle::{Rectangle, UNIT};
use quadtree::subdivision::QuadtreeSubdivisions;

#[test]
fn test_new() {
    let boundary = Rectangle::new(100, 200, 300, 400);
    let sd = QuadtreeSubdivisions::new(&boundary, 10u8);
    assert_eq!(sd.sw.boundary, Rectangle::new(250, 400, 150, 200));
    assert_eq!(sd.se.boundary, Rectangle::new(-50, 400, 150, 200));
    assert_eq!(sd.nw.boundary, Rectangle::new(250, 0, 150, 200));
    assert_eq!(sd.ne.boundary, Rectangle::new(-50, 0, 150, 200));
}

#[test]
fn children_start_empty_with_the_given_capacity() {
    let sd = QuadtreeSubdivisions::new(&Rectangle::new(0, 0, 8, 8), 3);
    for child in [&sd.nw, &sd.ne, &sd.sw, &sd.se] {
        assert_eq!(child.capacity, 3);
        assert!(child.points.is_empty());
        assert!(child.children.is_none());
        assert!(child.is_well_formed());
    }
}

#[test]
fn zero_capacity_children_get_the_default() {
    let sd = QuadtreeSubdivisions::new(&Rectangle::new(0, 0, 8, 8), 0);
    assert_eq!(sd.nw.capacity, 10);
    assert_eq!(sd.ne.capacity, 10);
    assert_eq!(sd.sw.capacity, 10);
    assert_eq!(sd.se.capacity, 10);
}

#[test]
fn odd_grid_extents_are_halved_exactly() {
    let sd = QuadtreeSubdivisions::new(&Rectangle::new(10, 10, 5, 7), 1);
    let half = UNIT / 2;
    assert_eq!(sd.nw.boundary, Rectangle { x: 12 * UNIT + half, y: 6 * UNIT + half, w: 2 * UNIT + half, h: 3 * UNIT + half });
    assert_eq!(sd.ne.boundary, Rectangle { x: 7 * UNIT + half, y: 6 * UNIT + half, w: 2 * UNIT + half, h: 3 * UNIT + half });
    assert_eq!(sd.sw.boundary, Rectangle { x: 12 * UNIT + half, y: 13 * UNIT + half, w: 2 * UNIT + half, h: 3 * UNIT + half });
    assert_eq!(sd.se.boundary, Rectangle { x: 7 * UNIT + half, y: 13 * UNIT + half, w: 2 * UNIT + half, h: 3 * UNIT + half });
}

#[test]
fn a_region_splits_exactly_thirty_one_times_and_more_if_it_is_even() {
    let mut odd = Rectangle::new(0, 0, 1, 3);
    let mut splits = 0;
    while odd.w % 2 == 0 && odd.h % 2 == 0 {
        odd = QuadtreeSubdivisions::new(&odd, 1).se.boundary;
        splits += 1;
    }
    assert_eq!(splits, 31);
    assert_eq!(odd.w, 1);
    assert_eq!(odd.h, 3);
    let mut even = Rectangle::new(0, 0, 8, 24);
    let mut splits = 0;
    while even.w % 2 == 0 && even.h % 2 == 0 {
        even = QuadtreeSubdivisions::new(&even, 1).se.boundary;
        splits += 1;
    }
    assert_eq!(splits, 34);
}

#[test]
fn odd_half_extents_are_halved_towards_zero() {
    let sd = QuadtreeSubdivisions::new(&Rectangle { x: 10, y: 10, w: 5, h: 7 }, 1);
    assert_eq!(sd.nw.boundary, Rectangle { x: 12, y: 7, w: 2, h: 3 });
    assert_eq!(sd.ne.boundary, Rectangle { x: 8, y: 7, w: 2, h: 3 });
    assert_eq!(sd.sw.boundary, Rectangle { x: 12, y: 13, w: 2, h: 3 });
    assert_eq!(sd.se.boundary, Rectangle { x: 8, y: 13, w: 2, h: 3 });
}

#[test]
fn negative_half_extents_are_halved_towards_zero() {
    let sd = QuadtreeSubdivisions::new(&Rectangle { x: 0, y: 0, w: -5, h: -1 }, 1);
    assert_eq!(sd.nw.boundary, Rectangle { x: -2, y: 0, w: -2, h: 0 });
    assert_eq!(sd.ne.boundary, Rectangle { x: 2, y: 0, w: -2, h: 0 });
    assert_eq!(sd.sw.boundary, Rectangle { x: -2, y: 0, w: -2, h: 0 });
    assert_eq!(sd.se.boundary, Rectangle { x: 2, y: 0, w: -2, h: 0 });
}

#[test]
fn the_widest_regions_split_without_overflow() {
    let boundary = Rectangle::new(i32::MAX, i32::MIN, i32::MAX, i32::MAX);
    let sd = QuadtreeSubdivisions::new(&boundary, 1);
    let half = i32::MAX as i64 * UNIT / 2;
    assert_eq!(sd.nw.boundary, Rectangle { x: i32::MAX as i64 * UNIT + half, y: i32::MIN as i64 * UNIT - half, w: half, h: half });
    assert_eq!(sd.se.boundary, Rectangle { x: i32::MAX as i64 * UNIT - half, y: i32::MIN as i64 * UNIT + half, w: half, h: half });
    assert!(sd.nw.is_well_formed());
    assert!(sd.se.is_well_formed());
    let edge = Rectangle { x: 0, y: 0, w: i64::MAX, h: i64::MIN + 1 };
    assert!(edge.is_well_formed());
    let sd = QuadtreeSubdivisions::new(&edge, 1);
    assert_eq!(sd.nw.boundary, Rectangle { x: i64::MAX / 2, y: i64::MAX / 2, w: i64::MAX / 2, h: -(i64::MAX / 2) });
}
