use quadtree::ffi::{quadtree_insert_point, quadtree_new, quadtree_query, UserData, STATUS_NULL_HANDLE, STATUS_OK, STATUS_OUT_OF_BOUNDS};
use quadtree::rectangle::Rectangle;

#[test]
fn test_c_api() {
    let mut qt = quadtree_new(10, 10, 10, 10, 10);
    assert_eq!(qt.capacity, 10);

    let result = quadtree_insert_point(Some(&mut *qt), 1, 2, UserData::null());
    assert_eq!(result, 0);
    let result = quadtree_query(Some(&*qt), 1, 1, 5);
    assert_eq!(1, result.len());
    let value = result[0];
    assert!(value.is_null());
}

#[test]
fn zero_capacity_stands_for_the_default() {
    let qt = quadtree_new(1, 2, 3, 4, 0);
    assert_eq!(qt.capacity, 10);
    assert_eq!(qt.boundary, Rectangle::new(1, 2, 3, 4));
    assert!(qt.points.is_empty());
    assert!(qt.children.is_none());
    assert_eq!(quadtree_new(1, 2, 3, 4, 7).capacity, 7);
}

#[test]
fn status_codes() {
    assert_eq!(STATUS_OK, 0);
    assert_eq!(STATUS_NULL_HANDLE, -1);
    assert_eq!(STATUS_OUT_OF_BOUNDS, -2);
    let mut qt = quadtree_new(10, 10, 10, 10, 1);
    assert_eq!(quadtree_insert_point(None, 1, 2, UserData::null()), -1);
    assert_eq!(quadtree_insert_point(Some(&mut *qt), 1, 2, UserData::null()), 0);
    assert_eq!(quadtree_insert_point(Some(&mut *qt), 21, 2, UserData::null()), -2);
    assert_eq!(quadtree_insert_point(Some(&mut *qt), 0, 2, UserData::null()), -2);
    assert_eq!(qt.points.len(), 1);
    assert!(qt.children.is_none());
}

#[test]
fn query_through_an_absent_handle_finds_nothing() {
    assert!(quadtree_query(None, 1, 1, 5).is_empty());
}

#[test]
fn payloads_come_back_unchanged_and_in_query_order() {
    let mut qt = quadtree_new(10, 10, 10, 10, 1);
    let a = UserData::from_addr(0x1000);
    let b = UserData::from_addr(0x2000);
    let c = UserData::from_addr(usize::MAX);
    assert_eq!(quadtree_insert_point(Some(&mut *qt), 1, 1, a), 0);
    assert_eq!(quadtree_insert_point(Some(&mut *qt), 1, 11, b), 0);
    assert_eq!(quadtree_insert_point(Some(&mut *qt), 9, 1, c), 0);
    assert_eq!(quadtree_insert_point(Some(&mut *qt), 11, 11, UserData::null()), 0);
    assert_eq!(quadtree_query(Some(&*qt), 10, 10, 5), vec![a, c, UserData::null(), b]);
    assert_eq!(quadtree_query(Some(&*qt), 1, 11, 0), vec![b]);
    assert_eq!(quadtree_query(Some(&*qt), 9, 1, 0), vec![c]);
    assert!(quadtree_query(Some(&*qt), 30, 30, 100).is_empty());
}

#[test]
fn the_query_centre_carries_no_payload_of_its_own() {
    let mut qt = quadtree_new(0, 0, 4, 4, 4);
    let token = UserData::from_addr(42);
    assert_eq!(quadtree_insert_point(Some(&mut *qt), 1, 1, token), 0);
    let found = quadtree_query(Some(&*qt), 1, 1, 0);
    assert_eq!(found.len(), 1);
    assert_eq!(found[0].addr, 42);
}
