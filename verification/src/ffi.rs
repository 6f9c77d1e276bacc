//! What the entry points for foreign callers compute, on handles that have
//! been checked and on plain values.
//!
//! A foreign caller holds a tree by a handle that may be absent, and gets
//! status codes and payload tokens back. Allocation, release and the layout
//! of what crosses the boundary belong to the caller of these functions.
use vstd::prelude::*;
use crate::model::{effective_capacity, TreeView};
use crate::point::Point;
use crate::rectangle::Rectangle;
use crate::tree::Quadtree;

verus! {

/// An opaque token for a reference that the caller owns.
///
/// The index stores the token with a point and hands it back unchanged. It
/// never looks behind it. The token `0` stands for "no payload".
#[derive(Clone, Copy, Debug, PartialEq, Eq, Structural)]
pub struct UserData {
    pub addr: usize,
}

impl UserData {
    /// The token that stands for "no payload".
    pub fn null() -> (d: UserData)
        ensures
            d.addr == 0,
    {
        UserData { addr: 0 }
    }

    /// The token for the reference at address `addr`.
    pub fn from_addr(addr: usize) -> (d: UserData)
        ensures
            d.addr == addr,
    {
        UserData { addr }
    }

    /// Whether this is the token for "no payload".
    pub fn is_null(&self) -> (b: bool)
        ensures
            b == (self.addr == 0),
    {
        self.addr == 0
    }
}

/// The status of an insertion that stored the point.
pub const STATUS_OK: i32 = 0;

/// The status of an insertion through an absent handle.
pub const STATUS_NULL_HANDLE: i32 = -1;

/// The status of an insertion that the tree refused.
pub const STATUS_OUT_OF_BOUNDS: i32 = -2;

/// The payload tokens of `points`, in their order.
pub open spec fn payloads_of(points: Seq<Point>) -> Seq<UserData> {
    Seq::new(points.len(), |i: int| points[i].data)
}

/// A new tree over the region with centre `(x, y)` and half-extents `w`
/// and `h`; a `capacity` of zero stands for the default.
pub fn quadtree_new(x: i32, y: i32, w: i32, h: i32, capacity: u8) -> (qt: Box<Quadtree>)
    ensures
        qt.wf(),
        qt@ == TreeView::leaf(
            Rectangle::on_grid(x as int, y as int, w as int, h as int),
            capacity,
        ),
        qt@.capacity == effective_capacity(capacity),
{
    let capacity: u8 = if capacity == 0 {
        10
    } else {
        capacity
    };

    let obj = Quadtree::with_capacity(&Rectangle::new(x, y, w, h), capacity);
    Box::new(obj)
}

/// Inserts the point `(x, y)` with the payload `data` into the tree behind
/// the handle, and says how that went.
pub fn quadtree_insert_point(qt: Option<&mut Quadtree>, x: i32, y: i32, data: UserData) -> (status:
    i32)
    requires
        qt matches Some(t) ==> t.wf(),
    ensures
        match qt {
            None => status == STATUS_NULL_HANDLE,
            Some(t) => {
                &&& final(t).wf()
                &&& final(t)@ == t@.insert(Point { x, y, data })
                &&& status == if t@.accepts(Point { x, y, data }) {
                    STATUS_OK
                } else {
                    STATUS_OUT_OF_BOUNDS
                }
            },
        },
{
    match qt {
        None => STATUS_NULL_HANDLE,
        Some(t) => match t.insert(&Point::with_data(x, y, data)) {
            Ok(_) => STATUS_OK,
            Err(_) => STATUS_OUT_OF_BOUNDS,
        },
    }
}

/// The payloads of the points that a query with centre `(x, y)` and radius
/// `r` finds in the tree behind the handle; none through an absent handle.
pub fn quadtree_query(qt: Option<&Quadtree>, x: i32, y: i32, r: i32) -> (payloads: Vec<UserData>)
    ensures
        payloads@ == match qt {
            None => Seq::empty(),
            Some(t) => payloads_of(t@.query(Point { x, y, data: UserData { addr: 0 } }, r as int)),
        },
{
    let mut payloads: Vec<UserData> = Vec::new();
    match qt {
        None => {},
        Some(t) => {
            let found = t.query(&Point::new(x, y), r);
            let mut i: usize = 0;
            while i < found.len()
                invariant
                    i <= found.len(),
                    payloads@ == payloads_of(found@.take(i as int)),
                decreases found.len() - i,
            {
                payloads.push(found[i].data);
                i += 1;
                assert(payloads@ == payloads_of(found@.take(i as int)));
            }
            assert(found@.take(i as int) == found@);
        },
    }
    payloads
}

} // verus!
