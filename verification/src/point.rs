//! Grid points and the proximity test that queries use.
//!
//! A point lies on the integer grid: its coordinates count whole grid
//! steps.
use vstd::prelude::*;
use crate::ffi::UserData;

verus! {

/// A position on the grid, with the payload token attached to it.
#[derive(Clone, Copy, Debug, PartialEq, Eq, Structural)]
pub struct Point {
    pub x: i32,
    pub y: i32,
    pub data: UserData,
}

/// The distance between two coordinates along one axis.
pub open spec fn axis_distance(a: int, b: int) -> int {
    if a >= b {
        a - b
    } else {
        b - a
    }
}

impl Point {
    /// The sum of the distances along both axes between `self` and `c`.
    pub open spec fn taxicab(self, c: Point) -> int {
        axis_distance(self.x as int, c.x as int) + axis_distance(self.y as int, c.y as int)
    }

    /// The proximity test, step by step: accept when the taxicab distance
    /// is at most the squared radius; else refuse when the horizontal
    /// distance exceeds the radius; else accept exactly when the squared
    /// Euclidean distance is at most the squared radius.
    pub open spec fn within_spec(self, c: Point, radius: int) -> bool {
        let dx = axis_distance(self.x as int, c.x as int);
        let dy = axis_distance(self.y as int, c.y as int);
        if dx + dy <= radius * radius {
            true
        } else if dx > radius {
            false
        } else {
            dx * dx + dy * dy <= radius * radius
        }
    }

    /// On the grid the proximity test is the first of its steps alone: an
    /// integer is at most its square, so the Euclidean step can only accept
    /// what the taxicab step has accepted before it.
    pub proof fn lemma_within_is_taxicab(self, c: Point, radius: int)
        ensures
            self.within_spec(c, radius) <==> self.taxicab(c) <= radius * radius,
    {
        let dx = axis_distance(self.x as int, c.x as int);
        let dy = axis_distance(self.y as int, c.y as int);
        assert(dx <= dx * dx) by (nonlinear_arith)
            requires
                dx >= 0,
        ;
        assert(dy <= dy * dy) by (nonlinear_arith)
            requires
                dy >= 0,
        ;
    }

    /// The proximity test does not look at payloads.
    pub proof fn lemma_within_ignores_data(self, c: Point, o: Point, d: Point, radius: int)
        requires
            self.x == o.x,
            self.y == o.y,
            c.x == d.x,
            c.y == d.y,
        ensures
            self.within_spec(c, radius) == o.within_spec(d, radius),
    {
    }

    /// The point `(x, y)` with no payload.
    pub fn new(x: i32, y: i32) -> (p: Point)
        ensures
            p == (Point { x, y, data: UserData { addr: 0 } }),
    {
        Point::with_data(x, y, UserData::null())
    }

    /// The point `(x, y)` carrying the payload token `data`.
    pub fn with_data(x: i32, y: i32, data: UserData) -> (p: Point)
        ensures
            p == (Point { x, y, data }),
    {
        Point { x, y, data }
    }

    /// Whether `self` counts as within `radius` of `pt`.
    ///
    /// This is the index's own test and not the Euclidean one. It accepts
    /// on the taxicab distance against the squared radius before it comes
    /// to the circle, and so takes in more than the circle of that radius.
    /// A negative radius counts by its square.
    pub fn within(&self, pt: &Point, radius: i32) -> (b: bool)
        ensures
            b == self.within_spec(*pt, radius as int),
            b == (self.taxicab(*pt) <= radius * radius),
    {
        let dx: i128 = if self.x >= pt.x {
            self.x as i128 - pt.x as i128
        } else {
            pt.x as i128 - self.x as i128
        };
        let dy: i128 = if self.y >= pt.y {
            self.y as i128 - pt.y as i128
        } else {
            pt.y as i128 - self.y as i128
        };
        let r: i128 = radius as i128;
        proof {
            self.lemma_within_is_taxicab(*pt, radius as int);
            lemma_square_bound(r as int);
            lemma_square_bound(dx as int);
            lemma_square_bound(dy as int);
        }
        let rr: i128 = r * r;
        if dx + dy <= rr {
            return true;
        }
        if dx > r {
            return false;
        }
        dx * dx + dy * dy <= rr
    }
}

/// A square of a number of at most 33 bits has at most 66 bits.
proof fn lemma_square_bound(v: int)
    requires
        -0x1_0000_0000 <= v <= 0x1_0000_0000,
    ensures
        0 <= v * v <= 0x1_0000_0000_0000_0000,
{
    assert(0 <= v * v <= 0x1_0000_0000 * 0x1_0000_0000) by (nonlinear_arith)
        requires
            -0x1_0000_0000 <= v <= 0x1_0000_0000,
    ;
}

} // verus!
