//! Axis-aligned regions of the grid and their four quadrants.
use vstd::arithmetic::power2::{lemma2_to64, lemma_pow2_pos, lemma_pow2_unfold, pow2};
use vstd::prelude::*;
use crate::point::Point;

verus! {

/// How many units of a region's fields make one step of the grid.
///
/// A split halves the half-extents of a region. They are kept in units of
/// `1 / UNIT` of a grid step, so that a region given in whole grid steps
/// can be halved thirty-one times in a row without rounding.
pub const UNIT: i64 = 0x8000_0000;

/// An axis-aligned region with centre `(x, y)` and half-extents `w`, `h`,
/// all four in units of `1 / UNIT` of a grid step.
///
/// The region is half-open: it leaves out its low edges and takes in its
/// high edges, so that a point on the line between two neighbouring
/// quadrants belongs to exactly one of them.
#[derive(Clone, Copy, Debug, PartialEq, Eq, Structural)]
pub struct Rectangle {
    pub x: i64,
    pub y: i64,
    pub w: i64,
    pub h: i64,
}

/// Half of `v`, rounded towards zero.
pub open spec fn half(v: int) -> int {
    if v >= 0 {
        v / 2
    } else {
        -((-v) / 2)
    }
}

/// Both ends of the span with centre `c` and half-extent `e` are
/// representable.
pub open spec fn span_fits(c: int, e: int) -> bool {
    &&& i64::MIN <= c - e <= i64::MAX
    &&& i64::MIN <= c + e <= i64::MAX
}

impl Rectangle {
    /// The edges of the region are representable on both axes.
    pub open spec fn wf(self) -> bool {
        &&& span_fits(self.x as int, self.w as int)
        &&& span_fits(self.y as int, self.h as int)
    }

    /// The region with centre `(x, y)` and half-extents `w` and `h`, given
    /// in grid steps.
    pub open spec fn on_grid(x: int, y: int, w: int, h: int) -> Rectangle {
        Rectangle {
            x: (x * UNIT) as i64,
            y: (y * UNIT) as i64,
            w: (w * UNIT) as i64,
            h: (h * UNIT) as i64,
        }
    }

    /// Low edges exclusive, high edges inclusive.
    pub open spec fn contains_spec(self, p: Point) -> bool {
        &&& self.x - self.w < p.x * UNIT <= self.x + self.w
        &&& self.y - self.h < p.y * UNIT <= self.y + self.h
    }

    /// The quadrant with centre `(x + sx * half(w), y + sy * half(h))`.
    pub open spec fn quadrant(self, sx: int, sy: int) -> Rectangle {
        Rectangle {
            x: (self.x + sx * half(self.w as int)) as i64,
            y: (self.y + sy * half(self.h as int)) as i64,
            w: half(self.w as int) as i64,
            h: half(self.h as int) as i64,
        }
    }

    /// The quadrant towards higher `x` and lower `y`.
    pub open spec fn north_west(self) -> Rectangle {
        self.quadrant(1, -1)
    }

    /// The quadrant towards lower `x` and lower `y`.
    pub open spec fn north_east(self) -> Rectangle {
        self.quadrant(-1, -1)
    }

    /// The quadrant towards higher `x` and higher `y`.
    pub open spec fn south_west(self) -> Rectangle {
        self.quadrant(1, 1)
    }

    /// The quadrant towards lower `x` and higher `y`.
    pub open spec fn south_east(self) -> Rectangle {
        self.quadrant(-1, 1)
    }

    /// The half-extents can be halved `n` times in a row without rounding.
    pub open spec fn splits_exactly(self, n: nat) -> bool {
        &&& (self.w as int) % (pow2(n) as int) == 0
        &&& (self.h as int) % (pow2(n) as int) == 0
    }

    /// The region with centre `(x, y)` and half-extents `w` and `h`, given
    /// in grid steps.
    pub fn new(x: i32, y: i32, w: i32, h: i32) -> (r: Rectangle)
        ensures
            r == Rectangle::on_grid(x as int, y as int, w as int, h as int),
            r.x == x * UNIT,
            r.y == y * UNIT,
            r.w == w * UNIT,
            r.h == h * UNIT,
            r.wf(),
            r.splits_exactly(31),
    {
        proof {
            Rectangle::lemma_on_grid(x, y, w, h);
        }
        Rectangle {
            x: x as i64 * UNIT,
            y: y as i64 * UNIT,
            w: w as i64 * UNIT,
            h: h as i64 * UNIT,
        }
    }

    /// Whether `point` lies in the region.
    pub fn contains(self, point: &Point) -> (b: bool)
        ensures
            b == self.contains_spec(*point),
    {
        let px: i128 = point.x as i128 * UNIT as i128;
        let py: i128 = point.y as i128 * UNIT as i128;
        !(px <= self.x as i128 - self.w as i128 || px > self.x as i128 + self.w as i128 || py
            <= self.y as i128 - self.h as i128 || py > self.y as i128 + self.h as i128)
    }

    /// The four quadrants of the region: north-west, north-east,
    /// south-west, south-east.
    pub fn quadrants(&self) -> (q: (Rectangle, Rectangle, Rectangle, Rectangle))
        requires
            self.wf(),
        ensures
            q.0 == self.north_west(),
            q.1 == self.north_east(),
            q.2 == self.south_west(),
            q.3 == self.south_east(),
    {
        let new_w: i64 = self.w / 2;
        let new_h: i64 = self.h / 2;

        let nw = Rectangle { x: self.x + new_w, y: self.y - new_h, w: new_w, h: new_h };
        let ne = Rectangle { x: self.x - new_w, y: self.y - new_h, w: new_w, h: new_h };
        let sw = Rectangle { x: self.x + new_w, y: self.y + new_h, w: new_w, h: new_h };
        let se = Rectangle { x: self.x - new_w, y: self.y + new_h, w: new_w, h: new_h };
        (nw, ne, sw, se)
    }

    /// Whether the edges of the region are representable on both axes.
    pub fn is_well_formed(&self) -> (b: bool)
        ensures
            b == self.wf(),
    {
        let lo: i128 = i64::MIN as i128;
        let hi: i128 = i64::MAX as i128;
        let x: i128 = self.x as i128;
        let y: i128 = self.y as i128;
        let w: i128 = self.w as i128;
        let h: i128 = self.h as i128;
        lo <= x - w && x - w <= hi && lo <= x + w && x + w <= hi && lo <= y - h && y - h <= hi
            && lo <= y + h && y + h <= hi
    }

    /// A point on a low edge lies outside the region.
    pub proof fn lemma_low_edge_outside(self, p: Point)
        requires
            p.x * UNIT == self.x - self.w || p.y * UNIT == self.y - self.h,
        ensures
            !self.contains_spec(p),
    {
    }

    /// A point on the high edge in `x` of a region with positive width
    /// lies in the region exactly when its `y` does; and likewise with the
    /// axes exchanged.
    pub proof fn lemma_high_edge_inside(self, p: Point)
        ensures
            p.x * UNIT == self.x + self.w && self.w > 0 ==> (self.contains_spec(p) <==> self.y
                - self.h < p.y * UNIT <= self.y + self.h),
            p.y * UNIT == self.y + self.h && self.h > 0 ==> (self.contains_spec(p) <==> self.x
                - self.w < p.x * UNIT <= self.x + self.w),
    {
    }

    /// A region given in grid steps is well-formed, whatever the steps, and
    /// can be halved thirty-one times in a row without rounding.
    pub proof fn lemma_on_grid(x: i32, y: i32, w: i32, h: i32)
        ensures
            Rectangle::on_grid(x as int, y as int, w as int, h as int).wf(),
            Rectangle::on_grid(x as int, y as int, w as int, h as int).splits_exactly(31),
            Rectangle::on_grid(x as int, y as int, w as int, h as int).x == x * UNIT,
            Rectangle::on_grid(x as int, y as int, w as int, h as int).y == y * UNIT,
            Rectangle::on_grid(x as int, y as int, w as int, h as int).w == w * UNIT,
            Rectangle::on_grid(x as int, y as int, w as int, h as int).h == h * UNIT,
    {
        lemma2_to64();
        lemma_multiple_of_unit(w as int);
        lemma_multiple_of_unit(h as int);
    }

    /// The quadrants of a well-formed region are well-formed.
    pub proof fn lemma_quadrants_wf(self)
        requires
            self.wf(),
        ensures
            self.north_west().wf(),
            self.north_east().wf(),
            self.south_west().wf(),
            self.south_east().wf(),
    {
    }

    /// A region that holds a point has positive half-extents, and halving
    /// makes them strictly smaller.
    pub proof fn lemma_contains_positive(self, p: Point)
        requires
            self.contains_spec(p),
        ensures
            self.w >= 1,
            self.h >= 1,
            0 <= half(self.w as int) < self.w,
            0 <= half(self.h as int) < self.h,
    {
    }

    /// No point lies in two quadrants of one region.
    pub proof fn lemma_quadrants_disjoint(self, p: Point)
        requires
            self.wf(),
        ensures
            !(self.north_west().contains_spec(p) && self.north_east().contains_spec(p)),
            !(self.north_west().contains_spec(p) && self.south_west().contains_spec(p)),
            !(self.north_west().contains_spec(p) && self.south_east().contains_spec(p)),
            !(self.north_east().contains_spec(p) && self.south_west().contains_spec(p)),
            !(self.north_east().contains_spec(p) && self.south_east().contains_spec(p)),
            !(self.south_west().contains_spec(p) && self.south_east().contains_spec(p)),
    {
    }

    /// A point in a quadrant lies in the region itself.
    pub proof fn lemma_quadrant_inside(self, p: Point)
        requires
            self.wf(),
            self.north_west().contains_spec(p) || self.north_east().contains_spec(p) || self.south_west().contains_spec(p)
                || self.south_east().contains_spec(p),
        ensures
            self.contains_spec(p),
    {
    }

    /// Where both half-extents are even, the quadrants cover the region:
    /// every point of it lies in one of them.
    pub proof fn lemma_quadrants_cover(self, p: Point)
        requires
            self.wf(),
            self.w % 2 == 0,
            self.h % 2 == 0,
            self.contains_spec(p),
        ensures
            self.north_west().contains_spec(p) || self.north_east().contains_spec(p) || self.south_west().contains_spec(p)
                || self.south_east().contains_spec(p),
    {
    }

    /// A region that can be halved `n + 1` times without rounding has even
    /// half-extents, and its quadrants can be halved `n` times without
    /// rounding.
    pub proof fn lemma_quadrants_split_exactly(self, n: nat)
        requires
            self.wf(),
            self.splits_exactly(n + 1),
        ensures
            self.w % 2 == 0,
            self.h % 2 == 0,
            self.north_west().splits_exactly(n),
            self.north_east().splits_exactly(n),
            self.south_west().splits_exactly(n),
            self.south_east().splits_exactly(n),
    {
        lemma_pow2_unfold(n + 1);
        lemma_pow2_pos(n);
        lemma_half_of_multiple(self.w as int, pow2(n) as int);
        lemma_half_of_multiple(self.h as int, pow2(n) as int);
    }
}

/// A whole number of grid steps is a multiple of `UNIT`, and fits the
/// fields of a region.
proof fn lemma_multiple_of_unit(v: int)
    requires
        i32::MIN <= v <= i32::MAX,
    ensures
        (v * UNIT) % 0x8000_0000 == 0,
        -0x4000_0000_0000_0000 <= v * UNIT <= 0x3fff_ffff_8000_0000,
{
    assert((v * 0x8000_0000) % 0x8000_0000 == 0) by (nonlinear_arith);
}

/// Half of a multiple of `2 * m` is a multiple of `m`, and the multiple
/// itself is even.
proof fn lemma_half_of_multiple(v: int, m: int)
    requires
        m > 0,
        v % (2 * m) == 0,
    ensures
        v % 2 == 0,
        half(v) % m == 0,
{
    let q = v / (2 * m);
    assert(v == (2 * m) * q) by (nonlinear_arith)
        requires
            m > 0,
            v % (2 * m) == 0,
            q == v / (2 * m),
    ;
    assert((2 * m) * q == 2 * (m * q)) by (nonlinear_arith);
    assert(half(v) == m * q);
    assert((m * q) % m == 0) by (nonlinear_arith)
        requires
            m > 0,
    ;
}

} // verus!
