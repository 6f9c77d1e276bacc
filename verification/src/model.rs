//! The mathematical model of a quadtree, and what insertion and query mean
//! on it.
use vstd::prelude::*;
use crate::point::Point;
use crate::rectangle::Rectangle;

verus! {

/// The capacity that a node gets where none, or zero, is asked for.
pub const DEFAULT_CAPACITY: u8 = 10;

/// The capacity that a node built with `capacity` has.
pub open spec fn effective_capacity(capacity: u8) -> u8 {
    if capacity == 0 {
        DEFAULT_CAPACITY
    } else {
        capacity
    }
}

/// The test that a query with centre `c` and `radius` puts to each stored
/// point.
pub open spec fn near(c: Point, radius: int) -> spec_fn(Point) -> bool {
    |o: Point| o.within_spec(c, radius)
}

/// A node of the tree: its own points in insertion order, its region, its
/// four children once it has split, and the bound on its own points.
pub struct TreeView {
    pub points: Seq<Point>,
    pub boundary: Rectangle,
    pub children: Option<Box<QuadView>>,
    pub capacity: u8,
}

/// The four children of a node that has split.
pub struct QuadView {
    pub nw: TreeView,
    pub ne: TreeView,
    pub sw: TreeView,
    pub se: TreeView,
}

impl QuadView {
    /// Four empty children over the quadrants of `boundary`.
    pub open spec fn fresh(boundary: Rectangle, capacity: u8) -> QuadView {
        QuadView {
            nw: TreeView::leaf(boundary.north_west(), capacity),
            ne: TreeView::leaf(boundary.north_east(), capacity),
            sw: TreeView::leaf(boundary.south_west(), capacity),
            se: TreeView::leaf(boundary.south_east(), capacity),
        }
    }
}

impl TreeView {
    /// The node over `boundary` with no points and no children.
    pub open spec fn leaf(boundary: Rectangle, capacity: u8) -> TreeView {
        TreeView {
            points: Seq::empty(),
            boundary,
            children: None,
            capacity: effective_capacity(capacity),
        }
    }

    /// The invariant of a tree.
    ///
    /// The capacity is positive and bounds the node's own points, each of
    /// which lies in the node's region. A node has children only once it is
    /// full; they cover the four quadrants of its region, have its
    /// capacity, and are well-formed themselves.
    pub open spec fn wf(self) -> bool
        decreases self,
    {
        &&& self.capacity >= 1
        &&& self.boundary.wf()
        &&& self.points.len() <= self.capacity
        &&& forall|i: int|
            0 <= i < self.points.len() ==> self.boundary.contains_spec(#[trigger] self.points[i])
        &&& match self.children {
            None => true,
            Some(c) => {
                &&& self.points.len() == self.capacity
                &&& c.nw.boundary == self.boundary.north_west()
                &&& c.ne.boundary == self.boundary.north_east()
                &&& c.sw.boundary == self.boundary.south_west()
                &&& c.se.boundary == self.boundary.south_east()
                &&& c.nw.capacity == self.capacity
                &&& c.ne.capacity == self.capacity
                &&& c.sw.capacity == self.capacity
                &&& c.se.capacity == self.capacity
                &&& c.nw.wf()
                &&& c.ne.wf()
                &&& c.sw.wf()
                &&& c.se.wf()
            },
        }
    }

    /// Every point stored in the tree: the node's own, then those of the
    /// north-west, north-east, south-west and south-east subtrees.
    pub open spec fn all_points(self) -> Seq<Point>
        decreases self,
    {
        match self.children {
            None => self.points,
            Some(c) => self.points + c.nw.all_points() + c.ne.all_points() + c.sw.all_points()
                + c.se.all_points(),
        }
    }

    /// The number of levels of the tree: one for a node without children.
    pub open spec fn height(self) -> nat
        decreases self,
    {
        match self.children {
            None => 1,
            Some(c) => {
                let a = c.nw.height();
                let b = c.ne.height();
                let d = c.sw.height();
                let e = c.se.height();
                let ab = if a >= b {
                    a
                } else {
                    b
                };
                let de = if d >= e {
                    d
                } else {
                    e
                };
                1 + if ab >= de {
                    ab
                } else {
                    de
                }
            },
        }
    }

    /// The children that a full node hands points to: its own, or four
    /// empty ones where it has not split yet.
    pub open spec fn subdivided(self) -> QuadView {
        match self.children {
            Some(c) => *c,
            None => QuadView::fresh(self.boundary, self.capacity),
        }
    }

    /// Whether the tree takes `p`: the node's region holds `p`, and the
    /// node has room or one of its children takes `p`.
    pub open spec fn accepts(self, p: Point) -> bool
        decreases self.boundary.w,
        when self.wf()
    {
        &&& self.boundary.contains_spec(p)
        &&& {
            ||| self.points.len() < self.capacity
            ||| {
                let c = self.subdivided();
                ||| c.nw.accepts(p)
                ||| c.ne.accepts(p)
                ||| c.sw.accepts(p)
                ||| c.se.accepts(p)
            }
        }
    }

    /// The tree after `p` was offered to it.
    ///
    /// A node whose region does not hold `p` stays as it is. A node with
    /// room appends `p` to its own points. A full node splits, unless it
    /// has, and offers `p` to its children in the order north-west,
    /// north-east, south-west, south-east, until one takes it.
    pub open spec fn insert(self, p: Point) -> TreeView
        decreases self.boundary.w,
        when self.wf()
    {
        if !self.boundary.contains_spec(p) {
            self
        } else if self.points.len() < self.capacity {
            TreeView { points: self.points.push(p), ..self }
        } else {
            let c = self.subdivided();
            let nw = c.nw.insert(p);
            let ne = if c.nw.accepts(p) {
                c.ne
            } else {
                c.ne.insert(p)
            };
            let sw = if c.nw.accepts(p) || c.ne.accepts(p) {
                c.sw
            } else {
                c.sw.insert(p)
            };
            let se = if c.nw.accepts(p) || c.ne.accepts(p) || c.sw.accepts(p) {
                c.se
            } else {
                c.se.insert(p)
            };
            TreeView { children: Some(Box::new(QuadView { nw, ne, sw, se })), ..self }
        }
    }

    /// The tree after the points of `ps` were offered to it one after the
    /// other.
    pub open spec fn insert_all(self, ps: Seq<Point>) -> TreeView
        decreases ps.len(),
    {
        if ps.len() == 0 {
            self
        } else {
            self.insert_all(ps.drop_last()).insert(ps.last())
        }
    }

    /// Whether the tree takes each point of `ps` when they are offered to
    /// it one after the other.
    pub open spec fn accepts_all(self, ps: Seq<Point>) -> bool
        decreases ps.len(),
    {
        ps.len() > 0 ==> self.accepts_all(ps.drop_last()) && self.insert_all(
            ps.drop_last(),
        ).accepts(ps.last())
    }

    /// What a query with centre `c` and `radius` returns: nothing where the
    /// root's region does not hold `c`; else the stored points that are
    /// within `radius` of `c`, in the order of `all_points`.
    pub open spec fn query(self, c: Point, radius: int) -> Seq<Point> {
        if self.boundary.contains_spec(c) {
            self.all_points().filter(near(c, radius))
        } else {
            Seq::empty()
        }
    }
}

} // verus!
