//! What holds of every well-formed tree, proved on the model.
use vstd::prelude::*;
use crate::model::{near, TreeView};
use crate::point::Point;
use crate::rectangle::Rectangle;

verus! {

/// How often `x` occurs among the elements of `s` that pass `test`: as often
/// as in `s` where `x` passes, and never where it does not.
pub proof fn lemma_filter_count<A>(s: Seq<A>, test: spec_fn(A) -> bool, x: A)
    ensures
        s.filter(test).to_multiset().count(x) == if test(x) {
            s.to_multiset().count(x)
        } else {
            0
        },
    decreases s.len(),
{
    broadcast use vstd::multiset::group_multiset_axioms;

    if s.len() == 0 {
        reveal(Seq::filter);
        s.to_multiset_ensures();
        assert(!s.contains(x));
    } else {
        let front = s.drop_last();
        let last = s.last();
        assert(s == front.push(last));
        lemma_filter_count(front, test, x);
        front.lemma_filter_push(last, test);
        front.to_multiset_ensures();
        front.filter(test).to_multiset_ensures();
    }
}

impl TreeView {
    /// The children that a full, well-formed node hands points to are
    /// well-formed, lie over its quadrants and have its capacity.
    pub proof fn lemma_subdivided_wf(self)
        requires
            self.wf(),
        ensures
            self.subdivided().nw.wf(),
            self.subdivided().ne.wf(),
            self.subdivided().sw.wf(),
            self.subdivided().se.wf(),
            self.subdivided().nw.boundary == self.boundary.north_west(),
            self.subdivided().ne.boundary == self.boundary.north_east(),
            self.subdivided().sw.boundary == self.boundary.south_west(),
            self.subdivided().se.boundary == self.boundary.south_east(),
            self.subdivided().nw.capacity == self.capacity,
            self.subdivided().ne.capacity == self.capacity,
            self.subdivided().sw.capacity == self.capacity,
            self.subdivided().se.capacity == self.capacity,
    {
        self.boundary.lemma_quadrants_wf();
    }

    /// Insertion keeps a tree well-formed and leaves its region and its
    /// capacity as they were.
    pub proof fn lemma_insert_wf(self, p: Point)
        requires
            self.wf(),
        ensures
            self.insert(p).wf(),
            self.insert(p).boundary == self.boundary,
            self.insert(p).capacity == self.capacity,
        decreases self.boundary.w,
    {
        if self.boundary.contains_spec(p) && self.points.len() >= self.capacity {
            let c = self.subdivided();
            self.lemma_subdivided_wf();
            self.boundary.lemma_contains_positive(p);
            c.nw.lemma_insert_wf(p);
            c.ne.lemma_insert_wf(p);
            c.sw.lemma_insert_wf(p);
            c.se.lemma_insert_wf(p);
        }
    }

    /// The stored points of a well-formed tree are the node's own, then
    /// those below each of the children that it hands points to.
    pub proof fn lemma_all_points_subdivided(self)
        requires
            self.wf(),
        ensures
            self.all_points() == self.points + self.subdivided().nw.all_points()
                + self.subdivided().ne.all_points() + self.subdivided().sw.all_points()
                + self.subdivided().se.all_points(),
    {
    }

    /// Every point stored in a well-formed tree lies in the root's region.
    pub proof fn lemma_points_inside(self, i: int)
        requires
            self.wf(),
            0 <= i < self.all_points().len(),
        ensures
            self.boundary.contains_spec(self.all_points()[i]),
        decreases self,
    {
        match self.children {
            None => {},
            Some(c) => {
                let p = self.all_points()[i];
                let n0 = self.points.len() as int;
                let n1 = n0 + c.nw.all_points().len();
                let n2 = n1 + c.ne.all_points().len();
                let n3 = n2 + c.sw.all_points().len();
                if i < n0 {
                } else {
                    if i < n1 {
                        c.nw.lemma_points_inside(i - n0);
                    } else if i < n2 {
                        c.ne.lemma_points_inside(i - n1);
                    } else if i < n3 {
                        c.sw.lemma_points_inside(i - n2);
                    } else {
                        c.se.lemma_points_inside(i - n3);
                    }
                    self.boundary.lemma_quadrant_inside(p);
                }
            },
        }
    }

    /// A point outside the root's region is refused, and the tree stays
    /// as it is.
    pub proof fn lemma_insert_outside(self, p: Point)
        requires
            self.wf(),
            !self.boundary.contains_spec(p),
        ensures
            !self.accepts(p),
            self.insert(p) == self,
    {
    }

    /// A point in the region of a node with room is taken by that node,
    /// behind the points it has.
    pub proof fn lemma_insert_with_room(self, p: Point)
        requires
            self.wf(),
            self.boundary.contains_spec(p),
            self.points.len() < self.capacity,
        ensures
            self.accepts(p),
            self.insert(p) == (TreeView { points: self.points.push(p), ..self }),
    {
    }

    /// A full node keeps its own points as they are, whatever is offered
    /// to it, and has children afterwards if its region holds the point.
    pub proof fn lemma_insert_when_full(self, p: Point)
        requires
            self.wf(),
            self.points.len() == self.capacity,
        ensures
            self.insert(p).points == self.points,
            self.boundary.contains_spec(p) ==> self.insert(p).children is Some,
    {
    }

    /// At most one child of a full node takes a given point.
    pub proof fn lemma_one_child_accepts(self, p: Point)
        requires
            self.wf(),
        ensures
            !(self.subdivided().nw.accepts(p) && self.subdivided().ne.accepts(p)),
            !(self.subdivided().nw.accepts(p) && self.subdivided().sw.accepts(p)),
            !(self.subdivided().nw.accepts(p) && self.subdivided().se.accepts(p)),
            !(self.subdivided().ne.accepts(p) && self.subdivided().sw.accepts(p)),
            !(self.subdivided().ne.accepts(p) && self.subdivided().se.accepts(p)),
            !(self.subdivided().sw.accepts(p) && self.subdivided().se.accepts(p)),
    {
        self.lemma_subdivided_wf();
        self.boundary.lemma_quadrants_disjoint(p);
    }

    /// A full leaf whose half-extents are even takes every point of its
    /// region: its quadrants cover the region, and start out empty.
    pub proof fn lemma_full_leaf_accepts(self, p: Point)
        requires
            self.wf(),
            self.children is None,
            self.boundary.w % 2 == 0,
            self.boundary.h % 2 == 0,
            self.boundary.contains_spec(p),
        ensures
            self.accepts(p),
    {
        let c = self.subdivided();
        self.lemma_subdivided_wf();
        self.boundary.lemma_quadrants_cover(p);
        if c.nw.boundary.contains_spec(p) {
            c.nw.lemma_insert_with_room(p);
        } else if c.ne.boundary.contains_spec(p) {
            c.ne.lemma_insert_with_room(p);
        } else if c.sw.boundary.contains_spec(p) {
            c.sw.lemma_insert_with_room(p);
        } else {
            c.se.lemma_insert_with_room(p);
        }
    }

    /// A well-formed tree holds at least `capacity` points for each of its
    /// levels but the last: a node has children only once it is full.
    pub proof fn lemma_height_bound(self)
        requires
            self.wf(),
        ensures
            self.height() >= 1,
            (self.height() - 1) * self.capacity <= self.all_points().len(),
        decreases self,
    {
        match self.children {
            None => {},
            Some(c) => {
                c.nw.lemma_height_bound();
                c.ne.lemma_height_bound();
                c.sw.lemma_height_bound();
                c.se.lemma_height_bound();
                let k = self.capacity as int;
                let h = self.height() as int;
                assert((h - 1) * k == (h - 2) * k + k) by (nonlinear_arith);
            },
        }
    }

    /// A tree whose root region can be halved `n` times without rounding,
    /// and which has at most `n` levels, takes every point of its region.
    pub proof fn lemma_accepts_by_height(self, p: Point, n: nat)
        requires
            self.wf(),
            self.boundary.contains_spec(p),
            self.boundary.splits_exactly(n),
            self.height() <= n,
        ensures
            self.accepts(p),
        decreases self,
    {
        if self.points.len() >= self.capacity {
            let c = self.subdivided();
            let m = (n - 1) as nat;
            self.lemma_subdivided_wf();
            self.boundary.lemma_quadrants_split_exactly(m);
            self.boundary.lemma_quadrants_cover(p);
            match self.children {
                None => {
                    if c.nw.boundary.contains_spec(p) {
                        c.nw.lemma_insert_with_room(p);
                    } else if c.ne.boundary.contains_spec(p) {
                        c.ne.lemma_insert_with_room(p);
                    } else if c.sw.boundary.contains_spec(p) {
                        c.sw.lemma_insert_with_room(p);
                    } else {
                        c.se.lemma_insert_with_room(p);
                    }
                },
                Some(_) => {
                    if c.nw.boundary.contains_spec(p) {
                        c.nw.lemma_accepts_by_height(p, m);
                    } else if c.ne.boundary.contains_spec(p) {
                        c.ne.lemma_accepts_by_height(p, m);
                    } else if c.sw.boundary.contains_spec(p) {
                        c.sw.lemma_accepts_by_height(p, m);
                    } else {
                        c.se.lemma_accepts_by_height(p, m);
                    }
                },
            }
        }
    }

    /// A tree whose root region can be halved `n` times without rounding,
    /// and which holds fewer than `n * capacity` points, takes every point
    /// of its region. For a root region given in grid steps `n` is 31.
    pub proof fn lemma_accepts_while_small(self, p: Point, n: nat)
        requires
            self.wf(),
            self.boundary.contains_spec(p),
            self.boundary.splits_exactly(n),
            self.all_points().len() < n * self.capacity,
        ensures
            self.accepts(p),
    {
        self.lemma_height_bound();
        let k = self.capacity as int;
        let h = self.height() as int;
        assert(h <= n) by (nonlinear_arith)
            requires
                k >= 1,
                (h - 1) * k < n * k,
        ;
        self.lemma_accepts_by_height(p, n);
    }

    /// Insertion stores the point once where the tree takes it, and stores
    /// nothing where the tree refuses it. No other stored point comes or
    /// goes.
    pub proof fn lemma_insert_contents(self, p: Point)
        requires
            self.wf(),
        ensures
            self.insert(p).all_points().to_multiset() == if self.accepts(p) {
                self.all_points().to_multiset().insert(p)
            } else {
                self.all_points().to_multiset()
            },
            self.insert(p).all_points().len() == if self.accepts(p) {
                self.all_points().len() + 1
            } else {
                self.all_points().len()
            },
        decreases self.boundary.w,
    {
        broadcast use vstd::multiset::group_multiset_axioms;
        broadcast use vstd::seq_lib::lemma_multiset_commutative;

        let after = self.insert(p);
        if !self.boundary.contains_spec(p) {
        } else if self.points.len() < self.capacity {
            self.points.to_multiset_ensures();
        } else {
            let c = self.subdivided();
            self.lemma_subdivided_wf();
            self.lemma_all_points_subdivided();
            self.lemma_insert_wf(p);
            after.lemma_all_points_subdivided();
            self.boundary.lemma_contains_positive(p);
            c.nw.lemma_insert_contents(p);
            c.ne.lemma_insert_contents(p);
            c.sw.lemma_insert_contents(p);
            c.se.lemma_insert_contents(p);
            let d = after.subdivided();
            assert(after.all_points().to_multiset() == self.points.to_multiset().add(
                d.nw.all_points().to_multiset(),
            ).add(d.ne.all_points().to_multiset()).add(d.sw.all_points().to_multiset()).add(
                d.se.all_points().to_multiset(),
            ));
            assert(self.all_points().to_multiset() == self.points.to_multiset().add(
                c.nw.all_points().to_multiset(),
            ).add(c.ne.all_points().to_multiset()).add(c.sw.all_points().to_multiset()).add(
                c.se.all_points().to_multiset(),
            ));
        }
    }

    /// A stored point is found by every query that it is near to and whose
    /// centre the root's region holds.
    pub proof fn lemma_query_finds(self, p: Point, c: Point, radius: int)
        requires
            self.all_points().contains(p),
            self.boundary.contains_spec(c),
            p.within_spec(c, radius),
        ensures
            self.query(c, radius).contains(p),
    {
        let all = self.all_points();
        let i = choose|i: int| 0 <= i < all.len() && all[i] == p;
        all.lemma_filter_contains(near(c, radius), i);
    }

    /// A query returns stored points only, and only points near its centre.
    pub proof fn lemma_query_sound(self, c: Point, radius: int, i: int)
        requires
            0 <= i < self.query(c, radius).len(),
        ensures
            self.all_points().contains(self.query(c, radius)[i]),
            self.query(c, radius)[i].within_spec(c, radius),
            self.boundary.contains_spec(c),
    {
        let all = self.all_points();
        let found = self.query(c, radius);
        all.lemma_filter_pred(near(c, radius), i);
        assert(found.contains(found[i]));
        all.lemma_filter_contains_rev(near(c, radius), found[i]);
    }

    /// A point that the tree took is returned, payload and all, by every
    /// later query that it is near to and whose centre the root's region
    /// holds.
    pub proof fn lemma_insert_then_query(self, p: Point, c: Point, radius: int)
        requires
            self.wf(),
            self.accepts(p),
            self.boundary.contains_spec(c),
            p.within_spec(c, radius),
        ensures
            self.insert(p).query(c, radius).contains(p),
    {
        broadcast use vstd::multiset::group_multiset_axioms;

        let after = self.insert(p);
        self.lemma_insert_contents(p);
        self.lemma_insert_wf(p);
        after.all_points().to_multiset_ensures();
        assert(after.all_points().to_multiset().count(p) > 0);
        after.lemma_query_finds(p, c, radius);
    }

    /// A query outside the root's region finds nothing, whatever the
    /// radius and whatever the tree holds.
    pub proof fn lemma_query_outside(self, c: Point, radius: int)
        requires
            !self.boundary.contains_spec(c),
        ensures
            self.query(c, radius).len() == 0,
    {
    }

    /// What a query finds depends on the points stored and not on the
    /// nodes that hold them: two trees with the same stored points, whose
    /// root regions both hold the centre, give the same points equally
    /// often.
    pub proof fn lemma_query_by_contents(self, other: TreeView, c: Point, radius: int)
        requires
            self.all_points().to_multiset() == other.all_points().to_multiset(),
            self.boundary.contains_spec(c) == other.boundary.contains_spec(c),
        ensures
            self.query(c, radius).to_multiset() == other.query(c, radius).to_multiset(),
    {
        if self.boundary.contains_spec(c) {
            let test = near(c, radius);
            assert forall|x: Point|
                self.query(c, radius).to_multiset().count(x) == other.query(
                    c,
                    radius,
                ).to_multiset().count(x) by {
                lemma_filter_count(self.all_points(), test, x);
                lemma_filter_count(other.all_points(), test, x);
            }
            assert(self.query(c, radius).to_multiset() =~= other.query(c, radius).to_multiset());
        }
    }

    /// A run of insertions keeps a tree well-formed and leaves its region
    /// and its capacity as they were. Where the tree takes every point of
    /// the run, it holds them all afterwards, besides what it held before.
    pub proof fn lemma_insert_all(self, ps: Seq<Point>)
        requires
            self.wf(),
        ensures
            self.insert_all(ps).wf(),
            self.insert_all(ps).boundary == self.boundary,
            self.insert_all(ps).capacity == self.capacity,
            self.accepts_all(ps) ==> self.insert_all(ps).all_points().to_multiset()
                == self.all_points().to_multiset().add(ps.to_multiset()),
        decreases ps.len(),
    {
        broadcast use vstd::multiset::group_multiset_axioms;

        if ps.len() == 0 {
            ps.to_multiset_ensures();
            assert(ps.to_multiset().len() == 0);
            assert(self.all_points().to_multiset().add(ps.to_multiset())
                =~= self.all_points().to_multiset());
        } else {
            let front = ps.drop_last();
            let before = self.insert_all(front);
            self.lemma_insert_all(front);
            before.lemma_insert_wf(ps.last());
            before.lemma_insert_contents(ps.last());
            front.to_multiset_ensures();
            assert(ps == front.push(ps.last()));
            if self.accepts_all(ps) {
                assert(self.all_points().to_multiset().add(front.to_multiset()).insert(ps.last())
                    =~= self.all_points().to_multiset().add(ps.to_multiset()));
            }
        }
    }

    /// The capacity of a tree does not show in what a query finds: two
    /// empty trees over one region, of whatever capacities, that both take
    /// every point of a run of insertions answer every query with the same
    /// points equally often.
    pub proof fn lemma_query_ignores_capacity(
        region: Rectangle,
        capacity: u8,
        other_capacity: u8,
        ps: Seq<Point>,
        c: Point,
        radius: int,
    )
        requires
            region.wf(),
            TreeView::leaf(region, capacity).accepts_all(ps),
            TreeView::leaf(region, other_capacity).accepts_all(ps),
        ensures
            TreeView::leaf(region, capacity).insert_all(ps).query(c, radius).to_multiset()
                == TreeView::leaf(region, other_capacity).insert_all(ps).query(
                c,
                radius,
            ).to_multiset(),
    {
        let a = TreeView::leaf(region, capacity);
        let b = TreeView::leaf(region, other_capacity);
        a.lemma_insert_all(ps);
        b.lemma_insert_all(ps);
        a.insert_all(ps).lemma_query_by_contents(b.insert_all(ps), c, radius);
    }

    /// A node that has split keeps its children: an insertion changes at
    /// most the points below them.
    pub proof fn lemma_insert_when_split(self, p: Point)
        requires
            self.wf(),
            self.children is Some,
        ensures
            self.insert(p).points == self.points,
            self.insert(p).children is Some,
            ({
                let c = self.children.unwrap();
                let d = self.insert(p).children.unwrap();
                &&& d.nw == c.nw || d.nw == c.nw.insert(p)
                &&& d.ne == c.ne || d.ne == c.ne.insert(p)
                &&& d.sw == c.sw || d.sw == c.sw.insert(p)
                &&& d.se == c.se || d.se == c.se.insert(p)
            }),
    {
    }
}

} // verus!
