//! The quadtree: construction, insertion and query.
use vstd::prelude::*;
use crate::model::{near, TreeView, DEFAULT_CAPACITY};
use crate::point::Point;
use crate::rectangle::Rectangle;
use crate::subdivision::QuadtreeSubdivisions;

verus! {

/// Why an insertion failed.
#[derive(Clone, Copy, Debug, PartialEq, Eq, Structural)]
pub enum InsertError {
    /// No node that could take the point has it in its region.
    OutOfBounds,
}

/// A node of the quadtree, and through its children the tree below it.
#[derive(Debug)]
pub struct Quadtree {
    pub points: Vec<Point>,
    pub boundary: Rectangle,
    pub children: Option<QuadtreeSubdivisions>,
    pub capacity: u8,
}

impl View for Quadtree {
    type V = TreeView;

    open spec fn view(&self) -> TreeView {
        self.model()
    }
}

impl Quadtree {
    /// The model of the tree.
    pub open spec fn model(&self) -> TreeView
        decreases self,
    {
        TreeView {
            points: self.points@,
            boundary: self.boundary,
            children: match self.children {
                Some(c) => Some(Box::new(c.model())),
                None => None,
            },
            capacity: self.capacity,
        }
    }

    /// The invariant of the tree, stated on its model.
    pub open spec fn wf(&self) -> bool {
        self@.wf()
    }

    /// An empty tree over `boundary` with the default capacity.
    pub fn new(boundary: &Rectangle) -> (qt: Quadtree)
        ensures
            qt@ == TreeView::leaf(*boundary, DEFAULT_CAPACITY),
            boundary.wf() ==> qt.wf(),
    {
        Quadtree::with_capacity(boundary, DEFAULT_CAPACITY)
    }

    /// An empty tree over `boundary` whose nodes hold up to `capacity`
    /// points each; a `capacity` of zero stands for the default.
    pub fn with_capacity(boundary: &Rectangle, capacity: u8) -> (qt: Quadtree)
        ensures
            qt@ == TreeView::leaf(*boundary, capacity),
            boundary.wf() ==> qt.wf(),
    {
        Quadtree {
            points: Vec::new(),
            boundary: *boundary,
            children: None,
            capacity: if capacity == 0 {
                DEFAULT_CAPACITY
            } else {
                capacity
            },
        }
    }

    /// Whether the tree meets its invariant.
    ///
    /// A tree that was built by `new` or `with_capacity` and changed by
    /// `insert` alone always does. The fields are public, so a tree can be
    /// put together by hand; this is the test for such a tree.
    pub fn is_well_formed(&self) -> (b: bool)
        ensures
            b == self.wf(),
        decreases self,
    {
        let n: usize = self.points.len();
        if self.capacity == 0 || !self.boundary.is_well_formed() || n > self.capacity as usize {
            return false;
        }
        let mut i: usize = 0;
        while i < n
            invariant
                i <= n,
                n == self.points.len(),
                forall|j: int| 0 <= j < i ==> self.boundary.contains_spec(#[trigger] self.points@[j]),
            decreases n - i,
        {
            if !self.boundary.contains(&self.points[i]) {
                return false;
            }
            i += 1;
        }
        match &self.children {
            None => true,
            Some(c) => {
                let (nw, ne, sw, se) = self.boundary.quadrants();
                n == self.capacity as usize && c.nw.boundary == nw && c.ne.boundary == ne
                    && c.sw.boundary == sw && c.se.boundary == se && c.nw.capacity == self.capacity
                    && c.ne.capacity == self.capacity && c.sw.capacity == self.capacity
                    && c.se.capacity == self.capacity && c.nw.is_well_formed()
                    && c.ne.is_well_formed() && c.sw.is_well_formed() && c.se.is_well_formed()
            },
        }
    }

    /// Stores `point` in the tree, or refuses it.
    ///
    /// The point goes to the first node on its way down from the root that
    /// has room for it. It is refused, and no point is stored, where the
    /// root's region does not hold it, or where every node on its way is
    /// full and no quadrant of the last one holds it.
    pub fn insert(&mut self, point: &Point) -> (res: Result<(), InsertError>)
        requires
            old(self).wf(),
        ensures
            final(self).wf(),
            final(self)@ == old(self)@.insert(*point),
            res is Ok <==> old(self)@.accepts(*point),
            !old(self).boundary.contains_spec(*point) ==> res is Err && final(self)@ == old(self)@,
            final(self).boundary == old(self).boundary,
            final(self).capacity == old(self).capacity,
            final(self)@.all_points().to_multiset() == if res is Ok {
                old(self)@.all_points().to_multiset().insert(*point)
            } else {
                old(self)@.all_points().to_multiset()
            },
            final(self)@.all_points().len() == if res is Ok {
                old(self)@.all_points().len() + 1
            } else {
                old(self)@.all_points().len()
            },
        decreases old(self).boundary.w,
    {
        proof {
            self@.lemma_insert_wf(*point);
            self@.lemma_insert_contents(*point);
        }
        if !self.boundary.contains(point) {
            return Err(InsertError::OutOfBounds);
        }
        if self.points.len() < self.capacity as usize {
            self.points.push(*point);
            Ok(())
        } else {
            proof {
                self@.lemma_subdivided_wf();
                self.boundary.lemma_contains_positive(*point);
            }
            let mut sd = match self.children.take() {
                Some(sd) => sd,
                None => QuadtreeSubdivisions::new(&self.boundary, self.capacity),
            };
            assert(sd@ == old(self)@.subdivided());
            let mut res = sd.nw.insert(point);
            if res.is_err() {
                res = sd.ne.insert(point);
            }
            if res.is_err() {
                res = sd.sw.insert(point);
            }
            if res.is_err() {
                res = sd.se.insert(point);
            }
            self.children = Some(sd);
            res
        }
    }

    /// The stored points near `pt`.
    ///
    /// Where the root's region does not hold `pt` the result is empty,
    /// whatever the radius: only the centre is tested, and a centre just
    /// outside the region finds nothing, however near stored points may
    /// be. Else every node of the tree is searched, whether its region
    /// is near `pt` or not, the node itself before its children, and these
    /// from north-west to south-east.
    pub fn query(&self, pt: &Point, radius: i32) -> (res: Vec<Point>)
        ensures
            res@ == self@.query(*pt, radius as int),
            !self.boundary.contains_spec(*pt) ==> res@.len() == 0,
    {
        let mut res = Vec::new();
        if self.boundary.contains(pt) {
            self.query_subtree(pt, radius, &mut res);
        }
        res
    }

    /// Appends to `out` the points near `pt` in this node and below it.
    fn query_subtree(&self, pt: &Point, radius: i32, out: &mut Vec<Point>)
        ensures
            final(out)@ == old(out)@ + self@.all_points().filter(near(*pt, radius as int)),
        decreases self,
    {
        broadcast use Seq::filter_distributes_over_add;

        self.query_points(pt, radius, out);
        if let Some(c) = &self.children {
            c.nw.query_subtree(pt, radius, out);
            c.ne.query_subtree(pt, radius, out);
            c.sw.query_subtree(pt, radius, out);
            c.se.query_subtree(pt, radius, out);
        }
    }

    /// Appends to `out` the points near `pt` among this node's own.
    fn query_points(&self, pt: &Point, radius: i32, out: &mut Vec<Point>)
        ensures
            final(out)@ == old(out)@ + self.points@.filter(near(*pt, radius as int)),
    {
        let ghost test = near(*pt, radius as int);
        let mut i: usize = 0;
        while i < self.points.len()
            invariant
                i <= self.points.len(),
                test == near(*pt, radius as int),
                out@ == old(out)@ + self.points@.take(i as int).filter(test),
            decreases self.points.len() - i,
        {
            let o = self.points[i];
            proof {
                let before = self.points@.take(i as int);
                assert(self.points@.take(i + 1) == before.push(o));
                before.lemma_filter_push(o, test);
            }
            if o.within(pt, radius) {
                out.push(o);
            }
            i += 1;
        }
        assert(self.points@.take(i as int) == self.points@);
    }
}

} // verus!
