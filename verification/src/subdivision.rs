//! The four children of a node that has split.
use vstd::prelude::*;
use crate::model::QuadView;
use crate::rectangle::Rectangle;
use crate::tree::Quadtree;

verus! {

/// The four children of a node, one over each quadrant of its region.
#[derive(Debug)]
pub struct QuadtreeSubdivisions {
    pub nw: Box<Quadtree>,
    pub ne: Box<Quadtree>,
    pub se: Box<Quadtree>,
    pub sw: Box<Quadtree>,
}

impl View for QuadtreeSubdivisions {
    type V = QuadView;

    open spec fn view(&self) -> QuadView {
        self.model()
    }
}

impl QuadtreeSubdivisions {
    /// The model of the four children.
    pub open spec fn model(&self) -> QuadView
        decreases self,
    {
        QuadView {
            nw: self.nw.model(),
            ne: self.ne.model(),
            sw: self.sw.model(),
            se: self.se.model(),
        }
    }

    /// Four empty children over the quadrants of `boundary`, each with the
    /// given capacity.
    pub fn new(boundary: &Rectangle, capacity: u8) -> (sd: QuadtreeSubdivisions)
        requires
            boundary.wf(),
        ensures
            sd@ == QuadView::fresh(*boundary, capacity),
            sd.nw.wf(),
            sd.ne.wf(),
            sd.sw.wf(),
            sd.se.wf(),
    {
        proof {
            boundary.lemma_quadrants_wf();
        }
        let (nw, ne, sw, se) = boundary.quadrants();

        QuadtreeSubdivisions {
            nw: Box::new(Quadtree::with_capacity(&nw, capacity)),
            ne: Box::new(Quadtree::with_capacity(&ne, capacity)),
            sw: Box::new(Quadtree::with_capacity(&sw, capacity)),
            se: Box::new(Quadtree::with_capacity(&se, capacity)),
        }
    }
}

} // verus!
