//! A point quadtree over an integer grid.
//!
//! A [`Quadtree`] indexes [`Point`]s that lie in a rectangular region. Each
//! node buffers up to `capacity` points; a full node splits its region into
//! four quadrants, once, and hands later points down to them. Points that
//! a node has buffered stay with it. A query returns the stored points that
//! lie near a given centre.
//!
//! Points sit on whole grid steps. Regions are kept in a finer unit, so
//! that the quadrants of a region given in grid steps share its points
//! among them exactly, level after level.
//!
//! Every node has a mathematical model, [`model::TreeView`], and every
//! operation is specified by a function on that model. The module
//! [`lemmas`] proves what follows for every well-formed tree.
pub mod ffi;
pub mod lemmas;
pub mod model;
pub mod point;
pub mod rectangle;
pub mod subdivision;
pub mod tree;

pub use ffi::UserData;
pub use point::Point;
pub use rectangle::Rectangle;
pub use subdivision::QuadtreeSubdivisions;
pub use tree::{InsertError, Quadtree};
