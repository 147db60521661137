//! Plane-sweep reporting of pairwise intersections among line segments.
//!
//! Segments live on a bounded integer grid and every geometric decision is
//! made with exact integer or rational arithmetic: the orientation predicate
//! is the single source of truth for side-of-line queries, the crossing
//! predicate resolves touching and collinear cases through bounding-box
//! checks, and the sweep engine drives an event queue ordered by exact
//! rational sweep positions.

pub mod ccw;
pub mod event;
pub mod line;
pub mod line_with_ord;
pub mod point;
pub mod status;
pub mod sweep;
pub mod rat;
