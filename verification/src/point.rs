use vstd::prelude::*;

use crate::line::Line;

verus! {

/// Largest coordinate magnitude the library accepts.  Keeping coordinates
/// within this range bounds every determinant and every derived rational the
/// sweep computes, so all arithmetic stays exact and free of overflow.
pub const MAX_COORD: i64 = 65536;

/// A point of the bounded integer grid.
///
/// Working on an integer grid makes the orientation predicate exact: a
/// determinant either vanishes or has magnitude at least one, so the
/// collinearity band that a small tolerance would carve out of the real
/// plane collapses to exact equality with zero.
#[derive(Clone, Copy, Debug, PartialEq, Eq, Structural)]
pub struct Point {
    pub x: i64,
    pub y: i64,
}

impl Point {
    /// Both coordinates within the accepted range.
    pub open spec fn in_range(self) -> bool {
        &&& -MAX_COORD <= self.x <= MAX_COORD
        &&& -MAX_COORD <= self.y <= MAX_COORD
    }

    /// Membership in the closed axis-aligned bounding box of `l`.
    pub open spec fn in_bbox(self, l: Line) -> bool {
        let xmin = if l.p1.x <= l.p2.x { l.p1.x } else { l.p2.x };
        let xmax = if l.p1.x <= l.p2.x { l.p2.x } else { l.p1.x };
        let ymin = if l.p1.y <= l.p2.y { l.p1.y } else { l.p2.y };
        let ymax = if l.p1.y <= l.p2.y { l.p2.y } else { l.p1.y };
        xmin <= self.x <= xmax && ymin <= self.y <= ymax
    }

    /// Whether the point lies in the closed axis-aligned bounding box of
    /// `line`, borders included.
    pub fn is_in_boundary(&self, line: &Line) -> (r: bool)
        ensures
            r == self.in_bbox(*line),
    {
        let xmin: i64 = if line.p1.x <= line.p2.x { line.p1.x } else { line.p2.x };
        let xmax: i64 = if line.p1.x <= line.p2.x { line.p2.x } else { line.p1.x };
        let ymin: i64 = if line.p1.y <= line.p2.y { line.p1.y } else { line.p2.y };
        let ymax: i64 = if line.p1.y <= line.p2.y { line.p2.y } else { line.p1.y };

        xmin <= self.x && self.x <= xmax && ymin <= self.y && self.y <= ymax
    }
}

} // verus!
