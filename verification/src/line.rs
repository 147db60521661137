use vstd::prelude::*;

use crate::ccw::{ccw, lemma_mul_bound, orient_det, sign};
use crate::point::{Point, MAX_COORD};

verus! {

/// An ordered pair of grid points together with a derived outward normal.
///
/// The normal `n` is perpendicular to the segment and points away from the
/// coordinate origin; its length equals the segment's length, so the line
/// equation `n.x * X + n.y * Y == a` holds exactly in integers for every
/// point `(X, Y)` of the segment's supporting line.  A unit normal would be
/// irrational for most segments, so the library keeps this exact scaled
/// form instead.  Zero-length segments get the zero normal.
#[derive(Clone, Copy, Debug, PartialEq, Eq, Structural)]
pub struct Line {
    pub p1: Point,
    pub p2: Point,
    pub n: Point,
    pub a: i64,
}

/// The scaled outward normal of the segment from `p1` to `p2`: the direction
/// `(-dy, dx)`, negated when its offset against `p1` is negative, so the
/// offset of the result is never negative.
pub open spec fn line_normal(p1: Point, p2: Point) -> (int, int) {
    let nx = -(p2.y - p1.y);
    let ny = p2.x - p1.x;
    if nx * p1.x + ny * p1.y < 0 {
        (-nx, -ny)
    } else {
        (nx, ny)
    }
}

/// The non-negative offset of the supporting line against the scaled
/// outward normal.
pub open spec fn line_offset(p1: Point, p2: Point) -> int {
    let nx = -(p2.y - p1.y);
    let ny = p2.x - p1.x;
    let a = nx * p1.x + ny * p1.y;
    if a < 0 {
        -a
    } else {
        a
    }
}

/// The derived normal and offset of a segment on the grid stay within
/// machine range and satisfy the line equation at both endpoints.
pub proof fn lemma_line_derived(p1: Point, p2: Point)
    by (nonlinear_arith)
    requires
        p1.in_range(),
        p2.in_range(),
    ensures
        -2 * MAX_COORD <= line_normal(p1, p2).0 <= 2 * MAX_COORD,
        -2 * MAX_COORD <= line_normal(p1, p2).1 <= 2 * MAX_COORD,
        0 <= line_offset(p1, p2) <= 4 * MAX_COORD * MAX_COORD,
        line_normal(p1, p2).0 * p1.x + line_normal(p1, p2).1 * p1.y == line_offset(p1, p2),
        line_normal(p1, p2).0 * p2.x + line_normal(p1, p2).1 * p2.y == line_offset(p1, p2),
        line_normal(p1, p2).0 * (p2.x - p1.x) + line_normal(p1, p2).1 * (p2.y - p1.y) == 0,
{
}

impl Line {
    /// Endpoints on the grid and the derived fields exactly as the
    /// constructor computes them.
    pub open spec fn wf(self) -> bool {
        &&& self.p1.in_range()
        &&& self.p2.in_range()
        &&& self.n.x == line_normal(self.p1, self.p2).0
        &&& self.n.y == line_normal(self.p1, self.p2).1
        &&& self.a == line_offset(self.p1, self.p2)
    }

    /// Build a segment from its two endpoints, deriving the scaled outward
    /// normal and its offset.
    pub fn new(p1: Point, p2: Point) -> (r: Line)
        requires
            p1.in_range(),
            p2.in_range(),
        ensures
            r.p1 == p1,
            r.p2 == p2,
            r.wf(),
            r.a >= 0,
            r.n.x * p1.x + r.n.y * p1.y == r.a,
            r.n.x * p2.x + r.n.y * p2.y == r.a,
            r.n.x * (p2.x - p1.x) + r.n.y * (p2.y - p1.y) == 0,
    {
        let dx: i64 = p2.x - p1.x;
        let dy: i64 = p2.y - p1.y;

        let mut nx: i64 = -dy;
        let mut ny: i64 = dx;

        proof {
            lemma_line_derived(p1, p2);
            lemma_mul_bound(nx as int, p1.x as int, 2 * MAX_COORD as int);
            lemma_mul_bound(ny as int, p1.y as int, 2 * MAX_COORD as int);
        }
        let mut a: i64 = nx * p1.x + ny * p1.y;

        if a < 0 {
            nx = -nx;
            ny = -ny;
            a = -a;
        }

        Line { p1, p2, n: Point { x: nx, y: ny }, a }
    }

    /// The signed distance of `point` from the supporting line, scaled by
    /// the segment's length: zero exactly on the line, positive on the side
    /// the outward normal points to.
    pub fn point_distance(&self, point: Point) -> (d: i64)
        requires
            self.wf(),
            point.in_range(),
        ensures
            d as int == self.n.x * point.x + self.n.y * point.y - self.a,
    {
        proof {
            lemma_line_derived(self.p1, self.p2);
            lemma_mul_bound(self.n.x as int, point.x as int, 2 * MAX_COORD as int);
            lemma_mul_bound(self.n.y as int, point.y as int, 2 * MAX_COORD as int);
        }
        self.n.x * point.x + self.n.y * point.y - self.a
    }

    /// Whether two closed segments share at least one point: a proper
    /// crossing when each segment's endpoints straddle the other's line,
    /// otherwise a touch witnessed by a collinear endpoint inside the other
    /// segment's bounding box.
    pub open spec fn crosses_spec(self, other: Line) -> bool {
        let o1 = sign(orient_det(other.p1, other.p2, self.p1));
        let o2 = sign(orient_det(other.p1, other.p2, self.p2));
        let o3 = sign(orient_det(self.p1, self.p2, other.p1));
        let o4 = sign(orient_det(self.p1, self.p2, other.p2));
        if o1 * o2 == 1 || o3 * o4 == 1 {
            false
        } else if o1 * o2 == -1 && o3 * o4 == -1 {
            true
        } else {
            ||| o1 == 0 && self.p1.in_bbox(other)
            ||| o2 == 0 && self.p2.in_bbox(other)
            ||| o3 == 0 && other.p1.in_bbox(self)
            ||| o4 == 0 && other.p2.in_bbox(self)
        }
    }

    /// The boundary-aware crossing predicate.
    ///
    /// One segment entirely on one side of the other's line rules a
    /// crossing out; endpoints of each strictly straddling the other's line
    /// is a proper crossing; in every remaining case some endpoint is
    /// collinear with the other segment's line, and the segments touch
    /// exactly when such an endpoint also lies in that segment's bounding
    /// box.
    pub fn crosses(&self, other: &Line) -> (r: bool)
        requires
            self.p1.in_range(),
            self.p2.in_range(),
            other.p1.in_range(),
            other.p2.in_range(),
        ensures
            r == self.crosses_spec(*other),
    {
        let a: i32 = ccw(&other.p1, &other.p2, &self.p1);
        let b: i32 = ccw(&other.p1, &other.p2, &self.p2);
        let c: i32 = ccw(&self.p1, &self.p2, &other.p1);
        let d: i32 = ccw(&self.p1, &self.p2, &other.p2);

        proof {
            lemma_mul_bound(a as int, b as int, 1);
            lemma_mul_bound(c as int, d as int, 1);
        }
        let h1: i32 = a * b;
        let h2: i32 = c * d;
        if h1 == 1 || h2 == 1 {
            return false;
        }
        if h1 == -1 && h2 == -1 {
            return true;
        }

        a == 0 && self.p1.is_in_boundary(other)
            || b == 0 && self.p2.is_in_boundary(other)
            || c == 0 && other.p1.is_in_boundary(self)
            || d == 0 && other.p2.is_in_boundary(self)
    }
}

/// The crossing predicate is symmetric: which of the two segments asks the
/// question never changes the answer.
pub proof fn lemma_crosses_symmetric(a: Line, b: Line)
    ensures
        a.crosses_spec(b) == b.crosses_spec(a),
{
}

/// A zero-length segment crosses another zero-length segment exactly when
/// the two are the same point: an identical point-segment is a crossing, a
/// disjoint one is not.
pub proof fn lemma_point_segment_crossing(a: Line, b: Line)
    requires
        a.p1 == a.p2,
        b.p1 == b.p2,
    ensures
        a.crosses_spec(b) == (a.p1 == b.p1),
{
    assert(orient_det(b.p1, b.p2, a.p1) == 0) by (nonlinear_arith)
        requires
            orient_det(b.p1, b.p2, a.p1) == b.p1.x * b.p2.y - b.p1.y * b.p2.x + b.p2.x * a.p1.y
                - b.p2.y * a.p1.x + b.p1.y * a.p1.x - b.p1.x * a.p1.y,
            b.p1.x == b.p2.x,
            b.p1.y == b.p2.y;
    assert(orient_det(a.p1, a.p2, b.p1) == 0) by (nonlinear_arith)
        requires
            orient_det(a.p1, a.p2, b.p1) == a.p1.x * a.p2.y - a.p1.y * a.p2.x + a.p2.x * b.p1.y
                - a.p2.y * b.p1.x + a.p1.y * b.p1.x - a.p1.x * b.p1.y,
            a.p1.x == a.p2.x,
            a.p1.y == a.p2.y;
}

/// All four endpoint orientations vanish: each segment's endpoints lie on
/// the other segment's supporting line.
pub open spec fn collinear_lines(a: Line, b: Line) -> bool {
    &&& orient_det(b.p1, b.p2, a.p1) == 0
    &&& orient_det(b.p1, b.p2, a.p2) == 0
    &&& orient_det(a.p1, a.p2, b.p1) == 0
    &&& orient_det(a.p1, a.p2, b.p2) == 0
}

/// The projections of the two segments on the x-axis share a point.
pub open spec fn x_ranges_overlap(a: Line, b: Line) -> bool {
    let alo = if a.p1.x <= a.p2.x { a.p1.x } else { a.p2.x };
    let ahi = if a.p1.x <= a.p2.x { a.p2.x } else { a.p1.x };
    let blo = if b.p1.x <= b.p2.x { b.p1.x } else { b.p2.x };
    let bhi = if b.p1.x <= b.p2.x { b.p2.x } else { b.p1.x };
    alo <= bhi && blo <= ahi
}

/// The projections of the two segments on the y-axis share a point.
pub open spec fn y_ranges_overlap(a: Line, b: Line) -> bool {
    let alo = if a.p1.y <= a.p2.y { a.p1.y } else { a.p2.y };
    let ahi = if a.p1.y <= a.p2.y { a.p2.y } else { a.p1.y };
    let blo = if b.p1.y <= b.p2.y { b.p1.y } else { b.p2.y };
    let bhi = if b.p1.y <= b.p2.y { b.p2.y } else { b.p1.y };
    alo <= bhi && blo <= ahi
}

/// A point on the supporting line of a non-vertical segment whose abscissa
/// lies between the segment's endpoints has its ordinate between them as
/// well: the line interpolates monotonically.
pub proof fn lemma_on_line_between(q1: Point, q2: Point, p: Point)
    requires
        q1.x != q2.x,
        orient_det(q1, q2, p) == 0,
        (q1.x <= p.x && p.x <= q2.x) || (q2.x <= p.x && p.x <= q1.x),
    ensures
        (q1.y <= p.y && p.y <= q2.y) || (q2.y <= p.y && p.y <= q1.y),
{
    let dx = q2.x - q1.x;
    let dy = q2.y - q1.y;
    assert(dx * (p.y - q1.y) == dy * (p.x - q1.x)) by (nonlinear_arith)
        requires
            q1.x * q2.y - q1.y * q2.x + q2.x * p.y - q2.y * p.x + q1.y * p.x - q1.x * p.y == 0,
            dx == q2.x - q1.x,
            dy == q2.y - q1.y;
    assert(dx * (p.y - q2.y) == dy * (p.x - q2.x)) by (nonlinear_arith)
        requires
            dx * (p.y - q1.y) == dy * (p.x - q1.x),
            dx == q2.x - q1.x,
            dy == q2.y - q1.y;
    assert((p.x - q1.x) * (p.x - q2.x) <= 0) by (nonlinear_arith)
        requires
            (q1.x <= p.x && p.x <= q2.x) || (q2.x <= p.x && p.x <= q1.x);
    assert((p.y - q1.y) * (p.y - q2.y) <= 0) by (nonlinear_arith)
        requires
            dx * (p.y - q1.y) == dy * (p.x - q1.x),
            dx * (p.y - q2.y) == dy * (p.x - q2.x),
            (p.x - q1.x) * (p.x - q2.x) <= 0,
            dx != 0;
    assert((q1.y <= p.y && p.y <= q2.y) || (q2.y <= p.y && p.y <= q1.y)) by (nonlinear_arith)
        requires
            (p.y - q1.y) * (p.y - q2.y) <= 0;
}

/// The orientation determinant equals the cross product of the two
/// difference vectors it spans.
pub proof fn lemma_det_cross_form(p: Point, q: Point, r: Point)
    ensures
        orient_det(p, q, r) == (q.x - p.x) * (r.y - p.y) - (q.y - p.y) * (r.x - p.x),
{
    assert(p.x * q.y - p.y * q.x + q.x * r.y - q.y * r.x + p.y * r.x - p.x * r.y == (q.x - p.x) * (
    r.y - p.y) - (q.y - p.y) * (r.x - p.x)) by (nonlinear_arith);
}

/// When an affine function takes values of opposite signs at the two ends
/// of each segment's parameter range, its root is a common point of both
/// scaled coordinate ranges, so the ranges overlap.  The scalars `c, d` and
/// `e, f` are the line-side values at `b`'s and `a`'s endpoints, coupled by
/// the two determinant identities in the hypotheses; `a1, a2, b1, b2` are
/// the endpoint coordinates of one axis.
proof fn lemma_projection_overlap(
    c: int,
    d: int,
    e: int,
    f: int,
    a1: int,
    a2: int,
    b1: int,
    b2: int,
)
    requires
        c * d < 0,
        e * f < 0,
        e - f == -(c - d),
        c * b2 - d * b1 == -(e * a2 - f * a1),
    ensures
        (if a1 <= a2 {
            a1
        } else {
            a2
        }) <= (if b1 <= b2 {
            b2
        } else {
            b1
        }),
        (if b1 <= b2 {
            b1
        } else {
            b2
        }) <= (if a1 <= a2 {
            a2
        } else {
            a1
        }),
{
    let w = c - d;
    let g = c * b2 - d * b1;
    assert((c > 0 && d < 0) || (c < 0 && d > 0)) by (nonlinear_arith)
        requires
            c * d < 0;
    assert((g - w * b1) * (g - w * b2) <= 0) by (nonlinear_arith)
        requires
            c * d < 0,
            w == c - d,
            g == c * b2 - d * b1;
    assert((g - w * a1) * (g - w * a2) <= 0) by (nonlinear_arith)
        requires
            e * f < 0,
            w == c - d,
            e - f == -(c - d),
            g == c * b2 - d * b1,
            c * b2 - d * b1 == -(e * a2 - f * a1);
    if w > 0 {
        assert((if a1 <= a2 {
            a1
        } else {
            a2
        }) <= (if b1 <= b2 {
            b2
        } else {
            b1
        }) && (if b1 <= b2 {
            b1
        } else {
            b2
        }) <= (if a1 <= a2 {
            a2
        } else {
            a1
        })) by (nonlinear_arith)
            requires
                w > 0,
                (g - w * b1) * (g - w * b2) <= 0,
                (g - w * a1) * (g - w * a2) <= 0;
    } else {
        assert((if a1 <= a2 {
            a1
        } else {
            a2
        }) <= (if b1 <= b2 {
            b2
        } else {
            b1
        }) && (if b1 <= b2 {
            b1
        } else {
            b2
        }) <= (if a1 <= a2 {
            a2
        } else {
            a1
        })) by (nonlinear_arith)
            requires
                w < 0,
                (g - w * b1) * (g - w * b2) <= 0,
                (g - w * a1) * (g - w * a2) <= 0;
    }
}

/// Crossing segments have overlapping bounding boxes: a touch is witnessed
/// by an endpoint inside the other segment's box, and a proper crossing by
/// the crossing point itself, which lies within both coordinate ranges.
/// Contrapositive: segments with disjoint bounding boxes never cross.
pub proof fn lemma_crosses_bbox_overlap(a: Line, b: Line)
    requires
        a.crosses_spec(b),
    ensures
        x_ranges_overlap(a, b),
        y_ranges_overlap(a, b),
{
    let c = orient_det(a.p1, a.p2, b.p1);
    let d = orient_det(a.p1, a.p2, b.p2);
    let e = orient_det(b.p1, b.p2, a.p1);
    let f = orient_det(b.p1, b.p2, a.p2);
    if sign(e) * sign(f) == -1 && sign(c) * sign(d) == -1 {
        assert(c * d < 0) by (nonlinear_arith)
            requires
                (c > 0 && d < 0) || (c < 0 && d > 0);
        assert(e * f < 0) by (nonlinear_arith)
            requires
                (e > 0 && f < 0) || (e < 0 && f > 0);
        let ux = a.p2.x - a.p1.x;
        let uy = a.p2.y - a.p1.y;
        let vx = b.p2.x - b.p1.x;
        let vy = b.p2.y - b.p1.y;
        let sx = b.p1.x - a.p1.x;
        let sy = b.p1.y - a.p1.y;
        let t = ux * vy - uy * vx;
        lemma_det_cross_form(a.p1, a.p2, b.p1);
        lemma_det_cross_form(a.p1, a.p2, b.p2);
        lemma_det_cross_form(b.p1, b.p2, a.p1);
        lemma_det_cross_form(b.p1, b.p2, a.p2);
        assert(c == ux * sy - uy * sx);
        assert(d == ux * (sy + vy) - uy * (sx + vx));
        assert(d == c + t) by (nonlinear_arith)
            requires
                c == ux * sy - uy * sx,
                d == ux * (sy + vy) - uy * (sx + vx),
                t == ux * vy - uy * vx;
        assert(e == vx * (-sy) - vy * (-sx));
        assert(e == -(vx * sy - vy * sx)) by (nonlinear_arith)
            requires
                e == vx * (-sy) - vy * (-sx);
        assert(f == vx * (uy - sy) - vy * (ux - sx));
        assert(f == e - t) by (nonlinear_arith)
            requires
                e == -(vx * sy - vy * sx),
                f == vx * (uy - sy) - vy * (ux - sx),
                t == ux * vy - uy * vx;
        assert(e - f == -(c - d));
        assert((ux * sy - uy * sx) * vx - (vx * sy - vy * sx) * ux == (ux * vy - uy * vx) * sx)
            by (nonlinear_arith);
        assert(c * vx + e * ux == t * sx) by (nonlinear_arith)
            requires
                c == ux * sy - uy * sx,
                e == -(vx * sy - vy * sx),
                t == ux * vy - uy * vx,
                (ux * sy - uy * sx) * vx - (vx * sy - vy * sx) * ux == (ux * vy - uy * vx) * sx;
        assert(c * b.p2.x - d * b.p1.x == -(e * a.p2.x - f * a.p1.x)) by (nonlinear_arith)
            requires
                d == c + t,
                f == e - t,
                b.p2.x == b.p1.x + vx,
                a.p2.x == a.p1.x + ux,
                sx == b.p1.x - a.p1.x,
                c * vx + e * ux == t * sx;
        assert((ux * sy - uy * sx) * vy - (vx * sy - vy * sx) * uy == (ux * vy - uy * vx) * sy)
            by (nonlinear_arith);
        assert(c * vy + e * uy == t * sy) by (nonlinear_arith)
            requires
                c == ux * sy - uy * sx,
                e == -(vx * sy - vy * sx),
                t == ux * vy - uy * vx,
                (ux * sy - uy * sx) * vy - (vx * sy - vy * sx) * uy == (ux * vy - uy * vx) * sy;
        assert(c * b.p2.y - d * b.p1.y == -(e * a.p2.y - f * a.p1.y)) by (nonlinear_arith)
            requires
                d == c + t,
                f == e - t,
                b.p2.y == b.p1.y + vy,
                a.p2.y == a.p1.y + uy,
                sy == b.p1.y - a.p1.y,
                c * vy + e * uy == t * sy;
        lemma_projection_overlap(c, d, e, f, a.p1.x as int, a.p2.x as int, b.p1.x as int, b.p2.x as int);
        lemma_projection_overlap(c, d, e, f, a.p1.y as int, a.p2.y as int, b.p1.y as int, b.p2.y as int);
    }
}

/// Segments whose bounding boxes are disjoint never cross.
pub proof fn lemma_disjoint_bbox_never_cross(a: Line, b: Line)
    requires
        !(x_ranges_overlap(a, b) && y_ranges_overlap(a, b)),
    ensures
        !a.crosses_spec(b),
{
    if a.crosses_spec(b) {
        lemma_crosses_bbox_overlap(a, b);
    }
}

/// Two collinear segments cross exactly when their one-dimensional ranges
/// along the shared line overlap, which for segments of the same line is
/// the same as both coordinate projections overlapping -- touching at a
/// single shared point included.
pub proof fn lemma_collinear_overlap(a: Line, b: Line)
    requires
        collinear_lines(a, b),
    ensures
        a.crosses_spec(b) == (x_ranges_overlap(a, b) && y_ranges_overlap(a, b)),
{
    if a.crosses_spec(b) {
        assert(x_ranges_overlap(a, b) && y_ranges_overlap(a, b));
    }
    if x_ranges_overlap(a, b) && y_ranges_overlap(a, b) {
        let alo_pt = if a.p1.x <= a.p2.x {
            a.p1
        } else {
            a.p2
        };
        let blo_pt = if b.p1.x <= b.p2.x {
            b.p1
        } else {
            b.p2
        };
        if b.p1.x != b.p2.x {
            if blo_pt.x <= alo_pt.x {
                lemma_on_line_between(b.p1, b.p2, alo_pt);
                assert(alo_pt.in_bbox(b));
            } else {
                assert(a.p1.x != a.p2.x);
                lemma_on_line_between(a.p1, a.p2, blo_pt);
                assert(blo_pt.in_bbox(a));
            }
        } else {
            if a.p1.x != a.p2.x {
                lemma_on_line_between(a.p1, a.p2, b.p1);
                assert(b.p1.in_bbox(a));
            } else {
                let aylo_pt = if a.p1.y <= a.p2.y {
                    a.p1
                } else {
                    a.p2
                };
                let bylo_pt = if b.p1.y <= b.p2.y {
                    b.p1
                } else {
                    b.p2
                };
                if bylo_pt.y <= aylo_pt.y {
                    assert(aylo_pt.in_bbox(b));
                } else {
                    assert(bylo_pt.in_bbox(a));
                }
            }
        }
        assert(a.crosses_spec(b));
    }
}

} // verus!
