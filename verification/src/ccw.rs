use vstd::prelude::*;

use crate::point::{Point, MAX_COORD};
use crate::rat::{Rat, RatPoint, lemma_mul_bounds};

verus! {

/// Orientation of a third point relative to the directed line through two
/// others: to its left, collinear with it (`Middle`), or to its right.
/// Left and right are named in a frame whose y-axis points down, as in
/// image coordinates: `Right` stands for a positive determinant.
#[derive(Clone, Copy, Debug, PartialEq, Eq, Structural)]
pub enum Ccw {
    Left,
    Middle,
    Right,
}

impl Ccw {
    /// Numeric rank of the orientation: `Left` is -1, `Middle` 0, `Right` 1.
    pub open spec fn to_int(self) -> int {
        match self {
            Ccw::Left => -1,
            Ccw::Middle => 0,
            Ccw::Right => 1,
        }
    }
}

impl From<i32> for Ccw {
    /// Negative to `Left`, zero to `Middle`, positive to `Right`.
    fn from(i: i32) -> (r: Self) {
        if i < 0 {
            Ccw::Left
        } else if i == 0 {
            Ccw::Middle
        } else {
            Ccw::Right
        }
    }
}

impl vstd::std_specs::convert::FromSpecImpl<i32> for Ccw {
    open spec fn obeys_from_spec() -> bool {
        true
    }

    open spec fn from_spec(i: i32) -> Ccw {
        if i < 0 {
            Ccw::Left
        } else if i == 0 {
            Ccw::Middle
        } else {
            Ccw::Right
        }
    }
}

/// Twice the signed area of the triangle `(p, q, r)`: zero exactly when
/// the three points are collinear, and of one fixed sign for each side of
/// the directed line from `p` to `q`.
pub open spec fn orient_det(p: Point, q: Point, r: Point) -> int {
    p.x * q.y - p.y * q.x + q.x * r.y - q.y * r.x + p.y * r.x - p.x * r.y
}

/// Sign of an integer: -1, 0 or 1.
pub open spec fn sign(v: int) -> int {
    if v < 0 {
        -1
    } else if v == 0 {
        0
    } else {
        1
    }
}

/// The product of two values each bounded by `m` in magnitude is bounded by
/// `m * m`.
pub proof fn lemma_mul_bound(a: int, b: int, m: int)
    by (nonlinear_arith)
    requires
        -m <= a <= m,
        -m <= b <= m,
        0 <= m,
    ensures
        -(m * m) <= a * b <= m * m,
{
}

/// The orientation determinant of three grid points.
pub fn ccw_value(p: &Point, q: &Point, r: &Point) -> (d: i64)
    requires
        p.in_range(),
        q.in_range(),
        r.in_range(),
    ensures
        d as int == orient_det(*p, *q, *r),
{
    proof {
        lemma_mul_bound(p.x as int, q.y as int, MAX_COORD as int);
        lemma_mul_bound(p.y as int, q.x as int, MAX_COORD as int);
        lemma_mul_bound(q.x as int, r.y as int, MAX_COORD as int);
        lemma_mul_bound(q.y as int, r.x as int, MAX_COORD as int);
        lemma_mul_bound(p.y as int, r.x as int, MAX_COORD as int);
        lemma_mul_bound(p.x as int, r.y as int, MAX_COORD as int);
    }
    p.x * q.y - p.y * q.x + q.x * r.y - q.y * r.x + p.y * r.x - p.x * r.y
}

/// The orientation predicate: the sign of the orientation determinant,
/// 0 exactly when the three points are collinear.  Every side-of-line
/// decision in the library routes through this single predicate, so
/// crossing and boundary-touch decisions can never disagree.
pub fn ccw(p: &Point, q: &Point, r: &Point) -> (o: i32)
    requires
        p.in_range(),
        q.in_range(),
        r.in_range(),
    ensures
        o as int == sign(orient_det(*p, *q, *r)),
{
    let v: i64 = ccw_value(p, q, r);

    if v < 0 {
        -1
    } else if v == 0 {
        0
    } else {
        1
    }
}

/// The orientation predicate is a pure function of its three points: any two
/// results that satisfy its contract on the same arguments are equal, so
/// re-evaluation can never change an orientation decision.
pub proof fn lemma_orientation_pure(p: Point, q: Point, r: Point, o1: int, o2: int)
    requires
        o1 == sign(orient_det(p, q, r)),
        o2 == sign(orient_det(p, q, r)),
    ensures
        o1 == o2,
{
}

/// The four orientation values two segments induce on one another's
/// endpoints: the first segment's line against the second segment's two
/// endpoints, then the second segment's line against the first's.
#[derive(Clone, Copy, Debug, PartialEq, Eq, Structural)]
pub struct CcwCombination {
    pub ccw1: Ccw,
    pub ccw2: Ccw,
    pub ccw3: Ccw,
    pub ccw4: Ccw,
}

impl CcwCombination {
    /// The canonical representative `minimize` maps a combination to:
    /// each segment's pair is put in ascending order, reflected so that it
    /// does not start to the right, and the two pairs are then sorted.
    pub open spec fn minimize_spec(self) -> CcwCombination {
        let (a1, a2) = if self.ccw1.to_int() > self.ccw2.to_int() {
            (self.ccw2, self.ccw1)
        } else {
            (self.ccw1, self.ccw2)
        };
        let (b1, b2) = if self.ccw3.to_int() > self.ccw4.to_int() {
            (self.ccw4, self.ccw3)
        } else {
            (self.ccw3, self.ccw4)
        };
        let (a1, a2) = if a1 == Ccw::Right {
            (Ccw::Left, Ccw::Left)
        } else {
            (a1, a2)
        };
        let (b1, b2) = if b1 == Ccw::Right {
            (Ccw::Left, Ccw::Left)
        } else {
            (b1, b2)
        };
        let (a1, a2) = if a1 == Ccw::Middle && a2 == Ccw::Right {
            (Ccw::Left, Ccw::Middle)
        } else {
            (a1, a2)
        };
        let (b1, b2) = if b1 == Ccw::Middle && b2 == Ccw::Right {
            (Ccw::Left, Ccw::Middle)
        } else {
            (b1, b2)
        };
        if a1.to_int() > b1.to_int() || (a1 == b1 && a2.to_int() > b2.to_int()) {
            CcwCombination { ccw1: b1, ccw2: b2, ccw3: a1, ccw4: a2 }
        } else {
            CcwCombination { ccw1: a1, ccw2: a2, ccw3: b1, ccw4: b2 }
        }
    }

    /// Normalize the combination to its canonical representative: reversing
    /// either segment, mirroring the plane, or swapping the two segments
    /// never changes which representative a geometric configuration yields.
    pub fn minimize(&self) -> (r: CcwCombination)
        ensures
            r == self.minimize_spec(),
    {
        let mut ccw1 = self.ccw1;
        let mut ccw2 = self.ccw2;
        let mut ccw3 = self.ccw3;
        let mut ccw4 = self.ccw4;

        if ccw_rank(ccw1) > ccw_rank(ccw2) {
            ccw2 = ccw1;
            ccw1 = self.ccw2;
        }
        if ccw_rank(ccw3) > ccw_rank(ccw4) {
            ccw4 = ccw3;
            ccw3 = self.ccw4;
        }

        if ccw1 == Ccw::Right {
            ccw1 = Ccw::Left;
            ccw2 = Ccw::Left;
        }
        if ccw3 == Ccw::Right {
            ccw3 = Ccw::Left;
            ccw4 = Ccw::Left;
        }
        if ccw1 == Ccw::Middle && ccw2 == Ccw::Right {
            ccw1 = Ccw::Left;
            ccw2 = Ccw::Middle;
        }
        if ccw3 == Ccw::Middle && ccw4 == Ccw::Right {
            ccw3 = Ccw::Left;
            ccw4 = Ccw::Middle;
        }

        if ccw_rank(ccw1) > ccw_rank(ccw3) || (ccw1 == ccw3 && ccw_rank(ccw2) > ccw_rank(ccw4)) {
            CcwCombination { ccw1: ccw3, ccw2: ccw4, ccw3: ccw1, ccw4: ccw2 }
        } else {
            CcwCombination { ccw1, ccw2, ccw3, ccw4 }
        }
    }
}

/// Magnitude of an integer.
pub open spec fn abs_spec(v: int) -> int {
    if v < 0 {
        -v
    } else {
        v
    }
}

/// Denominator of the crossing point of the segments `(a1, a2)` and
/// `(b1, b2)`: the sum of the magnitudes of the two determinants that
/// measure how far each `a` endpoint lies from the line through `b1` and
/// `b2`, each scaled by that line's length.
pub open spec fn cross_den_spec(a1: Point, a2: Point, b1: Point, b2: Point) -> int {
    abs_spec(orient_det(b1, a1, b2)) + abs_spec(orient_det(b2, a2, b1))
}

/// Numerator of the crossing point's abscissa: `a1.x` advanced along the
/// first segment by the ratio of the first distance to the distance sum.
pub open spec fn cross_x_num_spec(a1: Point, a2: Point, b1: Point, b2: Point) -> int {
    a1.x * cross_den_spec(a1, a2, b1, b2) + (a2.x - a1.x) * abs_spec(orient_det(b1, a1, b2))
}

/// Numerator of the crossing point's ordinate.
pub open spec fn cross_y_num_spec(a1: Point, a2: Point, b1: Point, b2: Point) -> int {
    a1.y * cross_den_spec(a1, a2, b1, b2) + (a2.y - a1.y) * abs_spec(orient_det(b1, a1, b2))
}

/// Whether `crossing_point` has a value for the two segments: either a
/// degenerate short-circuit applies or the distance sum is positive.
pub open spec fn cross_defined(a1: Point, a2: Point, b1: Point, b2: Point) -> bool {
    (a1 == b1 && a2 == b2) || a1 == a2 || b1 == b2 || cross_den_spec(a1, a2, b1, b2) > 0
}

/// The point `crossing_point` yields when it is defined.
pub open spec fn cross_point_of(a1: Point, a2: Point, b1: Point, b2: Point) -> RatPoint {
    if (a1 == b1 && a2 == b2) || a1 == a2 {
        RatPoint { x: Rat { num: a1.x as i128, den: 1 }, y: Rat { num: a1.y as i128, den: 1 } }
    } else if b1 == b2 {
        RatPoint { x: Rat { num: b1.x as i128, den: 1 }, y: Rat { num: b1.y as i128, den: 1 } }
    } else {
        let s = cross_den_spec(a1, a2, b1, b2) as i128;
        RatPoint {
            x: Rat { num: cross_x_num_spec(a1, a2, b1, b2) as i128, den: s },
            y: Rat { num: cross_y_num_spec(a1, a2, b1, b2) as i128, den: s },
        }
    }
}

/// The orientation determinant of three grid points is bounded by six times
/// the squared coordinate bound.
pub proof fn lemma_det_bound(p: Point, q: Point, r: Point)
    requires
        p.in_range(),
        q.in_range(),
        r.in_range(),
    ensures
        -6 * MAX_COORD * MAX_COORD <= orient_det(p, q, r) <= 6 * MAX_COORD * MAX_COORD,
{
    lemma_mul_bound(p.x as int, q.y as int, MAX_COORD as int);
    lemma_mul_bound(p.y as int, q.x as int, MAX_COORD as int);
    lemma_mul_bound(q.x as int, r.y as int, MAX_COORD as int);
    lemma_mul_bound(q.y as int, r.x as int, MAX_COORD as int);
    lemma_mul_bound(p.y as int, r.x as int, MAX_COORD as int);
    lemma_mul_bound(p.x as int, r.y as int, MAX_COORD as int);
}

/// The crossing-point fractions of two grid segments stay within the sweep
/// position bounds.
pub proof fn lemma_cross_bounds(a1: Point, a2: Point, b1: Point, b2: Point)
    requires
        a1.in_range(),
        a2.in_range(),
        b1.in_range(),
        b2.in_range(),
    ensures
        0 <= cross_den_spec(a1, a2, b1, b2) <= crate::rat::POS_DEN_MAX,
        -crate::rat::POS_NUM_MAX <= cross_x_num_spec(a1, a2, b1, b2) <= crate::rat::POS_NUM_MAX,
        -crate::rat::POS_NUM_MAX <= cross_y_num_spec(a1, a2, b1, b2) <= crate::rat::POS_NUM_MAX,
{
    lemma_det_bound(b1, a1, b2);
    lemma_det_bound(b2, a2, b1);
    let s = cross_den_spec(a1, a2, b1, b2);
    let d1 = abs_spec(orient_det(b1, a1, b2));
    lemma_mul_bounds(a1.x as int, s, MAX_COORD as int, 12 * MAX_COORD * MAX_COORD);
    lemma_mul_bounds((a2.x - a1.x) as int, d1, 2 * MAX_COORD as int, 6 * MAX_COORD * MAX_COORD);
    lemma_mul_bounds(a1.y as int, s, MAX_COORD as int, 12 * MAX_COORD * MAX_COORD);
    lemma_mul_bounds((a2.y - a1.y) as int, d1, 2 * MAX_COORD as int, 6 * MAX_COORD * MAX_COORD);
}

/// The crossing point of two segments that cross or touch.
///
/// Degenerate pairs short-circuit: two identical point-segments, or a
/// point-segment against anything, yield that point.  Otherwise the first
/// segment is advanced from `a1` towards `a2` proportionally to the ratio of
/// the two scaled distances of its endpoints from the second segment's
/// line, an exact rational.  When both endpoints of the first segment lie
/// on the second segment's line the ratio is undefined and no point is
/// returned.
pub fn crossing_point(a1: &Point, a2: &Point, b1: &Point, b2: &Point) -> (r: Option<RatPoint>)
    requires
        a1.in_range(),
        a2.in_range(),
        b1.in_range(),
        b2.in_range(),
    ensures
        r is Some <==> cross_defined(*a1, *a2, *b1, *b2),
        r is Some ==> r == Some(cross_point_of(*a1, *a2, *b1, *b2)),
        r is Some ==> r.unwrap().x.pos_wf() && r.unwrap().y.pos_wf(),
{
    if *a1 == *b1 && *a2 == *b2 {
        return Some(RatPoint { x: Rat::from_i64(a1.x), y: Rat::from_i64(a1.y) });
    }
    if *a1 == *a2 {
        return Some(RatPoint { x: Rat::from_i64(a1.x), y: Rat::from_i64(a1.y) });
    }
    if *b1 == *b2 {
        return Some(RatPoint { x: Rat::from_i64(b1.x), y: Rat::from_i64(b1.y) });
    }

    let v1: i64 = ccw_value(b1, a1, b2);
    let v2: i64 = ccw_value(b2, a2, b1);
    proof {
        lemma_det_bound(*b1, *a1, *b2);
        lemma_det_bound(*b2, *a2, *b1);
    }
    let d1: i64 = if v1 < 0 { -v1 } else { v1 };
    let d2: i64 = if v2 < 0 { -v2 } else { v2 };
    let s: i64 = d1 + d2;
    if s == 0 {
        return None;
    }

    proof {
        lemma_cross_bounds(*a1, *a2, *b1, *b2);
        lemma_mul_bounds(a1.x as int, s as int, MAX_COORD as int, 12 * MAX_COORD * MAX_COORD);
        lemma_mul_bounds((a2.x - a1.x) as int, d1 as int, 2 * MAX_COORD as int,
            6 * MAX_COORD * MAX_COORD);
        lemma_mul_bounds(a1.y as int, s as int, MAX_COORD as int, 12 * MAX_COORD * MAX_COORD);
        lemma_mul_bounds((a2.y - a1.y) as int, d1 as int, 2 * MAX_COORD as int,
            6 * MAX_COORD * MAX_COORD);
    }
    let xn: i128 = (a1.x as i128) * (s as i128) + ((a2.x - a1.x) as i128) * (d1 as i128);
    let yn: i128 = (a1.y as i128) * (s as i128) + ((a2.y - a1.y) as i128) * (d1 as i128);
    Some(RatPoint { x: Rat { num: xn, den: s as i128 }, y: Rat { num: yn, den: s as i128 } })
}

/// The orientation value that a sign yields.
pub open spec fn ccw_of_sign(v: int) -> Ccw {
    if v < 0 {
        Ccw::Left
    } else if v == 0 {
        Ccw::Middle
    } else {
        Ccw::Right
    }
}

/// The four orientation values two segments induce on one another's
/// endpoints: each segment's line against the other segment's endpoints.
pub open spec fn combo_of(l1: crate::line::Line, l2: crate::line::Line) -> CcwCombination {
    CcwCombination {
        ccw1: ccw_of_sign(sign(orient_det(l1.p1, l1.p2, l2.p1))),
        ccw2: ccw_of_sign(sign(orient_det(l1.p1, l1.p2, l2.p2))),
        ccw3: ccw_of_sign(sign(orient_det(l2.p1, l2.p2, l1.p1))),
        ccw4: ccw_of_sign(sign(orient_det(l2.p1, l2.p2, l1.p2))),
    }
}

/// When both `p1` and `p2` lie on the line through the distinct points `q1`
/// and `q2`, the two lines coincide, so `q1` and `q2` lie on the line
/// through `p1` and `p2` as well.
pub proof fn lemma_collinear_propagation(q1: Point, q2: Point, p1: Point, p2: Point)
    requires
        q1 != q2,
        orient_det(q1, q2, p1) == 0,
        orient_det(q1, q2, p2) == 0,
    ensures
        orient_det(p1, p2, q1) == 0,
        orient_det(p1, p2, q2) == 0,
{
    let ux = q2.x - q1.x;
    let uy = q2.y - q1.y;
    let vx = p1.x - q1.x;
    let vy = p1.y - q1.y;
    let wx = p2.x - q1.x;
    let wy = p2.y - q1.y;

    assert(ux * vy == uy * vx) by (nonlinear_arith)
        requires
            q1.x * q2.y - q1.y * q2.x + q2.x * p1.y - q2.y * p1.x + q1.y * p1.x - q1.x * p1.y == 0,
            ux == q2.x - q1.x,
            uy == q2.y - q1.y,
            vx == p1.x - q1.x,
            vy == p1.y - q1.y;
    assert(ux * wy == uy * wx) by (nonlinear_arith)
        requires
            q1.x * q2.y - q1.y * q2.x + q2.x * p2.y - q2.y * p2.x + q1.y * p2.x - q1.x * p2.y == 0,
            ux == q2.x - q1.x,
            uy == q2.y - q1.y,
            wx == p2.x - q1.x,
            wy == p2.y - q1.y;
    assert(ux * (vx * wy - vy * wx) == 0) by (nonlinear_arith)
        requires
            ux * vy == uy * vx,
            ux * wy == uy * wx;
    assert(uy * (vx * wy - vy * wx) == 0) by (nonlinear_arith)
        requires
            ux * vy == uy * vx,
            ux * wy == uy * wx;
    assert(ux != 0 || uy != 0);
    assert(vx * wy - vy * wx == 0) by (nonlinear_arith)
        requires
            ux * (vx * wy - vy * wx) == 0,
            uy * (vx * wy - vy * wx) == 0,
            ux != 0 || uy != 0;
    assert(orient_det(p1, p2, q1) == 0) by (nonlinear_arith)
        requires
            vx * wy - vy * wx == 0,
            vx == p1.x - q1.x,
            vy == p1.y - q1.y,
            wx == p2.x - q1.x,
            wy == p2.y - q1.y,
            orient_det(p1, p2, q1) == p1.x * p2.y - p1.y * p2.x + p2.x * q1.y - p2.y * q1.x
                + p1.y * q1.x - p1.x * q1.y;
    assert(wx * uy - wy * ux == 0) by (nonlinear_arith)
        requires
            ux * wy == uy * wx;
    assert(wx * vy - wy * vx == 0) by (nonlinear_arith)
        requires
            vx * wy - vy * wx == 0;
    assert(vx * uy - vy * ux == 0) by (nonlinear_arith)
        requires
            ux * vy == uy * vx;
    assert(orient_det(p1, p2, q2) == (wx * uy - wy * ux) - (wx * vy - wy * vx) - (vx * uy - vy
        * ux)) by (nonlinear_arith)
        requires
            ux == q2.x - q1.x,
            uy == q2.y - q1.y,
            vx == p1.x - q1.x,
            vy == p1.y - q1.y,
            wx == p2.x - q1.x,
            wy == p2.y - q1.y,
            orient_det(p1, p2, q2) == p1.x * p2.y - p1.y * p2.x + p2.x * q2.y - p2.y * q2.x
                + p1.y * q2.x - p1.x * q2.y;
}

/// For any two segments the four orientation values are coupled: when one
/// segment lies entirely on the other's line, that other segment cannot
/// distinguish the first segment's endpoints.
pub proof fn lemma_combo_coupled(l1: crate::line::Line, l2: crate::line::Line)
    ensures
        combo_of(l1, l2).ccw3 == Ccw::Middle && combo_of(l1, l2).ccw4 == Ccw::Middle ==> combo_of(
            l1,
            l2,
        ).ccw1 == combo_of(l1, l2).ccw2,
        combo_of(l1, l2).ccw1 == Ccw::Middle && combo_of(l1, l2).ccw2 == Ccw::Middle ==> combo_of(
            l1,
            l2,
        ).ccw3 == combo_of(l1, l2).ccw4,
{
    let c = combo_of(l1, l2);
    if c.ccw3 == Ccw::Middle && c.ccw4 == Ccw::Middle {
        if l2.p1 == l2.p2 {
        } else {
            lemma_collinear_propagation(l2.p1, l2.p2, l1.p1, l1.p2);
        }
    }
    if c.ccw1 == Ccw::Middle && c.ccw2 == Ccw::Middle {
        if l1.p1 == l1.p2 {
        } else {
            lemma_collinear_propagation(l1.p1, l1.p2, l2.p1, l2.p2);
        }
    }
}

/// No two segments, however degenerate, canonicalize to either of the two
/// combinations that are impossible for straight segments: one segment on
/// the other's line with that line nonetheless taking sides on it.
pub proof fn lemma_no_impossible_combination(l1: crate::line::Line, l2: crate::line::Line)
    ensures
        combo_of(l1, l2).minimize_spec() != (CcwCombination {
            ccw1: Ccw::Left,
            ccw2: Ccw::Middle,
            ccw3: Ccw::Middle,
            ccw4: Ccw::Middle,
        }),
        combo_of(l1, l2).minimize_spec() != (CcwCombination {
            ccw1: Ccw::Left,
            ccw2: Ccw::Right,
            ccw3: Ccw::Middle,
            ccw4: Ccw::Middle,
        }),
{
    lemma_combo_coupled(l1, l2);
}

/// Numeric rank of an orientation, for comparisons.
fn ccw_rank(c: Ccw) -> (r: i32)
    ensures
        r as int == c.to_int(),
{
    match c {
        Ccw::Left => -1,
        Ccw::Middle => 0,
        Ccw::Right => 1,
    }
}

} // verus!
