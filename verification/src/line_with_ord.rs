use vstd::prelude::*;

use crate::line::Line;
use crate::point::MAX_COORD;
use crate::rat::{lemma_mul_bounds, Rat, DEN_MAX, NUM_MAX, POS_DEN_MAX, POS_NUM_MAX};

verus! {

/// A segment wrapped with the sweep abscissa at which to evaluate its
/// y-value, so that the status structure can compare segments positionally
/// rather than by identity.
#[derive(Clone, Copy, Debug)]
pub struct LineWithOrd {
    pub line: Line,
    pub sweep_x: Rat,
}

/// The y-value of `l` at abscissa `x` as an exact fraction with positive
/// denominator.  A vertical segment falls back to its first endpoint's
/// ordinate.
pub open spec fn y_at_frac(l: Line, x: Rat) -> (int, int) {
    if l.p1.x == l.p2.x {
        (l.p1.y as int, 1)
    } else {
        let dx = l.p2.x as int - l.p1.x as int;
        let dy = l.p2.y as int - l.p1.y as int;
        let num = (l.p1.y as int) * (x.den as int) * dx + ((x.num as int) - (l.p1.x as int) * (
        x.den as int)) * dy;
        let den = (x.den as int) * dx;
        if den < 0 {
            (-num, -den)
        } else {
            (num, den)
        }
    }
}

/// The slope of a non-vertical segment as a fraction with positive
/// denominator.
pub open spec fn slope_frac(l: Line) -> (int, int) {
    let dx = l.p2.x as int - l.p1.x as int;
    let dy = l.p2.y as int - l.p1.y as int;
    if dx < 0 {
        (-dy, -dx)
    } else {
        (dy, dx)
    }
}

/// Value order on fractions with positive denominators.
pub open spec fn frac_lt(a: (int, int), b: (int, int)) -> bool {
    a.0 * b.1 < b.0 * a.1
}

/// Value equality on fractions with positive denominators.
pub open spec fn frac_eq(a: (int, int), b: (int, int)) -> bool {
    a.0 * b.1 == b.0 * a.1
}

/// The positional order of the status structure: `l1` runs strictly below
/// `l2` at abscissa `x` when its y-value there is smaller, or, at a shared
/// point, when its slope is smaller.  The slope tie-break orders two
/// segments through a common point exactly as their y-values would
/// immediately to the right of `x`, which is what re-inserting crossing
/// segments just past the crossing is meant to achieve.
pub open spec fn below_spec(l1: Line, l2: Line, x: Rat) -> bool {
    ||| frac_lt(y_at_frac(l1, x), y_at_frac(l2, x))
    ||| (frac_eq(y_at_frac(l1, x), y_at_frac(l2, x)) && frac_lt(slope_frac(l1), slope_frac(l2)))
}

/// The derived-order equality of the status structure: equal y-value at `x`
/// and equal slope.
pub open spec fn key_eq_spec(l1: Line, l2: Line, x: Rat) -> bool {
    frac_eq(y_at_frac(l1, x), y_at_frac(l2, x)) && frac_eq(slope_frac(l1), slope_frac(l2))
}

/// A positive multiplier keeps the sign and magnitude class of the other
/// factor.
pub proof fn lemma_mul_sign(a: int, b: int)
    by (nonlinear_arith)
    requires
        a >= 1,
    ensures
        b > 0 ==> a * b >= b,
        b < 0 ==> a * b <= b,
        b > 0 ==> a * b > 0,
        b < 0 ==> a * b < 0,
        b == 0 ==> a * b == 0,
{
}

/// The y-value fraction of a grid segment at a sweep position stays within
/// the general rational bounds, with positive denominator.
pub proof fn lemma_y_at_bounds(l: Line, x: Rat)
    requires
        l.p1.in_range(),
        l.p2.in_range(),
        x.pos_wf(),
    ensures
        -NUM_MAX <= y_at_frac(l, x).0 <= NUM_MAX,
        1 <= y_at_frac(l, x).1 <= DEN_MAX,
{
    if l.p1.x == l.p2.x {
    } else {
        let dx = l.p2.x as int - l.p1.x as int;
        let dy = l.p2.y as int - l.p1.y as int;
        lemma_mul_bounds(l.p1.y as int, x.den as int, MAX_COORD as int, POS_DEN_MAX as int);
        lemma_mul_bounds(
            (l.p1.y as int) * (x.den as int),
            dx,
            MAX_COORD * POS_DEN_MAX,
            2 * MAX_COORD as int,
        );
        lemma_mul_bounds(l.p1.x as int, x.den as int, MAX_COORD as int, POS_DEN_MAX as int);
        lemma_mul_bounds(
            (x.num as int) - (l.p1.x as int) * (x.den as int),
            dy,
            POS_NUM_MAX + MAX_COORD * POS_DEN_MAX,
            2 * MAX_COORD as int,
        );
        lemma_mul_bounds(x.den as int, dx, POS_DEN_MAX as int, 2 * MAX_COORD as int);
        if dx < 0 {
            lemma_mul_sign(x.den as int, dx);
        } else {
            lemma_mul_sign(x.den as int, dx);
        }
    }
}

/// The exact y-value of a non-vertical grid segment at a sweep position.
pub fn y_at_line(l: &Line, x: &Rat) -> (r: Rat)
    requires
        l.p1.in_range(),
        l.p2.in_range(),
        x.pos_wf(),
    ensures
        r.num as int == y_at_frac(*l, *x).0,
        r.den as int == y_at_frac(*l, *x).1,
        r.wf(),
{
    proof {
        lemma_y_at_bounds(*l, *x);
    }
    if l.p1.x == l.p2.x {
        return Rat { num: l.p1.y as i128, den: 1 };
    }
    let dx: i128 = (l.p2.x - l.p1.x) as i128;
    let dy: i128 = (l.p2.y - l.p1.y) as i128;
    proof {
        lemma_mul_bounds(l.p1.y as int, x.den as int, MAX_COORD as int, POS_DEN_MAX as int);
        lemma_mul_bounds(
            (l.p1.y as int) * (x.den as int),
            dx as int,
            MAX_COORD * POS_DEN_MAX,
            2 * MAX_COORD as int,
        );
        lemma_mul_bounds(l.p1.x as int, x.den as int, MAX_COORD as int, POS_DEN_MAX as int);
        lemma_mul_bounds(
            (x.num as int) - (l.p1.x as int) * (x.den as int),
            dy as int,
            POS_NUM_MAX + MAX_COORD * POS_DEN_MAX,
            2 * MAX_COORD as int,
        );
        lemma_mul_bounds(x.den as int, dx as int, POS_DEN_MAX as int, 2 * MAX_COORD as int);
    }
    let num: i128 = (l.p1.y as i128) * x.den * dx + (x.num - (l.p1.x as i128) * x.den) * dy;
    let den: i128 = x.den * dx;
    if den < 0 {
        Rat { num: -num, den: -den }
    } else {
        Rat { num, den }
    }
}

/// The slope of a non-vertical grid segment.
pub fn slope_of(l: &Line) -> (r: Rat)
    requires
        l.p1.in_range(),
        l.p2.in_range(),
        l.p1.x != l.p2.x,
    ensures
        r.num as int == slope_frac(*l).0,
        r.den as int == slope_frac(*l).1,
        r.wf(),
{
    let dx: i128 = (l.p2.x - l.p1.x) as i128;
    let dy: i128 = (l.p2.y - l.p1.y) as i128;
    if dx < 0 {
        Rat { num: -dy, den: -dx }
    } else {
        Rat { num: dy, den: dx }
    }
}

/// Whether `l1` runs strictly below `l2` at abscissa `x` in the positional
/// order of the status structure.
pub fn below(l1: &Line, l2: &Line, x: &Rat) -> (r: bool)
    requires
        l1.p1.in_range(),
        l1.p2.in_range(),
        l1.p1.x != l1.p2.x,
        l2.p1.in_range(),
        l2.p2.in_range(),
        l2.p1.x != l2.p2.x,
        x.pos_wf(),
    ensures
        r == below_spec(*l1, *l2, *x),
{
    let y1 = y_at_line(l1, x);
    let y2 = y_at_line(l2, x);
    if y1.lt(&y2) {
        return true;
    }
    if !y1.eq_value(&y2) {
        return false;
    }
    let s1 = slope_of(l1);
    let s2 = slope_of(l2);
    s1.lt(&s2)
}

/// Whether `l1` and `l2` are the same element of the status structure's
/// derived order at abscissa `x`.
pub fn key_eq(l1: &Line, l2: &Line, x: &Rat) -> (r: bool)
    requires
        l1.p1.in_range(),
        l1.p2.in_range(),
        l1.p1.x != l1.p2.x,
        l2.p1.in_range(),
        l2.p2.in_range(),
        l2.p1.x != l2.p2.x,
        x.pos_wf(),
    ensures
        r == key_eq_spec(*l1, *l2, *x),
{
    let y1 = y_at_line(l1, x);
    let y2 = y_at_line(l2, x);
    if !y1.eq_value(&y2) {
        return false;
    }
    let s1 = slope_of(l1);
    let s2 = slope_of(l2);
    s1.eq_value(&s2)
}

impl LineWithOrd {
    /// Wrap a segment with the abscissa at which to evaluate it.
    pub fn new(line: Line, sweep_x: Rat) -> (r: Self)
        ensures
            r.line == line,
            r.sweep_x == sweep_x,
    {
        Self { line, sweep_x }
    }

    /// The y-value of the wrapped segment at the wrapped abscissa.
    pub fn y_at(&self) -> (r: Rat)
        requires
            self.line.p1.in_range(),
            self.line.p2.in_range(),
            self.sweep_x.pos_wf(),
        ensures
            r.num as int == y_at_frac(self.line, self.sweep_x).0,
            r.den as int == y_at_frac(self.line, self.sweep_x).1,
            r.wf(),
    {
        y_at_line(&self.line, &self.sweep_x)
    }
}

} // verus!
