use vstd::prelude::*;

verus! {

/// Numerator magnitude bound for general rationals (2^72): large enough for
/// the y-value of a segment evaluated at any sweep position.
pub const NUM_MAX: i128 = 4722366482869645213696;

/// Denominator bound for general rationals (2^53).
pub const DEN_MAX: i128 = 9007199254740992;

/// Numerator magnitude bound for sweep positions (2^53): event abscissas are
/// either grid coordinates or crossing abscissas of two grid segments.
pub const POS_NUM_MAX: i128 = 9007199254740992;

/// Denominator bound for sweep positions (2^36).
pub const POS_DEN_MAX: i128 = 68719476736;

/// An exact rational with a positive denominator.  Comparisons
/// cross-multiply, so the bounds above keep every product within `i128`.
#[derive(Clone, Copy, Debug, PartialEq, Eq, Structural)]
pub struct Rat {
    pub num: i128,
    pub den: i128,
}

/// A point with exact rational coordinates, as computed for a crossing of
/// two grid segments.
#[derive(Clone, Copy, Debug, PartialEq, Eq, Structural)]
pub struct RatPoint {
    pub x: Rat,
    pub y: Rat,
}

/// The product of two values bounded in magnitude by `ma` and `mb` is
/// bounded by `ma * mb`.
pub proof fn lemma_mul_bounds(a: int, b: int, ma: int, mb: int)
    by (nonlinear_arith)
    requires
        -ma <= a <= ma,
        -mb <= b <= mb,
        0 <= ma,
        0 <= mb,
    ensures
        -(ma * mb) <= a * b <= ma * mb,
{
}

impl Rat {
    /// Positive denominator and both parts within the general bounds.
    pub open spec fn wf(self) -> bool {
        &&& 1 <= self.den <= DEN_MAX
        &&& -NUM_MAX <= self.num <= NUM_MAX
    }

    /// Positive denominator and both parts within the tighter bounds that
    /// hold for every sweep position.
    pub open spec fn pos_wf(self) -> bool {
        &&& 1 <= self.den <= POS_DEN_MAX
        &&& -POS_NUM_MAX <= self.num <= POS_NUM_MAX
    }

    /// The rational value of `self` is below that of `other`.
    pub open spec fn lt_spec(self, other: Rat) -> bool {
        self.num * other.den < other.num * self.den
    }

    /// The two rationals have the same value.
    pub open spec fn eq_spec(self, other: Rat) -> bool {
        self.num * other.den == other.num * self.den
    }

    /// A grid coordinate as a rational.
    pub fn from_i64(v: i64) -> (r: Rat)
        requires
            -POS_NUM_MAX <= v as int <= POS_NUM_MAX,
        ensures
            r.num == v as int,
            r.den == 1,
            r.pos_wf(),
            r.wf(),
    {
        Rat { num: v as i128, den: 1 }
    }

    /// Exact comparison by cross-multiplication.
    pub fn lt(&self, other: &Rat) -> (r: bool)
        requires
            self.wf(),
            other.wf(),
        ensures
            r == self.lt_spec(*other),
    {
        proof {
            lemma_mul_bounds(self.num as int, other.den as int, NUM_MAX as int, DEN_MAX as int);
            lemma_mul_bounds(other.num as int, self.den as int, NUM_MAX as int, DEN_MAX as int);
        }
        self.num * other.den < other.num * self.den
    }

    /// Exact value equality by cross-multiplication.
    pub fn eq_value(&self, other: &Rat) -> (r: bool)
        requires
            self.wf(),
            other.wf(),
        ensures
            r == self.eq_spec(*other),
    {
        proof {
            lemma_mul_bounds(self.num as int, other.den as int, NUM_MAX as int, DEN_MAX as int);
            lemma_mul_bounds(other.num as int, self.den as int, NUM_MAX as int, DEN_MAX as int);
        }
        self.num * other.den == other.num * self.den
    }
}

/// The value order on rationals with positive denominators is transitive.
pub proof fn lemma_rat_lt_trans(a: Rat, b: Rat, c: Rat)
    by (nonlinear_arith)
    requires
        a.den >= 1,
        b.den >= 1,
        c.den >= 1,
        a.lt_spec(b),
        b.lt_spec(c),
    ensures
        a.lt_spec(c),
{
}

} // verus!
