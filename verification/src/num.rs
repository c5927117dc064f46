//! Numeric foundations: the fixed-point scale, exact rational values used for
//! depths and intersection points, and an exact integer square root.

use vstd::prelude::*;

verus! {

/// Geometry units per pixel: every coordinate is an integer count of
/// 1/SCALE-pixel steps, so a pixel center sits at a multiple of SCALE.
pub const SCALE: i64 = 256;

/// Largest coordinate magnitude (in units) the geometry accepts.  Keeping
/// coordinates within 2^22 keeps every intermediate product of the
/// rasterizer inside i128.
pub const COORD_LIMIT: i64 = 0x40_0000;

/// Bound on the numerator of a depth rational (2^75, see `Rat::depth_bounded`).
pub const DEPTH_NUM_LIMIT: i128 = 0x8000000000000000000;

/// Bound on the denominator of a depth rational (2^50).
pub const DEPTH_DEN_LIMIT: i128 = 0x4000000000000;

/// Bound on the numerator of a line-intersection rational (2^100).
pub const POINT_NUM_LIMIT: i128 = 0x10000000000000000000000000;

/// Bound on the denominator of a line-intersection rational (2^80).
pub const POINT_DEN_LIMIT: i128 = 0x100000000000000000000;

/// An exact rational value `num / den`.  Well-formed values keep `den > 0`;
/// the numerator carries the sign.
#[derive(Clone, Copy, Debug, PartialEq, Eq, Structural)]
pub struct Rat {
    pub num: i128,
    pub den: i128,
}

impl Rat {
    pub open spec fn wf(self) -> bool {
        self.den > 0
    }

    /// Bounds under which two depth rationals can be compared by
    /// cross-multiplication without overflowing i128.
    pub open spec fn depth_bounded(self) -> bool {
        &&& -DEPTH_NUM_LIMIT <= self.num <= DEPTH_NUM_LIMIT
        &&& 0 < self.den <= DEPTH_DEN_LIMIT
    }

    /// Looser bounds met by the rationals that line intersection produces.
    pub open spec fn point_bounded(self) -> bool {
        &&& -POINT_NUM_LIMIT <= self.num <= POINT_NUM_LIMIT
        &&& 0 < self.den <= POINT_DEN_LIMIT
    }

    /// The value of `self` is strictly below the value of `other`
    /// (cross-multiplied form; meaningful when both are well-formed).
    pub open spec fn lt(self, other: Rat) -> bool {
        self.num * other.den < other.num * self.den
    }

    /// The integer part of `self`, truncated toward zero.
    pub open spec fn trunc_spec(self) -> int {
        if self.num >= 0 {
            self.num / self.den
        } else {
            -((-(self.num as int)) / (self.den as int))
        }
    }

    pub fn new(num: i128, den: i128) -> (r: Rat)
        requires
            den > 0,
        ensures
            r.num == num,
            r.den == den,
            r.wf(),
    {
        Rat { num, den }
    }

    /// The rational with value `v`.
    pub fn from_int(v: i64) -> (r: Rat)
        ensures
            r.num == v,
            r.den == 1,
            r.wf(),
            r.depth_bounded(),
    {
        Rat { num: v as i128, den: 1 }
    }

    /// Strict comparison of two depth-bounded rationals.
    pub fn lt_exec(&self, other: &Rat) -> (r: bool)
        requires
            self.depth_bounded(),
            other.depth_bounded(),
        ensures
            r == self.lt(*other),
    {
        proof {
            lemma_mul_bound(self.num as int, other.den as int, DEPTH_NUM_LIMIT as int, DEPTH_DEN_LIMIT as int);
            lemma_mul_bound(other.num as int, self.den as int, DEPTH_NUM_LIMIT as int, DEPTH_DEN_LIMIT as int);
        }
        self.num * other.den < other.num * self.den
    }

    /// Truncation toward zero, as casting an f64 to an integer would do.
    pub fn trunc(&self) -> (r: i64)
        requires
            self.wf(),
            self.point_bounded(),
            -(COORD_LIMIT as i128) * self.den <= self.num <= (COORD_LIMIT as i128) * self.den,
        ensures
            r == self.trunc_spec(),
            -COORD_LIMIT <= r <= COORD_LIMIT,
    {
        self.trunc_bounded(COORD_LIMIT)
    }

    /// Truncation toward zero of a value known to lie in [-bound, bound].
    pub fn trunc_bounded(&self, bound: i64) -> (r: i64)
        requires
            self.wf(),
            0 <= bound <= 0x1000000,
            self.den <= POINT_DEN_LIMIT,
            -(bound as i128) * self.den <= self.num <= (bound as i128) * self.den,
        ensures
            r == self.trunc_spec(),
            -bound <= r <= bound,
    {
        proof {
            assert(-(self.num as int) <= (bound as int) * (self.den as int)
                && self.num as int <= (bound as int) * (self.den as int))
                by (nonlinear_arith)
                requires
                    self.den > 0,
                    -(bound as i128) * self.den <= self.num <= (bound as i128) * self.den,
            ;
            lemma_mul_bound(bound as int, self.den as int, 0x1000000, POINT_DEN_LIMIT as int);
            lemma_div_bound(self.num as int, self.den as int, bound as int);
            lemma_div_bound(-(self.num as int), self.den as int, bound as int);
        }
        if self.num >= 0 {
            ((self.num as u128) / (self.den as u128)) as i64
        } else {
            -((((-self.num) as u128) / (self.den as u128)) as i64)
        }
    }
}

impl Rat {
    /// The value of `self` is at least the integer `c`.
    pub open spec fn ge_int_spec(self, c: int) -> bool {
        self.num >= c * self.den
    }

    /// The value of `self` is at most the integer `c`.
    pub open spec fn le_int_spec(self, c: int) -> bool {
        self.num <= c * self.den
    }

    /// Compares a point-bounded rational against an integer.
    pub fn ge_int(&self, c: i64) -> (r: bool)
        requires
            self.wf(),
            self.point_bounded(),
            -COORD_LIMIT <= c <= COORD_LIMIT,
        ensures
            r == self.ge_int_spec(c as int),
    {
        proof {
            lemma_mul_bound(c as int, self.den as int, COORD_LIMIT as int, POINT_DEN_LIMIT as int);
        }
        self.num >= (c as i128) * self.den
    }

    /// Compares a point-bounded rational against an integer.
    pub fn le_int(&self, c: i64) -> (r: bool)
        requires
            self.wf(),
            self.point_bounded(),
            -COORD_LIMIT <= c <= COORD_LIMIT,
        ensures
            r == self.le_int_spec(c as int),
    {
        proof {
            lemma_mul_bound(c as int, self.den as int, COORD_LIMIT as int, POINT_DEN_LIMIT as int);
        }
        self.num <= (c as i128) * self.den
    }
}

/// A rational whose value lies between two integers in [-COORD_LIMIT,
/// COORD_LIMIT] meets the numerator bounds that `trunc` asks for.
pub proof fn lemma_rat_int_bounds(p: Rat, lo: int, hi: int)
    by (nonlinear_arith)
    requires
        p.den > 0,
        -COORD_LIMIT <= lo,
        hi <= COORD_LIMIT,
        p.num >= lo * p.den,
        p.num <= hi * p.den,
    ensures
        -(COORD_LIMIT as i128) * p.den <= p.num <= (COORD_LIMIT as i128) * p.den,
{
}

/// |x| <= bx and 0 <= y <= by give |x * y| <= bx * by.
pub proof fn lemma_mul_bound(x: int, y: int, bx: int, by: int)
    by (nonlinear_arith)
    requires
        -bx <= x <= bx,
        0 <= y <= by,
    ensures
        -bx * by <= x * y <= bx * by,
{
}

/// |x| <= bx and |y| <= by give |x * y| <= bx * by.
pub proof fn lemma_mul_bound2(x: int, y: int, bx: int, by: int)
    by (nonlinear_arith)
    requires
        -bx <= x <= bx,
        -by <= y <= by,
    ensures
        -bx * by <= x * y <= bx * by,
{
}

/// 0 <= x <= b * d with d > 0 gives 0 <= x / d <= b.
pub proof fn lemma_div_bound(x: int, d: int, b: int)
    by (nonlinear_arith)
    requires
        d > 0,
        0 <= b,
        x <= b * d,
    ensures
        x >= 0 ==> 0 <= x / d <= b,
{
}

/// Floor division of a coordinate by the pixel scale: the pixel column or
/// row whose cell contains the coordinate.
pub fn div_floor_scale(a: i64) -> (r: i64)
    requires
        -COORD_LIMIT <= a <= COORD_LIMIT,
    ensures
        r == (a as int) / (SCALE as int),
        -0x4001 <= r <= 0x4000,
{
    proof {
        vstd::arithmetic::div_mod::lemma_fundamental_div_mod(a as int, SCALE as int);
        vstd::arithmetic::div_mod::lemma_mod_division_less_than_divisor(a as int, SCALE as int);
        assert((SCALE as int) * (a as int / (SCALE as int)) <= a
            ==> -0x4001 <= a as int / (SCALE as int) <= 0x4000) by (nonlinear_arith)
            requires
                a as int == (SCALE as int) * (a as int / (SCALE as int)) + (a as int) % (
                SCALE as int),
                0 <= (a as int) % (SCALE as int) < (SCALE as int),
                -COORD_LIMIT <= a <= COORD_LIMIT,
                SCALE == 256,
                COORD_LIMIT == 0x400000,
        ;
    }
    if a >= 0 {
        a / SCALE
    } else {
        let b: i64 = -a;
        let q: i64 = (b + SCALE - 1) / SCALE;
        proof {
            vstd::arithmetic::div_mod::lemma_fundamental_div_mod(
                (b + SCALE - 1) as int,
                SCALE as int,
            );
            vstd::arithmetic::div_mod::lemma_mod_division_less_than_divisor(
                (b + SCALE - 1) as int,
                SCALE as int,
            );
            let rem = ((b + SCALE - 1) as int) % (SCALE as int);
            assert(a as int == (-(q as int)) * (SCALE as int) + ((SCALE as int) - 1 - rem))
                by (nonlinear_arith)
                requires
                    (b + SCALE - 1) as int == (SCALE as int) * (q as int) + rem,
                    a as int == -(b as int),
            ;
            vstd::arithmetic::div_mod::lemma_fundamental_div_mod_converse(
                a as int,
                SCALE as int,
                -(q as int),
                (SCALE as int) - 1 - rem,
            );
        }
        -q
    }
}

/// `num / den` rounded to the nearest integer, halves away from zero, as
/// f64's `round` does.
pub open spec fn round_half_spec(num: int, den: int) -> int {
    if num >= 0 {
        (2 * num + den) / (2 * den)
    } else {
        -((2 * (-num) + den) / (2 * den))
    }
}

/// Rounds a ratio to the nearest integer, halves away from zero.
pub fn round_ratio(num: i128, den: i128) -> (r: i128)
    requires
        0 < den <= 0x1000000000000000,
        -0x800000000000000000000000 <= num <= 0x800000000000000000000000,
    ensures
        r == round_half_spec(num as int, den as int),
{
    if num >= 0 {
        (((2 * num + den) as u128) / ((2 * den) as u128)) as i128
    } else {
        -((((2 * (-num) + den) as u128) / ((2 * den) as u128)) as i128)
    }
}

/// `r` is the integer square root of `n`.
pub open spec fn is_isqrt(n: int, r: int) -> bool {
    &&& 0 <= r
    &&& r * r <= n
    &&& n < (r + 1) * (r + 1)
}

/// Integer square root, by binary search.
pub fn isqrt(n: u128) -> (r: u64)
    requires
        n < 0x100000000000000000000000000000u128,
    ensures
        is_isqrt(n as int, r as int),
{
    let mut lo: u128 = 0;
    let mut hi: u128 = 0x400000000000000u128;
    assert(0x400000000000000u128 * 0x400000000000000u128
        == 0x100000000000000000000000000000u128) by (nonlinear_arith);
    while lo + 1 < hi
        invariant
            lo < hi <= 0x400000000000000u128,
            lo * lo <= n,
            n < hi * hi,
        decreases hi - lo,
    {
        let mid = lo + (hi - lo) / 2;
        assert(lo < mid < hi);
        assert(mid * mid <= 0x400000000000000u128 * 0x400000000000000u128)
            by (nonlinear_arith)
            requires
                0 <= mid <= 0x400000000000000u128,
        ;
        if mid * mid <= n {
            lo = mid;
        } else {
            hi = mid;
        }
    }
    assert(hi == lo + 1);
    lo as u64
}

/// Integer square roots are unique.
pub proof fn lemma_isqrt_unique(n: int, r1: int, r2: int)
    by (nonlinear_arith)
    requires
        is_isqrt(n, r1),
        is_isqrt(n, r2),
    ensures
        r1 == r2,
{
}

/// The integer square root of `n`, as a value usable in specifications.
pub open spec fn isqrt_spec(n: nat) -> nat
    decreases n,
{
    if n == 0 {
        0
    } else {
        let r = isqrt_spec((n - 1) as nat);
        if (r + 1) * (r + 1) <= n {
            r + 1
        } else {
            r
        }
    }
}

/// `isqrt_spec` satisfies the defining property of the integer square root.
pub proof fn lemma_isqrt_spec_is_isqrt(n: nat)
    ensures
        is_isqrt(n as int, isqrt_spec(n) as int),
    decreases n,
{
    if n == 0 {
        assert(isqrt_spec(0) == 0);
    } else {
        lemma_isqrt_spec_is_isqrt((n - 1) as nat);
        let r = isqrt_spec((n - 1) as nat);
        if (r + 1) * (r + 1) <= n {
            assert(n < ((r + 1) + 1) * ((r + 1) + 1)) by (nonlinear_arith)
                requires
                    n - 1 < (r + 1) * (r + 1),
                    0 <= r,
            ;
        }
    }
}

} // verus!
