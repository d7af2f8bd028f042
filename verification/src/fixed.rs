//! Fixed-point scalars and points, and the integer square root they rest on.

use vstd::prelude::*;

verus! {

/// Integer steps in one whole: a radian of angle, or the length of a unit
/// vector.
pub const UNIT: i64 = 1_000_000_000;

/// Farthest that a coordinate of a position may lie from the origin, in
/// steps of position.
pub const REACH: i64 = 1_000_000_000_000_000_000;

/// `r` is the square root of `n`, rounded down.
pub open spec fn is_floor_sqrt(n: int, r: int) -> bool {
    0 <= r && r * r <= n < (r + 1) * (r + 1)
}

/// The square root of `n`, rounded down.
pub open spec fn floor_sqrt(n: int) -> int {
    choose|r: int| is_floor_sqrt(n, r)
}

/// Squaring is monotone on the non-negative integers.
pub proof fn lemma_square_monotone(a: int, b: int)
    requires
        0 <= a <= b,
    ensures
        a * a <= b * b,
{
    assert(a * a <= b * b) by (nonlinear_arith)
        requires
            0 <= a <= b,
    ;
}

/// A number has at most one rounded-down square root.
pub proof fn lemma_floor_sqrt_unique(n: int, a: int, b: int)
    requires
        is_floor_sqrt(n, a),
        is_floor_sqrt(n, b),
    ensures
        a == b,
{
    if a < b {
        lemma_square_monotone(a + 1, b);
    } else if b < a {
        lemma_square_monotone(b + 1, a);
    }
}

/// Whoever holds one rounded-down root of `n` holds `floor_sqrt(n)`.
pub proof fn lemma_floor_sqrt_is(n: int, r: int)
    requires
        is_floor_sqrt(n, r),
    ensures
        floor_sqrt(n) == r,
{
    lemma_floor_sqrt_unique(n, floor_sqrt(n), r);
}

/// Every number from zero up has a rounded-down square root.
pub proof fn lemma_floor_sqrt(n: int)
    requires
        n >= 0,
    ensures
        is_floor_sqrt(n, floor_sqrt(n)),
    decreases n,
{
    if n == 0 {
        assert(is_floor_sqrt(0, 0));
    } else {
        lemma_floor_sqrt(n - 1);
        let r = floor_sqrt(n - 1);
        if (r + 1) * (r + 1) <= n {
            assert((r + 2) * (r + 2) > (r + 1) * (r + 1)) by (nonlinear_arith)
                requires
                    r >= 0,
            ;
            assert(is_floor_sqrt(n, r + 1));
        } else {
            assert(is_floor_sqrt(n, r));
        }
    }
}

/// If `a * m` is at most `b`, the product of the squares of `a` and `m` is
/// at most the square of `b`.
pub proof fn lemma_scaled_square(a: int, m: int, b: int)
    requires
        0 <= a,
        0 <= m,
        a * m <= b,
    ensures
        (a * a) * (m * m) <= b * b,
{
    assert(0 <= a * m) by (nonlinear_arith)
        requires
            0 <= a,
            0 <= m,
    ;
    lemma_square_monotone(a * m, b);
    assert((a * m) * (a * m) == (a * a) * (m * m)) by (nonlinear_arith);
}

/// Squaring is strictly monotone on the non-negative integers.
pub proof fn lemma_square_strict(a: int, b: int)
    requires
        0 <= a < b,
    ensures
        a * a < b * b,
{
    assert(a * a < b * b) by (nonlinear_arith)
        requires
            0 <= a < b,
    ;
}

/// A common positive factor can be struck from both sides of a strict
/// inequality.
pub proof fn lemma_cancel_factor_strict(a: int, b: int, k: int)
    requires
        k > 0,
        a * k < b * k,
    ensures
        a < b,
{
    assert(a < b) by (nonlinear_arith)
        requires
            k > 0,
            a * k < b * k,
    ;
}

/// What rounding toward zero costs a square: if `big` divided by `d` gives
/// `q`, the square of `big` is less than that of `d` times one more than the
/// size of `q`.
pub proof fn lemma_toward_zero_square(big: int, d: int)
    requires
        d > 0,
    ensures
        big * big < (magnitude(toward_zero(big, d)) * magnitude(toward_zero(big, d)) + 2
            * magnitude(toward_zero(big, d)) + 1) * (d * d),
{
    let a = magnitude(toward_zero(big, d));
    lemma_toward_zero(big, d);
    lemma_square_strict(magnitude(big), (a + 1) * d);
    assert(magnitude(big) * magnitude(big) == big * big) by (nonlinear_arith);
    assert(((a + 1) * d) * ((a + 1) * d) == (a * a + 2 * a + 1) * (d * d)) by (nonlinear_arith);
}

/// A common positive factor can be struck from both sides of an inequality.
pub proof fn lemma_cancel_factor(a: int, b: int, k: int)
    requires
        k > 0,
        a * k <= b * k,
    ensures
        a <= b,
{
    assert(a <= b) by (nonlinear_arith)
        requires
            k > 0,
            a * k <= b * k,
    ;
}

/// The square root of `n`, rounded down.
pub fn isqrt(n: u128) -> (r: u64)
    ensures
        is_floor_sqrt(n as int, r as int),
        r == floor_sqrt(n as int),
{
    let mut lo: u128 = 0;
    let mut hi: u128 = 0x1_0000_0000_0000_0000;
    proof {
        assert(0x1_0000_0000_0000_0000int * 0x1_0000_0000_0000_0000int
            == 0x1_0000_0000_0000_0000_0000_0000_0000_0000int) by (nonlinear_arith);
    }
    while hi - lo > 1
        invariant
            lo < hi <= 0x1_0000_0000_0000_0000,
            lo * lo <= n,
            n < hi * hi,
        decreases hi - lo,
    {
        let mid: u128 = lo + (hi - lo) / 2;
        proof {
            lemma_square_monotone(mid as int, 0xffff_ffff_ffff_ffffint);
            assert(0xffff_ffff_ffff_ffffint * 0xffff_ffff_ffff_ffffint
                < 0x1_0000_0000_0000_0000_0000_0000_0000_0000int) by (nonlinear_arith);
        }
        if mid * mid <= n {
            lo = mid;
        } else {
            hi = mid;
        }
    }
    proof {
        lemma_floor_sqrt_is(n as int, lo as int);
    }
    lo as u64
}

/// The distance of `a` from zero.
pub open spec fn magnitude(a: int) -> int {
    if a >= 0 {
        a
    } else {
        -a
    }
}

/// `a` divided by `d`, rounded toward zero.
pub open spec fn toward_zero(a: int, d: int) -> int {
    if a >= 0 {
        a / d
    } else {
        -((-a) / d)
    }
}

/// Rounding toward zero keeps the sign and drops less than one whole step.
pub proof fn lemma_toward_zero(a: int, d: int)
    requires
        d > 0,
    ensures
        a >= 0 ==> toward_zero(a, d) >= 0,
        a <= 0 ==> toward_zero(a, d) <= 0,
        magnitude(toward_zero(a, d)) * d <= magnitude(a),
        magnitude(a) < (magnitude(toward_zero(a, d)) + 1) * d,
{
    let m = magnitude(a);
    let q = m / d;
    vstd::arithmetic::div_mod::lemma_fundamental_div_mod(m, d);
    vstd::arithmetic::div_mod::lemma_mod_bound(m, d);
    vstd::arithmetic::div_mod::lemma_div_pos_is_pos(m, d);
    assert(magnitude(toward_zero(a, d)) == q);
    assert(q * d == d * q && (q + 1) * d == d * q + d) by (nonlinear_arith);
}

/// `a` divided by `d`, rounded toward zero.
pub fn div_toward_zero(a: i128, d: i128) -> (q: i128)
    requires
        d > 0,
        a > i128::MIN,
    ensures
        q == toward_zero(a as int, d as int),
{
    proof {
        lemma_toward_zero(a as int, d as int);
        assert(magnitude(toward_zero(a as int, d as int)) <= magnitude(a as int))
            by (nonlinear_arith)
            requires
                d >= 1,
                magnitude(toward_zero(a as int, d as int)) * d <= magnitude(a as int),
                magnitude(toward_zero(a as int, d as int)) >= 0,
        ;
    }
    if a >= 0 {
        a / d
    } else {
        -((-a) / d)
    }
}

/// A point or displacement of the plane, in steps.
pub struct Vector {
    pub x: int,
    pub y: int,
}

impl Vector {
    /// The squared length.
    pub open spec fn norm_sq(self) -> int {
        self.x * self.x + self.y * self.y
    }

    /// The sum of two vectors.
    pub open spec fn plus(self, other: Vector) -> Vector {
        Vector { x: self.x + other.x, y: self.y + other.y }
    }

    /// The vector stretched `k` times.
    pub open spec fn times(self, k: int) -> Vector {
        Vector { x: self.x * k, y: self.y * k }
    }

    /// Whether both coordinates lie within `REACH` of zero.
    pub open spec fn within_reach(self) -> bool {
        -REACH <= self.x <= REACH && -REACH <= self.y <= REACH
    }

    /// Whether the length is at most `len`.
    pub open spec fn no_longer_than(self, len: int) -> bool {
        self.norm_sq() <= len * len
    }

    /// Neither coordinate of a vector is longer than the vector.
    pub proof fn lemma_coordinates_within(self, len: int)
        requires
            len >= 0,
            self.no_longer_than(len),
        ensures
            -len <= self.x <= len,
            -len <= self.y <= len,
    {
        assert(self.x * self.x >= 0 && self.y * self.y >= 0) by (nonlinear_arith);
        assert(magnitude(self.x) * magnitude(self.x) == self.x * self.x) by (nonlinear_arith);
        assert(magnitude(self.y) * magnitude(self.y) == self.y * self.y) by (nonlinear_arith);
        if magnitude(self.x) > len {
            lemma_square_monotone(len + 1, magnitude(self.x));
            assert((len + 1) * (len + 1) > len * len) by (nonlinear_arith)
                requires
                    len >= 0,
            ;
        }
        if magnitude(self.y) > len {
            lemma_square_monotone(len + 1, magnitude(self.y));
            assert((len + 1) * (len + 1) > len * len) by (nonlinear_arith)
                requires
                    len >= 0,
            ;
        }
    }
}

/// A point or displacement of the plane as the machine holds it.
#[derive(Clone, Copy, Debug, PartialEq, Eq, Structural)]
pub struct Point {
    pub x: i64,
    pub y: i64,
}

impl View for Point {
    type V = Vector;

    open spec fn view(&self) -> Vector {
        Vector { x: self.x as int, y: self.y as int }
    }
}

impl Point {
    /// Whether both coordinates lie within `REACH` of zero.
    pub fn within_reach(self) -> (within: bool)
        ensures
            within == self@.within_reach(),
    {
        -REACH <= self.x && self.x <= REACH && -REACH <= self.y && self.y <= REACH
    }
}

} // verus!
