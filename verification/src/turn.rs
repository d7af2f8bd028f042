//! Rotations of the plane about the origin, by fixed-point angles.

use vstd::prelude::*;
use vstd::arithmetic::div_mod::{
    lemma_add_mod_noop, lemma_div_is_ordered, lemma_div_multiples_vanish,
    lemma_div_multiples_vanish_quotient, lemma_div_pos_is_pos, lemma_fundamental_div_mod,
    lemma_mod_bound, lemma_mod_multiples_vanish, lemma_mod_twice, lemma_small_mod,
};
use crate::fixed::{
    div_toward_zero, floor_sqrt, is_floor_sqrt, isqrt, lemma_floor_sqrt, lemma_cancel_factor, lemma_cancel_factor_strict,
    lemma_scaled_square, lemma_square_monotone, lemma_square_strict, lemma_toward_zero,
    lemma_toward_zero_square,
    magnitude, toward_zero, Point, Vector, REACH, UNIT,
};

verus! {

/// Half a turn (pi radians), in steps.
pub const HALF_TURN: i64 = 3_141_592_654;

/// A whole turn (two pi radians), in steps.
pub const FULL_TURN: i64 = 6_283_185_307;

/// A quarter of a turn (pi over two radians), in steps.
pub const QUARTER_TURN: i64 = 1_570_796_327;

/// An eighth of a turn (pi over four radians), in steps.
pub const EIGHTH_TURN: i64 = 785_398_163;

/// Whole turns added to an angle before it is wrapped, so that the sum is
/// not negative; twice as many for the sum of two angles.
pub const LAPS: i64 = 1_500_000_000;

/// The angle brought into the turn that starts at minus `HALF_TURN`.
pub open spec fn wrapped(angle: int) -> int {
    (angle + HALF_TURN) % (FULL_TURN as int) - HALF_TURN
}

/// Whether the wrapped angle points into the half plane of negative cosine.
pub open spec fn faces_back(angle: int) -> bool {
    magnitude(wrapped(angle)) > QUARTER_TURN
}

/// The angle within a quarter turn of zero that has the same sine.
pub open spec fn folded(angle: int) -> int {
    let a = wrapped(angle);
    if a > QUARTER_TURN {
        HALF_TURN - a
    } else if a < -QUARTER_TURN {
        -HALF_TURN - a
    } else {
        a
    }
}

/// One nested factor of the sine series: one less `w * p / d`, where `w` is
/// the squared angle and `p` the factor nested inside.
pub open spec fn damped(w: int, p: int, d: int) -> int {
    UNIT - (w * p) / (d * UNIT)
}

/// The sine series at an angle `m` between zero and a quarter turn, up to
/// the fifteenth power, each division rounded down, capped at `UNIT`.
pub open spec fn sine_series(m: int) -> int {
    let w = (m * m) / (UNIT as int);
    let p = damped(
        w,
        damped(w, damped(w, damped(w, damped(w, damped(w, damped(w, UNIT as int, 210), 156), 110), 72), 42), 20),
        6,
    );
    let s = (m * p) / (UNIT as int);
    if s > UNIT {
        UNIT as int
    } else {
        s
    }
}

/// The divisor that takes the sine series from one term to the next: the
/// term of the power `2k + 1` is the one before it times the squared angle
/// over `2k (2k + 1)`, so that the divisors multiply up to the factorials.
pub open spec fn term_divisor(k: int) -> int {
    2 * k * (2 * k + 1)
}

/// The nested factor of the sine series from its term `k` on, cut after
/// `depth` terms: one, less the squared angle `w` over the divisor of term
/// `k`, times the factor from term `k + 1` on.
pub open spec fn series_factor(w: int, k: int, depth: nat) -> int
    decreases depth,
{
    if depth == 0 {
        UNIT as int
    } else {
        damped(w, series_factor(w, k + 1, (depth - 1) as nat), term_divisor(k))
    }
}

/// The sine series at the angle `m`, cut after `depth` terms beyond the
/// first: the angle; the angle less a sixth of its cube; that and the fifth
/// power over a hundred and twenty; and so on, each division rounded down.
pub open spec fn sine_partial(m: int, depth: nat) -> int {
    (m * series_factor((m * m) / (UNIT as int), 1, depth)) / (UNIT as int)
}

/// What a coordinate of size `a` leaves of a vector of length `UNIT` for
/// the other coordinate, rounded down.
pub open spec fn rest_of_unit(a: int) -> int {
    floor_sqrt(UNIT * UNIT - a * a)
}

/// The sine of an angle `m` between zero and a quarter turn. Up to an eighth
/// of a turn it is the series; beyond, it is what the cosine leaves of
/// `UNIT`.
pub open spec fn sine_of_acute(m: int) -> int {
    if m <= EIGHTH_TURN {
        sine_series(m)
    } else {
        rest_of_unit(sine_series(QUARTER_TURN - m))
    }
}

/// The cosine of an angle `m` between zero and a quarter turn. Beyond an
/// eighth of a turn it is the series at the angle that completes `m` to a
/// quarter turn; up to there, it is what the sine leaves of `UNIT`.
pub open spec fn cosine_of_acute(m: int) -> int {
    if m <= EIGHTH_TURN {
        rest_of_unit(sine_series(m))
    } else {
        sine_series(QUARTER_TURN - m)
    }
}

/// The sine of any angle.
pub open spec fn sine_of(angle: int) -> int {
    let u = folded(angle);
    if u >= 0 {
        sine_of_acute(u)
    } else {
        -sine_of_acute(-u)
    }
}

/// The cosine of any angle.
pub open spec fn cosine_of(angle: int) -> int {
    let c = cosine_of_acute(magnitude(folded(angle)));
    if faces_back(angle) {
        -c
    } else {
        c
    }
}

/// Whether `cos` and `sin` span a vector no longer than `UNIT`, and shorter
/// by less than a step or so: the squared length falls short of the square
/// of `UNIT` by at most twice `UNIT`.
pub open spec fn is_unit_pair(cos: int, sin: int) -> bool {
    &&& -UNIT <= cos <= UNIT
    &&& -UNIT <= sin <= UNIT
    &&& UNIT * UNIT - 2 * UNIT <= cos * cos + sin * sin <= UNIT * UNIT
}

/// The vector `v` under the rotation matrix of `cos` and `sin`, each
/// coordinate rounded toward zero.
pub open spec fn turned(cos: int, sin: int, v: Vector) -> Vector {
    Vector {
        x: toward_zero(cos * v.x - sin * v.y, UNIT as int),
        y: toward_zero(sin * v.x + cos * v.y, UNIT as int),
    }
}

/// The vector `v` turned about the origin by `angle`.
pub open spec fn turned_by(angle: int, v: Vector) -> Vector {
    turned(cosine_of(angle), sine_of(angle), v)
}

/// A wrapped angle lies in its turn, and folds to within a quarter turn.
pub proof fn lemma_folded_range(angle: int)
    ensures
        -HALF_TURN <= wrapped(angle) < FULL_TURN - HALF_TURN,
        -QUARTER_TURN <= folded(angle) <= QUARTER_TURN,
{
    lemma_mod_bound(angle + HALF_TURN, FULL_TURN as int);
}

/// An angle that lies in the turn around zero is its own wrapped angle.
pub proof fn lemma_wrapped_fixed(angle: int)
    requires
        -HALF_TURN <= angle < FULL_TURN - HALF_TURN,
    ensures
        wrapped(angle) == angle,
{
    lemma_small_mod((angle + HALF_TURN) as nat, FULL_TURN as nat);
}

/// To wrap a sum, one may wrap a part of it first.
pub proof fn lemma_wrapped_sum(a: int, b: int)
    ensures
        wrapped(wrapped(a) + b) == wrapped(a + b),
{
    let full = FULL_TURN as int;
    let part = (a + HALF_TURN) % full;
    lemma_add_mod_noop(part, b, full);
    lemma_mod_twice(a + HALF_TURN, full);
    lemma_add_mod_noop(a + HALF_TURN, b, full);
}

/// The wrapped sum of two angles.
pub fn wrapped_sum(a: i64, b: i64) -> (r: i64)
    ensures
        r == wrapped(a + b),
{
    let full: i128 = FULL_TURN as i128;
    let half: i128 = HALF_TURN as i128;
    let shifted: i128 = a as i128 + b as i128 + half + 2 * (LAPS as i128) * full;
    proof {
        lemma_mod_multiples_vanish(2 * LAPS, a + b + HALF_TURN, FULL_TURN as int);
        assert(FULL_TURN * (2 * LAPS) == 2 * LAPS * FULL_TURN) by (nonlinear_arith);
        lemma_folded_range(a + b);
    }
    (shifted % full - half) as i64
}

/// A nested factor of the sine series stays between zero and `UNIT`.
pub proof fn lemma_damped(w: int, p: int, d: int)
    requires
        0 <= w <= 6 * UNIT,
        0 <= p <= UNIT,
        6 <= d <= 1000,
    ensures
        0 <= damped(w, p, d) <= UNIT,
        0 <= w * p <= 6 * UNIT * UNIT,
        0 < d * UNIT <= 1000 * UNIT,
{
    let unit = UNIT as int;
    let top: int = w * p;
    let bottom: int = d * unit;
    assert(0 < bottom <= 1000 * unit && 0 <= top <= bottom * unit && top <= 6 * unit * unit)
        by (nonlinear_arith)
        requires
            0 <= w <= 6 * unit,
            0 <= p <= unit,
            6 <= d <= 1000,
            top == w * p,
            bottom == d * unit,
            unit == 1_000_000_000,
    ;
    lemma_div_is_ordered(top, bottom * unit, bottom);
    lemma_div_multiples_vanish(unit, bottom);
    lemma_div_pos_is_pos(top, bottom);
}

/// The squared angle of the sine series is at most six.
pub proof fn lemma_squared_angle(m: int)
    requires
        0 <= m <= QUARTER_TURN,
    ensures
        0 <= m * m <= 6 * UNIT * UNIT,
        0 <= (m * m) / (UNIT as int) <= 6 * UNIT,
{
    lemma_square_monotone(m, QUARTER_TURN as int);
    assert(QUARTER_TURN * QUARTER_TURN <= 6 * UNIT * UNIT) by (nonlinear_arith)
        requires
            QUARTER_TURN == 1_570_796_327,
            UNIT == 1_000_000_000,
    ;
    assert(0 <= m * m) by (nonlinear_arith);
    lemma_div_is_ordered(m * m, 6 * UNIT * UNIT, UNIT as int);
    lemma_div_multiples_vanish(6 * UNIT, UNIT as int);
    assert(6 * UNIT * UNIT == UNIT * (6 * UNIT)) by (nonlinear_arith);
    lemma_div_pos_is_pos(m * m, UNIT as int);
}

/// The sine series at an angle between zero and a quarter turn lies between
/// zero and `UNIT`.
pub proof fn lemma_sine_series(m: int)
    requires
        0 <= m <= QUARTER_TURN,
    ensures
        0 <= sine_series(m) <= UNIT,
{
    lemma_squared_angle(m);
    let w = (m * m) / (UNIT as int);
    let f210 = damped(w, UNIT as int, 210);
    lemma_damped(w, UNIT as int, 210);
    let f156 = damped(w, f210, 156);
    lemma_damped(w, f210, 156);
    let f110 = damped(w, f156, 110);
    lemma_damped(w, f156, 110);
    let f72 = damped(w, f110, 72);
    lemma_damped(w, f110, 72);
    let f42 = damped(w, f72, 42);
    lemma_damped(w, f72, 42);
    let f20 = damped(w, f42, 20);
    lemma_damped(w, f42, 20);
    let f6 = damped(w, f20, 6);
    lemma_damped(w, f20, 6);
    assert(0 <= m * f6) by (nonlinear_arith)
        requires
            0 <= m,
            0 <= f6,
    ;
    lemma_div_pos_is_pos(m * f6, UNIT as int);
}

/// The sine series is the series of the factorials, cut after seven terms
/// beyond the first and capped at `UNIT`.
pub proof fn lemma_sine_series_is_partial(m: int)
    ensures
        sine_series(m) == if sine_partial(m, 7) > UNIT {
            UNIT as int
        } else {
            sine_partial(m, 7)
        },
{
    let w = (m * m) / (UNIT as int);
    assert(term_divisor(1) == 6 && term_divisor(2) == 20 && term_divisor(3) == 42 && term_divisor(
        4,
    ) == 72 && term_divisor(5) == 110 && term_divisor(6) == 156 && term_divisor(7) == 210)
        by (nonlinear_arith);
    assert(series_factor(w, 8, 0) == UNIT);
    assert(series_factor(w, 7, 1) == damped(w, UNIT as int, 210));
    assert(series_factor(w, 6, 2) == damped(w, series_factor(w, 7, 1), 156));
    assert(series_factor(w, 5, 3) == damped(w, series_factor(w, 6, 2), 110));
    assert(series_factor(w, 4, 4) == damped(w, series_factor(w, 5, 3), 72));
    assert(series_factor(w, 3, 5) == damped(w, series_factor(w, 4, 4), 42));
    assert(series_factor(w, 2, 6) == damped(w, series_factor(w, 3, 5), 20));
    assert(series_factor(w, 1, 7) == damped(w, series_factor(w, 2, 6), 6));
}

/// A nested factor stays between zero and `UNIT`, whatever its divisor from
/// six up.
pub proof fn lemma_damped_range(w: int, p: int, d: int)
    requires
        0 <= w <= 6 * UNIT,
        0 <= p <= UNIT,
        6 <= d,
    ensures
        0 <= damped(w, p, d) <= UNIT,
{
    let unit = UNIT as int;
    let top: int = w * p;
    let bottom: int = d * unit;
    assert(0 < bottom && 0 <= top <= bottom * unit) by (nonlinear_arith)
        requires
            0 <= w <= 6 * unit,
            0 <= p <= unit,
            6 <= d,
            top == w * p,
            bottom == d * unit,
            unit == 1_000_000_000,
    ;
    lemma_div_is_ordered(top, bottom * unit, bottom);
    lemma_div_multiples_vanish(unit, bottom);
    lemma_div_pos_is_pos(top, bottom);
}

/// The larger the factor nested inside, the smaller the factor around it.
pub proof fn lemma_damped_antitone(w: int, p: int, q: int, d: int)
    requires
        0 <= w,
        p <= q,
        1 <= d,
    ensures
        damped(w, q, d) <= damped(w, p, d),
{
    let bottom: int = d * UNIT;
    assert(0 < bottom && w * p <= w * q) by (nonlinear_arith)
        requires
            0 <= w,
            p <= q,
            1 <= d,
            bottom == d * UNIT,
            UNIT == 1_000_000_000,
    ;
    lemma_div_is_ordered(w * p, w * q, bottom);
}

/// Every cut of the nested factor lies between zero and `UNIT`.
pub proof fn lemma_series_factor_range(w: int, k: int, depth: nat)
    requires
        0 <= w <= 6 * UNIT,
        1 <= k,
    ensures
        0 <= series_factor(w, k, depth) <= UNIT,
    decreases depth,
{
    if depth > 0 {
        lemma_series_factor_range(w, k + 1, (depth - 1) as nat);
        assert(term_divisor(k) >= 6) by (nonlinear_arith)
            requires
                k >= 1,
                term_divisor(k) == 2 * k * (2 * k + 1),
        ;
        lemma_damped_range(w, series_factor(w, k + 1, (depth - 1) as nat), term_divisor(k));
    }
}

/// The cuts of the nested factor close in from both sides: every longer cut
/// lies below a cut after an even number of terms and above a cut after an
/// odd number.
pub proof fn lemma_series_factor_order(w: int, k: int, short: nat, long: nat)
    requires
        0 <= w <= 6 * UNIT,
        1 <= k,
        short <= long,
    ensures
        short % 2 == 0 ==> series_factor(w, k, long) <= series_factor(w, k, short),
        short % 2 == 1 ==> series_factor(w, k, short) <= series_factor(w, k, long),
    decreases short,
{
    if short == 0 {
        lemma_series_factor_range(w, k, long);
    } else {
        let inner_short = series_factor(w, k + 1, (short - 1) as nat);
        let inner_long = series_factor(w, k + 1, (long - 1) as nat);
        lemma_series_factor_order(w, k + 1, (short - 1) as nat, (long - 1) as nat);
        assert(term_divisor(k) >= 6) by (nonlinear_arith)
            requires
                k >= 1,
                term_divisor(k) == 2 * k * (2 * k + 1),
        ;
        if short % 2 == 1 {
            lemma_damped_antitone(w, inner_long, inner_short, term_divisor(k));
        } else {
            lemma_damped_antitone(w, inner_short, inner_long, term_divisor(k));
        }
    }
}

/// The cuts of the sine series close in from both sides, as the partial sums
/// of the sine's series do around the sine: every longer cut lies below a
/// cut after an even number of terms and above a cut after an odd number.
pub proof fn lemma_sine_partial_order(m: int, short: nat, long: nat)
    requires
        0 <= m <= QUARTER_TURN,
        short <= long,
    ensures
        short % 2 == 0 ==> sine_partial(m, long) <= sine_partial(m, short),
        short % 2 == 1 ==> sine_partial(m, short) <= sine_partial(m, long),
        sine_partial(m, 0) == m,
{
    let u = UNIT as int;
    lemma_squared_angle(m);
    let w = (m * m) / u;
    lemma_series_factor_order(w, 1, short, long);
    let fs = series_factor(w, 1, short);
    let fl = series_factor(w, 1, long);
    if short % 2 == 0 {
        assert(m * fl <= m * fs) by (nonlinear_arith)
            requires
                0 <= m,
                fl <= fs,
        ;
        lemma_div_is_ordered(m * fl, m * fs, u);
    } else {
        assert(m * fs <= m * fl) by (nonlinear_arith)
            requires
                0 <= m,
                fs <= fl,
        ;
        lemma_div_is_ordered(m * fs, m * fl, u);
    }
    assert(series_factor(w, 1, 0) == u);
    assert(m * u == u * m) by (nonlinear_arith);
    lemma_div_multiples_vanish(m, u);
}

/// The quotient of a sum is at most one more than the sum of the quotients.
pub proof fn lemma_div_sum(a: int, b: int, c: int)
    requires
        0 <= a,
        0 <= b,
        0 < c,
    ensures
        (a + b) / c <= a / c + b / c + 1,
{
    lemma_fundamental_div_mod(a, c);
    lemma_fundamental_div_mod(b, c);
    lemma_fundamental_div_mod(a + b, c);
    lemma_mod_bound(a, c);
    lemma_mod_bound(b, c);
    lemma_mod_bound(a + b, c);
    let qa = a / c;
    let qb = b / c;
    let qs = (a + b) / c;
    assert(qs < qa + qb + 2) by (nonlinear_arith)
        requires
            c > 0,
            c * qs <= a + b,
            a + b < c * qa + c * qb + 2 * c,
    ;
}

/// How far two nested factors lie apart, for a squared angle of at most
/// one: no farther than the factors nested inside them over the divisor,
/// and one step for the rounding.
pub proof fn lemma_damped_gap(w: int, p: int, q: int, d: int)
    requires
        0 <= w <= UNIT,
        0 <= p <= q,
        1 <= d,
    ensures
        0 <= damped(w, p, d) - damped(w, q, d) <= (q - p) / d + 1,
{
    let u = UNIT as int;
    let c: int = d * u;
    let a: int = w * p;
    let b: int = w * (q - p);
    lemma_damped_antitone(w, p, q, d);
    assert(0 < c && c == u * d && 0 <= a && 0 <= b <= u * (q - p) && a + b == w * q)
        by (nonlinear_arith)
        requires
            0 <= w <= u,
            0 <= p <= q,
            1 <= d,
            c == d * u,
            a == w * p,
            b == w * (q - p),
            u == 1_000_000_000,
    ;
    lemma_div_sum(a, b, c);
    lemma_div_is_ordered(b, u * (q - p), c);
    lemma_div_multiples_vanish_quotient(u, q - p, d);
}

/// Up to one radian, the cut of the sine series after six terms lies at
/// most two steps above the cut after five: the terms beyond add up to less
/// than rounding does.
pub proof fn lemma_sine_partial_gap(m: int)
    requires
        0 <= m <= UNIT,
    ensures
        sine_partial(m, 5) <= sine_partial(m, 6) <= sine_partial(m, 5) + 2,
{
    let u = UNIT as int;
    lemma_squared_angle(m);
    lemma_square_monotone(m, u);
    lemma_div_is_ordered(m * m, u * u, u);
    lemma_div_multiples_vanish(u, u);
    let w = (m * m) / u;
    assert(term_divisor(1) == 6 && term_divisor(2) == 20 && term_divisor(3) == 42 && term_divisor(
        4,
    ) == 72 && term_divisor(5) == 110 && term_divisor(6) == 156) by (nonlinear_arith);
    // Term six: the factor cut at once against the factor of one term.
    let a06 = series_factor(w, 6, 0);
    let a16 = series_factor(w, 6, 1);
    assert(a06 == u);
    assert(a16 == damped(w, series_factor(w, 7, 0), 156));
    assert(series_factor(w, 7, 0) == u);
    assert(w * u == u * w && 156 * u == u * 156) by (nonlinear_arith);
    lemma_div_multiples_vanish_quotient(u, w, 156);
    lemma_div_is_ordered(w, u, 156);
    assert(0 <= a06 - a16 <= 6_410_256);
    // Term five.
    let a15 = series_factor(w, 5, 1);
    let a25 = series_factor(w, 5, 2);
    assert(a15 == damped(w, a06, 110) && a25 == damped(w, a16, 110));
    lemma_series_factor_range(w, 6, 1);
    lemma_damped_gap(w, a16, a06, 110);
    assert(0 <= a25 - a15 <= 58_276);
    // Term four.
    let a24 = series_factor(w, 4, 2);
    let a34 = series_factor(w, 4, 3);
    assert(a24 == damped(w, a15, 72) && a34 == damped(w, a25, 72));
    lemma_series_factor_range(w, 5, 1);
    lemma_damped_gap(w, a15, a25, 72);
    assert(0 <= a24 - a34 <= 810);
    // Term three.
    let a33 = series_factor(w, 3, 3);
    let a43 = series_factor(w, 3, 4);
    assert(a33 == damped(w, a24, 42) && a43 == damped(w, a34, 42));
    lemma_series_factor_range(w, 4, 3);
    lemma_damped_gap(w, a34, a24, 42);
    assert(0 <= a43 - a33 <= 20);
    // Term two.
    let a42 = series_factor(w, 2, 4);
    let a52 = series_factor(w, 2, 5);
    assert(a42 == damped(w, a33, 20) && a52 == damped(w, a43, 20));
    lemma_series_factor_range(w, 3, 3);
    lemma_damped_gap(w, a33, a43, 20);
    assert(0 <= a42 - a52 <= 2);
    // Term one.
    let a51 = series_factor(w, 1, 5);
    let a61 = series_factor(w, 1, 6);
    assert(a51 == damped(w, a42, 6) && a61 == damped(w, a52, 6));
    lemma_series_factor_range(w, 2, 5);
    lemma_damped_gap(w, a52, a42, 6);
    assert(0 <= a61 - a51 <= 1);
    // The angle times the factor.
    lemma_series_factor_range(w, 1, 5);
    assert(0 <= m * a51 && 0 <= m * (a61 - a51) <= u && m * a51 + m * (a61 - a51) == m * a61)
        by (nonlinear_arith)
        requires
            0 <= m <= u,
            0 <= a51,
            0 <= a61 - a51 <= 1,
    ;
    lemma_div_sum(m * a51, m * (a61 - a51), u);
    lemma_div_is_ordered(m * (a61 - a51), u, u);
    lemma_div_is_ordered(m * a51, m * a61, u);
    assert(u / u == 1) by {
        lemma_div_multiples_vanish(1, u);
    }
}

/// Up to one radian the sine series lies between any two cuts of itself
/// that the sine lies between: at least every cut after an odd number of
/// terms, at most every cut after an even number.
pub proof fn lemma_sine_series_enclosed(m: int, cut: nat)
    requires
        0 <= m <= UNIT,
        cut <= 7,
    ensures
        cut % 2 == 0 ==> sine_series(m) <= sine_partial(m, cut),
        cut % 2 == 1 ==> sine_partial(m, cut) <= sine_series(m),
{
    lemma_sine_series_is_partial(m);
    lemma_sine_partial_order(m, cut, 7);
    lemma_sine_partial_order(m, 0, 7);
}

/// Over the whole quarter turn, sine and cosine are enclosed as tightly as
/// two steps. The lesser of the two is the series, at the angle or at what
/// completes it to a quarter turn, and lies between the cut after five terms,
/// which is below the sine, and two steps above it, where the cut after six
/// terms, which is above the sine, lies too. The greater is what the lesser
/// leaves of `UNIT`.
pub proof fn lemma_quarter_turn_enclosed(m: int)
    requires
        0 <= m <= QUARTER_TURN,
    ensures
        m <= EIGHTH_TURN ==> sine_partial(m, 5) <= sine_of_acute(m) <= sine_partial(m, 6)
            <= sine_partial(m, 5) + 2 && cosine_of_acute(m) == rest_of_unit(sine_of_acute(m)),
        m > EIGHTH_TURN ==> sine_partial(QUARTER_TURN - m, 5) <= cosine_of_acute(m)
            <= sine_partial(QUARTER_TURN - m, 6) <= sine_partial(QUARTER_TURN - m, 5) + 2
            && sine_of_acute(m) == rest_of_unit(cosine_of_acute(m)),
{
    let lesser = if m <= EIGHTH_TURN {
        m
    } else {
        QUARTER_TURN - m
    };
    lemma_sine_series_enclosed(lesser, 5);
    lemma_sine_series_enclosed(lesser, 6);
    lemma_sine_partial_gap(lesser);
}

/// Up to one radian the sine series lies where the sine does: at most the
/// angle, and at least the angle less a sixth of its cube, each division
/// rounded down.
pub proof fn lemma_sine_series_bounds(m: int)
    requires
        0 <= m <= UNIT,
    ensures
        (m * (UNIT - ((m * m) / (UNIT as int)) / 6)) / (UNIT as int) <= sine_series(m) <= m,
{
    let u = UNIT as int;
    lemma_squared_angle(m);
    let w = (m * m) / u;
    let f210 = damped(w, u, 210);
    lemma_damped(w, u, 210);
    let f156 = damped(w, f210, 156);
    lemma_damped(w, f210, 156);
    let f110 = damped(w, f156, 110);
    lemma_damped(w, f156, 110);
    let f72 = damped(w, f110, 72);
    lemma_damped(w, f110, 72);
    let f42 = damped(w, f72, 42);
    lemma_damped(w, f72, 42);
    let f20 = damped(w, f42, 20);
    lemma_damped(w, f42, 20);
    let f6 = damped(w, f20, 6);
    lemma_damped(w, f20, 6);
    // The outermost factor is at least one less a sixth of the squared angle.
    assert(w * f20 <= u * w) by (nonlinear_arith)
        requires
            0 <= w,
            0 <= f20 <= u,
    ;
    lemma_div_is_ordered(w * f20, u * w, 6 * u);
    lemma_div_multiples_vanish_quotient(u, w, 6);
    assert(u * 6 == 6 * u);
    let g = u - w / 6;
    assert(g <= f6 <= u);
    // So the series lies between the angle times that and the angle.
    assert(m * g <= m * f6 <= u * m) by (nonlinear_arith)
        requires
            0 <= m,
            g <= f6 <= u,
    ;
    lemma_div_is_ordered(m * g, m * f6, u);
    lemma_div_is_ordered(m * f6, u * m, u);
    lemma_div_multiples_vanish(m, u);
}

/// A turn by up to an eighth of a turn either way goes the way of the angle
/// and not beyond: the sine has the sign of the angle and is no larger, and
/// the cosine is positive.
pub proof fn lemma_small_turn(angle: int)
    requires
        -EIGHTH_TURN <= angle <= EIGHTH_TURN,
    ensures
        angle >= 0 ==> 0 <= sine_of(angle) <= angle,
        angle <= 0 ==> angle <= sine_of(angle) <= 0,
        0 < cosine_of(angle) <= UNIT,
{
    lemma_small_mod((angle + HALF_TURN) as nat, FULL_TURN as nat);
    assert(wrapped(angle) == angle);
    let m = magnitude(angle);
    lemma_sine_series(m);
    lemma_sine_series_bounds(m);
    let s = sine_series(m);
    lemma_rest_of_unit(s);
    lemma_square_strict(s, UNIT as int);
    let r = rest_of_unit(s);
    assert(r != 0) by (nonlinear_arith)
        requires
            UNIT * UNIT - s * s < (r + 1) * (r + 1),
            s * s < UNIT * UNIT,
    ;
}

/// A coordinate between zero and `UNIT` and what it leaves of `UNIT` form a
/// unit pair.
pub proof fn lemma_rest_of_unit(a: int)
    requires
        0 <= a <= UNIT,
    ensures
        0 <= rest_of_unit(a) <= UNIT,
        is_floor_sqrt(UNIT * UNIT - a * a, rest_of_unit(a)),
        is_unit_pair(a, rest_of_unit(a)),
        is_unit_pair(rest_of_unit(a), a),
{
    lemma_square_monotone(a, UNIT as int);
    assert(a * a >= 0) by (nonlinear_arith);
    lemma_floor_sqrt(UNIT * UNIT - a * a);
    let b = rest_of_unit(a);
    if b > UNIT {
        lemma_square_monotone(UNIT + 1, b);
    }
    assert((b + 1) * (b + 1) == b * b + 2 * b + 1) by (nonlinear_arith);
}

/// Cosine and sine of an angle between zero and a quarter turn form a unit
/// pair, and neither is negative.
pub proof fn lemma_acute_pair(m: int)
    requires
        0 <= m <= QUARTER_TURN,
    ensures
        0 <= sine_of_acute(m),
        0 <= cosine_of_acute(m),
        is_unit_pair(cosine_of_acute(m), sine_of_acute(m)),
{
    if m <= EIGHTH_TURN {
        lemma_sine_series(m);
        lemma_rest_of_unit(sine_series(m));
    } else {
        lemma_sine_series(QUARTER_TURN - m);
        lemma_rest_of_unit(sine_series(QUARTER_TURN - m));
    }
}

/// Cosine and sine of any angle form a unit pair.
pub proof fn lemma_unit_pair(angle: int)
    ensures
        is_unit_pair(cosine_of(angle), sine_of(angle)),
{
    lemma_folded_range(angle);
    let m = magnitude(folded(angle));
    lemma_acute_pair(m);
    let s = sine_of(angle);
    let c = cosine_of(angle);
    assert(s * s == sine_of_acute(m) * sine_of_acute(m)) by (nonlinear_arith)
        requires
            s == sine_of_acute(m) || s == -sine_of_acute(m),
    ;
    assert(c * c == cosine_of_acute(m) * cosine_of_acute(m)) by (nonlinear_arith)
        requires
            c == cosine_of_acute(m) || c == -cosine_of_acute(m),
    ;
}

fn damp(w: u128, p: u128, d: u128) -> (r: u128)
    requires
        w <= 6 * UNIT,
        p <= UNIT,
        6 <= d <= 1000,
    ensures
        r == damped(w as int, p as int, d as int),
        r <= UNIT,
{
    let unit: u128 = UNIT as u128;
    proof {
        lemma_damped(w as int, p as int, d as int);
    }
    unit - (w * p) / (d * unit)
}

/// The sine series at an angle between zero and a quarter turn.
pub fn sine_series_of(m: u64) -> (s: u64)
    requires
        m <= QUARTER_TURN,
    ensures
        s == sine_series(m as int),
        s <= UNIT,
{
    let unit: u128 = UNIT as u128;
    let wide: u128 = m as u128;
    proof {
        lemma_squared_angle(m as int);
    }
    let w: u128 = (wide * wide) / unit;
    let f210 = damp(w, unit, 210);
    let f156 = damp(w, f210, 156);
    let f110 = damp(w, f156, 110);
    let f72 = damp(w, f110, 72);
    let f42 = damp(w, f72, 42);
    let f20 = damp(w, f42, 20);
    let f6 = damp(w, f20, 6);
    assert(wide * f6 <= 2 * unit * unit) by (nonlinear_arith)
        requires
            0 <= wide <= 2 * unit,
            0 <= f6 <= unit,
    ;
    let s: u128 = (wide * f6) / unit;
    if s > unit {
        UNIT as u64
    } else {
        s as u64
    }
}

/// What a coordinate of size `a` leaves of a vector of length `UNIT` for
/// the other coordinate, rounded down.
pub fn rest_of_unit_of(a: u64) -> (b: u64)
    requires
        a <= UNIT,
    ensures
        b == rest_of_unit(a as int),
        b <= UNIT,
{
    let unit: u128 = UNIT as u128;
    let wide: u128 = a as u128;
    proof {
        lemma_rest_of_unit(a as int);
    }
    isqrt(unit * unit - wide * wide)
}

/// The squared length of a turned vector, before rounding, is the squared
/// length of the vector times that of the pair of cosine and sine.
pub proof fn lemma_turn_identity(c: int, s: int, x: int, y: int)
    ensures
        (c * x - s * y) * (c * x - s * y) + (s * x + c * y) * (s * x + c * y) == (c * c + s * s)
            * (x * x + y * y),
{
    let a = c * x;
    let b = s * y;
    let d = s * x;
    let e = c * y;
    assert((a - b) * (a - b) == a * a - 2 * (a * b) + b * b) by (nonlinear_arith);
    assert((d + e) * (d + e) == d * d + 2 * (d * e) + e * e) by (nonlinear_arith);
    assert(a * b == d * e) by (nonlinear_arith)
        requires
            a == c * x,
            b == s * y,
            d == s * x,
            e == c * y,
    ;
    assert(a * a == (c * c) * (x * x)) by (nonlinear_arith)
        requires
            a == c * x,
    ;
    assert(b * b == (s * s) * (y * y)) by (nonlinear_arith)
        requires
            b == s * y,
    ;
    assert(d * d == (s * s) * (x * x)) by (nonlinear_arith)
        requires
            d == s * x,
    ;
    assert(e * e == (c * c) * (y * y)) by (nonlinear_arith)
        requires
            e == c * y,
    ;
    assert((c * c + s * s) * (x * x + y * y) == (c * c) * (x * x) + (c * c) * (y * y) + (s * s)
        * (x * x) + (s * s) * (y * y)) by (nonlinear_arith);
}

/// Turning never lengthens a vector.
pub proof fn lemma_turned_no_longer(c: int, s: int, v: Vector)
    requires
        is_unit_pair(c, s),
    ensures
        turned(c, s, v).norm_sq() <= v.norm_sq(),
{
    let u = UNIT as int;
    let big_x = c * v.x - s * v.y;
    let big_y = s * v.x + c * v.y;
    let q = turned(c, s, v);
    let n = v.norm_sq();
    lemma_toward_zero(big_x, u);
    lemma_toward_zero(big_y, u);
    lemma_scaled_square(magnitude(q.x), u, magnitude(big_x));
    lemma_scaled_square(magnitude(q.y), u, magnitude(big_y));
    assert(magnitude(q.x) * magnitude(q.x) == q.x * q.x) by (nonlinear_arith);
    assert(magnitude(q.y) * magnitude(q.y) == q.y * q.y) by (nonlinear_arith);
    assert(magnitude(big_x) * magnitude(big_x) == big_x * big_x) by (nonlinear_arith);
    assert(magnitude(big_y) * magnitude(big_y) == big_y * big_y) by (nonlinear_arith);
    lemma_turn_identity(c, s, v.x, v.y);
    assert((c * c + s * s) * n <= (u * u) * n) by (nonlinear_arith)
        requires
            c * c + s * s <= u * u,
            n == v.x * v.x + v.y * v.y,
    ;
    assert(q.norm_sq() * (u * u) == (q.x * q.x) * (u * u) + (q.y * q.y) * (u * u))
        by (nonlinear_arith)
        requires
            q.norm_sq() == q.x * q.x + q.y * q.y,
    ;
    assert((u * u) * n == n * (u * u)) by (nonlinear_arith);
    lemma_cancel_factor(q.norm_sq(), n, u * u);
}

/// How much length turning costs a vector: `UNIT` times the loss of squared
/// length is less than twice the squared length (what the unit pair falls
/// short of `UNIT`) and twice `UNIT` times one more than the sizes of the new
/// coordinates (what rounding them drops).
pub proof fn lemma_turned_length(c: int, s: int, v: Vector)
    requires
        is_unit_pair(c, s),
    ensures
        turned(c, s, v).norm_sq() <= v.norm_sq(),
        UNIT * (v.norm_sq() - turned(c, s, v).norm_sq()) < 2 * v.norm_sq() + 2 * UNIT * (
        magnitude(turned(c, s, v).x) + magnitude(turned(c, s, v).y) + 1),
{
    let u = UNIT as int;
    let big_x = c * v.x - s * v.y;
    let big_y = s * v.x + c * v.y;
    let q = turned(c, s, v);
    let n = v.norm_sq();
    let qn = q.norm_sq();
    let a = magnitude(q.x);
    let b = magnitude(q.y);
    let cc = c * c + s * s;
    let uu = u * u;
    lemma_turned_no_longer(c, s, v);
    lemma_toward_zero_square(big_x, u);
    lemma_toward_zero_square(big_y, u);
    lemma_turn_identity(c, s, v.x, v.y);
    assert(a * a == q.x * q.x && b * b == q.y * q.y) by (nonlinear_arith)
        requires
            a == q.x || a == -q.x,
            b == q.y || b == -q.y,
    ;
    let t = qn + 2 * (a + b) + 2;
    assert((a * a + 2 * a + 1) * uu + (b * b + 2 * b + 1) * uu == t * uu) by (nonlinear_arith)
        requires
            qn == a * a + b * b,
            t == qn + 2 * (a + b) + 2,
    ;
    // cc * n < t * uu
    assert(n >= 0) by (nonlinear_arith)
        requires
            n == v.x * v.x + v.y * v.y,
    ;
    assert((uu - 2 * u) * n <= cc * n) by (nonlinear_arith)
        requires
            uu - 2 * u <= cc,
            n >= 0,
    ;
    assert((uu - 2 * u) * n == ((u - 2) * n) * u) by (nonlinear_arith)
        requires
            uu == u * u,
    ;
    assert(t * uu == (t * u) * u) by (nonlinear_arith)
        requires
            uu == u * u,
    ;
    lemma_cancel_factor_strict((u - 2) * n, t * u, u);
    assert((u - 2) * n == u * n - 2 * n) by (nonlinear_arith);
    assert(t * u == u * qn + 2 * u * (a + b + 1)) by (nonlinear_arith)
        requires
            t == qn + 2 * (a + b) + 2,
    ;
    assert(u * (n - qn) == u * n - u * qn) by (nonlinear_arith);
}

/// A rotation about the origin, held by its cosine and sine.
#[derive(Clone, Copy, Debug, PartialEq, Eq, Structural)]
pub struct Rotation {
    pub cos: i64,
    pub sin: i64,
}

impl Rotation {
    /// Cosine and sine form a unit pair.
    pub open spec fn wf(self) -> bool {
        is_unit_pair(self.cos as int, self.sin as int)
    }

    /// The vector `v` turned about the origin.
    pub open spec fn turned(self, v: Vector) -> Vector {
        turned(self.cos as int, self.sin as int, v)
    }

    /// Turns the point about the origin.
    pub fn apply(&self, p: Point) -> (q: Point)
        requires
            self.wf(),
            p@.no_longer_than(REACH as int),
        ensures
            q@ == self.turned(p@),
            q@.norm_sq() <= p@.norm_sq(),
    {
        proof {
            p@.lemma_coordinates_within(REACH as int);
            lemma_turned_no_longer(self.cos as int, self.sin as int, p@);
            self.turned(p@).lemma_coordinates_within(REACH as int);
        }
        let c: i128 = self.cos as i128;
        let s: i128 = self.sin as i128;
        let x: i128 = p.x as i128;
        let y: i128 = p.y as i128;
        assert(-UNIT * REACH <= c * x <= UNIT * REACH && -UNIT * REACH <= s * y <= UNIT * REACH
            && -UNIT * REACH <= s * x <= UNIT * REACH && -UNIT * REACH <= c * y <= UNIT * REACH
            && UNIT * REACH == 1_000_000_000_000_000_000_000_000_000) by (nonlinear_arith)
            requires
                -UNIT <= c <= UNIT,
                -UNIT <= s <= UNIT,
                -REACH <= x <= REACH,
                -REACH <= y <= REACH,
                REACH == 1_000_000_000_000_000_000,
                UNIT == 1_000_000_000,
        ;
        let qx: i128 = div_toward_zero(c * x - s * y, UNIT as i128);
        let qy: i128 = div_toward_zero(s * x + c * y, UNIT as i128);
        Point { x: qx as i64, y: qy as i64 }
    }

    /// The rotation by `angle`, counted in steps of a radian; any angle is
    /// taken, whole turns are dropped.
    pub fn from_angle(angle: i64) -> (r: Rotation)
        ensures
            r.sin == sine_of(angle as int),
            r.cos == cosine_of(angle as int),
            r.wf(),
    {
        let full: i128 = FULL_TURN as i128;
        let half: i128 = HALF_TURN as i128;
        let quarter: i128 = QUARTER_TURN as i128;
        let shifted: i128 = angle as i128 + half + LAPS as i128 * full;
        proof {
            lemma_mod_multiples_vanish(LAPS as int, angle + HALF_TURN, FULL_TURN as int);
            assert(FULL_TURN * LAPS == LAPS * FULL_TURN) by (nonlinear_arith);
            lemma_folded_range(angle as int);
        }
        let a: i128 = shifted % full - half;
        assert(a == wrapped(angle as int));
        let back = a > quarter || a < -quarter;
        let u: i128 = if a > quarter {
            half - a
        } else if a < -quarter {
            -half - a
        } else {
            a
        };
        assert(u == folded(angle as int));
        let m: u64 = if u >= 0 {
            u as u64
        } else {
            (-u) as u64
        };
        proof {
            lemma_acute_pair(m as int);
        }
        let (c_len, s_len): (u64, u64) = if m <= EIGHTH_TURN as u64 {
            let lesser = sine_series_of(m);
            (rest_of_unit_of(lesser), lesser)
        } else {
            let lesser = sine_series_of(QUARTER_TURN as u64 - m);
            (lesser, rest_of_unit_of(lesser))
        };
        let sin: i64 = if u >= 0 {
            s_len as i64
        } else {
            -(s_len as i64)
        };
        let cos: i64 = if back {
            -(c_len as i64)
        } else {
            c_len as i64
        };
        assert(sin * sin == s_len * s_len && cos * cos == c_len * c_len) by (nonlinear_arith)
            requires
                sin == s_len || sin == -s_len,
                cos == c_len || cos == -c_len,
        ;
        Rotation { cos, sin }
    }
}

} // verus!
