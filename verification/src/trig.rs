//! Directions, and sine and cosine in fixed point.
//!
//! A direction is a whole number of thousandths of a degree, measured from
//! the positive x axis toward the positive y axis. Sine and cosine are
//! scaled by `UNIT` and rounded to the nearest whole number.
//!
//! Both come from the tangent `t` of half the angle, as `2t / (1 + t^2)`
//! and `(1 - t^2) / (1 + t^2)`. That point lies on the unit circle whatever
//! `t` is, so the squares of sine and cosine add up to the square of `UNIT`
//! to within the rounding (`lemma_unit_circle`). The tangent is its power
//! series to eight terms, worked out to twelve decimal places, for angles
//! up to an eighth of a turn; the rest of the circle follows by its
//! symmetries, which hold exactly.
//!
//! The series falls short of the tangent by less than `10^-9`, which moves
//! a sine by far less than a `UNIT`-th: a value is the true sine to within
//! little more than the half of a `UNIT`-th that the last rounding costs.
//! The logic has no real sine to hold that against. What is proved here is
//! the symmetries, the rise of the quarter wave, its values at the
//! multiples of fifteen degrees, and the unit circle.

use vstd::prelude::*;
use crate::fixed::{trunc_div, lemma_trunc_div_bounds};

verus! {

/// A full turn, in thousandths of a degree.
pub const FULL_TURN: i32 = 360_000;

/// Half a turn.
pub const HALF_TURN: i32 = 180_000;

/// A quarter of a turn.
pub const QUARTER_TURN: i32 = 90_000;

/// The fixed-point value of one: sines and cosines lie in `[-UNIT, UNIT]`.
pub const UNIT: i64 = 1_000_000;

/// The value of one in the finer fixed point in which the tangent is
/// worked out.
pub const FINE: u128 = 1_000_000_000_000;

/// The direction in `[0, FULL_TURN)` that `angle` names.
pub open spec fn spec_normalize(angle: int) -> int {
    angle % 360_000
}

/// Half of an angle of `a` thousandths of a degree, in radians scaled by
/// `FINE` and rounded down: `a` times pi over `2 * HALF_TURN`.
pub open spec fn half_angle(a: int) -> int {
    a * 3_141_592_653_589_793 / 360_000_000
}

/// `c + y h`, in the fixed point of `FINE`: one step of a power series that
/// is summed from its last term.
pub open spec fn series_step(c: int, y: int, h: int) -> int {
    c + y * h / 1_000_000_000_000
}

/// The tangent of `x`, both scaled by `FINE`: the series
/// `x + x^3/3 + 2x^5/15 + 17x^7/315 + 62x^9/2835 + 1382x^11/155925 +
/// 21844x^13/6081075 + 929569x^15/638512875`, each product rounded down.
#[verifier::opaque]
pub open spec fn tangent(x: int) -> int {
    let y = x * x / 1_000_000_000_000;
    let h = series_step(3_592_128_036, y, 1_455_834_387);
    let h = series_step(8_863_235_529, y, h);
    let h = series_step(21_869_488_536, y, h);
    let h = series_step(53_968_253_968, y, h);
    let h = series_step(133_333_333_333, y, h);
    let h = series_step(333_333_333_333, y, h);
    let h = series_step(1_000_000_000_000, y, h);
    x * h / 1_000_000_000_000
}

/// The quotient of `n` by a positive `d`, rounded to the nearest whole
/// number, and up where two are as near.
pub open spec fn round_div(n: int, d: int) -> int {
    (2 * n + d) / (2 * d)
}

/// The sine of an angle whose half has the tangent `t`: `2t / (1 + t^2)`,
/// with `t` scaled by `FINE` and the sine by `UNIT`.
pub open spec fn sine_of_tangent(t: int) -> int {
    round_div(2_000_000_000_000_000_000 * t, 1_000_000_000_000_000_000_000_000 + t * t)
}

/// The cosine of an angle whose half has the tangent `t`:
/// `(1 - t^2) / (1 + t^2)`, with `t` scaled by `FINE` and the cosine by
/// `UNIT`.
pub open spec fn cosine_of_tangent(t: int) -> int {
    round_div(
        1_000_000 * (1_000_000_000_000_000_000_000_000 - t * t),
        1_000_000_000_000_000_000_000_000 + t * t,
    )
}

/// The tangent of half of `a` thousandths of a degree, scaled by `FINE`.
pub open spec fn tangent_of_half(a: int) -> int {
    tangent(half_angle(a))
}

/// The sine on the first quarter turn, scaled by `UNIT`: up to an eighth of
/// a turn the sine of the angle, and beyond it the cosine of what the angle
/// lacks to a quarter turn.
#[verifier::opaque]
pub open spec fn quarter_wave(a: int) -> int {
    if a <= 45_000 {
        sine_of_tangent(tangent_of_half(a))
    } else {
        cosine_of_tangent(tangent_of_half(90_000 - a))
    }
}

/// The sine of a direction, scaled by `UNIT`.
pub open spec fn spec_sin(angle: int) -> int {
    let h = spec_normalize(angle);
    if h <= 90_000 {
        quarter_wave(h)
    } else if h <= 180_000 {
        quarter_wave(180_000 - h)
    } else if h <= 270_000 {
        -quarter_wave(h - 180_000)
    } else {
        -quarter_wave(360_000 - h)
    }
}

/// The cosine of a direction, scaled by `UNIT`: the sine a quarter turn on.
pub open spec fn spec_cos(angle: int) -> int {
    spec_sin(angle + 90_000)
}

/// `speed * t / UNIT`, rounded toward zero: the part of a speed that falls on
/// an axis whose sine or cosine is `t`.
pub open spec fn project(speed: int, t: int) -> int {
    trunc_div(speed * t, 1_000_000)
}

/// Of two fractions with positive denominators, the one that is no larger
/// has the quotient that is no larger.
pub proof fn lemma_fraction_order(a1: int, b1: int, a2: int, b2: int)
    requires
        b1 > 0,
        b2 > 0,
        a1 * b2 <= a2 * b1,
    ensures
        a1 / b1 <= a2 / b2,
{
    let q1 = a1 / b1;
    let q2 = a2 / b2;
    vstd::arithmetic::div_mod::lemma_fundamental_div_mod(a1, b1);
    vstd::arithmetic::div_mod::lemma_mod_bound(a1, b1);
    vstd::arithmetic::div_mod::lemma_fundamental_div_mod(a2, b2);
    vstd::arithmetic::div_mod::lemma_mod_bound(a2, b2);
    if q1 > q2 {
        assert(false) by (nonlinear_arith)
            requires
                q1 >= q2 + 1,
                b1 > 0,
                b2 > 0,
                a1 * b2 <= a2 * b1,
                b1 * q1 <= a1,
                a2 < b2 * q2 + b2,
        {
            assert(b2 * q2 + b2 == b2 * (q2 + 1));
            assert((b1 * q1) * b2 <= a1 * b2);
            assert(a2 * b1 < (b2 * (q2 + 1)) * b1);
            assert((b2 * (q2 + 1)) * b1 <= (b2 * q1) * b1);
        }
    }
}

/// A product in the fixed point of `FINE` grows with both factors.
proof fn lemma_fine_product(a1: int, b1: int, a2: int, b2: int)
    requires
        0 <= a1 <= a2,
        0 <= b1 <= b2,
    ensures
        0 <= a1 * b1 / 1_000_000_000_000 <= a2 * b2 / 1_000_000_000_000,
{
    assert(0 <= a1 * b1 <= a2 * b2) by (nonlinear_arith)
        requires
            0 <= a1 <= a2,
            0 <= b1 <= b2,
    ;
    vstd::arithmetic::div_mod::lemma_div_pos_is_pos(a1 * b1, 1_000_000_000_000);
    vstd::arithmetic::div_mod::lemma_div_is_ordered(a1 * b1, a2 * b2, 1_000_000_000_000);
}

/// The tangent grows with its argument.
pub proof fn lemma_tangent_grows(x1: int, x2: int)
    requires
        0 <= x1 <= x2,
    ensures
        0 <= tangent(x1) <= tangent(x2),
{
    reveal(tangent);
    let y1 = x1 * x1 / 1_000_000_000_000;
    let y2 = x2 * x2 / 1_000_000_000_000;
    lemma_fine_product(x1, x1, x2, x2);
    let g = series_step(3_592_128_036, y1, 1_455_834_387);
    let h = series_step(3_592_128_036, y2, 1_455_834_387);
    lemma_fine_product(y1, 1_455_834_387, y2, 1_455_834_387);
    lemma_fine_product(y1, g, y2, h);
    let g = series_step(8_863_235_529, y1, g);
    let h = series_step(8_863_235_529, y2, h);
    lemma_fine_product(y1, g, y2, h);
    let g = series_step(21_869_488_536, y1, g);
    let h = series_step(21_869_488_536, y2, h);
    lemma_fine_product(y1, g, y2, h);
    let g = series_step(53_968_253_968, y1, g);
    let h = series_step(53_968_253_968, y2, h);
    lemma_fine_product(y1, g, y2, h);
    let g = series_step(133_333_333_333, y1, g);
    let h = series_step(133_333_333_333, y2, h);
    lemma_fine_product(y1, g, y2, h);
    let g = series_step(333_333_333_333, y1, g);
    let h = series_step(333_333_333_333, y2, h);
    lemma_fine_product(y1, g, y2, h);
    let g = series_step(1_000_000_000_000, y1, g);
    let h = series_step(1_000_000_000_000, y2, h);
    lemma_fine_product(x1, g, x2, h);
}

/// The quotient of `n` by `FINE` is `q` if `n` lies in the span of `FINE`
/// that starts at `q` times `FINE`.
proof fn lemma_fine_quotient(n: int, q: int)
    requires
        0 <= n - q * 1_000_000_000_000 < 1_000_000_000_000,
    ensures
        n / 1_000_000_000_000 == q,
{
    vstd::arithmetic::div_mod::lemma_fundamental_div_mod_converse(
        n,
        1_000_000_000_000,
        q,
        n - q * 1_000_000_000_000,
    );
}

/// The tangent of `x` is `t` if the sums of the series are as given: `y`
/// is the square of `x`, and `h6` to `h0` are the sums from the last term
/// back to the first.
proof fn lemma_tangent_is(
    x: int,
    y: int,
    h6: int,
    h5: int,
    h4: int,
    h3: int,
    h2: int,
    h1: int,
    h0: int,
    t: int,
)
    requires
        0 <= x * x - y * 1_000_000_000_000 < 1_000_000_000_000,
        0 <= y * 1_455_834_387 - (h6 - 3_592_128_036) * 1_000_000_000_000 < 1_000_000_000_000,
        0 <= y * h6 - (h5 - 8_863_235_529) * 1_000_000_000_000 < 1_000_000_000_000,
        0 <= y * h5 - (h4 - 21_869_488_536) * 1_000_000_000_000 < 1_000_000_000_000,
        0 <= y * h4 - (h3 - 53_968_253_968) * 1_000_000_000_000 < 1_000_000_000_000,
        0 <= y * h3 - (h2 - 133_333_333_333) * 1_000_000_000_000 < 1_000_000_000_000,
        0 <= y * h2 - (h1 - 333_333_333_333) * 1_000_000_000_000 < 1_000_000_000_000,
        0 <= y * h1 - (h0 - 1_000_000_000_000) * 1_000_000_000_000 < 1_000_000_000_000,
        0 <= x * h0 - t * 1_000_000_000_000 < 1_000_000_000_000,
    ensures
        tangent(x) == t,
{
    reveal(tangent);
    lemma_fine_quotient(x * x, y);
    lemma_fine_quotient(y * 1_455_834_387, h6 - 3_592_128_036);
    lemma_fine_quotient(y * h6, h5 - 8_863_235_529);
    lemma_fine_quotient(y * h5, h4 - 21_869_488_536);
    lemma_fine_quotient(y * h4, h3 - 53_968_253_968);
    lemma_fine_quotient(y * h3, h2 - 133_333_333_333);
    lemma_fine_quotient(y * h2, h1 - 333_333_333_333);
    lemma_fine_quotient(y * h1, h0 - 1_000_000_000_000);
    lemma_fine_quotient(x * h0, t);
}

/// Half of `a` thousandths of a degree is `x` if `a` times pi lies in the
/// span that starts at `x` times `2 * HALF_TURN`.
proof fn lemma_half_angle_is(a: int, x: int)
    requires
        0 <= a * 3_141_592_653_589_793 - x * 360_000_000 < 360_000_000,
    ensures
        half_angle(a) == x,
{
    vstd::arithmetic::div_mod::lemma_fundamental_div_mod_converse(
        a * 3_141_592_653_589_793,
        360_000_000,
        x,
        a * 3_141_592_653_589_793 - x * 360_000_000,
    );
}

/// The tangents of half of an eighth, a twelfth and a twenty-fourth of a
/// turn, and of nothing.
#[verifier::rlimit(50)]
pub proof fn lemma_tangent_values()
    ensures
        half_angle(0) == 0,
        half_angle(15_000) == 130_899_693_899,
        half_angle(30_000) == 261_799_387_799,
        half_angle(45_000) == 392_699_081_698,
        tangent_of_half(0) == 0,
        tangent_of_half(15_000) == 131_652_497_586,
        tangent_of_half(30_000) == 267_949_192_430,
        tangent_of_half(45_000) == 414_213_562_292,
{
    lemma_half_angle_is(0, 0);
    lemma_half_angle_is(15_000, 130_899_693_899);
    lemma_half_angle_is(30_000, 261_799_387_799);
    lemma_half_angle_is(45_000, 392_699_081_698);
    assert(tangent(0) == 0) by {
        reveal(tangent);
    }
    lemma_tangent_is(
        130_899_693_899,
        17_134_729_862,
        3_617_073_364,
        8_925_213_103,
        22_022_419_651,
        54_345_602_179,
        134_264_530_545,
        335_633_919_793,
        1_005_750_996_548,
        131_652_497_586,
    );
    lemma_tangent_is(
        261_799_387_799,
        68_538_919_451,
        3_691_909_351,
        9_116_275_006,
        22_494_308_174,
        55_509_989_544,
        137_137_928_035,
        342_732_618_736,
        1_023_490_523_348,
        267_949_192_430,
    );
    lemma_tangent_is(
        392_699_081_698,
        154_212_568_766,
        3_816_635_996,
        9_451_808_769,
        23_327_076_245,
        57_565_582_317,
        142_210_669_654,
        355_264_006_006,
        1_054_786_174_956,
        414_213_562_292,
    );
}

/// What rounding leaves: the rounded quotient times `d` is within half of
/// `d` of `n`.
proof fn lemma_round_div(n: int, d: int)
    requires
        d > 0,
    ensures
        2 * n - d < 2 * (round_div(n, d) * d) <= 2 * n + d,
        n >= 0 ==> round_div(n, d) >= 0,
{
    let q = round_div(n, d);
    vstd::arithmetic::div_mod::lemma_fundamental_div_mod(2 * n + d, 2 * d);
    vstd::arithmetic::div_mod::lemma_mod_bound(2 * n + d, 2 * d);
    assert((2 * d) * q == 2 * (q * d)) by (nonlinear_arith);
    if n >= 0 {
        vstd::arithmetic::div_mod::lemma_div_pos_is_pos(2 * n + d, 2 * d);
    }
}

/// The rounded quotient of `n` by `d` is `q` if `n` lies within half of
/// `d` of `q` times `d`.
proof fn lemma_round_div_is(n: int, d: int, q: int)
    requires
        d > 0,
        0 <= 2 * n + d - q * (2 * d) < 2 * d,
    ensures
        round_div(n, d) == q,
{
    vstd::arithmetic::div_mod::lemma_fundamental_div_mod_converse(
        2 * n + d,
        2 * d,
        q,
        2 * n + d - q * (2 * d),
    );
}

/// Sine and cosine of the angle whose half has the tangent `t` are `s` and
/// `c` if `s (1 + t^2)` is within half of `1 + t^2` of `2t`, and
/// `c (1 + t^2)` of `1 - t^2`.
proof fn lemma_point_is(t: int, s: int, c: int)
    requires
        0 <= 2 * (2_000_000_000_000_000_000 * t) + (1_000_000_000_000_000_000_000_000 + t * t) - s
            * (2 * (1_000_000_000_000_000_000_000_000 + t * t)) < 2 * (
        1_000_000_000_000_000_000_000_000 + t * t),
        0 <= 2 * (1_000_000 * (1_000_000_000_000_000_000_000_000 - t * t)) + (
        1_000_000_000_000_000_000_000_000 + t * t) - c * (2 * (1_000_000_000_000_000_000_000_000
            + t * t)) < 2 * (1_000_000_000_000_000_000_000_000 + t * t),
    ensures
        sine_of_tangent(t) == s,
        cosine_of_tangent(t) == c,
{
    assert(t * t >= 0) by (nonlinear_arith);
    lemma_round_div_is(
        2_000_000_000_000_000_000 * t,
        1_000_000_000_000_000_000_000_000 + t * t,
        s,
    );
    lemma_round_div_is(
        1_000_000 * (1_000_000_000_000_000_000_000_000 - t * t),
        1_000_000_000_000_000_000_000_000 + t * t,
        c,
    );
}

/// Where `2 s d` is `2 u n` and `e` more, four times the square of `s d` is
/// the square of that sum.
proof fn lemma_square_apart(s: int, d: int, u: int, n: int, e: int)
    requires
        2 * (s * d) == 2 * (u * n) + e,
    ensures
        4 * ((s * s) * (d * d)) == 4 * ((u * u) * (n * n)) + 4 * (u * (n * e)) + e * e,
{
    let a = 2 * (u * n);
    let b = 2 * (s * d);
    assert(b * b == 4 * ((s * s) * (d * d))) by (nonlinear_arith)
        requires
            b == 2 * (s * d),
    ;
    assert(a * a == 4 * ((u * u) * (n * n)) && a * e == 2 * (u * (n * e))) by (nonlinear_arith)
        requires
            a == 2 * (u * n),
    ;
    assert((a + e) * (a + e) == a * a + 2 * (a * e) + e * e) by (nonlinear_arith);
}

/// The point `((1 - t^2) / (1 + t^2), 2t / (1 + t^2))` lies on the unit
/// circle: once rounded, neither part is negative or above `UNIT`, and
/// their squares add up to the square of `UNIT` to within twice `UNIT`.
#[verifier::rlimit(50)]
pub proof fn lemma_circle_of_tangent(t: int)
    requires
        0 <= t <= 1_000_000_000_000,
    ensures
        0 <= sine_of_tangent(t) <= 1_000_000,
        0 <= cosine_of_tangent(t) <= 1_000_000,
        999_998_000_000 <= sine_of_tangent(t) * sine_of_tangent(t) + cosine_of_tangent(t)
            * cosine_of_tangent(t) <= 1_000_002_000_000,
{
    let w: int = 1_000_000_000_000;
    let u: int = 1_000_000;
    let ww = w * w;
    let tt = t * t;
    let d = ww + tt;
    let ns = 2 * (w * t);
    let nc = ww - tt;
    let s = sine_of_tangent(t);
    let c = cosine_of_tangent(t);
    assert(ww == 1_000_000_000_000_000_000_000_000) by (nonlinear_arith)
        requires
            ww == w * w,
            w == 1_000_000_000_000,
    ;
    assert(u * ns == 2_000_000_000_000_000_000 * t) by (nonlinear_arith)
        requires
            ns == 2 * (w * t),
            w == 1_000_000_000_000,
            u == 1_000_000,
    ;
    assert(0 <= tt <= ww && 0 <= ns <= d && ns * ns + nc * nc == d * d) by (nonlinear_arith)
        requires
            0 <= t <= w,
            ww == w * w,
            tt == t * t,
            d == ww + tt,
            ns == 2 * (w * t),
            nc == ww - tt,
    {
        assert((w - t) * (w - t) >= 0);
        assert((w * t) * (w * t) == (w * w) * (t * t));
    }
    assert(u * ns >= 0 && u * nc >= 0) by (nonlinear_arith)
        requires
            ns >= 0,
            nc >= 0,
            u == 1_000_000,
    ;
    lemma_round_div(u * ns, d);
    lemma_round_div(u * nc, d);
    let sd = s * d;
    let cd = c * d;
    let es = 2 * sd - 2 * (u * ns);
    let ec = 2 * cd - 2 * (u * nc);
    let dd = d * d;
    assert(-dd <= ns * es <= dd && -dd <= nc * ec <= dd && 0 <= es * es <= dd && 0 <= ec * ec
        <= dd && dd > 0) by (nonlinear_arith)
        requires
            0 <= ns <= d,
            0 <= nc <= d,
            -d < es <= d,
            -d < ec <= d,
            dd == d * d,
            d > 0,
    ;
    let square = s * s + c * c;
    lemma_square_apart(s, d, u, ns, es);
    lemma_square_apart(c, d, u, nc, ec);
    assert((u * u) * (ns * ns) + (u * u) * (nc * nc) == (u * u) * dd) by (nonlinear_arith)
        requires
            ns * ns + nc * nc == dd,
    ;
    assert((s * s) * dd + (c * c) * dd == square * dd) by (nonlinear_arith)
        requires
            square == s * s + c * c,
    ;
    assert(u * (ns * es) + u * (nc * ec) == u * (ns * es + nc * ec)) by (nonlinear_arith);
    assert(4 * (square * dd) == 4 * ((u * u) * dd) + 4 * (u * (ns * es + nc * ec)) + es * es + ec
        * ec);
    assert(999_998_000_000 <= square <= 1_000_002_000_000) by (nonlinear_arith)
        requires
            4 * (square * dd) == 4 * ((u * u) * dd) + 4 * (u * (ns * es + nc * ec)) + es * es
                + ec * ec,
            -dd <= ns * es <= dd,
            -dd <= nc * ec <= dd,
            0 <= es * es <= dd,
            0 <= ec * ec <= dd,
            dd > 0,
            u == 1_000_000,
    ;
    assert(s <= u && c <= u) by (nonlinear_arith)
        requires
            2 * (s * d) <= 2 * (u * ns) + d,
            2 * (c * d) <= 2 * (u * nc) + d,
            0 <= ns <= d,
            nc <= d,
            d > 0,
            u == 1_000_000,
    ;
}

/// The sine grows with the tangent of the half angle, up to a quarter
/// turn.
pub proof fn lemma_sine_of_tangent_grows(t1: int, t2: int)
    requires
        0 <= t1 <= t2 <= 1_000_000_000_000,
    ensures
        sine_of_tangent(t1) <= sine_of_tangent(t2),
{
    let ww: int = 1_000_000_000_000_000_000_000_000;
    let k: int = 2_000_000_000_000_000_000;
    let d1 = ww + t1 * t1;
    let d2 = ww + t2 * t2;
    assert(d1 > 0 && d2 > 0 && (2 * (k * t1) + d1) * (2 * d2) <= (2 * (k * t2) + d2) * (2 * d1))
        by (nonlinear_arith)
        requires
            0 <= t1 <= t2 <= 1_000_000_000_000,
            ww == 1_000_000_000_000_000_000_000_000,
            k > 0,
            d1 == ww + t1 * t1,
            d2 == ww + t2 * t2,
    {
        assert(t1 * t2 <= ww);
        assert((t2 - t1) * (ww - t1 * t2) >= 0);
        assert(t1 * d2 <= t2 * d1);
        assert((k * t1) * d2 <= (k * t2) * d1);
    }
    lemma_fraction_order(2 * (k * t1) + d1, 2 * d1, 2 * (k * t2) + d2, 2 * d2);
}

/// The cosine falls as the tangent of the half angle grows.
pub proof fn lemma_cosine_of_tangent_falls(t1: int, t2: int)
    requires
        0 <= t1 <= t2,
    ensures
        cosine_of_tangent(t2) <= cosine_of_tangent(t1),
{
    let ww: int = 1_000_000_000_000_000_000_000_000;
    let u: int = 1_000_000;
    let d1 = ww + t1 * t1;
    let d2 = ww + t2 * t2;
    let n1 = u * (ww - t1 * t1);
    let n2 = u * (ww - t2 * t2);
    assert(d1 > 0 && d2 > 0 && (2 * n2 + d2) * (2 * d1) <= (2 * n1 + d1) * (2 * d2))
        by (nonlinear_arith)
        requires
            0 <= t1 <= t2,
            ww > 0,
            u > 0,
            d1 == ww + t1 * t1,
            d2 == ww + t2 * t2,
            n1 == u * (ww - t1 * t1),
            n2 == u * (ww - t2 * t2),
    {
        assert(t1 * t1 <= t2 * t2);
        assert((ww - t2 * t2) * (ww + t1 * t1) <= (ww - t1 * t1) * (ww + t2 * t2));
        assert(n2 * d1 == u * ((ww - t2 * t2) * (ww + t1 * t1)));
        assert(n1 * d2 == u * ((ww - t1 * t1) * (ww + t2 * t2)));
    }
    lemma_fraction_order(2 * n2 + d2, 2 * d2, 2 * n1 + d1, 2 * d1);
}

/// The tangent of the half angle grows with the angle, and up to an eighth
/// of a turn it stays below one.
pub proof fn lemma_tangent_of_half_grows(a: int, b: int)
    requires
        0 <= a <= b,
    ensures
        0 <= tangent_of_half(a) <= tangent_of_half(b),
        b <= 45_000 ==> tangent_of_half(b) <= 414_213_562_292,
{
    vstd::arithmetic::div_mod::lemma_div_pos_is_pos(a * 3_141_592_653_589_793, 360_000_000);
    vstd::arithmetic::div_mod::lemma_div_is_ordered(
        a * 3_141_592_653_589_793,
        b * 3_141_592_653_589_793,
        360_000_000,
    );
    lemma_tangent_grows(half_angle(a), half_angle(b));
    if b <= 45_000 {
        vstd::arithmetic::div_mod::lemma_div_is_ordered(
            b * 3_141_592_653_589_793,
            45_000int * 3_141_592_653_589_793,
            360_000_000,
        );
        lemma_tangent_grows(half_angle(b), half_angle(45_000));
        lemma_tangent_values();
    }
}

/// The quarter wave at the multiples of fifteen degrees.
#[verifier::rlimit(50)]
pub proof fn lemma_quarter_wave_values()
    ensures
        quarter_wave(0) == 0,
        quarter_wave(15_000) == 258_819,
        quarter_wave(30_000) == 500_000,
        quarter_wave(45_000) == 707_107,
        quarter_wave(60_000) == 866_025,
        quarter_wave(75_000) == 965_926,
        quarter_wave(90_000) == 1_000_000,
        cosine_of_tangent(tangent_of_half(45_000)) == 707_107,
{
    reveal(quarter_wave);
    lemma_tangent_values();
    lemma_point_is(0, 0, 1_000_000);
    lemma_point_is(131_652_497_586, 258_819, 965_926);
    lemma_point_is(267_949_192_430, 500_000, 866_025);
    lemma_point_is(414_213_562_292, 707_107, 707_107);
}

/// The quarter wave rises from nothing to `UNIT`.
pub proof fn lemma_quarter_wave_grows(a: int, b: int)
    requires
        0 <= a <= b <= 90_000,
    ensures
        0 <= quarter_wave(a) <= quarter_wave(b) <= 1_000_000,
{
    reveal(quarter_wave);
    lemma_quarter_wave_values();
    let eighth = tangent_of_half(45_000);
    if b <= 45_000 {
        lemma_tangent_of_half_grows(a, b);
        lemma_sine_of_tangent_grows(tangent_of_half(a), tangent_of_half(b));
        lemma_circle_of_tangent(tangent_of_half(a));
        lemma_circle_of_tangent(tangent_of_half(b));
    } else if a > 45_000 {
        lemma_tangent_of_half_grows(90_000 - b, 90_000 - a);
        lemma_cosine_of_tangent_falls(tangent_of_half(90_000 - b), tangent_of_half(90_000 - a));
        lemma_circle_of_tangent(tangent_of_half(90_000 - a));
        lemma_circle_of_tangent(tangent_of_half(90_000 - b));
    } else {
        lemma_tangent_of_half_grows(a, 45_000);
        lemma_sine_of_tangent_grows(tangent_of_half(a), eighth);
        lemma_circle_of_tangent(tangent_of_half(a));
        lemma_tangent_of_half_grows(90_000 - b, 45_000);
        lemma_cosine_of_tangent_falls(tangent_of_half(90_000 - b), eighth);
        lemma_circle_of_tangent(tangent_of_half(90_000 - b));
    }
}

/// The quarter wave at an angle and at what the angle lacks to a quarter
/// turn are the sine and the cosine of one angle: their squares add up to
/// the square of `UNIT` to within twice `UNIT`.
pub proof fn lemma_quarter_circle(a: int)
    requires
        0 <= a <= 90_000,
    ensures
        999_998_000_000 <= quarter_wave(a) * quarter_wave(a) + quarter_wave(90_000 - a)
            * quarter_wave(90_000 - a) <= 1_000_002_000_000,
{
    reveal(quarter_wave);
    if a < 45_000 {
        lemma_tangent_of_half_grows(a, 45_000);
        lemma_circle_of_tangent(tangent_of_half(a));
    } else if a > 45_000 {
        lemma_tangent_of_half_grows(90_000 - a, 45_000);
        lemma_circle_of_tangent(tangent_of_half(90_000 - a));
    } else {
        lemma_quarter_wave_values();
        assert(707_107int * 707_107int == 500_000_309_449) by (nonlinear_arith);
    }
}

/// Sine and cosine lie in `[-UNIT, UNIT]`.
pub proof fn lemma_sin_cos_bounds(angle: int)
    ensures
        -1_000_000 <= spec_sin(angle) <= 1_000_000,
        -1_000_000 <= spec_cos(angle) <= 1_000_000,
{
    lemma_sine_is_quarter_wave(angle);
    lemma_sine_is_quarter_wave(angle + 90_000);
}

/// The sine of any direction is the quarter wave of an angle in the first
/// quarter turn, or its negative.
proof fn lemma_sine_is_quarter_wave(angle: int)
    ensures
        ({
            let h = spec_normalize(angle);
            let a = if h <= 90_000 {
                h
            } else if h <= 180_000 {
                180_000 - h
            } else if h <= 270_000 {
                h - 180_000
            } else {
                360_000 - h
            };
            &&& 0 <= a <= 90_000
            &&& 0 <= quarter_wave(a) <= 1_000_000
            &&& spec_sin(angle) == (if h <= 180_000 {
                quarter_wave(a)
            } else {
                -quarter_wave(a)
            })
        }),
{
    let h = spec_normalize(angle);
    let a = if h <= 90_000 {
        h
    } else if h <= 180_000 {
        180_000 - h
    } else if h <= 270_000 {
        h - 180_000
    } else {
        360_000 - h
    };
    lemma_quarter_wave_grows(a, a);
}

/// The sine is not negative in the half turn from 0, and not positive in the
/// other half.
pub proof fn lemma_sin_sign(angle: int)
    requires
        0 <= angle < 360_000,
    ensures
        angle <= 180_000 ==> spec_sin(angle) >= 0,
        angle >= 180_000 ==> spec_sin(angle) <= 0,
        spec_sin(0) == 0,
        spec_sin(180_000) == 0,
{
    lemma_sine_is_quarter_wave(angle);
    lemma_quarter_wave_values();
}

/// Mirroring a direction in the x axis negates its sine and keeps its
/// cosine.
pub proof fn lemma_mirror_in_x_axis(angle: int)
    requires
        0 <= angle < 360_000,
    ensures
        spec_sin(spec_normalize(360_000 - angle)) == -spec_sin(angle),
        spec_cos(spec_normalize(360_000 - angle)) == spec_cos(angle),
{
    lemma_quarter_wave_values();
}

/// Mirroring a direction in the y axis negates its cosine and keeps its
/// sine.
pub proof fn lemma_mirror_in_y_axis(angle: int)
    requires
        0 <= angle < 360_000,
    ensures
        spec_sin(spec_normalize(180_000 - angle)) == spec_sin(angle),
        spec_cos(spec_normalize(180_000 - angle)) == -spec_cos(angle),
{
    lemma_quarter_wave_values();
}

/// Half a turn on, sine and cosine are negated.
pub proof fn lemma_half_turn_on(angle: int)
    ensures
        spec_sin(angle + 180_000) == -spec_sin(angle),
        spec_cos(angle + 180_000) == -spec_cos(angle),
{
    lemma_quarter_wave_values();
}

/// A projection is no larger than the speed, and has the sign of `t` or is
/// zero.
pub proof fn lemma_project_bounds(speed: int, t: int)
    requires
        0 <= speed,
        -1_000_000 <= t <= 1_000_000,
    ensures
        -speed <= project(speed, t) <= speed,
        t >= 0 ==> project(speed, t) >= 0,
        t <= 0 ==> project(speed, t) <= 0,
        project(speed, -t) == -project(speed, t),
        project(speed, 1_000_000) == speed,
        project(speed, 0) == 0,
{
    assert(-speed * 1_000_000 <= speed * t <= speed * 1_000_000) by (nonlinear_arith)
        requires
            0 <= speed,
            -1_000_000 <= t <= 1_000_000,
    ;
    assert(speed * (-t) == -(speed * t)) by (nonlinear_arith);
    assert(t >= 0 ==> speed * t >= 0) by (nonlinear_arith)
        requires
            0 <= speed,
    ;
    assert(t <= 0 ==> speed * t <= 0) by (nonlinear_arith)
        requires
            0 <= speed,
    ;
    assert(speed * 0 == 0) by (nonlinear_arith);
    lemma_trunc_div_bounds(speed * t, 1_000_000);
    crate::fixed::lemma_trunc_div_monotone(speed * t, speed * 1_000_000, 1_000_000);
    crate::fixed::lemma_trunc_div_monotone(-speed * 1_000_000, speed * t, 1_000_000);
    vstd::arithmetic::div_mod::lemma_div_multiples_vanish(speed, 1_000_000);
    assert(speed * 1_000_000 == 1_000_000 * speed);
    assert(-speed * 1_000_000 == -(1_000_000 * speed));
}

/// Sine and cosine on the axes, on the diagonals and at the thirds of a
/// right angle. On the diagonals both have the magnitude `707_107`, the
/// square root of a half, and at the thirds a half and `866_025`, half the
/// square root of three.
pub proof fn lemma_axes_and_diagonals()
    ensures
        spec_sin(0) == 0 && spec_cos(0) == 1_000_000,
        spec_sin(90_000) == 1_000_000 && spec_cos(90_000) == 0,
        spec_sin(180_000) == 0 && spec_cos(180_000) == -1_000_000,
        spec_sin(270_000) == -1_000_000 && spec_cos(270_000) == 0,
        spec_sin(45_000) == 707_107 && spec_cos(45_000) == 707_107,
        spec_sin(135_000) == 707_107 && spec_cos(135_000) == -707_107,
        spec_sin(225_000) == -707_107 && spec_cos(225_000) == -707_107,
        spec_sin(315_000) == -707_107 && spec_cos(315_000) == 707_107,
        spec_sin(30_000) == 500_000 && spec_cos(30_000) == 866_025,
        spec_sin(60_000) == 866_025 && spec_cos(60_000) == 500_000,
        spec_sin(120_000) == 866_025 && spec_cos(120_000) == -500_000,
        spec_sin(240_000) == -866_025 && spec_cos(240_000) == -500_000,
        spec_sin(300_000) == -866_025 && spec_cos(300_000) == 500_000,
{
    lemma_quarter_wave_values();
}

/// Within sixty degrees of the x axis the cosine is at least a half in
/// magnitude: positive about the positive axis, negative about the negative
/// one.
pub proof fn lemma_cos_near_x_axis(angle: int)
    requires
        0 <= angle < 360_000,
    ensures
        angle <= 60_000 || angle >= 300_000 ==> spec_cos(angle) >= 500_000,
        120_000 <= angle <= 240_000 ==> spec_cos(angle) <= -500_000,
{
    lemma_quarter_wave_values();
    if angle <= 60_000 {
        lemma_quarter_wave_grows(30_000, 90_000 - angle);
    } else if angle >= 300_000 {
        lemma_quarter_wave_grows(30_000, angle - 270_000);
    } else if 120_000 <= angle <= 180_000 {
        lemma_quarter_wave_grows(30_000, angle - 90_000);
    } else if 180_000 < angle <= 240_000 {
        lemma_quarter_wave_grows(30_000, 270_000 - angle);
    }
}

/// Sine and cosine lie on the unit circle to within the rounding: their
/// squares add up to the square of `UNIT`, give or take twice `UNIT`.
pub proof fn lemma_unit_circle(angle: int)
    ensures
        999_998_000_000 <= spec_sin(angle) * spec_sin(angle) + spec_cos(angle) * spec_cos(angle)
            <= 1_000_002_000_000,
{
    let h = spec_normalize(angle);
    let a = if h <= 90_000 {
        h
    } else if h <= 180_000 {
        180_000 - h
    } else if h <= 270_000 {
        h - 180_000
    } else {
        360_000 - h
    };
    lemma_quarter_circle(a);
    lemma_sine_is_quarter_wave(angle);
    lemma_sine_is_quarter_wave(angle + 90_000);
    vstd::arithmetic::div_mod::lemma_add_mod_noop(angle, 90_000, 360_000);
    let s = spec_sin(angle);
    let c = spec_cos(angle);
    let f = quarter_wave(a);
    let g = quarter_wave(90_000 - a);
    assert(s == f || s == -f);
    assert(c == g || c == -g);
    assert((-f) * (-f) == f * f) by (nonlinear_arith);
    assert((-g) * (-g) == g * g) by (nonlinear_arith);
}

/// A projection falls short of `speed * t / UNIT` by less than one: the
/// square of `speed * t` lies between the squares of the projection and of
/// the projection's magnitude and one, each times the square of `UNIT`.
pub proof fn lemma_project_square(speed: int, t: int)
    requires
        0 <= speed,
    ensures
        ({
            let v = project(speed, t);
            let a = if v < 0 {
                -v
            } else {
                v
            };
            1_000_000_000_000 * (v * v) <= (speed * speed) * (t * t) <= 1_000_000_000_000 * ((a
                + 1) * (a + 1))
        }),
{
    let v = project(speed, t);
    let a = if v < 0 {
        -v
    } else {
        v
    };
    let r = if t < 0 {
        -t
    } else {
        t
    };
    let k = speed * r;
    assert(k >= 0 && (speed * t == k || speed * t == -k)) by (nonlinear_arith)
        requires
            k == speed * r,
            0 <= speed,
            0 <= r,
            r == t || r == -t,
    ;
    vstd::arithmetic::div_mod::lemma_fundamental_div_mod(k, 1_000_000);
    vstd::arithmetic::div_mod::lemma_mod_bound(k, 1_000_000);
    vstd::arithmetic::div_mod::lemma_div_pos_is_pos(k, 1_000_000);
    assert(a == k / 1_000_000);
    let lo = 1_000_000 * a;
    let hi = 1_000_000 * (a + 1);
    assert(lo * lo <= k * k <= hi * hi) by (nonlinear_arith)
        requires
            0 <= lo <= k <= hi,
    ;
    assert(k * k == (speed * speed) * (t * t)) by (nonlinear_arith)
        requires
            k == speed * r,
            r == t || r == -t,
    ;
    assert(lo * lo == 1_000_000_000_000 * (v * v) && hi * hi == 1_000_000_000_000 * ((a + 1) * (a
        + 1))) by (nonlinear_arith)
        requires
            lo == 1_000_000 * a,
            hi == 1_000_000 * (a + 1),
            a == v || a == -v,
    ;
}

/// Brings any angle into `[0, FULL_TURN)`.
pub fn normalize(angle: i128) -> (r: i32)
    ensures
        r == spec_normalize(angle as int),
        0 <= r < FULL_TURN,
{
    let m: i128 = angle % 360_000;
    if m < 0 {
        (m + 360_000) as i32
    } else {
        m as i32
    }
}


/// The tangent of `x`, both scaled by `FINE`, for `x` up to half of an
/// eighth of a turn.
fn tangent_of(x: u128) -> (t: u128)
    requires
        x <= 392_699_081_698,
    ensures
        t == tangent(x as int),
        t <= 414_213_562_292,
{
    proof {
        reveal(tangent);
        lemma_tangent_values();
        lemma_tangent_grows(x as int, 392_699_081_698);
        assert(x * x <= 392_699_081_698 * 392_699_081_698) by (nonlinear_arith)
            requires
                0 <= x <= 392_699_081_698,
        ;
    }
    let y: u128 = x * x / FINE;
    let h: u128 = series_sum(3_592_128_036, y, 1_455_834_387);
    let h: u128 = series_sum(8_863_235_529, y, h);
    let h: u128 = series_sum(21_869_488_536, y, h);
    let h: u128 = series_sum(53_968_253_968, y, h);
    let h: u128 = series_sum(133_333_333_333, y, h);
    let h: u128 = series_sum(333_333_333_333, y, h);
    let h: u128 = series_sum(1_000_000_000_000, y, h);
    assert(x * h <= 392_699_081_698 * 2_000_000_000_000) by (nonlinear_arith)
        requires
            0 <= x <= 392_699_081_698,
            0 <= h <= 2_000_000_000_000,
    ;
    x * h / FINE
}

/// One step of the series: see `series_step`.
fn series_sum(c: u128, y: u128, h: u128) -> (r: u128)
    requires
        c <= 1_000_000_000_000,
        y <= 200_000_000_000,
        h <= 2_000_000_000_000,
    ensures
        r == series_step(c as int, y as int, h as int),
        r <= c + 2 * y,
{
    assert(y * h <= y * 2_000_000_000_000) by (nonlinear_arith)
        requires
            0 <= y,
            0 <= h <= 2_000_000_000_000,
    ;
    proof {
        vstd::arithmetic::div_mod::lemma_div_is_ordered(
            (y * h) as int,
            y * 2_000_000_000_000,
            1_000_000_000_000,
        );
    }
    c + y * h / FINE
}

/// The sine on the first quarter turn, scaled by `UNIT`.
fn quarter(a: i32) -> (r: i64)
    requires
        0 <= a <= 90_000,
    ensures
        r == quarter_wave(a as int),
        0 <= r <= UNIT,
{
    proof {
        reveal(quarter_wave);
        lemma_quarter_wave_grows(a as int, a as int);
        lemma_tangent_values();
    }
    let within: bool = a <= 45_000;
    let b: u128 = if within {
        a as u128
    } else {
        (90_000 - a) as u128
    };
    proof {
        lemma_tangent_of_half_grows(b as int, 45_000);
        vstd::arithmetic::div_mod::lemma_div_is_ordered(
            b * 3_141_592_653_589_793,
            45_000int * 3_141_592_653_589_793,
            360_000_000,
        );
    }
    let t: u128 = tangent_of(b * 3_141_592_653_589_793 / 360_000_000);
    assert(t * t <= 414_213_562_292 * 414_213_562_292) by (nonlinear_arith)
        requires
            0 <= t <= 414_213_562_292,
    ;
    let d: u128 = FINE * FINE + t * t;
    let n: u128 = if within {
        2_000_000_000_000_000_000 * t
    } else {
        1_000_000 * (FINE * FINE - t * t)
    };
    let r: u128 = (2 * n + d) / (2 * d);
    r as i64
}

/// The sine of a direction, scaled by `UNIT`.
pub fn sin(angle: i32) -> (r: i64)
    ensures
        r == spec_sin(angle as int),
        -UNIT <= r <= UNIT,
{
    let h: i32 = normalize(angle as i128);
    if h <= 90_000 {
        quarter(h)
    } else if h <= 180_000 {
        quarter(180_000 - h)
    } else if h <= 270_000 {
        -quarter(h - 180_000)
    } else {
        -quarter(360_000 - h)
    }
}

/// The cosine of a direction, scaled by `UNIT`.
pub fn cos(angle: i32) -> (r: i64)
    ensures
        r == spec_cos(angle as int),
        -UNIT <= r <= UNIT,
{
    let shifted: i32 = normalize(angle as i128 + 90_000);
    assert(spec_sin(shifted as int) == spec_sin(angle + 90_000));
    sin(shifted)
}

} // verus!
