//! The ball: where it is, how fast and which way it flies, and how many
//! strikes the current rally has seen.

use vstd::prelude::*;
use vstd::arithmetic::power::pow;
use rand::Rng;
use crate::fixed::{trunc_div, lemma_trunc_div_bounds, lemma_trunc_div_monotone, div_toward_zero};
use crate::fixed::{clamp, clamp_to};
use crate::trig::{spec_sin, spec_cos, project, spec_normalize, normalize, FULL_TURN, HALF_TURN};
use crate::trig::{lemma_sin_cos_bounds, lemma_project_bounds, lemma_axes_and_diagonals};
use crate::{Position, Velocity, SCREEN_WIDTH, SCREEN_HEIGHT, COORD_MAX};

verus! {

/// Radius of the ball of a standard match.
pub const RADIUS: i64 = 6_000;

/// What a served ball covers per second along each axis.
pub const BALL_SPEED: i64 = 360_000;

/// Speed of a served ball along its diagonal: `BALL_SPEED` times the square
/// root of two, so that its part along each axis is `BALL_SPEED`.
pub const SERVE_SPEED: i64 = 509_117;

/// The rally counter stops here, which bounds the speed-up.
pub const MAX_RALLY: i32 = 44;

/// Largest speed a ball may have.
pub const MAX_SPEED: i64 = 1_000_000_000;

/// How often the speed-up has stepped after `rally` strikes: once for every
/// two strikes.
pub open spec fn rally_exponent(rally: int) -> nat {
    (rally / 2) as nat
}

/// Numerator of the factor by which a time step is stretched after `rally`
/// strikes: the factor is `(11/10)^(rally / 2)`.
pub open spec fn multiplier_num(rally: int) -> int {
    pow(11, rally_exponent(rally))
}

/// Denominator of the same factor.
pub open spec fn multiplier_den(rally: int) -> int {
    pow(10, rally_exponent(rally))
}

/// How far something moving at `v` per second gets in `dt` microseconds
/// stretched by the rally's factor, rounded toward zero.
pub open spec fn travel(v: int, dt: int, rally: int) -> int {
    trunc_div(v * dt * multiplier_num(rally), multiplier_den(rally) * 1_000_000)
}

/// The twenty-second powers of eleven and ten, to which the factor is
/// bounded.
pub proof fn lemma_top_powers()
    ensures
        pow(11, 22) == 81_402_749_386_839_761_113_321,
        pow(10, 22) == 10_000_000_000_000_000_000_000,
{
    reveal_with_fuel(pow, 23);
}

/// Ten to a power is positive and no larger than eleven to the same power.
pub proof fn lemma_ten_below_eleven(e: nat)
    ensures
        0 < pow(10, e) <= pow(11, e),
    decreases e,
{
    reveal_with_fuel(pow, 2);
    if e > 0 {
        lemma_ten_below_eleven((e - 1) as nat);
        let a = pow(10, (e - 1) as nat);
        let b = pow(11, (e - 1) as nat);
        assert(10 * a <= 11 * b);
    }
}

/// The factor `(11/10)^(rally / 2)` does not fall as the rally grows: for
/// `r1 <= r2` the factor after `r1` strikes is at most the one after `r2`.
pub proof fn lemma_multiplier_monotone(r1: int, r2: int)
    requires
        0 <= r1 <= r2,
    ensures
        multiplier_num(r1) * multiplier_den(r2) <= multiplier_num(r2) * multiplier_den(r1),
        multiplier_den(r1) > 0,
        multiplier_den(r2) > 0,
{
    let k1 = rally_exponent(r1);
    let k2 = rally_exponent(r2);
    let j = (k2 - k1) as nat;
    vstd::arithmetic::power::lemma_pow_adds(11, k1, j);
    vstd::arithmetic::power::lemma_pow_adds(10, k1, j);
    lemma_ten_below_eleven(k1);
    lemma_ten_below_eleven(k2);
    lemma_ten_below_eleven(j);
    let a = pow(11, k1);
    let b = pow(10, k1);
    let c = pow(11, j);
    let d = pow(10, j);
    assert(a * (b * d) <= (a * c) * b) by (nonlinear_arith)
        requires
            0 < b <= a,
            0 < d <= c,
    ;
}

/// While the rally is within its bound the factor is at least one and below
/// nine.
pub proof fn lemma_multiplier_bounds(rally: int)
    requires
        0 <= rally <= 44,
    ensures
        0 < multiplier_den(rally) <= multiplier_num(rally),
        multiplier_num(rally) <= 81_402_749_386_839_761_113_321,
        multiplier_den(rally) <= 10_000_000_000_000_000_000_000,
        multiplier_num(rally) < 9 * multiplier_den(rally),
{
    let k = rally_exponent(rally);
    lemma_top_powers();
    lemma_ten_below_eleven(k);
    vstd::arithmetic::power::lemma_pow_increases(11, k, 22);
    vstd::arithmetic::power::lemma_pow_increases(10, k, 22);
    lemma_multiplier_monotone(rally, 44);
    let n = multiplier_num(rally);
    let d = multiplier_den(rally);
    assert(n < 9 * d) by (nonlinear_arith)
        requires
            0 < d,
            0 < n,
            n * 10_000_000_000_000_000_000_000 <= 81_402_749_386_839_761_113_321 * d,
    ;
}

/// `travel` is the speed times the time times the factor, rounded down: for
/// a speed that is not negative, `travel * (den * 1_000_000)` is at most
/// `v * dt * num` and falls short of it by less than `den * 1_000_000`.
pub proof fn lemma_travel_rounds_down(v: int, dt: int, rally: int)
    requires
        0 <= v,
        0 <= dt,
        0 <= rally,
    ensures
        ({
            let exact = v * dt * multiplier_num(rally);
            let one = multiplier_den(rally) * 1_000_000;
            &&& one > 0
            &&& travel(v, dt, rally) * one <= exact < (travel(v, dt, rally) + 1) * one
        }),
{
    let k = rally_exponent(rally);
    lemma_ten_below_eleven(k);
    let n = multiplier_num(rally);
    let exact = v * dt * n;
    let one = multiplier_den(rally) * 1_000_000;
    assert(exact >= 0) by (nonlinear_arith)
        requires
            exact == v * dt * n,
            v >= 0,
            dt >= 0,
            n > 0,
    ;
    vstd::arithmetic::div_mod::lemma_fundamental_div_mod(exact, one);
    vstd::arithmetic::div_mod::lemma_mod_bound(exact, one);
    let q = exact / one;
    assert(one * q == q * one) by (nonlinear_arith);
    assert((q + 1) * one == q * one + one) by (nonlinear_arith);
}

/// The factor by which a time step is stretched after `rally` strikes, as
/// numerator and denominator: `(11/10)^(rally / 2)` exactly.
pub fn multiplier(rally: i32) -> (m: (u128, u128))
    requires
        0 <= rally <= MAX_RALLY,
    ensures
        m.0 == multiplier_num(rally as int),
        m.1 == multiplier_den(rally as int),
{
    let k: i32 = rally / 2;
    let mut num: u128 = 1;
    let mut den: u128 = 1;
    let mut i: i32 = 0;
    proof {
        reveal_with_fuel(pow, 1);
    }
    while i < k
        invariant
            0 <= i <= k <= 22,
            num == pow(11, i as nat),
            den == pow(10, i as nat),
        decreases k - i,
    {
        proof {
            lemma_top_powers();
            vstd::arithmetic::power::lemma_pow_increases(11, (i + 1) as nat, 22);
            vstd::arithmetic::power::lemma_pow_increases(10, (i + 1) as nat, 22);
            reveal_with_fuel(pow, 2);
        }
        num = num * 11;
        den = den * 10;
        i = i + 1;
    }
    (num, den)
}

/// In a step of at most `secs` seconds nothing gets farther than nine
/// times `secs` times its speed. `travel` keeps the sign of the speed and
/// is odd in it.
pub proof fn lemma_travel_bounds(v: int, dt: int, rally: int, secs: int)
    requires
        0 <= dt <= secs * 1_000_000,
        0 <= rally <= 44,
    ensures
        v >= 0 ==> 0 <= travel(v, dt, rally) <= 9 * secs * v,
        v <= 0 ==> 9 * secs * v <= travel(v, dt, rally) <= 0,
        travel(-v, dt, rally) == -travel(v, dt, rally),
        travel(0, dt, rally) == 0,
        dt == 0 ==> travel(v, dt, rally) == 0,
{
    lemma_multiplier_bounds(rally);
    let n = multiplier_num(rally);
    let d = multiplier_den(rally);
    let big = d * 1_000_000;
    assert((-v) * dt * n == -(v * dt * n)) by (nonlinear_arith);
    assert(0 * dt * n == 0) by (nonlinear_arith);
    assert(v * 0 * n == 0) by (nonlinear_arith);
    lemma_trunc_div_bounds(v * dt * n, big);
    let m: int = if v >= 0 {
        v
    } else {
        -v
    };
    let top = 9 * secs * m;
    assert(0 <= m * dt <= m * (secs * 1_000_000)) by (nonlinear_arith)
        requires
            0 <= m,
            0 <= dt <= secs * 1_000_000,
    ;
    assert(0 <= (m * dt) * n <= (m * (secs * 1_000_000)) * (9 * d)) by (nonlinear_arith)
        requires
            0 <= m * dt <= m * (secs * 1_000_000),
            0 < n < 9 * d,
    ;
    assert((m * (secs * 1_000_000)) * (9 * d) == big * top) by (nonlinear_arith)
        requires
            big == d * 1_000_000,
            top == 9 * secs * m,
    ;
    lemma_trunc_div_monotone(m * dt * n, big * top, big);
    assert(top >= 0) by (nonlinear_arith)
        requires
            top == 9 * secs * m,
            m >= 0,
            secs >= 0,
    ;
    vstd::arithmetic::div_mod::lemma_div_multiples_vanish(top, big);
    if v < 0 {
        assert(m * dt * n == -(v * dt * n)) by (nonlinear_arith)
            requires
                m == -v,
        ;
        assert(9 * secs * v == -top) by (nonlinear_arith)
            requires
                top == 9 * secs * m,
                m == -v,
        ;
    }
    assert(9 * secs * 0 == 0) by (nonlinear_arith);
}

/// The same step gets a ball at least as far after a longer rally: for
/// `r1 <= r2` and a speed that is not negative, the way covered after `r1`
/// strikes is at most the way covered after `r2`.
pub proof fn lemma_travel_grows_with_rally(v: int, dt: int, r1: int, r2: int)
    requires
        0 <= v,
        0 <= dt,
        0 <= r1 <= r2,
    ensures
        travel(v, dt, r1) <= travel(v, dt, r2),
{
    lemma_multiplier_monotone(r1, r2);
    lemma_travel_rounds_down(v, dt, r1);
    lemma_travel_rounds_down(v, dt, r2);
    lemma_ten_below_eleven(rally_exponent(r1));
    lemma_ten_below_eleven(rally_exponent(r2));
    let n1 = multiplier_num(r1);
    let d1 = multiplier_den(r1);
    let n2 = multiplier_num(r2);
    let d2 = multiplier_den(r2);
    let q1 = travel(v, dt, r1);
    let q2 = travel(v, dt, r2);
    let x = v * dt;
    assert(x >= 0) by (nonlinear_arith)
        requires
            x == v * dt,
            v >= 0,
            dt >= 0,
    ;
    if q1 > q2 {
        assert(false) by (nonlinear_arith)
            requires
                q1 >= q2 + 1,
                x >= 0,
                0 < d1,
                0 < d2,
                n1 * d2 <= n2 * d1,
                q1 * (d1 * 1_000_000) <= x * n1,
                x * n2 < (q2 + 1) * (d2 * 1_000_000),
        {
            assert(q1 * (d1 * 1_000_000) * d2 <= x * n1 * d2);
            assert(x * (n1 * d2) <= x * (n2 * d1));
            assert(x * n2 * d1 < (q2 + 1) * (d2 * 1_000_000) * d1);
            assert((q2 + 1) * (d2 * 1_000_000) * d1 <= q1 * (d2 * 1_000_000) * d1);
        }
    }
}

/// However long the rally, a step stretches the way by no more than
/// `(11/10)^22`, the factor at `MAX_RALLY`.
pub proof fn lemma_travel_cap(v: int, dt: int, rally: int)
    requires
        0 <= v,
        0 <= dt,
        0 <= rally <= 44,
    ensures
        travel(v, dt, rally) <= travel(v, dt, 44),
        travel(v, dt, 44) * 10_000_000_000_000_000_000_000_000_000 <= v * dt
            * 81_402_749_386_839_761_113_321,
{
    lemma_travel_grows_with_rally(v, dt, rally, 44);
    lemma_travel_rounds_down(v, dt, 44);
    lemma_top_powers();
}

/// Farthest that `travelled` gets: nine times `MAX_SPEED` for each of the
/// seconds that a step can last.
pub const TRAVEL_MAX: i64 = 38_655_000_000_000;

/// How far something moving at `v` per second gets in `dt` microseconds
/// after `rally` strikes.
pub fn travelled(v: i64, dt: u32, rally: i32) -> (r: i64)
    requires
        -MAX_SPEED <= v <= MAX_SPEED,
        0 <= rally <= MAX_RALLY,
    ensures
        r == travel(v as int, dt as int, rally as int),
        -TRAVEL_MAX <= r <= TRAVEL_MAX,
{
    let (num, den) = multiplier(rally);
    let mag: u128 = if v >= 0 {
        v as u128
    } else {
        (-v) as u128
    };
    proof {
        lemma_multiplier_bounds(rally as int);
        lemma_travel_bounds(v as int, dt as int, rally as int, 4_295);
        lemma_travel_bounds(mag as int, dt as int, rally as int, 4_295);
        assert(0 <= mag * dt <= 1_000_000_000 * 4_294_967_295) by (nonlinear_arith)
            requires
                0 <= mag <= 1_000_000_000,
                0 <= dt <= 4_294_967_295,
        ;
    }
    // The product of speed, time and numerator does not fit 128 bits, so it
    // is divided in two parts: span == high * 2^32 + low.
    let span: u128 = mag * (dt as u128);
    let high: u128 = span / 4_294_967_296;
    let low: u128 = span % 4_294_967_296;
    let d: u128 = den * 1_000_000;
    proof {
        assert(0 <= high * num <= 1_000_000_000 * 81_402_749_386_839_761_113_321)
            by (nonlinear_arith)
            requires
                0 <= high <= 1_000_000_000,
                0 <= num <= 81_402_749_386_839_761_113_321,
        ;
        assert(0 <= low * num <= 4_294_967_296 * 81_402_749_386_839_761_113_321)
            by (nonlinear_arith)
            requires
                0 <= low <= 4_294_967_296,
                0 <= num <= 81_402_749_386_839_761_113_321,
        ;
    }
    let upper: u128 = high * num;
    let q1: u128 = upper / d;
    let r1: u128 = upper % d;
    proof {
        vstd::arithmetic::div_mod::lemma_div_is_ordered_by_denominator(
            upper as int,
            1_000_000,
            d as int,
        );
    }
    let rest: u128 = r1 * 4_294_967_296 + low * num;
    let q: u128 = q1 * 4_294_967_296 + rest / d;
    proof {
        let whole = (mag * dt) * num;
        let qi = q1 * 4_294_967_296 + rest / d;
        vstd::arithmetic::div_mod::lemma_fundamental_div_mod(upper as int, d as int);
        vstd::arithmetic::div_mod::lemma_fundamental_div_mod(rest as int, d as int);
        assert(whole == qi * d + rest % d) by (nonlinear_arith)
            requires
                whole == span * num,
                span == high * 4_294_967_296 + low,
                upper == high * num,
                upper == d * q1 + r1,
                rest == r1 * 4_294_967_296 + low * num,
                rest == d * (rest / d) + rest % d,
                qi == q1 * 4_294_967_296 + rest / d,
        ;
        vstd::arithmetic::div_mod::lemma_fundamental_div_mod_converse(
            whole,
            d as int,
            qi,
            (rest % d) as int,
        );
        assert(whole >= 0);
        assert(q == travel(mag as int, dt as int, rally as int));
    }
    if v >= 0 {
        q as i64
    } else {
        -(q as i64)
    }
}

/// A sound that the host is asked to play.
#[derive(Clone, Copy, Debug, PartialEq, Eq, Structural)]
pub enum Sound {
    /// The ball met the top or the bottom wall.
    Table,
    /// The left paddle struck the ball.
    Ping,
    /// The right paddle struck the ball.
    Pong,
}

/// What one step of the ball brought: the points scored, and whether a wall
/// was met.
#[derive(Clone, Copy, Debug, PartialEq, Eq, Structural)]
pub struct Outcome {
    /// Points for the left player: 1 when the ball left by the right edge.
    pub left: i32,
    /// Points for the right player: 1 when the ball left by the left edge.
    pub right: i32,
    /// The ball bounced off a wall: the host plays `Sound::Table`.
    pub wall_hit: bool,
}

/// The direction of a serve: along a diagonal, toward the right or the left
/// edge and toward the bottom or the top wall.
pub open spec fn serve_heading(toward_right: bool, toward_bottom: bool) -> int {
    if toward_right {
        if toward_bottom {
            45_000
        } else {
            315_000
        }
    } else {
        if toward_bottom {
            135_000
        } else {
            225_000
        }
    }
}

/// `heading` turned so that it does not point toward the top wall: mirrored
/// in the x axis where its y part is negative.
pub open spec fn away_from_top(heading: int) -> int {
    if heading > 180_000 {
        360_000 - heading
    } else {
        heading
    }
}

/// `heading` turned so that it does not point toward the bottom wall.
pub open spec fn away_from_bottom(heading: int) -> int {
    if 0 < heading < 180_000 {
        360_000 - heading
    } else {
        heading
    }
}

/// The turn that a strike adds, in thousandths of a degree: nothing within a
/// quarter of the paddle's length of its centre, and beyond that a quarter
/// turn for each whole length between the paddle's centre and the contact.
pub open spec fn deflection(dy: int, length: int) -> int {
    if 4 * dy <= length && -4 * dy <= length {
        0
    } else {
        trunc_div(90_000 * dy, length)
    }
}

/// The direction of a ball that came in along `heading` and was turned back:
/// `heading` mirrored in the y axis.
pub open spec fn turned_back(heading: int) -> int {
    spec_normalize(180_000 - heading)
}

/// `angle` kept away from the vertical. A left paddle sends the ball within
/// sixty degrees of the positive x axis, a right paddle within sixty degrees
/// of the negative one; an angle beyond goes to the nearer bound.
pub open spec fn limit(angle: int, is_left: bool) -> int {
    if is_left {
        if 60_000 < angle <= 180_000 {
            60_000
        } else if 180_000 < angle <= 300_000 {
            300_000
        } else {
            angle
        }
    } else {
        if angle < 120_000 {
            120_000
        } else if angle > 240_000 {
            240_000
        } else {
            angle
        }
    }
}

/// The direction in which a ball leaves a paddle: turned back, deflected by
/// where it met the paddle, brought into `[0, FULL_TURN)` and kept away from
/// the vertical.
pub open spec fn reflect(heading: int, dy: int, length: int, is_left: bool) -> int {
    limit(spec_normalize(turned_back(heading) + deflection(dy, length)), is_left)
}

/// A ball never leaves a left paddle at an angle strictly between sixty and
/// three hundred degrees, and always leaves a right paddle between a hundred
/// and twenty and two hundred and forty degrees.
pub proof fn lemma_reflect_range(heading: int, dy: int, length: int, is_left: bool)
    ensures
        0 <= reflect(heading, dy, length, is_left) < 360_000,
        is_left ==> !(60_000 < reflect(heading, dy, length, is_left) < 300_000),
        !is_left ==> 120_000 <= reflect(heading, dy, length, is_left) <= 240_000,
{
}

/// Struck within the quarter of the paddle's length around its centre, and
/// away from the bounds, a ball is turned back and nothing more.
pub proof fn lemma_reflect_dead_zone(heading: int, dy: int, length: int, is_left: bool)
    requires
        4 * dy <= length,
        -4 * dy <= length,
    ensures
        reflect(heading, dy, length, is_left) == limit(turned_back(heading), is_left),
{
}

/// The direction in which a ball leaves a paddle, for an offset as wide as
/// the difference of any two heights.
fn reflect_wide(heading: i32, dy: i128, length: i64, is_left: bool) -> (r: i32)
    requires
        length > 0,
        -0x1_0000_0000_0000_0000 <= dy <= 0x1_0000_0000_0000_0000,
    ensures
        r == reflect(heading as int, dy as int, length as int, is_left),
{
    let len: i128 = length as i128;
    let offset: i128 = if 4 * dy <= len && 4 * dy >= -len {
        0
    } else {
        div_toward_zero(90_000 * dy, len)
    };
    proof {
        lemma_trunc_div_bounds(90_000 * dy, len as int);
    }
    let theta: i32 = normalize(HALF_TURN as i128 - heading as i128);
    let angle: i32 = normalize(theta as i128 + offset);
    if is_left {
        if 60_000 < angle && angle <= 180_000 {
            60_000
        } else if 180_000 < angle && angle <= 300_000 {
            300_000
        } else {
            angle
        }
    } else {
        if angle < 120_000 {
            120_000
        } else if angle > 240_000 {
            240_000
        } else {
            angle
        }
    }
}

/// The direction in which a ball leaves a paddle.
pub fn reflect_heading(heading: i32, dy: i64, length: i64, is_left: bool) -> (r: i32)
    requires
        length > 0,
    ensures
        r == reflect(heading as int, dy as int, length as int, is_left),
        0 <= r < FULL_TURN,
        is_left ==> !(60_000 < r < 300_000),
        !is_left ==> 120_000 <= r <= 240_000,
{
    reflect_wide(heading, dy as i128, length, is_left)
}

/// Draws a boolean with `rand::Rng::gen_ratio` on `rand::thread_rng()`. The
/// outcome is true with the chance `numerator / denominator`; of a single
/// draw only the two certain cases are promised, as the crate documents
/// them. The call panics on a zero denominator or a numerator above it,
/// which the precondition leaves out.
#[verifier::external_body]
pub(crate) fn random_ratio(numerator: u32, denominator: u32) -> (b: bool)
    requires
        denominator > 0,
        numerator <= denominator,
    ensures
        numerator == denominator ==> b,
        numerator == 0 ==> !b,
{
    rand::thread_rng().gen_ratio(numerator, denominator)
}

/// The ball. Its velocity is kept as a speed and a heading: a wall and a
/// paddle turn the ball and leave its speed exactly as it was. `velocity`
/// gives the parts of the velocity along the axes, each rounded toward
/// zero to a whole thousandth. `speed` is their magnitude to within that
/// rounding: exactly along an axis, and in every other direction to within
/// three thousandths of a court unit for any speed up to a thousand units
/// per second (`lemma_speed_is_magnitude`). A wall keeps the magnitude of
/// both parts exactly (`lemma_wall_keeps_speed`).
#[derive(Clone, Copy, Debug, PartialEq, Eq, Structural)]
pub struct Ball {
    /// Centre of the ball.
    pub pos: Position,
    /// Magnitude of the velocity, per second.
    pub speed: i64,
    /// Direction of the velocity, in `[0, FULL_TURN)`.
    pub heading: i32,
    /// Radius of the ball.
    pub radius: i64,
    /// Strikes since the last serve, at most `MAX_RALLY`.
    pub consecutive: i32,
}

impl Ball {
    /// The ball is one that the simulation can advance: it lies within the
    /// coordinate range, fits between the walls, and its speed, heading and
    /// rally counter are within their bounds.
    pub open spec fn wf(self) -> bool {
        &&& self.pos.in_range()
        &&& 0 < self.radius
        &&& 2 * self.radius <= SCREEN_HEIGHT
        &&& 0 <= self.speed <= MAX_SPEED
        &&& 0 <= self.heading < FULL_TURN
        &&& 0 <= self.consecutive <= MAX_RALLY
    }

    /// The x part of the velocity.
    pub open spec fn vx(self) -> int {
        project(self.speed as int, spec_cos(self.heading as int))
    }

    /// The y part of the velocity.
    pub open spec fn vy(self) -> int {
        project(self.speed as int, spec_sin(self.heading as int))
    }

    /// Where the ball gets in `dt` microseconds if nothing is in its way.
    pub open spec fn moved_x(self, dt: int) -> int {
        self.pos.x + travel(self.vx(), dt, self.consecutive as int)
    }

    /// Where the ball gets in `dt` microseconds if nothing is in its way.
    pub open spec fn moved_y(self, dt: int) -> int {
        self.pos.y + travel(self.vy(), dt, self.consecutive as int)
    }

    /// A ball of the standard radius as a match begins: served from the
    /// middle of the top wall.
    pub open spec fn serve_spec(toward_right: bool, toward_bottom: bool) -> Ball {
        Ball {
            pos: Position { x: (SCREEN_WIDTH / 2) as i64, y: 0 },
            speed: SERVE_SPEED,
            heading: serve_heading(toward_right, toward_bottom) as i32,
            radius: RADIUS,
            consecutive: 0,
        }
    }

    /// The ball as it is served: halfway between the edges and at the
    /// height at which it was, at serve speed along a diagonal, the rally
    /// counter at zero.
    pub open spec fn served(self, toward_right: bool, toward_bottom: bool) -> Ball {
        Ball {
            pos: Position { x: (SCREEN_WIDTH / 2) as i64, y: self.pos.y },
            speed: SERVE_SPEED,
            heading: serve_heading(toward_right, toward_bottom) as i32,
            radius: self.radius,
            consecutive: 0,
        }
    }

    /// The ball at the height `y`, or at the bound of the coordinate range
    /// that `y` lies beyond.
    pub open spec fn lifted(self, y: int) -> Ball {
        Ball {
            pos: Position {
                x: self.pos.x,
                y: clamp(y, -COORD_MAX as int, COORD_MAX as int) as i64,
            },
            ..self
        }
    }

    /// The ball after a step that took it to `(x, y)`, and what the step
    /// brought. An edge is looked at before a wall: a ball that left the
    /// court is not bounced, and is served from the height that the step
    /// took it to, be that beyond a wall.
    pub open spec fn settled(self, x: int, y: int, toward_right: bool, toward_bottom: bool) -> (
        Ball,
        Outcome,
    ) {
        if x <= 0 {
            (
                self.lifted(y).served(toward_right, toward_bottom),
                Outcome { left: 0, right: 1, wall_hit: false },
            )
        } else if x >= SCREEN_WIDTH {
            (
                self.lifted(y).served(toward_right, toward_bottom),
                Outcome { left: 1, right: 0, wall_hit: false },
            )
        } else if y <= self.radius {
            (
                Ball {
                    pos: Position { x: x as i64, y: self.radius },
                    heading: away_from_top(self.heading as int) as i32,
                    ..self
                },
                Outcome { left: 0, right: 0, wall_hit: true },
            )
        } else if y >= SCREEN_HEIGHT - self.radius {
            (
                Ball {
                    pos: Position { x: x as i64, y: (SCREEN_HEIGHT - self.radius) as i64 },
                    heading: away_from_bottom(self.heading as int) as i32,
                    ..self
                },
                Outcome { left: 0, right: 0, wall_hit: true },
            )
        } else {
            (
                Ball { pos: Position { x: x as i64, y: y as i64 }, ..self },
                Outcome { left: 0, right: 0, wall_hit: false },
            )
        }
    }

    /// Whether a step of `dt` microseconds ends at an edge or beyond it, so
    /// that a point is scored and the ball served anew.
    pub open spec fn leaves_court(self, dt: int) -> bool {
        self.moved_x(dt) <= 0 || self.moved_x(dt) >= SCREEN_WIDTH
    }

    /// The ball after a step of `dt` microseconds, and what the step
    /// brought. The two booleans are the direction of the serve that follows
    /// a point.
    pub open spec fn after_update(self, dt: int, toward_right: bool, toward_bottom: bool) -> (
        Ball,
        Outcome,
    ) {
        self.settled(self.moved_x(dt), self.moved_y(dt), toward_right, toward_bottom)
    }

    /// The ball after a paddle whose centre is at height `yp` struck it at
    /// `(x, y)`.
    pub open spec fn struck(self, x: int, y: int, yp: int, length: int, is_left: bool) -> Ball {
        Ball {
            pos: Position { x: x as i64, y: y as i64 },
            heading: reflect(self.heading as int, yp - y, length, is_left) as i32,
            consecutive: if self.consecutive < MAX_RALLY {
                (self.consecutive + 1) as i32
            } else {
                MAX_RALLY
            },
            ..self
        }
    }

    /// Whether the ball is well formed.
    pub fn is_valid(&self) -> (b: bool)
        ensures
            b == self.wf(),
    {
        -COORD_MAX <= self.pos.x && self.pos.x <= COORD_MAX && -COORD_MAX <= self.pos.y
            && self.pos.y <= COORD_MAX && 0 < self.radius && self.radius <= SCREEN_HEIGHT / 2
            && 0 <= self.speed && self.speed <= MAX_SPEED && 0 <= self.heading && self.heading
            < FULL_TURN && 0 <= self.consecutive && self.consecutive <= MAX_RALLY
    }

    /// A ball of the standard radius, served in the given direction.
    pub fn serve(toward_right: bool, toward_bottom: bool) -> (ball: Ball)
        ensures
            ball.wf(),
            ball == Ball::serve_spec(toward_right, toward_bottom),
    {
        let mut ball = Ball {
            pos: Position { x: 0, y: 0 },
            speed: 0,
            heading: 0,
            radius: RADIUS,
            consecutive: 0,
        };
        ball.init_with(toward_right, toward_bottom);
        ball
    }

    /// A ball of the standard radius, served in a direction drawn at random.
    pub fn new() -> (ball: Ball)
        ensures
            ball.wf(),
            exists|r: bool, b: bool| ball == Ball::serve_spec(r, b),
    {
        let toward_right = random_ratio(1, 2);
        let toward_bottom = random_ratio(1, 2);
        let ball = Ball::serve(toward_right, toward_bottom);
        assert(ball == Ball::serve_spec(toward_right, toward_bottom));
        ball
    }

    /// Serves the ball anew in the given direction. The ball keeps its
    /// height and its radius, and is well formed after the serve if they
    /// allow.
    pub fn init_with(&mut self, toward_right: bool, toward_bottom: bool)
        ensures
            *final(self) == old(self).served(toward_right, toward_bottom),
            final(self).wf() <==> -COORD_MAX <= old(self).pos.y <= COORD_MAX && 0 < old(self).radius
                && 2 * old(self).radius <= SCREEN_HEIGHT,
    {
        self.pos.x = SCREEN_WIDTH / 2;
        self.speed = SERVE_SPEED;
        self.heading = if toward_right {
            if toward_bottom {
                45_000
            } else {
                315_000
            }
        } else {
            if toward_bottom {
                135_000
            } else {
                225_000
            }
        };
        self.consecutive = 0;
    }

    /// Serves the ball anew in a direction drawn at random: each of the two
    /// signs of the velocity is drawn on its own, with even chances.
    pub fn init(&mut self)
        ensures
            exists|r: bool, b: bool| *final(self) == old(self).served(r, b),
            final(self).pos.x == SCREEN_WIDTH / 2,
            final(self).pos.y == old(self).pos.y,
            final(self).radius == old(self).radius,
            final(self).speed == SERVE_SPEED,
            final(self).consecutive == 0,
            final(self).wf() <==> -COORD_MAX <= old(self).pos.y <= COORD_MAX && 0 < old(self).radius
                && 2 * old(self).radius <= SCREEN_HEIGHT,
    {
        let toward_right = random_ratio(1, 2);
        let toward_bottom = random_ratio(1, 2);
        self.init_with(toward_right, toward_bottom);
        assert(*self == old(self).served(toward_right, toward_bottom));
    }

    /// The velocity of the ball.
    pub fn velocity(&self) -> (v: Velocity)
        requires
            self.wf(),
        ensures
            v.x == self.vx(),
            v.y == self.vy(),
            -self.speed <= v.x <= self.speed,
            -self.speed <= v.y <= self.speed,
    {
        let c: i64 = crate::trig::cos(self.heading);
        let s: i64 = crate::trig::sin(self.heading);
        proof {
            lemma_project_bounds(self.speed as int, c as int);
            lemma_project_bounds(self.speed as int, s as int);
            assert(-1_000_000_000_000_000 <= self.speed * c <= 1_000_000_000_000_000)
                by (nonlinear_arith)
                requires
                    0 <= self.speed <= 1_000_000_000,
                    -1_000_000 <= c <= 1_000_000,
            ;
            assert(-1_000_000_000_000_000 <= self.speed * s <= 1_000_000_000_000_000)
                by (nonlinear_arith)
                requires
                    0 <= self.speed <= 1_000_000_000,
                    -1_000_000 <= s <= 1_000_000,
            ;
        }
        let x: i128 = div_toward_zero((self.speed as i128) * (c as i128), 1_000_000);
        let y: i128 = div_toward_zero((self.speed as i128) * (s as i128), 1_000_000);
        Velocity { x: x as i64, y: y as i64 }
    }

    /// Whether a step of `dt` microseconds scores a point.
    pub fn scores(&self, dt: u32) -> (b: bool)
        requires
            self.wf(),
        ensures
            b == self.leaves_court(dt as int),
    {
        let v = self.velocity();
        let x: i64 = self.pos.x + travelled(v.x, dt, self.consecutive);
        x <= 0 || x >= SCREEN_WIDTH
    }

    /// Advances the ball by `dt` microseconds, stretched by the rally's
    /// factor. A ball that reaches the left edge gives the right player a
    /// point, one that reaches the right edge gives the left player a point,
    /// and either is served anew in the direction given, from the height
    /// that the step took it to, or from the bound of the coordinate range
    /// where that height lies beyond it. Otherwise a ball that reaches a
    /// wall is put on it and turned away from it.
    pub fn update_with(&mut self, dt: u32, toward_right: bool, toward_bottom: bool) -> (out:
        Outcome)
        requires
            old(self).wf(),
        ensures
            *final(self) == old(self).after_update(dt as int, toward_right, toward_bottom).0,
            out == old(self).after_update(dt as int, toward_right, toward_bottom).1,
            final(self).wf(),
            out.left + out.right == 0 ==> final(self).speed == old(self).speed,
            out.left + out.right == 0 ==> final(self).consecutive == old(self).consecutive,
    {
        let v = self.velocity();
        let x: i64 = self.pos.x + travelled(v.x, dt, self.consecutive);
        let y: i64 = self.pos.y + travelled(v.y, dt, self.consecutive);
        if x <= 0 {
            self.pos.y = clamp_to(y as i128, -COORD_MAX, COORD_MAX);
            self.init_with(toward_right, toward_bottom);
            return Outcome { left: 0, right: 1, wall_hit: false };
        }
        if x >= SCREEN_WIDTH {
            self.pos.y = clamp_to(y as i128, -COORD_MAX, COORD_MAX);
            self.init_with(toward_right, toward_bottom);
            return Outcome { left: 1, right: 0, wall_hit: false };
        }
        self.pos.x = x;
        if y <= self.radius {
            self.pos.y = self.radius;
            if self.heading > HALF_TURN {
                self.heading = FULL_TURN - self.heading;
            }
            Outcome { left: 0, right: 0, wall_hit: true }
        } else if y >= SCREEN_HEIGHT - self.radius {
            self.pos.y = SCREEN_HEIGHT - self.radius;
            if 0 < self.heading && self.heading < HALF_TURN {
                self.heading = FULL_TURN - self.heading;
            }
            Outcome { left: 0, right: 0, wall_hit: true }
        } else {
            self.pos.y = y;
            Outcome { left: 0, right: 0, wall_hit: false }
        }
    }

    /// Advances the ball by `dt` microseconds as `update_with` does. Where
    /// the step scores a point, the ball is served from the height that the
    /// step took it to, and the direction of the serve is drawn at random:
    /// each of the two signs of the velocity on its own, with even chances.
    pub fn update(&mut self, dt: u32) -> (out: Outcome)
        requires
            old(self).wf(),
        ensures
            exists|r: bool, b: bool|
                *final(self) == (#[trigger] old(self).after_update(dt as int, r, b)).0 && out == old(self).after_update(dt as int, r, b).1,
            out == old(self).after_update(dt as int, false, false).1,
            final(self).wf(),
            out.left + out.right == 0 ==> final(self).speed == old(self).speed,
            !old(self).leaves_court(dt as int) ==> *final(self) == old(self).after_update(
                dt as int,
                false,
                false,
            ).0,
            old(self).leaves_court(dt as int) ==> final(self).pos.x == SCREEN_WIDTH / 2
                && final(self).pos.y == clamp(
                old(self).moved_y(dt as int),
                -COORD_MAX as int,
                COORD_MAX as int,
            ) && final(self).radius == old(self).radius && final(self).speed == SERVE_SPEED
                && final(self).consecutive == 0,
    {
        let (toward_right, toward_bottom) = if self.scores(dt) {
            (random_ratio(1, 2), random_ratio(1, 2))
        } else {
            (false, false)
        };
        let out = self.update_with(dt, toward_right, toward_bottom);
        assert(*self == old(self).after_update(dt as int, toward_right, toward_bottom).0);
        out
    }

    /// A paddle whose centre is at height `yp` and whose length is `length`
    /// strikes the ball at `(x, y)`: the ball is put there, the rally grows
    /// by one up to `MAX_RALLY`, and the ball leaves in the direction that
    /// `reflect` gives, at the speed it came with: the stored speed stays,
    /// and the magnitude of the new velocity is that speed to within the
    /// rounding of its parts. The sound names the paddle. The ball is well
    /// formed after the strike if the place of the strike lies within the
    /// coordinate range.
    pub fn paddle_strike(&mut self, x: i64, y: i64, yp: i64, length: i64, is_left: bool) -> (sound:
        Sound)
        requires
            old(self).wf(),
            length > 0,
        ensures
            *final(self) == old(self).struck(x as int, y as int, yp as int, length as int, is_left),
            final(self).wf() <==> -COORD_MAX <= x <= COORD_MAX && -COORD_MAX <= y <= COORD_MAX,
            final(self).speed == old(self).speed,
            sound == (if is_left {
                Sound::Ping
            } else {
                Sound::Pong
            }),
            is_left ==> !(60_000 < final(self).heading < 300_000),
            !is_left ==> 120_000 <= final(self).heading <= 240_000,
            1_000_000 * (final(self).vx() * final(self).vx() + final(self).vy() * final(self).vy())
                <= 1_000_002 * (old(self).speed * old(self).speed),
            1_000_000 * ((magnitude(final(self).vx()) + 1) * (magnitude(final(self).vx()) + 1) + (
            magnitude(final(self).vy()) + 1) * (magnitude(final(self).vy()) + 1)) >= 999_998 * (
            old(self).speed * old(self).speed),
            old(self).speed <= 1_000_000 ==> final(self).vx() * final(self).vx() + final(self).vy()
                * final(self).vy() <= (old(self).speed + 1) * (old(self).speed + 1),
            3 <= old(self).speed <= 1_000_000 ==> final(self).vx() * final(self).vx()
                + final(self).vy() * final(self).vy() >= (old(self).speed - 3) * (old(self).speed
                - 3),
    {
        proof {
            lemma_strike_keeps_speed(*self, x as int, y as int, yp as int, length as int, is_left);
        }
        if self.consecutive < MAX_RALLY {
            self.consecutive = self.consecutive + 1;
        }
        self.pos.x = x;
        self.pos.y = y;
        self.heading = reflect_wide(self.heading, yp as i128 - y as i128, length, is_left);
        if is_left {
            Sound::Ping
        } else {
            Sound::Pong
        }
    }
}

/// A served ball covers `BALL_SPEED` per second along each axis, toward the
/// side and the wall that the serve names.
pub proof fn lemma_served_velocity(ball: Ball, toward_right: bool, toward_bottom: bool)
    ensures
        ball.served(toward_right, toward_bottom).vx() == (if toward_right {
            BALL_SPEED as int
        } else {
            -BALL_SPEED
        }),
        ball.served(toward_right, toward_bottom).vy() == (if toward_bottom {
            BALL_SPEED as int
        } else {
            -BALL_SPEED
        }),
{
    lemma_axes_and_diagonals();
    assert(509_117 * 707_107 == 360_000_194_519) by (nonlinear_arith);
    assert(509_117 * (-707_107) == -360_000_194_519) by (nonlinear_arith);
}

/// A wall changes the sign of the y part of the velocity at most: the speed
/// and the x part stay, and the y part keeps its magnitude and points away
/// from the wall.
pub proof fn lemma_wall_keeps_speed(ball: Ball)
    requires
        ball.wf(),
    ensures
        ({
            let top = Ball { heading: away_from_top(ball.heading as int) as i32, ..ball };
            &&& top.speed == ball.speed
            &&& top.vx() == ball.vx()
            &&& top.vy() == (if ball.vy() < 0 {
                -ball.vy()
            } else {
                ball.vy()
            })
        }),
        ({
            let bottom = Ball { heading: away_from_bottom(ball.heading as int) as i32, ..ball };
            &&& bottom.speed == ball.speed
            &&& bottom.vx() == ball.vx()
            &&& bottom.vy() == (if ball.vy() > 0 {
                -ball.vy()
            } else {
                ball.vy()
            })
        }),
{
    let h = ball.heading as int;
    let s = ball.speed as int;
    crate::trig::lemma_mirror_in_x_axis(h);
    crate::trig::lemma_sin_sign(h);
    lemma_sin_cos_bounds(h);
    lemma_project_bounds(s, spec_sin(h));
    lemma_project_bounds(s, spec_cos(h));
}

/// A step that ends at or beyond the left edge gives the right player one
/// point, and one that ends at or beyond the right edge gives the left
/// player one point. Either way the ball is back halfway between the edges,
/// at the height that the step took it to (or at the bound of the coordinate
/// range, if that height lies beyond it), with its radius, with the rally
/// counter at zero, and covers `BALL_SPEED` per second along each axis. A
/// step that ends between the edges scores nothing and keeps the speed and
/// the rally counter.
pub proof fn lemma_edges_score(ball: Ball, dt: int, toward_right: bool, toward_bottom: bool)
    requires
        ball.wf(),
    ensures
        ({
            let (after, out) = ball.after_update(dt, toward_right, toward_bottom);
            &&& ball.moved_x(dt) <= 0 ==> out.left == 0 && out.right == 1
            &&& ball.moved_x(dt) >= SCREEN_WIDTH ==> out.left == 1 && out.right == 0
            &&& 0 < ball.moved_x(dt) < SCREEN_WIDTH ==> out.left == 0 && out.right == 0
                && after.speed == ball.speed && after.consecutive == ball.consecutive
                && after.pos.x == ball.moved_x(dt)
            &&& out.left + out.right == 1 ==> after.pos.x == SCREEN_WIDTH / 2 && after.pos.y
                == clamp(ball.moved_y(dt), -COORD_MAX as int, COORD_MAX as int)
                && after.radius == ball.radius && after.consecutive == 0 && !out.wall_hit && (
            after.vx() == BALL_SPEED || after.vx() == -BALL_SPEED) && (after.vy() == BALL_SPEED
                || after.vy() == -BALL_SPEED)
            &&& out.left + out.right == 1 && -COORD_MAX <= ball.moved_y(dt) <= COORD_MAX
                ==> after.pos.y == ball.moved_y(dt)
        }),
{
    lemma_served_velocity(ball.lifted(ball.moved_y(dt)), toward_right, toward_bottom);
}

/// A strike changes the direction of the ball and not its speed. The
/// stored speed stays as it is; the parts of the velocity along the axes
/// never exceed it, and after the strike as before it their squares add up
/// to the square of the speed to within the rounding, as
/// `lemma_speed_is_magnitude` says.
pub proof fn lemma_strike_keeps_speed(ball: Ball, x: int, y: int, yp: int, length: int, is_left: bool)
    requires
        ball.wf(),
    ensures
        ball.struck(x, y, yp, length, is_left).speed == ball.speed,
        -ball.speed <= ball.struck(x, y, yp, length, is_left).vx() <= ball.speed,
        -ball.speed <= ball.struck(x, y, yp, length, is_left).vy() <= ball.speed,
        ({
            let after = ball.struck(x, y, yp, length, is_left);
            &&& 1_000_000 * (after.vx() * after.vx() + after.vy() * after.vy()) <= 1_000_002 * (
            ball.speed * ball.speed)
            &&& 1_000_000 * ((magnitude(after.vx()) + 1) * (magnitude(after.vx()) + 1) + (
            magnitude(after.vy()) + 1) * (magnitude(after.vy()) + 1)) >= 999_998 * (ball.speed
                * ball.speed)
            &&& ball.speed <= 1_000_000 ==> after.vx() * after.vx() + after.vy() * after.vy() <= (
            ball.speed + 1) * (ball.speed + 1)
            &&& 3 <= ball.speed <= 1_000_000 ==> after.vx() * after.vx() + after.vy() * after.vy()
                >= (ball.speed - 3) * (ball.speed - 3)
        }),
{
    let after = ball.struck(x, y, yp, length, is_left);
    lemma_speed_is_magnitude(after);
    lemma_sin_cos_bounds(after.heading as int);
    lemma_project_bounds(ball.speed as int, spec_cos(after.heading as int));
    lemma_project_bounds(ball.speed as int, spec_sin(after.heading as int));
}

/// The magnitude of a whole number.
pub open spec fn magnitude(v: int) -> int {
    if v < 0 {
        -v
    } else {
        v
    }
}

/// The stored speed is the magnitude of the velocity to within the
/// rounding. The squares of the parts along the axes add up to at most
/// 1.000002 times the square of the speed, and to at least 0.999998 times
/// it once each part is taken one thousandth longer. For a speed of up to a
/// thousand court units per second that is: the magnitude of the velocity
/// is at most one thousandth above the speed, and less than three below.
pub proof fn lemma_speed_is_magnitude(ball: Ball)
    requires
        0 <= ball.speed,
    ensures
        1_000_000 * (ball.vx() * ball.vx() + ball.vy() * ball.vy()) <= 1_000_002 * (ball.speed
            * ball.speed),
        1_000_000 * ((magnitude(ball.vx()) + 1) * (magnitude(ball.vx()) + 1) + (magnitude(
            ball.vy(),
        ) + 1) * (magnitude(ball.vy()) + 1)) >= 999_998 * (ball.speed * ball.speed),
        ball.speed <= 1_000_000 ==> ball.vx() * ball.vx() + ball.vy() * ball.vy() <= (ball.speed
            + 1) * (ball.speed + 1),
        3 <= ball.speed <= 1_000_000 ==> ball.vx() * ball.vx() + ball.vy() * ball.vy() >= (
        ball.speed - 3) * (ball.speed - 3),
{
    let h = ball.heading as int;
    let v = ball.speed as int;
    let s = spec_sin(h);
    let c = spec_cos(h);
    crate::trig::lemma_unit_circle(h);
    crate::trig::lemma_project_square(v, s);
    crate::trig::lemma_project_square(v, c);
    let x = magnitude(ball.vx());
    let y = magnitude(ball.vy());
    let low = x * x + y * y;
    let high = (x + 1) * (x + 1) + (y + 1) * (y + 1);
    let vv = v * v;
    let circle = s * s + c * c;
    assert(ball.vx() * ball.vx() == x * x && ball.vy() * ball.vy() == y * y) by (nonlinear_arith)
        requires
            x == ball.vx() || x == -ball.vx(),
            y == ball.vy() || y == -ball.vy(),
    ;
    assert(1_000_000_000_000 * low <= vv * circle <= 1_000_000_000_000 * high)
        by (nonlinear_arith)
        requires
            1_000_000_000_000 * (x * x) <= vv * (c * c) <= 1_000_000_000_000 * ((x + 1) * (x + 1)),
            1_000_000_000_000 * (y * y) <= vv * (s * s) <= 1_000_000_000_000 * ((y + 1) * (y + 1)),
            low == x * x + y * y,
            high == (x + 1) * (x + 1) + (y + 1) * (y + 1),
            circle == s * s + c * c,
    ;
    assert(vv >= 0) by (nonlinear_arith)
        requires
            vv == v * v,
    ;
    assert(vv * 999_998_000_000 <= vv * circle <= vv * 1_000_002_000_000) by (nonlinear_arith)
        requires
            vv >= 0,
            999_998_000_000 <= circle <= 1_000_002_000_000,
    ;
    if v <= 1_000_000 {
        assert(low <= (v + 1) * (v + 1)) by (nonlinear_arith)
            requires
                1_000_000 * low <= 1_000_002 * vv,
                vv == v * v,
                0 <= v <= 1_000_000,
        ;
        if v >= 3 && low < (v - 3) * (v - 3) {
            let m = v - 3;
            // The sum of the parts is below three halves of `m`, since its
            // square is at most twice the sum of the squares.
            assert(2 * (x + y) < 3 * m) by (nonlinear_arith)
                requires
                    0 <= x,
                    0 <= y,
                    0 <= m,
                    x * x + y * y < m * m,
            {
                assert((x - y) * (x - y) >= 0);
                assert((x + y) * (x + y) <= 2 * (x * x + y * y));
                assert(4 * ((x + y) * (x + y)) < 9 * (m * m));
            }
            assert(high == low + 2 * (x + y) + 2) by (nonlinear_arith)
                requires
                    low == x * x + y * y,
                    high == (x + 1) * (x + 1) + (y + 1) * (y + 1),
            ;
            assert(false) by (nonlinear_arith)
                requires
                    high < m * m + 3 * m + 2,
                    m == v - 3,
                    vv == v * v,
                    3 <= v <= 1_000_000,
                    1_000_000 * high >= 999_998 * vv,
            ;
        }
    }
}

/// A struck ball heads across the court: at least half of its speed is
/// along the x axis, away from the paddle that struck it.
pub proof fn lemma_strike_heads_across(
    ball: Ball,
    x: int,
    y: int,
    yp: int,
    length: int,
    is_left: bool,
)
    requires
        ball.wf(),
    ensures
        is_left ==> ball.struck(x, y, yp, length, is_left).vx() >= ball.speed / 2,
        !is_left ==> ball.struck(x, y, yp, length, is_left).vx() <= -(ball.speed / 2),
{
    let after = ball.struck(x, y, yp, length, is_left);
    let h = after.heading as int;
    let s = ball.speed as int;
    lemma_reflect_range(ball.heading as int, yp - y, length, is_left);
    crate::trig::lemma_cos_near_x_axis(h);
    lemma_sin_cos_bounds(h);
    let c = spec_cos(h);
    if is_left {
        assert(s * c >= s * 500_000) by (nonlinear_arith)
            requires
                s >= 0,
                c >= 500_000,
        ;
        lemma_trunc_div_monotone(s * 500_000, s * c, 1_000_000);
        assert(s * 500_000 >= 0);
        assert((s * 500_000) / 1_000_000 == s / 2);
    } else {
        assert(s * c <= -(s * 500_000)) by (nonlinear_arith)
            requires
                s >= 0,
                c <= -500_000,
        ;
        lemma_trunc_div_monotone(s * c, -(s * 500_000), 1_000_000);
        assert((s * 500_000) / 1_000_000 == s / 2);
    }
}

/// After a step the ball is strictly between the edges, and it is between
/// the walls unless the step scored a point: a ball that is served anew may
/// stand beyond a wall, and the next step that scores nothing puts it on
/// that wall.
pub proof fn lemma_ball_stays_in_court(
    ball: Ball,
    dt: int,
    toward_right: bool,
    toward_bottom: bool,
)
    requires
        ball.wf(),
    ensures
        ({
            let (after, out) = ball.after_update(dt, toward_right, toward_bottom);
            &&& 0 < after.pos.x < SCREEN_WIDTH
            &&& out.left + out.right == 0 ==> after.radius <= after.pos.y <= SCREEN_HEIGHT
                - after.radius
            &&& after.radius == ball.radius
            &&& after.pos.in_range()
        }),
{
}

} // verus!
