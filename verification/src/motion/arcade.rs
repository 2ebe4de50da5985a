//! Arcade drive: an operator's forward and turning speed to motor duties.
//!
//! On this chassis a left duty above the right one turns counter-clockwise,
//! which is the positive sense.
use vstd::prelude::*;

verus! {

/// Quotient by ten thousand, rounded to the nearest, halves away from zero.
pub open spec fn rounded(n: int) -> int {
    if n >= 0 {
        (n + 5_000) / 10_000
    } else {
        -((-n + 5_000) / 10_000)
    }
}

/// A duty within the driver's range.
pub open spec fn saturated(d: int) -> int {
    if d < -4095 {
        -4095
    } else if d > 4095 {
        4095
    } else {
        d
    }
}

/// Left duty: 2500 per m/s forward plus 5000 per rad/s counter-clockwise.
pub open spec fn left_duty(v_um_s: int, omega_urad_s: int) -> int {
    saturated(rounded(25 * v_um_s + 50 * omega_urad_s))
}

/// Right duty: 2500 per m/s forward less 5000 per rad/s counter-clockwise.
pub open spec fn right_duty(v_um_s: int, omega_urad_s: int) -> int {
    saturated(rounded(25 * v_um_s - 50 * omega_urad_s))
}

fn duty(n: i64) -> (r: i32)
    requires
        -1_000_000_000_000 <= n <= 1_000_000_000_000,
    ensures
        r == saturated(rounded(n as int)),
{
    let d: i64 = if n >= 0 {
        (n + 5_000) / 10_000
    } else {
        -((5_000 - n) / 10_000)
    };
    if d < -4095 {
        -4095
    } else if d > 4095 {
        4095
    } else {
        d as i32
    }
}

/// Maps a forward speed in micrometres per second and a turning speed in
/// microradians per second to left and right duty, clamped to the driver's
/// range.
pub fn arcade_drive(v_um_s: i32, omega_urad_s: i32) -> (r: (i32, i32))
    ensures
        r.0 == left_duty(v_um_s as int, omega_urad_s as int),
        r.1 == right_duty(v_um_s as int, omega_urad_s as int),
{
    let v: i64 = 25 * v_um_s as i64;
    let w: i64 = 50 * omega_urad_s as i64;
    (duty(v + w), duty(v - w))
}

/// Driving straight is symmetric and goes the way asked for.
pub proof fn law_straight_is_symmetric(v: int)
    ensures
        left_duty(v, 0) == right_duty(v, 0),
        v >= 200 ==> left_duty(v, 0) > 0,
        v <= -200 ==> left_duty(v, 0) < 0,
        v == 0 ==> left_duty(v, 0) == 0,
{
}

/// Turning on the spot is antisymmetric, and a counter-clockwise turn drives
/// the left side harder.
pub proof fn law_spin_is_antisymmetric(omega: int)
    ensures
        left_duty(0, omega) == -right_duty(0, omega),
        omega >= 100 ==> left_duty(0, omega) > right_duty(0, omega),
        omega <= -100 ==> left_duty(0, omega) < right_duty(0, omega),
{
}

/// Mirroring the turn swaps the sides; no duty leaves the driver's range.
pub proof fn law_mirrored_turn_swaps_sides(v: int, omega: int)
    ensures
        left_duty(v, -omega) == right_duty(v, omega),
        right_duty(v, -omega) == left_duty(v, omega),
        -4095 <= left_duty(v, omega) <= 4095,
        -4095 <= right_duty(v, omega) <= 4095,
{
}

/// Driving and turning the other way negates both duties.
pub proof fn law_reversed_drive_negates(v: int, omega: int)
    ensures
        left_duty(-v, -omega) == -left_duty(v, omega),
        right_duty(-v, -omega) == -right_duty(v, omega),
{
}

/// A counter-clockwise turn never drives the right side harder than the left, at any
/// forward speed, nor a clockwise one the left.
pub proof fn law_turn_leans_to_its_side(v: int, omega: int)
    ensures
        omega >= 0 ==> left_duty(v, omega) >= right_duty(v, omega),
        omega <= 0 ==> left_duty(v, omega) <= right_duty(v, omega),
{
}

/// Forward speed and turning speed add up: while neither side is at its limit, the mean
/// of the duties is 2500 per m/s of the forward speed and half their difference 5000 per
/// rad/s of the turning speed, to rounding, whatever the other speed is.
pub proof fn law_speeds_superpose(v: int, omega: int)
    requires
        -4095 < left_duty(v, omega) < 4095,
        -4095 < right_duty(v, omega) < 4095,
    ensures
        ({
            let (l, r) = (left_duty(v, omega), right_duty(v, omega));
            &&& -10_000 <= 10_000 * (l + r) - 50 * v <= 10_000
            &&& -10_000 <= 10_000 * (l - r) - 100 * omega <= 10_000
        }),
        omega >= 101 ==> left_duty(v, omega) > right_duty(v, omega),
        omega <= -101 ==> left_duty(v, omega) < right_duty(v, omega),
        v >= 201 ==> left_duty(v, omega) + right_duty(v, omega) > 0,
        v <= -201 ==> left_duty(v, omega) + right_duty(v, omega) < 0,
{
}

/// Each side follows the speed of its wheels: a side's duty is the nearest whole one to
/// 2500 per m/s of forward speed plus or minus 5000 per rad/s, or at the limit that it
/// would pass.
pub proof fn law_duty_is_the_nearest(v: int, omega: int)
    ensures
        ({
            let (l, r) = (left_duty(v, omega), right_duty(v, omega));
            &&& l < 4095 ==> 2 * (25 * v + 50 * omega) <= 10_000 * (2 * l + 1)
            &&& l > -4095 ==> 2 * (25 * v + 50 * omega) >= 10_000 * (2 * l - 1)
            &&& r < 4095 ==> 2 * (25 * v - 50 * omega) <= 10_000 * (2 * r + 1)
            &&& r > -4095 ==> 2 * (25 * v - 50 * omega) >= 10_000 * (2 * r - 1)
        }),
        -4095 <= left_duty(v, omega) <= 4095,
        -4095 <= right_duty(v, omega) <= 4095,
{
}

/// More speed forward never lowers a duty, and more counter-clockwise turn never lowers
/// the left one nor raises the right one.
pub proof fn law_duties_are_monotone(v: int, w: int, omega: int, psi: int)
    requires
        v <= w,
        omega <= psi,
    ensures
        left_duty(v, omega) <= left_duty(w, omega),
        right_duty(v, omega) <= right_duty(w, omega),
        left_duty(v, omega) <= left_duty(v, psi),
        right_duty(v, omega) >= right_duty(v, psi),
{
}

} // verus!
