//! When a pair of ultrasonic readings tells a forward speed.
//!
//! The window has to be straight, the pan servo centred, both distances in the
//! sensor's reliable range, and the trend in line with the commanded direction.
use crate::math::{div_to_zero, trunc_div};
use vstd::prelude::*;

verus! {

/// Reliable range of the sensor (micrometres).
pub const US_MIN_UM: u64 = 80_000;

pub const US_MAX_UM: u64 = 800_000;

/// From this difference of the duties on the window curves.
pub const STRAIGHT_PWM_DIFF_THRESHOLD: i64 = 200;

/// Up to this mean duty either trend is accepted.
pub const STATIC_PWM_AVG_THRESHOLD: i64 = 200;

/// Noise floor of the sensor (micrometres).
pub const US_NOISE_FLOOR_UM: i64 = 10_000;

/// Farthest that the pan servo may be off centre (thousandths of a degree).
pub const PAN_CENTERED_TOLERANCE_MDEG: i64 = 5_000;

pub const PAN_FORWARD_MDEG: i64 = 90_000;

/// What a window says of the commanded direction.
#[derive(Debug, Clone, Copy, PartialEq, Eq, Structural)]
pub enum Course {
    Forward,
    Reverse,
    Static,
}

/// Commanded direction of two duties: by their mean, rounded towards zero.
pub open spec fn course_of(l: i32, r: i32) -> Course {
    let avg = trunc_div(l + r, 2);
    if avg > STATIC_PWM_AVG_THRESHOLD {
        Course::Forward
    } else if avg < -STATIC_PWM_AVG_THRESHOLD {
        Course::Reverse
    } else {
        Course::Static
    }
}

/// The window drove straight, with the sensor looking straight ahead.
pub open spec fn is_straight(l: i32, r: i32, pan_mdeg: i32) -> bool {
    &&& -200 < l - r < 200
    &&& -5_000 <= pan_mdeg - 90_000 <= 5_000
}

/// Both distances are reliable.
pub open spec fn in_range(d: u64) -> bool {
    US_MIN_UM <= d <= US_MAX_UM
}

/// The distance went the wrong way by more than noise.
pub open spec fn against(course: Course, dd: int) -> bool {
    ||| course == Course::Forward && dd > US_NOISE_FLOOR_UM
    ||| course == Course::Reverse && dd < -US_NOISE_FLOOR_UM
}

/// Forward speed in micrometres per second, rounded towards zero: how fast the
/// distance shrinks.
pub open spec fn speed(start: u64, end: u64, dt_us: u64) -> int {
    trunc_div((start - end) * 1_000_000, dt_us as int)
}

/// Commanded direction.
pub fn course(l: i32, r: i32) -> (c: Course)
    ensures
        c == course_of(l, r),
{
    let avg: i64 = div_to_zero(l as i64 + r as i64, 2);
    if avg > STATIC_PWM_AVG_THRESHOLD {
        Course::Forward
    } else if avg < -STATIC_PWM_AVG_THRESHOLD {
        Course::Reverse
    } else {
        Course::Static
    }
}

/// Whether the window drove straight with the sensor looking ahead.
pub fn straight(l: i32, r: i32, pan_mdeg: i32) -> (b: bool)
    ensures
        b == is_straight(l, r, pan_mdeg),
{
    let diff: i64 = l as i64 - r as i64;
    let off: i64 = pan_mdeg as i64 - PAN_FORWARD_MDEG;
    -STRAIGHT_PWM_DIFF_THRESHOLD < diff && diff < STRAIGHT_PWM_DIFF_THRESHOLD
        && -PAN_CENTERED_TOLERANCE_MDEG <= off && off <= PAN_CENTERED_TOLERANCE_MDEG
}

/// Whether a distance went against the commanded direction.
pub fn went_against(c: Course, start: u64, end: u64) -> (b: bool)
    requires
        in_range(start),
        in_range(end),
    ensures
        b == against(c, end - start),
{
    let dd: i64 = end as i64 - start as i64;
    match c {
        Course::Forward => dd > US_NOISE_FLOOR_UM,
        Course::Reverse => dd < -US_NOISE_FLOOR_UM,
        Course::Static => false,
    }
}

/// Forward speed between two distances.
pub fn speed_between(start: u64, end: u64, dt_us: u64) -> (r: i64)
    requires
        in_range(start),
        in_range(end),
        0 < dt_us <= i64::MAX,
    ensures
        r == speed(start, end, dt_us),
{
    let dd: i64 = start as i64 - end as i64;
    div_to_zero(dd * 1_000_000, dt_us as i64)
}

/// A speed between reliable distances fits a machine word.
pub proof fn lemma_speed_fits(start: u64, end: u64, dt_us: u64)
    requires
        in_range(start),
        in_range(end),
        dt_us > 0,
    ensures
        -720_000_000_000 <= speed(start, end, dt_us) <= 720_000_000_000,
{
    let n = (start - end) * 1_000_000;
    let d = dt_us as int;
    assert(n >= 0 ==> 0 <= n / d <= n) by (nonlinear_arith)
        requires
            d >= 1,
    ;
    assert(n < 0 ==> 0 <= (-n) / d <= -n) by (nonlinear_arith)
        requires
            d >= 1,
    ;
}

/// Getting nearer is going forward.
pub proof fn law_speed_sign(start: u64, end: u64, dt_us: u64)
    requires
        dt_us > 0,
    ensures
        start >= end ==> speed(start, end, dt_us) >= 0,
        start <= end ==> speed(start, end, dt_us) <= 0,
        speed(start, end, dt_us) == -speed(end, start, dt_us),
{
    let n = (start - end) * 1_000_000;
    let d = dt_us as int;
    if n >= 0 {
        assert(n / d >= 0) by (nonlinear_arith)
            requires
                n >= 0,
                d > 0,
        ;
    } else {
        assert((-n) / d >= 0) by (nonlinear_arith)
            requires
                -n >= 0,
                d > 0,
        ;
    }
    if n == 0 {
        assert(0int / d == 0) by (nonlinear_arith)
            requires
                d > 0,
        ;
    }
}

/// The speed makes the way: over the time it was measured in, it covers what the distance
/// shrank by, short of it by less than the rounding.
pub proof fn law_speed_makes_the_way(start: u64, end: u64, dt_us: u64)
    requires
        dt_us > 0,
    ensures
        ({
            let way = (start - end) * 1_000_000;
            let covered = speed(start, end, dt_us) * dt_us;
            &&& start >= end ==> covered <= way < covered + dt_us
            &&& start <= end ==> covered - dt_us < way <= covered
        }),
{
    let way = (start - end) * 1_000_000;
    let m = if way >= 0 {
        way
    } else {
        -way
    };
    let d = dt_us as int;
    vstd::arithmetic::div_mod::lemma_fundamental_div_mod(m, d);
    let q = m / d;
    assert(q * d <= m < q * d + d && (-q) * d == -(q * d)) by (nonlinear_arith)
        requires
            m == d * q + m % d,
            0 <= m % d < d,
    ;
}

/// The command is forward where the duties are above 200 in the mean and reverse where
/// they are below -200; the sides count alike, and reversing both reverses it.
pub proof fn law_course_goes_by_both_sides(l: i32, r: i32)
    ensures
        course_of(l, r) == Course::Forward <==> l + r >= 402,
        course_of(l, r) == Course::Reverse <==> l + r <= -402,
        course_of(l, r) == course_of(r, l),
{
}

/// A window is straight where the duties are less than 200 apart and the sensor looks
/// ahead to five degrees, either way.
pub proof fn law_straight_window(l: i32, r: i32, pan_mdeg: i32)
    ensures
        is_straight(l, r, pan_mdeg) <==> l - r < 200 && r - l < 200 && 85_000 <= pan_mdeg <= 95_000,
        is_straight(l, r, pan_mdeg) == is_straight(r, l, pan_mdeg),
{
}

/// Readings count from 8 to 80 cm, and a change against the command by more than a
/// centimetre is no measurement of it.
pub proof fn law_what_a_reading_is_worth(start: u64, end: u64)
    ensures
        in_range(start) <==> 80_000 <= start <= 800_000,
        against(Course::Forward, end - start) <==> end > start + 10_000,
        against(Course::Reverse, end - start) <==> start > end + 10_000,
        !against(Course::Static, end - start),
{
}

} // verus!
