//! Pan/tilt servo control via the PWM driver.
//!
//! Pan is channel 8 and wired inverted, tilt channel 9. A pulse of 500 us is 0
//! degrees, 1500 us 90 degrees, 2500 us 180 degrees, so a thousandth of a degree
//! is a ninetieth of a microsecond.
use crate::hal::i2c::{run_script, script_ran, I2cBus, Step};
use crate::hal::pca9685::{push_pwm_steps, pulse_count, pwm_script, servo_count, Pca9685};
use crate::Error;
use vstd::prelude::*;

verus! {

pub const PAN_CHANNEL: u8 = 8;

pub const TILT_CHANNEL: u8 = 9;

/// Straight ahead, in thousandths of a degree.
pub const CENTER_MDEG: i32 = 90_000;

/// Physical straight-ahead is at 83.5 degrees rather than the nominal 90: the
/// trim that makes up for it, in thousandths of a degree.
pub const PAN_TRIM_MDEG: i32 = 6_500;

/// Servo angle at which the bracket physically looks straight ahead.
pub const PAN_TRUE_CENTER_MDEG: i32 = 83_500;

/// Pulse of an angle, in ninetieths of a microsecond: the angle is clamped to
/// 0..=180 degrees, mirrored for an inverted servo, and shifted by the trim.
pub open spec fn angle_pulse(mdeg: i32, invert: bool, trim_mdeg: i32) -> int {
    let a = if mdeg < 0 {
        0
    } else if mdeg > 180_000 {
        180_000
    } else {
        mdeg as int
    };
    (if invert {
        225_000 - a
    } else {
        45_000 + a
    }) + trim_mdeg
}

/// Pulse of an angle, in ninetieths of a microsecond.
pub fn angle_to_pulse(mdeg: i32, invert: bool, trim_mdeg: i32) -> (r: i64)
    ensures
        r == angle_pulse(mdeg, invert, trim_mdeg),
{
    let a: i64 = if mdeg < 0 {
        0
    } else if mdeg > 180_000 {
        180_000
    } else {
        mdeg as i64
    };
    let p: i64 = if invert {
        225_000 - a
    } else {
        45_000 + a
    };
    p + trim_mdeg as i64
}

/// The camera bracket: trims of both servos in thousandths of a degree.
#[derive(Debug, Clone, Copy, PartialEq, Eq, Structural)]
pub struct PanTilt {
    pub pan_trim_mdeg: i32,
    pub tilt_trim_mdeg: i32,
}

impl PanTilt {
    pub fn new(pan_trim_mdeg: i32, tilt_trim_mdeg: i32) -> (r: Self)
        ensures
            r == (PanTilt { pan_trim_mdeg, tilt_trim_mdeg }),
    {
        PanTilt { pan_trim_mdeg, tilt_trim_mdeg }
    }

    /// The bracket as it is mounted: the pan trim is built in, so that panning to
    /// 90 degrees points the sensor straight ahead.
    pub fn mounted() -> (r: Self)
        ensures
            r == (PanTilt { pan_trim_mdeg: PAN_TRIM_MDEG, tilt_trim_mdeg: 0 }),
    {
        PanTilt { pan_trim_mdeg: PAN_TRIM_MDEG, tilt_trim_mdeg: 0 }
    }

    /// Pans to an angle in thousandths of a degree; 90 degrees is the centre.
    pub fn set_pan<B: I2cBus>(&self, pwm: &mut Pca9685<B>, mdeg: i32) -> (r: Result<(), Error>)
        ensures
            script_ran(
                old(pwm).bus.history(),
                final(pwm).bus.history(),
                pwm_script(
                    PAN_CHANNEL,
                    0,
                    pulse_count(angle_pulse(mdeg, true, self.pan_trim_mdeg)),
                ),
                r,
            ),
    {
        let p: i64 = angle_to_pulse(mdeg, true, self.pan_trim_mdeg);
        pwm.set_servo_pulse_us(PAN_CHANNEL, p)
    }

    /// Tilts to an angle in thousandths of a degree; 90 degrees is the centre.
    pub fn set_tilt<B: I2cBus>(&self, pwm: &mut Pca9685<B>, mdeg: i32) -> (r: Result<(), Error>)
        ensures
            script_ran(
                old(pwm).bus.history(),
                final(pwm).bus.history(),
                pwm_script(
                    TILT_CHANNEL,
                    0,
                    pulse_count(angle_pulse(mdeg, false, self.tilt_trim_mdeg)),
                ),
                r,
            ),
    {
        let p: i64 = angle_to_pulse(mdeg, false, self.tilt_trim_mdeg);
        pwm.set_servo_pulse_us(TILT_CHANNEL, p)
    }

    /// Points both servos straight ahead, pan first.
    pub fn center<B: I2cBus>(&self, pwm: &mut Pca9685<B>) -> (r: Result<(), Error>)
        ensures
            script_ran(
                old(pwm).bus.history(),
                final(pwm).bus.history(),
                pwm_script(
                    PAN_CHANNEL,
                    0,
                    pulse_count(angle_pulse(CENTER_MDEG, true, self.pan_trim_mdeg)),
                ) + pwm_script(
                    TILT_CHANNEL,
                    0,
                    pulse_count(angle_pulse(CENTER_MDEG, false, self.tilt_trim_mdeg)),
                ),
                r,
            ),
    {
        let p: i64 = angle_to_pulse(CENTER_MDEG, true, self.pan_trim_mdeg);
        let t: i64 = angle_to_pulse(CENTER_MDEG, false, self.tilt_trim_mdeg);
        let pan: u16 = servo_count(p);
        let tilt: u16 = servo_count(t);
        let mut steps: Vec<Step> = Vec::new();
        push_pwm_steps(&mut steps, PAN_CHANNEL, 0, pan);
        push_pwm_steps(&mut steps, TILT_CHANNEL, 0, tilt);
        assert(steps@ =~= pwm_script(PAN_CHANNEL, 0, pan) + pwm_script(TILT_CHANNEL, 0, tilt));
        run_script(&mut pwm.bus, steps.as_slice())
    }
}

/// With the trim built in, panning to 90 degrees gives the pulse of the angle at
/// which the bracket physically looks straight ahead.
pub proof fn law_trimmed_centre_is_straight_ahead()
    ensures
        angle_pulse(CENTER_MDEG, true, PAN_TRIM_MDEG) == angle_pulse(PAN_TRUE_CENTER_MDEG, true, 0),
{
}

/// Untrimmed servo pulses stay within 500 to 2500 us.
pub proof fn law_pulse_in_range(mdeg: i32, invert: bool)
    ensures
        500 * 90 <= angle_pulse(mdeg, invert, 0) <= 2500 * 90,
{
}

/// A degree is a hundred-eightieth of the 2000 us between the end stops, at every angle;
/// an inverted servo turns the other way by as much, and a trim shifts both alike.
pub proof fn law_pulse_is_linear(mdeg: i32, other: i32, invert: bool, trim_mdeg: i32)
    requires
        0 <= mdeg <= 180_000,
        0 <= other <= 180_000,
    ensures
        angle_pulse(mdeg, false, trim_mdeg) - angle_pulse(other, false, trim_mdeg) == mdeg - other,
        angle_pulse(mdeg, true, trim_mdeg) - angle_pulse(other, true, trim_mdeg) == other - mdeg,
        angle_pulse(mdeg, false, 0) + angle_pulse(mdeg, true, 0) == 3000 * 90,
        angle_pulse(mdeg, invert, trim_mdeg) == angle_pulse(mdeg, invert, 0) + trim_mdeg,
        angle_pulse(90_000, invert, 0) == 1500 * 90,
{
}

/// An angle past an end stop counts as the end stop.
pub proof fn law_angles_stop_at_the_ends(mdeg: i32, invert: bool, trim_mdeg: i32)
    ensures
        mdeg <= 0 ==> angle_pulse(mdeg, invert, trim_mdeg) == angle_pulse(0, invert, trim_mdeg),
        mdeg >= 180_000 ==> angle_pulse(mdeg, invert, trim_mdeg) == angle_pulse(
            180_000,
            invert,
            trim_mdeg,
        ),
{
}

} // verus!
