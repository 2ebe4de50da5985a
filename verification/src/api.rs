//! Wire contract shared between the web server and the robot supervisor.
use crate::hal::bno055::CalibStatus;
use crate::single::{
    divide, half_even, law_quotient_is_near, law_single_is_near, lemma_common_factor,
    lemma_is_single, lemma_quotient, lemma_quotient_at_most,
    lemma_quotient_monotone, lemma_single, quotient, round, single, spacing,
};
use vstd::arithmetic::div_mod::lemma_fundamental_div_mod;
use vstd::arithmetic::power2::{lemma2_to64, lemma2_to64_rest, pow2};
use vstd::prelude::*;

verus! {

/// A full battery in millivolts.
pub const BAT_FULL_MV: i32 = 8_400;

/// An empty battery in millivolts.
pub const BAT_EMPTY_MV: i32 = 6_000;

/// A volt in the units that voltages are reckoned in.
pub const VOLT: i128 = 0x100_0000_0000;

/// From empty to full: 8.4 V, as single precision has it, less 6 V.
pub const BAT_RANGE: i128 = 0x26_6666 * 0x10_0000;

/// A battery voltage above the empty one, in single precision.
pub open spec fn above_empty(mv: int) -> int {
    single(quotient(mv * VOLT, 1000) - 6 * VOLT)
}

/// Charge in percent of a battery voltage: linear between empty and full in single
/// precision, rounded down, clamped to 0..=100.
pub open spec fn charge_pct(mv: int) -> int {
    let p = single(quotient(above_empty(mv) * VOLT, BAT_RANGE as int) * 100) / VOLT as int;
    if mv < 6_000 {
        0
    } else if p > 100 {
        100
    } else {
        p
    }
}

/// A voltage that is not below the empty one.
proof fn lemma_above_empty(mv: int)
    requires
        6_000 <= mv <= i32::MAX,
    ensures
        6 * VOLT <= quotient(mv * VOLT, 1000) <= 0x8000_0000 * VOLT,
        0 <= above_empty(mv) <= 0x1_0000_0000 * VOLT,
        0 <= quotient(above_empty(mv) * VOLT, BAT_RANGE as int) <= 0x1_0000_0000 * VOLT,
{
    lemma2_to64();
    lemma2_to64_rest();
    assert(6 * 0x100_0000_0000 == 6 * pow2(40));
    lemma_is_single(6, 40);
    lemma_common_factor((6 * VOLT) as nat, 1000);
    lemma_quotient_monotone(6_000 * VOLT, mv * VOLT, 1000);
    lemma_quotient(mv * VOLT, 1000);
    let v = quotient(mv * VOLT, 1000);
    lemma_single(v - 6 * VOLT);
    let d = above_empty(mv);
    lemma_quotient(d * VOLT, BAT_RANGE as int);
}

/// Charge in percent of a battery voltage in millivolts.
pub fn battery_pct(mv: i32) -> (r: u8)
    ensures
        r == charge_pct(mv as int),
{
    if mv < BAT_EMPTY_MV {
        return 0;
    }
    proof {
        lemma_above_empty(mv as int);
    }
    let v: i128 = divide(mv as u128 * VOLT as u128, 1000) as i128;
    let d: i128 = round(v - 6 * VOLT);
    let share: i128 = divide(d as u128 * VOLT as u128, BAT_RANGE as u128) as i128;
    let p: i128 = round(share * 100) / VOLT;
    if p > 100 {
        100
    } else {
        p as u8
    }
}

/// More voltage never means less charge; full and empty are 100 and 0.
pub proof fn law_charge_monotone(a: i32, b: i32)
    requires
        a <= b,
    ensures
        0 <= charge_pct(a as int) <= charge_pct(b as int) <= 100,
        charge_pct(BAT_FULL_MV as int) == 100,
        charge_pct(BAT_EMPTY_MV as int) == 0,
{
    if b >= 6_000 {
        lemma_charge_ordered(6_000, b as int);
    }
    if a >= 6_000 {
        lemma_charge_ordered(6_000, a as int);
        lemma_charge_ordered(a as int, b as int);
    }
    lemma_full_and_empty();
}

proof fn lemma_charge_ordered(a: int, b: int)
    requires
        6_000 <= a <= b <= i32::MAX,
    ensures
        0 <= charge_pct(a) <= charge_pct(b) <= 100,
{
    lemma_above_empty(a);
    lemma_above_empty(b);
    lemma_quotient_monotone(a * VOLT, b * VOLT, 1000);
    lemma_quotient_monotone(
        quotient(a * VOLT, 1000) - 6 * VOLT,
        quotient(b * VOLT, 1000) - 6 * VOLT,
        1,
    );
    lemma_quotient_monotone(above_empty(a) * VOLT, above_empty(b) * VOLT, BAT_RANGE as int);
    let x = quotient(above_empty(a) * VOLT, BAT_RANGE as int) * 100;
    let y = quotient(above_empty(b) * VOLT, BAT_RANGE as int) * 100;
    lemma_quotient_monotone(x, y, 1);
    lemma_single(x);
}

proof fn lemma_full_and_empty()
    ensures
        charge_pct(8_400) == 100,
        charge_pct(6_000) == 0,
{
    lemma2_to64();
    lemma2_to64_rest();
    // Empty.
    lemma_is_single(6, 40);
    lemma_common_factor((6 * VOLT) as nat, 1000);
    lemma_single(0);
    assert(above_empty(6_000) == 0);
    lemma_quotient_at_most(0, BAT_RANGE as int, 0);
    // Full.
    assert(spacing(9_235_897_673_318) == 0x10_0000) by {
        reveal_with_fuel(spacing, 22);
    }
    assert(half_even(9_235_897_673_318_400, 1_048_576_000) == 8_808_038);
    assert(9_235_897_673_318_400int / 1000 == 9_235_897_673_318);
    assert(8_400 * VOLT == 9_235_897_673_318_400);
    assert(quotient(8_400 * VOLT, 1000) == 8_808_038 * 0x10_0000);
    lemma_is_single(2_516_582, 20);
    assert(above_empty(8_400) == BAT_RANGE);
    lemma_is_single(1, 40);
    lemma_common_factor(VOLT as nat, BAT_RANGE as int);
    lemma_is_single(100, 40);
}

/// The charge is linear between 6 V at 0 % and 8.4 V at 100 %: 24 mV make one percent,
/// rounded down but for a ten-thousandth of a percent.
pub proof fn law_charge_is_linear(mv: int)
    requires
        6_000 <= mv <= 8_400,
    ensures
        240_000 * charge_pct(mv) <= 10_000 * (mv - 6_000) + 24,
        10_000 * (mv - 6_000) <= 240_000 * (charge_pct(mv) + 1) + 24,
{
    let volt = 0x100_0000_0000int;
    let range = 0x26_6666 * 0x10_0000int;
    lemma_above_empty(mv);
    let v = quotient(mv * volt, 1000);
    law_quotient_is_near(mv * volt, 1000);
    law_single_is_near(v - 6 * volt);
    let d = above_empty(mv);
    let q = quotient(d * volt, range);
    law_quotient_is_near(d * volt, range);
    law_single_is_near(q * 100);
    let s = single(q * 100);
    lemma_fundamental_div_mod(s, volt);
    lemma_charge_ordered(mv, 8_400);
    lemma_full_and_empty();
}

/// Telemetry as plain numbers.
#[derive(Debug, Clone, Copy)]
pub struct SensorSnapshot {
    pub battery_mv: i32,
    pub battery_pct: u8,
    pub light_left_mv: Option<i32>,
    pub light_right_mv: Option<i32>,
    pub ir: Option<[bool; 3]>,
    /// Ultrasonic distance in micrometres.
    pub us_um: Option<u64>,
    /// Estimated time to collision in microseconds; none when not closing.
    pub ttc_us: Option<u128>,
    /// Bracket angles in thousandths of a degree.
    pub pan_mdeg: i32,
    pub tilt_mdeg: i32,
    /// Camera rate in frames per thousand seconds.
    pub camera_mfps: u32,
    pub exposure_us: i32,
    /// Gain in quarters.
    pub gain_q: i32,
    pub brightness_milli: i32,
    pub luma: u8,
    pub imu_yaw_mdeg: Option<i32>,
    pub imu_rate_mhz: Option<u32>,
    pub imu_calib: Option<CalibStatus>,
    /// Age of the frame less age of the sample, in microseconds.
    pub imu_frame_sync_us: Option<i64>,
    /// Most recently applied motor PWM.
    pub pwm_l_cmd: i32,
    pub pwm_r_cmd: i32,
}

impl SensorSnapshot {
    /// Startup state before the first sensor poll. Exposure and gain seed the
    /// exposure loop.
    pub fn initial() -> (r: Self)
        ensures
            r.battery_mv == 0 && r.battery_pct == 0,
            r.light_left_mv is None && r.light_right_mv is None && r.ir is None,
            r.us_um is None && r.ttc_us is None,
            r.pan_mdeg == 90_000 && r.tilt_mdeg == 90_000,
            r.camera_mfps == 0 && r.exposure_us == 8_000 && r.gain_q == 32,
            r.brightness_milli == 0 && r.luma == 0,
            r.imu_yaw_mdeg is None && r.imu_rate_mhz is None && r.imu_calib is None,
            r.imu_frame_sync_us is None,
            r.pwm_l_cmd == 0 && r.pwm_r_cmd == 0,
    {
        SensorSnapshot {
            battery_mv: 0,
            battery_pct: 0,
            light_left_mv: None,
            light_right_mv: None,
            ir: None,
            us_um: None,
            ttc_us: None,
            pan_mdeg: 90_000,
            tilt_mdeg: 90_000,
            camera_mfps: 0,
            exposure_us: 8_000,
            gain_q: 32,
            brightness_milli: 0,
            luma: 0,
            imu_yaw_mdeg: None,
            imu_rate_mhz: None,
            imu_calib: None,
            imu_frame_sync_us: None,
            pwm_l_cmd: 0,
            pwm_r_cmd: 0,
        }
    }
}

/// Which sensors are polled.
#[derive(Debug, Clone, Copy, PartialEq, Eq, Structural)]
pub struct SensorConfig {
    pub light: bool,
    pub ir: bool,
    pub us: bool,
}

impl Default for SensorConfig {
    fn default() -> (r: Self)
        ensures
            r == (SensorConfig { light: true, ir: true, us: true }),
    {
        SensorConfig { light: true, ir: true, us: true }
    }
}

/// A request from the web layer to the robot supervisor.
#[derive(Debug, Clone, Copy, PartialEq, Eq, Structural)]
pub enum Command {
    /// Raw PWM per side, clamped to +-4095 by the motor driver. Positive is
    /// forward, negative reverse.
    SetMotors { left: i32, right: i32 },
    Stop,
    /// Pan angle in thousandths of a degree.
    SetPan(i32),
    /// Tilt angle in thousandths of a degree.
    SetTilt(i32),
    /// Play a short light and sound emote.
    Emote,
    SetSensors(SensorConfig),
}

/// Body of a drive request: raw PWM per side.
#[derive(Debug, Clone, Copy, PartialEq, Eq, Structural)]
pub struct DriveBody {
    pub left: i32,
    pub right: i32,
}

impl DriveBody {
    /// The command that a drive request stands for.
    pub fn command(&self) -> (r: Command)
        ensures
            r == (Command::SetMotors { left: self.left, right: self.right }),
    {
        Command::SetMotors { left: self.left, right: self.right }
    }
}

} // verus!
