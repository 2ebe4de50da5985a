//! Motor model: samples, their mirror images, the synthetic prior and the rules
//! for taking over a saved model.
use super::labels::LabelWindow;
use crate::math::{div_wide_to_zero, trunc_div};
use vstd::prelude::*;

verus! {

pub const INPUT_DIM: usize = 7;

pub const HIDDEN_1: usize = 16;

pub const HIDDEN_2: usize = 16;

pub const OUTPUT_DIM: usize = 2;

/// Shape of the saved file.
pub const SCHEMA_VERSION: u32 = 2;

/// Label window (microseconds).
pub const WINDOW_US: u64 = 200_000;

/// A saved model is stale when the battery differs by more than this
/// (millivolts).
pub const BATTERY_STALE_THRESHOLD_MV: i64 = 300;

/// Inputs of the model: duties of this and the previous window, previous motion
/// (micrometres and microradians per second), battery voltage (millivolts).
#[derive(Debug, Clone, Copy, PartialEq, Eq, Structural)]
pub struct ModelInput {
    pub pwm_l: i32,
    pub pwm_r: i32,
    pub pwm_l_prev: i32,
    pub pwm_r_prev: i32,
    pub v_prev: i64,
    pub omega_prev: i64,
    pub battery_mv: i32,
}

/// One training sample. The forward displacement (micrometres) is there only
/// when the ultrasonic readings were plausible; the rotation (microradians)
/// always is.
#[derive(Debug, Clone, Copy, PartialEq, Eq, Structural)]
pub struct LabelledSample {
    pub input: ModelInput,
    pub ds_obs_um: Option<i64>,
    pub dtheta_obs_urad: i64,
    pub dt_us: u64,
}

/// The mirror image of a sample across the left/right axis: sides swapped,
/// turning negated; what goes forward stays.
pub open spec fn mirror_of(s: LabelledSample) -> LabelledSample {
    LabelledSample {
        input: ModelInput {
            pwm_l: s.input.pwm_r,
            pwm_r: s.input.pwm_l,
            pwm_l_prev: s.input.pwm_r_prev,
            pwm_r_prev: s.input.pwm_l_prev,
            omega_prev: (-s.input.omega_prev) as i64,
            ..s.input
        },
        dtheta_obs_urad: (-s.dtheta_obs_urad) as i64,
        ..s
    }
}

/// Mirror image of a sample.
pub fn mirror_sample(s: &LabelledSample) -> (r: LabelledSample)
    requires
        s.input.omega_prev > i64::MIN,
        s.dtheta_obs_urad > i64::MIN,
    ensures
        r == mirror_of(*s),
{
    LabelledSample {
        input: ModelInput {
            pwm_l: s.input.pwm_r,
            pwm_r: s.input.pwm_l,
            pwm_l_prev: s.input.pwm_r_prev,
            pwm_r_prev: s.input.pwm_l_prev,
            v_prev: s.input.v_prev,
            omega_prev: -s.input.omega_prev,
            battery_mv: s.input.battery_mv,
        },
        ds_obs_um: s.ds_obs_um,
        dtheta_obs_urad: -s.dtheta_obs_urad,
        dt_us: s.dt_us,
    }
}

/// Mirroring twice gives the sample back.
pub proof fn law_mirror_twice(s: LabelledSample)
    requires
        s.input.omega_prev > i64::MIN,
        s.dtheta_obs_urad > i64::MIN,
    ensures
        mirror_of(mirror_of(s)) == s,
{
}

/// Motion over a time at a speed, rounded towards zero.
pub open spec fn motion_over(speed: int, dt_us: u64) -> int {
    trunc_div(speed * dt_us, 1_000_000)
}

fn moved(speed: i64, dt_us: u64) -> (r: i64)
    requires
        i64::MIN <= motion_over(speed as int, dt_us) <= i64::MAX,
    ensures
        r == motion_over(speed as int, dt_us),
{
    assert(-0x8000_0000_0000_0000 * u64::MAX <= speed * dt_us <= 0x8000_0000_0000_0000 * u64::MAX)
        by (nonlinear_arith)
        requires
            -0x8000_0000_0000_0000 <= speed <= 0x8000_0000_0000_0000,
            0 <= dt_us <= u64::MAX,
    ;
    div_wide_to_zero(speed as i128 * dt_us as i128, 1_000_000) as i64
}

/// The training sample of a label window: the displacement and rotation that
/// the measured speeds make over the window, each of which has to fit.
pub fn sample_of_window(w: &LabelWindow) -> (r: LabelledSample)
    requires
        w.v_label_present ==> i64::MIN <= motion_over(w.v_target as int, w.dt_us) <= i64::MAX,
        i64::MIN <= motion_over(w.omega_target as int, w.dt_us) <= i64::MAX,
    ensures
        r.input == (ModelInput {
            pwm_l: w.pwm_l_obs,
            pwm_r: w.pwm_r_obs,
            pwm_l_prev: w.pwm_l_prev,
            pwm_r_prev: w.pwm_r_prev,
            v_prev: w.v_prev,
            omega_prev: w.omega_prev,
            battery_mv: w.battery_mv,
        }),
        match r.ds_obs_um {
            Some(d) => w.v_label_present && d == motion_over(w.v_target as int, w.dt_us),
            None => !w.v_label_present,
        },
        r.dtheta_obs_urad == motion_over(w.omega_target as int, w.dt_us),
        r.dt_us == w.dt_us,
{
    let ds_obs_um: Option<i64> = if w.v_label_present {
        Some(moved(w.v_target, w.dt_us))
    } else {
        None
    };
    LabelledSample {
        input: ModelInput {
            pwm_l: w.pwm_l_obs,
            pwm_r: w.pwm_r_obs,
            pwm_l_prev: w.pwm_l_prev,
            pwm_r_prev: w.pwm_r_prev,
            v_prev: w.v_prev,
            omega_prev: w.omega_prev,
            battery_mv: w.battery_mv,
        },
        ds_obs_um,
        dtheta_obs_urad: moved(w.omega_target, w.dt_us),
        dt_us: w.dt_us,
    }
}

/// Forward displacement of the synthetic prior over one window (micrometres):
/// nothing within the dead band of 200 mean duty, 92 um per unit of mean duty
/// beyond it.
pub open spec fn prior_ds(l: i32, r: i32) -> int {
    if l + r >= 400 {
        (l + r - 400) * 46
    } else if l + r <= -400 {
        (l + r + 400) * 46
    } else {
        0
    }
}

/// Rotation of the synthetic prior over one window (ten-millionths of a radian):
/// a left duty above the right one turns counter-clockwise.
pub open spec fn prior_dtheta(l: i32, r: i32) -> int {
    (l - r) * 378
}

/// Displacement (micrometres) and rotation (ten-millionths of a radian) of the
/// synthetic prior over one window.
pub fn synthetic_forward(pwm_l: i32, pwm_r: i32) -> (r: (i64, i64))
    ensures
        r.0 == prior_ds(pwm_l, pwm_r),
        r.1 == prior_dtheta(pwm_l, pwm_r),
{
    let sum: i64 = pwm_l as i64 + pwm_r as i64;
    let diff: i64 = pwm_l as i64 - pwm_r as i64;
    let ds: i64 = if sum >= 400 {
        (sum - 400) * 46
    } else if sum <= -400 {
        (sum + 400) * 46
    } else {
        0
    };
    (ds, diff * 378)
}

/// The prior is symmetric: swapping the sides keeps the displacement and
/// negates the rotation; reversing both reverses both.
pub proof fn law_prior_is_symmetric(l: i32, r: i32)
    requires
        l > i32::MIN,
        r > i32::MIN,
    ensures
        prior_ds(r, l) == prior_ds(l, r),
        prior_dtheta(r, l) == -prior_dtheta(l, r),
        prior_ds((-l) as i32, (-r) as i32) == -prior_ds(l, r),
{
}

/// The prior has the signs of the wiring: forward duties go forward, and a left
/// duty above the right one turns counter-clockwise.
pub proof fn law_prior_signs(l: i32, r: i32)
    ensures
        l + r > 400 ==> prior_ds(l, r) > 0,
        l + r < -400 ==> prior_ds(l, r) < 0,
        l > r <==> prior_dtheta(l, r) > 0,
{
}

/// What to do with a saved model.
#[derive(Debug, Clone, Copy, PartialEq, Eq, Structural)]
pub enum LoadDecision {
    Keep,
    /// Written in another shape: start afresh.
    WrongSchema,
    /// Trained at another battery voltage: start afresh.
    Stale,
}

/// Whether to take over a saved model: same shape, and a battery voltage within
/// the threshold.
pub fn load_decision(schema: u32, saved_mv: i32, now_mv: i32) -> (r: LoadDecision)
    ensures
        r == decision_on(schema, saved_mv as int, now_mv as int),
{
    if schema != SCHEMA_VERSION {
        return LoadDecision::WrongSchema;
    }
    let drift: i64 = saved_mv as i64 - now_mv as i64;
    if drift > BATTERY_STALE_THRESHOLD_MV || drift < -BATTERY_STALE_THRESHOLD_MV {
        LoadDecision::Stale
    } else {
        LoadDecision::Keep
    }
}

/// Anchor voltage when no reading comes in time (millivolts).
pub const BATTERY_BOOT_FALLBACK_MV: i32 = 7_800;

/// Readings up to this are no readings (millivolts).
pub const BATTERY_BOOT_VALID_MV: i32 = 500;

/// Longest wait for a reading at start (microseconds).
pub const BATTERY_BOOT_WAIT_US: u64 = 3_000_000;

/// The voltage to anchor the model on: the first valid reading, or the fallback
/// once the wait is over; none while it is not.
pub fn boot_battery(mv: i32, waited_us: u64) -> (r: Option<i32>)
    ensures
        r == anchor_voltage(mv, waited_us),
{
    if mv > BATTERY_BOOT_VALID_MV {
        Some(mv)
    } else if waited_us >= BATTERY_BOOT_WAIT_US {
        Some(BATTERY_BOOT_FALLBACK_MV)
    } else {
        None
    }
}

/// Record kept beside the weights.
#[derive(Debug, Clone, Copy, PartialEq, Eq, Structural)]
pub struct Meta {
    pub schema_version: u32,
    pub trained_steps: u64,
    pub last_battery_mv: i32,
    pub last_updated_unix: i64,
}

impl Meta {
    /// Record of a model that was never trained.
    pub fn new(battery_mv: i32, now_unix: i64) -> (r: Self)
        ensures
            r == (Meta {
                schema_version: SCHEMA_VERSION,
                trained_steps: 0,
                last_battery_mv: battery_mv,
                last_updated_unix: now_unix,
            }),
    {
        Meta {
            schema_version: SCHEMA_VERSION,
            trained_steps: 0,
            last_battery_mv: battery_mv,
            last_updated_unix: now_unix,
        }
    }

    /// One sample was trained on, with its mirror image.
    pub fn observed(&mut self, battery_mv: i32)
        ensures
            *final(self) == (Meta {
                trained_steps: if old(self).trained_steps == u64::MAX {
                    u64::MAX
                } else {
                    (old(self).trained_steps + 1) as u64
                },
                last_battery_mv: battery_mv,
                ..*old(self)
            }),
    {
        if self.trained_steps < u64::MAX {
            self.trained_steps = self.trained_steps + 1;
        }
        self.last_battery_mv = battery_mv;
    }
}

/// A mirrored sample drove with the sides exchanged, now and before, and turned the other
/// way by as much, now and before; all else is the same.
pub proof fn law_mirror_exchanges_sides(s: LabelledSample)
    requires
        s.input.omega_prev > i64::MIN,
        s.dtheta_obs_urad > i64::MIN,
    ensures
        ({
            let m = mirror_of(s);
            &&& m.input.pwm_l == s.input.pwm_r && m.input.pwm_r == s.input.pwm_l
            &&& m.input.pwm_l_prev == s.input.pwm_r_prev && m.input.pwm_r_prev == s.input.pwm_l_prev
            &&& m.input.omega_prev == -s.input.omega_prev && m.input.v_prev == s.input.v_prev
            &&& m.input.battery_mv == s.input.battery_mv
            &&& m.dtheta_obs_urad == -s.dtheta_obs_urad
            &&& m.ds_obs_um == s.ds_obs_um && m.dt_us == s.dt_us
        }),
        prior_ds(s.input.pwm_l, s.input.pwm_r) == prior_ds(
            mirror_of(s).input.pwm_l,
            mirror_of(s).input.pwm_r,
        ),
        prior_dtheta(s.input.pwm_l, s.input.pwm_r) == -prior_dtheta(
            mirror_of(s).input.pwm_l,
            mirror_of(s).input.pwm_r,
        ),
{
}

/// Beyond the dead band of 200 mean duty each unit of mean duty makes 92 um, and each unit
/// that one side has over the other turns by 378 ten-millionths of a radian.
pub proof fn law_prior_is_proportional(l: i32, r: i32, m: i32)
    ensures
        l + r >= 400 && m >= l ==> prior_ds(m, r) - prior_ds(l, r) == 46 * (m - l),
        l + r <= -400 && m <= l ==> prior_ds(m, r) - prior_ds(l, r) == 46 * (m - l),
        -400 <= l + r <= 400 ==> prior_ds(l, r) == 0,
        prior_dtheta(m, r) - prior_dtheta(l, r) == 378 * (m - l),
        prior_dtheta(l, l) == 0,
{
}

/// The motion over a time is the speed times the time, to rounding towards zero.
pub proof fn law_motion_is_speed_times_time(speed: int, dt_us: u64)
    ensures
        ({
            let (way, made) = (speed * dt_us, 1_000_000 * motion_over(speed, dt_us));
            &&& way >= 0 ==> made <= way < made + 1_000_000
            &&& way <= 0 ==> made - 1_000_000 < way <= made
        }),
{
}

/// What becomes of a saved model of shape `schema`, made at one voltage, at another.
pub open spec fn decision_on(schema: u32, saved_mv: int, now_mv: int) -> LoadDecision {
    if schema != SCHEMA_VERSION {
        LoadDecision::WrongSchema
    } else if saved_mv - now_mv > 300 || now_mv - saved_mv > 300 {
        LoadDecision::Stale
    } else {
        LoadDecision::Keep
    }
}

/// The voltage to anchor the model on, once there is one.
pub open spec fn anchor_voltage(mv: i32, waited_us: u64) -> Option<i32> {
    if mv > BATTERY_BOOT_VALID_MV {
        Some(mv)
    } else if waited_us >= BATTERY_BOOT_WAIT_US {
        Some(BATTERY_BOOT_FALLBACK_MV)
    } else {
        None
    }
}

/// A model of the second shape is kept while the voltage has not moved by more than 300 mV,
/// whichever way; one of another shape never is.
pub proof fn law_which_models_are_kept(schema: u32, saved_mv: int, now_mv: int)
    ensures
        decision_on(schema, saved_mv, now_mv) is WrongSchema <==> schema != 2,
        decision_on(schema, saved_mv, now_mv) is Keep <==> schema == 2 && -300 <= saved_mv - now_mv
            <= 300,
        decision_on(schema, saved_mv, now_mv) == decision_on(schema, now_mv, saved_mv),
{
}

/// A reading above 500 mV is taken at once; without one, 7.8 V after three seconds.
pub proof fn law_voltage_to_anchor_on(mv: i32, waited_us: u64)
    ensures
        mv > 500 ==> anchor_voltage(mv, waited_us) == Some(mv),
        mv <= 500 && waited_us >= 3_000_000 ==> anchor_voltage(mv, waited_us) == Some(7_800i32),
        mv <= 500 && waited_us < 3_000_000 ==> anchor_voltage(mv, waited_us) is None,
{
}

} // verus!
