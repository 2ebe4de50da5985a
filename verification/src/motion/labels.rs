//! Assembling labelled 200 ms training windows for the motor model from the
//! commanded duties, the gyro, the accelerometer and the ultrasonic sensor.
//!
//! The turning speed is the mean over the window and always there unless the
//! window is rejected. The forward speed comes from the ultrasonic sensor and is
//! there only when the readings are plausible. A single sample with too fast a turn
//! or too large an acceleration rejects the whole window.
use super::gate::{
    against, course, course_of, in_range, is_straight, speed, speed_between, straight,
    went_against, Course,
};
use crate::math::{div_wide_to_zero, law_quotient_towards_zero, trunc_div};
use vstd::prelude::*;

verus! {

/// Window cadence (microseconds).
pub const WINDOW_US: u64 = 200_000;

/// Shortest window that is used (microseconds).
pub const MIN_WINDOW_US: u64 = 50_000;

/// Turning faster than this rejects the window (microradians per second).
pub const GYRO_SPIKE_URAD_S: i32 = 5_000_000;

/// Acceleration this far from gravity rejects the window (micrometres per
/// second squared).
pub const ACCEL_DEV_FROM_G: i128 = 3_000_000;

/// Gravity (micrometres per second squared).
pub const G: i128 = 9_806_650;

/// How often windows were rejected, by reason.
#[derive(Debug, Clone, Copy, PartialEq, Eq, Structural)]
pub struct RejectionCounts {
    pub gyro_spike: u64,
    pub accel_spike: u64,
    pub v_out_of_range: u64,
    pub v_not_straight: u64,
    pub v_non_monotonic: u64,
}

impl Default for RejectionCounts {
    fn default() -> (r: Self)
        ensures
            r == zero_counts(),
    {
        RejectionCounts {
            gyro_spike: 0,
            accel_spike: 0,
            v_out_of_range: 0,
            v_not_straight: 0,
            v_non_monotonic: 0,
        }
    }
}

/// No rejection yet.
pub open spec fn zero_counts() -> RejectionCounts {
    RejectionCounts {
        gyro_spike: 0,
        accel_spike: 0,
        v_out_of_range: 0,
        v_not_straight: 0,
        v_non_monotonic: 0,
    }
}

/// How many windows were used and labelled.
#[derive(Debug, Clone, Copy, PartialEq, Eq, Structural)]
pub struct LabelStats {
    pub samples_observed: u64,
    pub samples_v_labelled: u64,
    pub rejections: RejectionCounts,
}

impl Default for LabelStats {
    fn default() -> (r: Self)
        ensures
            r == (LabelStats {
                samples_observed: 0,
                samples_v_labelled: 0,
                rejections: zero_counts(),
            }),
    {
        LabelStats {
            samples_observed: 0,
            samples_v_labelled: 0,
            rejections: RejectionCounts::default(),
        }
    }
}

impl LabelStats {
    /// Every counter can still count.
    pub open spec fn has_room(&self) -> bool {
        &&& self.samples_observed < u64::MAX
        &&& self.samples_v_labelled < u64::MAX
        &&& self.rejections.gyro_spike < u64::MAX
        &&& self.rejections.accel_spike < u64::MAX
        &&& self.rejections.v_out_of_range < u64::MAX
        &&& self.rejections.v_not_straight < u64::MAX
        &&& self.rejections.v_non_monotonic < u64::MAX
    }
}

/// What the readings say of a window's forward speed.
#[derive(Debug, Clone, Copy, PartialEq, Eq, Structural)]
pub enum VLabel {
    /// Forward speed in micrometres per second.
    Speed(i64),
    NotStraight,
    OutOfRange,
    NonMonotonic,
    /// A distance is missing.
    NoReading,
    /// The window is too short.
    TooShort,
}

/// Forward speed label of a window.
pub open spec fn v_label_of(
    pwm_l: i32,
    pwm_r: i32,
    us_start: Option<u64>,
    us_end: Option<u64>,
    dt_us: u64,
    pan_mdeg: i32,
) -> VLabel {
    if !is_straight(pwm_l, pwm_r, pan_mdeg) {
        VLabel::NotStraight
    } else {
        match (us_start, us_end) {
            (Some(a), Some(b)) => {
                if !in_range(a) || !in_range(b) {
                    VLabel::OutOfRange
                } else if against(course_of(pwm_l, pwm_r), b - a) {
                    VLabel::NonMonotonic
                } else if dt_us < MIN_WINDOW_US {
                    VLabel::TooShort
                } else {
                    VLabel::Speed(speed(a, b, dt_us) as i64)
                }
            },
            _ => VLabel::NoReading,
        }
    }
}

/// Forward speed label of a window, from the distances at its ends.
pub fn v_label(
    pwm_l: i32,
    pwm_r: i32,
    us_start: Option<u64>,
    us_end: Option<u64>,
    dt_us: u64,
    pan_mdeg: i32,
) -> (r: VLabel)
    requires
        dt_us <= i64::MAX,
    ensures
        r == v_label_of(pwm_l, pwm_r, us_start, us_end, dt_us, pan_mdeg),
        r matches VLabel::Speed(v) ==> v == speed(us_start->Some_0, us_end->Some_0, dt_us),
{
    if !straight(pwm_l, pwm_r, pan_mdeg) {
        return VLabel::NotStraight;
    }
    match (us_start, us_end) {
        (Some(a), Some(b)) => {
            if a < 80_000 || a > 800_000 || b < 80_000 || b > 800_000 {
                return VLabel::OutOfRange;
            }
            let c: Course = course(pwm_l, pwm_r);
            if went_against(c, a, b) {
                return VLabel::NonMonotonic;
            }
            if dt_us < MIN_WINDOW_US {
                return VLabel::TooShort;
            }
            VLabel::Speed(speed_between(a, b, dt_us))
        },
        _ => VLabel::NoReading,
    }
}

/// Counts of a label's rejection. A missing reading and a window that is too short
/// count as out of range.
pub open spec fn counted(c: RejectionCounts, l: VLabel) -> RejectionCounts {
    match l {
        VLabel::NotStraight => RejectionCounts {
            v_not_straight: (c.v_not_straight + 1) as u64,
            ..c
        },
        VLabel::OutOfRange | VLabel::NoReading | VLabel::TooShort => RejectionCounts {
            v_out_of_range: (c.v_out_of_range + 1) as u64,
            ..c
        },
        VLabel::NonMonotonic => RejectionCounts {
            v_non_monotonic: (c.v_non_monotonic + 1) as u64,
            ..c
        },
        VLabel::Speed(_) => c,
    }
}

/// Windows rejected for want of a forward speed.
pub open spec fn v_rejections(c: RejectionCounts) -> int {
    c.v_out_of_range + c.v_not_straight + c.v_non_monotonic
}

/// One inertial sample of a window: turning speed about the vertical, bias
/// removed (microradians per second), and acceleration (micrometres per second
/// squared).
#[derive(Debug, Clone, Copy, PartialEq, Eq, Structural)]
pub struct InertialSample {
    pub omega_z: i32,
    pub ax: i32,
    pub ay: i32,
    pub az: i32,
}

/// The turn of a sample is too fast.
pub open spec fn turns_too_fast(s: InertialSample) -> bool {
    s.omega_z > GYRO_SPIKE_URAD_S || s.omega_z < -GYRO_SPIKE_URAD_S
}

/// Squared magnitude of a sample's acceleration.
pub open spec fn accel2(s: InertialSample) -> int {
    s.ax * s.ax + s.ay * s.ay + s.az * s.az
}

/// The acceleration of a sample is more than 3 m/s2 from gravity in magnitude.
pub open spec fn jolts(s: InertialSample) -> bool {
    accel2(s) > 12_806_650 * 12_806_650 || accel2(s) < 6_806_650 * 6_806_650
}

/// Some of the first `n` samples turns too fast.
pub open spec fn any_fast_turn(s: Seq<InertialSample>, n: int) -> bool {
    exists|i: int| 0 <= i < n && turns_too_fast(#[trigger] s[i])
}

/// Some of the first `n` samples jolts.
pub open spec fn any_jolt(s: Seq<InertialSample>, n: int) -> bool {
    exists|i: int| 0 <= i < n && jolts(#[trigger] s[i])
}

/// Sum of the turning speeds of the first `n` samples.
pub open spec fn omega_sum(s: Seq<InertialSample>, n: nat) -> int
    decreases n,
{
    if n == 0 {
        0
    } else {
        omega_sum(s, (n - 1) as nat) + s[n - 1].omega_z
    }
}

/// What the samples of a window say.
#[derive(Debug, Clone, Copy, PartialEq, Eq, Structural)]
pub struct WindowScan {
    pub gyro_spike: bool,
    pub accel_spike: bool,
    /// Mean turning speed, rounded towards zero; 0 without samples.
    pub omega_mean: i64,
}

/// Mean turning speed of a window.
pub open spec fn omega_mean_of(s: Seq<InertialSample>) -> int {
    if s.len() == 0 {
        0
    } else {
        trunc_div(omega_sum(s, s.len()), s.len() as int)
    }
}

fn sample_jolts(s: InertialSample) -> (r: bool)
    ensures
        r == jolts(s),
{
    assert(0 <= s.ax * s.ax <= 0x8000_0000 * 0x8000_0000) by (nonlinear_arith)
        requires
            -0x8000_0000 <= s.ax <= 0x8000_0000,
    ;
    assert(0 <= s.ay * s.ay <= 0x8000_0000 * 0x8000_0000) by (nonlinear_arith)
        requires
            -0x8000_0000 <= s.ay <= 0x8000_0000,
    ;
    assert(0 <= s.az * s.az <= 0x8000_0000 * 0x8000_0000) by (nonlinear_arith)
        requires
            -0x8000_0000 <= s.az <= 0x8000_0000,
    ;
    let a2: i128 = s.ax as i128 * s.ax as i128 + s.ay as i128 * s.ay as i128 + s.az as i128
        * s.az as i128;
    let hi: i128 = G + ACCEL_DEV_FROM_G;
    let lo: i128 = G - ACCEL_DEV_FROM_G;
    a2 > hi * hi || a2 < lo * lo
}

/// A mean is no farther from zero than its terms.
proof fn lemma_mean_in_range(sum: int, n: int, bound: int)
    requires
        n > 0,
        -bound * n <= sum <= bound * n,
        bound >= 0,
    ensures
        -bound <= trunc_div(sum, n) <= bound,
{
    let m = if sum >= 0 {
        sum
    } else {
        -sum
    };
    assert(0 <= m / n <= bound) by (nonlinear_arith)
        requires
            m == sum || m == -sum,
            0 <= m,
            -bound * n <= sum <= bound * n,
            n > 0,
    ;
}

/// Scans the samples of a window for spikes and takes their mean turning speed.
pub fn scan_window(samples: &[InertialSample]) -> (r: WindowScan)
    ensures
        r.gyro_spike == any_fast_turn(samples@, samples@.len() as int),
        r.accel_spike == any_jolt(samples@, samples@.len() as int),
        r.omega_mean == omega_mean_of(samples@),
{
    let mut gyro_spike = false;
    let mut accel_spike = false;
    let mut sum: i128 = 0;
    let n: usize = samples.len();
    let mut i: usize = 0;
    while i < n
        invariant
            i <= n,
            n == samples@.len(),
            gyro_spike == any_fast_turn(samples@, i as int),
            accel_spike == any_jolt(samples@, i as int),
            sum == omega_sum(samples@, i as nat),
            -0x8000_0000 * i <= sum <= 0x8000_0000 * i,
        decreases n - i,
    {
        let s: InertialSample = samples[i];
        let ghost was_fast = gyro_spike;
        let ghost was_jolt = accel_spike;
        if s.omega_z > GYRO_SPIKE_URAD_S || s.omega_z < -GYRO_SPIKE_URAD_S {
            gyro_spike = true;
        }
        if sample_jolts(s) {
            accel_spike = true;
        }
        sum = sum + s.omega_z as i128;
        proof {
            if gyro_spike {
                if was_fast {
                    let k = choose|k: int| 0 <= k < i && turns_too_fast(#[trigger] samples@[k]);
                    assert(turns_too_fast(samples@[k]));
                } else {
                    assert(turns_too_fast(samples@[i as int]));
                }
                assert(any_fast_turn(samples@, i + 1));
            }
            if accel_spike {
                if was_jolt {
                    let k = choose|k: int| 0 <= k < i && jolts(#[trigger] samples@[k]);
                    assert(jolts(samples@[k]));
                } else {
                    assert(jolts(samples@[i as int]));
                }
                assert(any_jolt(samples@, i + 1));
            }
        }
        i = i + 1;
    }
    let omega_mean: i64 = if n == 0 {
        0
    } else {
        proof {
            lemma_mean_in_range(sum as int, n as int, 0x8000_0000);
        }
        div_wide_to_zero(sum, n as i128) as i64
    };
    WindowScan { gyro_spike, accel_spike, omega_mean }
}

/// One training window. The target is the measured motion; without a forward
/// speed label it holds the last measured one instead.
#[derive(Debug, Clone, Copy, PartialEq, Eq, Structural)]
pub struct LabelWindow {
    pub pwm_l_prev: i32,
    pub pwm_r_prev: i32,
    pub v_prev: i64,
    pub omega_prev: i64,
    pub battery_mv: i32,
    pub v_target: i64,
    pub omega_target: i64,
    pub pwm_l_obs: i32,
    pub pwm_r_obs: i32,
    pub v_label_present: bool,
    pub dt_us: u64,
}

/// State of the labeller between windows.
#[derive(Debug, Clone, Copy, PartialEq, Eq, Structural)]
pub struct LabelWorker {
    pub window_start_us: u64,
    /// Distance at the start of the window.
    pub initial_us: Option<u64>,
    pub prev_pwm_l: i32,
    pub prev_pwm_r: i32,
    pub prev_v: i64,
    pub prev_omega: i64,
    pub stats: LabelStats,
}

/// What is read at the end of a window.
#[derive(Debug, Clone, Copy, PartialEq, Eq, Structural)]
pub struct WindowEnd {
    pub now_us: u64,
    pub us: Option<u64>,
    pub pwm_l: i32,
    pub pwm_r: i32,
    pub pan_mdeg: i32,
    pub battery_mv: i32,
}

/// Length of a window.
pub open spec fn window_len(start_us: u64, now_us: u64) -> u64 {
    if now_us > start_us {
        (now_us - start_us) as u64
    } else {
        0
    }
}

/// The labeller with the next window begun.
pub open spec fn begun(w: LabelWorker, e: WindowEnd) -> LabelWorker {
    LabelWorker { window_start_us: e.now_us, initial_us: e.us, ..w }
}

/// The labeller after a window, and the window if it was used.
pub open spec fn label_step(w: LabelWorker, samples: Seq<InertialSample>, e: WindowEnd) -> (
    LabelWorker,
    Option<LabelWindow>,
) {
    let fast = any_fast_turn(samples, samples.len() as int);
    let jolt = any_jolt(samples, samples.len() as int);
    let dt = window_len(w.window_start_us, e.now_us);
    let c = w.stats.rejections;
    if fast || jolt {
        let counts = RejectionCounts {
            gyro_spike: if fast {
                (c.gyro_spike + 1) as u64
            } else {
                c.gyro_spike
            },
            accel_spike: if jolt {
                (c.accel_spike + 1) as u64
            } else {
                c.accel_spike
            },
            ..c
        };
        (
            begun(LabelWorker { stats: LabelStats { rejections: counts, ..w.stats }, ..w }, e),
            None,
        )
    } else if samples.len() == 0 || dt < MIN_WINDOW_US {
        (begun(w, e), None)
    } else {
        let label = v_label_of(e.pwm_l, e.pwm_r, w.initial_us, e.us, dt, e.pan_mdeg);
        let omega = omega_mean_of(samples) as i64;
        let v = match label {
            VLabel::Speed(x) => x,
            _ => w.prev_v,
        };
        (
            begun(
                LabelWorker {
                    prev_pwm_l: e.pwm_l,
                    prev_pwm_r: e.pwm_r,
                    prev_v: v,
                    prev_omega: omega,
                    stats: LabelStats {
                        samples_observed: (w.stats.samples_observed + 1) as u64,
                        samples_v_labelled: if label is Speed {
                            (w.stats.samples_v_labelled + 1) as u64
                        } else {
                            w.stats.samples_v_labelled
                        },
                        rejections: counted(c, label),
                    },
                    ..w
                },
                e,
            ),
            Some(
                LabelWindow {
                    pwm_l_prev: w.prev_pwm_l,
                    pwm_r_prev: w.prev_pwm_r,
                    v_prev: w.prev_v,
                    omega_prev: w.prev_omega,
                    battery_mv: e.battery_mv,
                    v_target: v,
                    omega_target: omega,
                    pwm_l_obs: e.pwm_l,
                    pwm_r_obs: e.pwm_r,
                    v_label_present: label is Speed,
                    dt_us: dt,
                },
            ),
        )
    }
}

impl LabelWorker {
    /// A labeller that starts its first window.
    pub fn new(now_us: u64, us: Option<u64>) -> (r: Self)
        ensures
            r.window_start_us == now_us,
            r.initial_us == us,
            r.prev_pwm_l == 0 && r.prev_pwm_r == 0 && r.prev_v == 0 && r.prev_omega == 0,
            r.stats.samples_observed == 0 && r.stats.samples_v_labelled == 0,
            r.stats.rejections == zero_counts(),
    {
        LabelWorker {
            window_start_us: now_us,
            initial_us: us,
            prev_pwm_l: 0,
            prev_pwm_r: 0,
            prev_v: 0,
            prev_omega: 0,
            stats: LabelStats::default(),
        }
    }

    fn advance_window(&mut self, e: WindowEnd)
        ensures
            *final(self) == begun(*old(self), e),
    {
        self.window_start_us = e.now_us;
        self.initial_us = e.us;
    }

    /// Forward speed of a window from the distances at its ends, where the window
    /// is straight, in range and consistent with the commanded direction. Where it
    /// is not, one rejection counter tells why.
    pub fn try_v_label(
        &mut self,
        pwm_l: i32,
        pwm_r: i32,
        us_start: Option<u64>,
        us_end: Option<u64>,
        dt_us: u64,
        pan_mdeg: i32,
    ) -> (r: Option<i64>)
        requires
            dt_us <= i64::MAX,
            old(self).stats.has_room(),
        ensures
            ({
                let label = v_label_of(pwm_l, pwm_r, us_start, us_end, dt_us, pan_mdeg);
                &&& r == (match label {
                    VLabel::Speed(v) => Some(v),
                    _ => None,
                })
                &&& r matches Some(v) ==> v == speed(us_start->Some_0, us_end->Some_0, dt_us)
                &&& *final(self) == (LabelWorker {
                    stats: LabelStats {
                        rejections: counted(old(self).stats.rejections, label),
                        ..old(self).stats
                    },
                    ..*old(self)
                })
            }),
            v_rejections(final(self).stats.rejections) == v_rejections(
                old(self).stats.rejections,
            ) + (if r is None {
                1int
            } else {
                0
            }),
    {
        match v_label(pwm_l, pwm_r, us_start, us_end, dt_us, pan_mdeg) {
            VLabel::Speed(v) => Some(v),
            VLabel::NotStraight => {
                self.stats.rejections.v_not_straight = self.stats.rejections.v_not_straight + 1;
                None
            },
            VLabel::NonMonotonic => {
                self.stats.rejections.v_non_monotonic = self.stats.rejections.v_non_monotonic + 1;
                None
            },
            VLabel::OutOfRange | VLabel::NoReading | VLabel::TooShort => {
                self.stats.rejections.v_out_of_range = self.stats.rejections.v_out_of_range + 1;
                None
            },
        }
    }

    /// Ends a window and begins the next. Returns the window if it can be
    /// learned from.
    pub fn tick(&mut self, samples: &[InertialSample], e: WindowEnd) -> (r: Option<LabelWindow>)
        requires
            old(self).stats.has_room(),
            e.now_us <= i64::MAX,
        ensures
            (*final(self), r) == label_step(*old(self), samples@, e),
    {
        let dt: u64 = if e.now_us > self.window_start_us {
            e.now_us - self.window_start_us
        } else {
            0
        };
        let scan: WindowScan = scan_window(samples);
        if scan.gyro_spike || scan.accel_spike {
            if scan.gyro_spike {
                self.stats.rejections.gyro_spike = self.stats.rejections.gyro_spike + 1;
            }
            if scan.accel_spike {
                self.stats.rejections.accel_spike = self.stats.rejections.accel_spike + 1;
            }
            self.advance_window(e);
            return None;
        }
        if samples.len() == 0 || dt < MIN_WINDOW_US {
            self.advance_window(e);
            return None;
        }
        let measured: Option<i64> = self.try_v_label(
            e.pwm_l,
            e.pwm_r,
            self.initial_us,
            e.us,
            dt,
            e.pan_mdeg,
        );
        let (v, present): (i64, bool) = match measured {
            Some(x) => (x, true),
            None => (self.prev_v, false),
        };
        let window = LabelWindow {
            pwm_l_prev: self.prev_pwm_l,
            pwm_r_prev: self.prev_pwm_r,
            v_prev: self.prev_v,
            omega_prev: self.prev_omega,
            battery_mv: e.battery_mv,
            v_target: v,
            omega_target: scan.omega_mean,
            pwm_l_obs: e.pwm_l,
            pwm_r_obs: e.pwm_r,
            v_label_present: present,
            dt_us: dt,
        };
        self.stats.samples_observed = self.stats.samples_observed + 1;
        if present {
            self.stats.samples_v_labelled = self.stats.samples_v_labelled + 1;
        }
        self.prev_pwm_l = e.pwm_l;
        self.prev_pwm_r = e.pwm_r;
        self.prev_omega = scan.omega_mean;
        self.prev_v = v;
        self.advance_window(e);
        Some(window)
    }
}

/// One bad sample is enough to drop a whole window, and nothing is carried over
/// from it but the new start.
pub proof fn law_one_spike_drops_the_window(
    w: LabelWorker,
    samples: Seq<InertialSample>,
    e: WindowEnd,
    i: int,
)
    requires
        0 <= i < samples.len(),
        turns_too_fast(samples[i]) || jolts(samples[i]),
    ensures
        label_step(w, samples, e).1 is None,
        label_step(w, samples, e).0.prev_v == w.prev_v,
        label_step(w, samples, e).0.prev_omega == w.prev_omega,
        label_step(w, samples, e).0.window_start_us == e.now_us,
{
}

/// Labelled windows are never counted without being observed.
pub proof fn law_labelled_is_observed(w: LabelWorker, samples: Seq<InertialSample>, e: WindowEnd)
    requires
        w.stats.has_room(),
        w.stats.samples_v_labelled <= w.stats.samples_observed,
    ensures
        label_step(w, samples, e).0.stats.samples_v_labelled <= label_step(
            w,
            samples,
            e,
        ).0.stats.samples_observed,
{
}

/// Of the windows that are used, each without a forward speed makes exactly one
/// rejection counter grow, by one, and each with one makes none grow; the counters
/// of dropped windows stay.
pub proof fn law_unlabelled_is_counted(w: LabelWorker, samples: Seq<InertialSample>, e: WindowEnd)
    requires
        w.stats.has_room(),
        label_step(w, samples, e).1 is Some,
    ensures
        ({
            let c = w.stats.rejections;
            let after = label_step(w, samples, e).0.stats.rejections;
            let labelled = label_step(w, samples, e).1->Some_0.v_label_present;
            &&& labelled ==> after == c
            &&& !labelled ==> v_rejections(after) == v_rejections(c) + 1
            &&& after.v_out_of_range >= c.v_out_of_range
            &&& after.v_not_straight >= c.v_not_straight
            &&& after.v_non_monotonic >= c.v_non_monotonic
            &&& after.gyro_spike == c.gyro_spike
            &&& after.accel_spike == c.accel_spike
        }),
{
}

/// A pan servo off centre never gives a forward speed.
pub proof fn law_pan_off_centre_gives_no_speed(
    pwm_l: i32,
    pwm_r: i32,
    us_start: Option<u64>,
    us_end: Option<u64>,
    dt_us: u64,
    pan_mdeg: i32,
)
    requires
        pan_mdeg < 85_000 || pan_mdeg > 95_000,
    ensures
        v_label_of(pwm_l, pwm_r, us_start, us_end, dt_us, pan_mdeg) == VLabel::NotStraight,
{
}

/// A window is labelled exactly where it drove straight with the sensor ahead, both
/// readings count, the distance did not go against the command, and it lasted 50 ms; the
/// label is then how fast the distance shrank.
pub proof fn law_when_a_window_is_labelled(
    pwm_l: i32,
    pwm_r: i32,
    a: u64,
    b: u64,
    dt_us: u64,
    pan_mdeg: i32,
)
    ensures
        v_label_of(pwm_l, pwm_r, Some(a), Some(b), dt_us, pan_mdeg) is Speed <==> {
            &&& pwm_l - pwm_r < 200 && pwm_r - pwm_l < 200
            &&& 85_000 <= pan_mdeg <= 95_000
            &&& 80_000 <= a <= 800_000 && 80_000 <= b <= 800_000
            &&& pwm_l + pwm_r >= 402 ==> b <= a + 10_000
            &&& pwm_l + pwm_r <= -402 ==> a <= b + 10_000
            &&& dt_us >= 50_000
        },
        !(v_label_of(pwm_l, pwm_r, None, Some(b), dt_us, pan_mdeg) is Speed),
        !(v_label_of(pwm_l, pwm_r, Some(a), None, dt_us, pan_mdeg) is Speed),
        v_label_of(pwm_l, pwm_r, Some(a), Some(b), dt_us, pan_mdeg) matches VLabel::Speed(v)
            ==> v == speed(a, b, dt_us),
{
    crate::motion::gate::law_course_goes_by_both_sides(pwm_l, pwm_r);
    if 80_000 <= a <= 800_000 && 80_000 <= b <= 800_000 && dt_us >= 50_000 {
        crate::motion::gate::law_speed_makes_the_way(a, b, dt_us);
        let (s, d, w) = (speed(a, b, dt_us), dt_us as int, (a - b) * 1_000_000);
        assert(-14_500_000 <= s <= 14_500_000) by (nonlinear_arith)
            requires
                d >= 50_000,
                -720_000_000_000 <= w <= 720_000_000_000,
                w >= 0 ==> s * d <= w < s * d + d,
                w <= 0 ==> s * d - d < w <= s * d,
        ;
    }
}

/// A turn is too fast beyond 5 rad/s, either way.
pub proof fn law_fast_turn_either_way(s: InertialSample)
    ensures
        turns_too_fast(s) <==> s.omega_z > 5_000_000 || s.omega_z < -5_000_000,
{
}

/// A jolt is a matter of the magnitude alone: it does not matter which way the
/// acceleration points. Along one axis it is one beyond 3 m/s2 from gravity.
pub proof fn law_jolt_goes_by_magnitude(s: InertialSample, t: InertialSample)
    requires
        s.ax > i32::MIN,
    ensures
        t.ax == s.ay && t.ay == s.az && t.az == s.ax ==> jolts(t) == jolts(s),
        t.ax == -s.ax && t.ay == s.ay && t.az == s.az ==> jolts(t) == jolts(s),
        t.ax == s.ay && t.ay == s.ax && t.az == s.az ==> jolts(t) == jolts(s),
        s.ax == 0 && s.ay == 0 && s.az >= 0 ==> (jolts(s) <==> s.az > 9_806_650 + 3_000_000 || s.az
            < 9_806_650 - 3_000_000),
{
    let (a, z) = (s.ax as int, s.az as int);
    assert((-a) * (-a) == a * a) by (nonlinear_arith);
    if s.ax == 0 && s.ay == 0 && z >= 0 {
        assert(0 * 0 == 0);
        assert((z > 12_806_650 <==> z * z > 12_806_650 * 12_806_650) && (z < 6_806_650 <==> z * z
            < 6_806_650 * 6_806_650)) by (nonlinear_arith)
            requires
                z >= 0,
        ;
    }
}

/// One bad sample anywhere in a window is noticed, and a window of good ones is clean.
pub proof fn law_spikes_are_noticed(s: Seq<InertialSample>, i: int)
    requires
        0 <= i < s.len(),
    ensures
        turns_too_fast(s[i]) ==> any_fast_turn(s, s.len() as int),
        jolts(s[i]) ==> any_jolt(s, s.len() as int),
        (forall|j: int| 0 <= j < s.len() ==> !turns_too_fast(#[trigger] s[j])) ==> !any_fast_turn(
            s,
            s.len() as int,
        ),
        (forall|j: int| 0 <= j < s.len() ==> !jolts(#[trigger] s[j])) ==> !any_jolt(
            s,
            s.len() as int,
        ),
{
}

/// Every sample counts in the turning speed of a window, by exactly its own: changing one
/// changes the sum by as much. The mean makes the sum, to rounding.
pub proof fn law_every_turn_counts(s: Seq<InertialSample>, i: int, t: InertialSample)
    requires
        0 <= i < s.len(),
    ensures
        omega_sum(s.update(i, t), s.len()) == omega_sum(s, s.len()) - s[i].omega_z + t.omega_z,
        -s.len() < omega_sum(s, s.len()) - omega_mean_of(s) * s.len() < s.len(),
{
    lemma_one_turn(s, i, t, s.len());
    let n = s.len() as int;
    let sum = omega_sum(s, s.len());
    let m = if sum >= 0 {
        sum
    } else {
        -sum
    };
    vstd::arithmetic::div_mod::lemma_fundamental_div_mod(m, n);
    let q = m / n;
    assert(0 <= m - q * n < n && (-q) * n == -(q * n)) by (nonlinear_arith)
        requires
            m == n * q + m % n,
            0 <= m % n < n,
    ;
}

proof fn lemma_one_turn(s: Seq<InertialSample>, i: int, t: InertialSample, n: nat)
    requires
        0 <= i < s.len(),
        n <= s.len(),
    ensures
        omega_sum(s.update(i, t), n) == omega_sum(s, n) + if i < n {
            t.omega_z - s[i].omega_z
        } else {
            0
        },
    decreases n,
{
    if n > 0 {
        lemma_one_turn(s, i, t, (n - 1) as nat);
    }
}

/// Windows chain: what one used window observed is what the next one starts from, and a
/// window ends where the next begins.
pub proof fn law_windows_chain(
    w: LabelWorker,
    samples: Seq<InertialSample>,
    e: WindowEnd,
    more: Seq<InertialSample>,
    f: WindowEnd,
)
    requires
        label_step(w, samples, e).1 is Some,
        label_step(label_step(w, samples, e).0, more, f).1 is Some,
    ensures
        ({
            let a = label_step(w, samples, e).1->Some_0;
            let b = label_step(label_step(w, samples, e).0, more, f).1->Some_0;
            &&& b.pwm_l_prev == a.pwm_l_obs && b.pwm_r_prev == a.pwm_r_obs
            &&& b.v_prev == a.v_target && b.omega_prev == a.omega_target
            &&& b.dt_us == f.now_us - e.now_us
            &&& a.pwm_l_obs == e.pwm_l && a.pwm_r_obs == e.pwm_r && a.battery_mv == e.battery_mv
            &&& a.omega_target == omega_mean_of(samples) as i64
            &&& !b.v_label_present ==> b.v_target == a.v_target
            &&& b.v_label_present ==> e.us is Some && f.us is Some && b.v_target == speed(
                e.us->Some_0,
                f.us->Some_0,
                b.dt_us,
            )
        }),
{
    let mid = label_step(w, samples, e).0;
    let dt = window_len(mid.window_start_us, f.now_us);
    if e.us is Some && f.us is Some {
        law_when_a_window_is_labelled(
            f.pwm_l,
            f.pwm_r,
            e.us->Some_0,
            f.us->Some_0,
            dt,
            f.pan_mdeg,
        );
    }
}

/// A window without samples, or shorter than 50 ms, is dropped without a count; one with a
/// spike is counted once for each kind.
pub proof fn law_dropped_windows(w: LabelWorker, samples: Seq<InertialSample>, e: WindowEnd)
    requires
        w.stats.has_room(),
        label_step(w, samples, e).1 is None,
    ensures
        ({
            let (c, after) = (w.stats, label_step(w, samples, e).0.stats);
            &&& after.samples_observed == c.samples_observed
            &&& after.samples_v_labelled == c.samples_v_labelled
            &&& after.rejections.gyro_spike == c.rejections.gyro_spike + (if any_fast_turn(
                samples,
                samples.len() as int,
            ) {
                1int
            } else {
                0
            })
            &&& after.rejections.accel_spike == c.rejections.accel_spike + (if any_jolt(
                samples,
                samples.len() as int,
            ) {
                1int
            } else {
                0
            })
            &&& v_rejections(after.rejections) == v_rejections(c.rejections)
        }),
        any_fast_turn(samples, samples.len() as int) || any_jolt(samples, samples.len() as int)
            || samples.len() == 0 || e.now_us - w.window_start_us < 50_000,
        label_step(w, samples, e).0.initial_us == e.us,
{
}

/// No rejection is counted at first, for any reason.
pub proof fn law_no_rejection_at_first()
    ensures
        ({
            let z = zero_counts();
            &&& z.gyro_spike == 0 && z.accel_spike == 0
            &&& z.v_out_of_range == 0 && z.v_not_straight == 0 && z.v_non_monotonic == 0
        }),
{
}

/// Without a sample there is no turning; otherwise the mean is the sum of all of them shared
/// out over their number, towards zero. A window that ends before it begins has no length.
pub proof fn law_mean_turn(s: Seq<InertialSample>, start_us: u64, now_us: u64)
    ensures
        s.len() == 0 ==> omega_mean_of(s) == 0,
        s.len() > 0 && omega_sum(s, s.len()) >= 0 ==> s.len() * omega_mean_of(s) <= omega_sum(
            s,
            s.len(),
        ) < s.len() * omega_mean_of(s) + s.len(),
        s.len() > 0 && omega_sum(s, s.len()) <= 0 ==> s.len() * omega_mean_of(s) - s.len()
            < omega_sum(s, s.len()) <= s.len() * omega_mean_of(s),
        start_us <= now_us ==> start_us + window_len(start_us, now_us) == now_us,
        start_us >= now_us ==> window_len(start_us, now_us) == 0,
{
    if s.len() > 0 {
        law_quotient_towards_zero(omega_sum(s, s.len()), s.len() as int);
    }
}

} // verus!
