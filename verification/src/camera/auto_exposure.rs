//! Exposure rules: brightness measurement and the stepping of exposure and gain.
use crate::math::{div_wide_to_zero, trunc_div};
use vstd::prelude::*;

verus! {

/// Luma is sampled at every this many bytes; an even step lands on Y bytes.
pub const LUMA_STEP: usize = 128;

/// Mean that an empty buffer counts as.
pub const MID_LUMA: u8 = 128;

/// Sum of the bytes at the first `n` sample points.
pub open spec fn sample_sum(data: Seq<u8>, n: nat) -> nat
    decreases n,
{
    if n == 0 {
        0
    } else {
        sample_sum(data, (n - 1) as nat) + data[(n - 1) * 128] as nat
    }
}

/// Number of sample points in a buffer of this length.
pub open spec fn sample_count(len: nat) -> nat {
    (len + 127) / 128
}

proof fn lemma_sum_bound(data: Seq<u8>, n: nat)
    ensures
        sample_sum(data, n) <= 255 * n,
    decreases n,
{
    if n > 0 {
        lemma_sum_bound(data, (n - 1) as nat);
    }
}

/// Mean luma of YUYV data, sampled at every 128th byte (rounded down); mid grey
/// for an empty buffer.
pub fn mean_luma(data: &[u8]) -> (r: u8)
    ensures
        data@.len() == 0 ==> r == MID_LUMA,
        data@.len() > 0 ==> r == sample_sum(data@, sample_count(data@.len())) / sample_count(
            data@.len(),
        ),
{
    let len: usize = data.len();
    if len == 0 {
        return MID_LUMA;
    }
    let mut sum: u128 = 0;
    let mut count: u128 = 0;
    let n: usize = (len - 1) / LUMA_STEP + 1;
    let mut k: usize = 0;
    while k < n
        invariant
            k <= n,
            len == data@.len(),
            len > 0,
            n == (len - 1) / 128 + 1,
            count == k,
            sum == sample_sum(data@, k as nat),
        decreases n - k,
    {
        proof {
            lemma_sum_bound(data@, k as nat);
        }
        sum = sum + data[k * LUMA_STEP] as u128;
        count = count + 1;
        k = k + 1;
    }
    assert(n == sample_count(len as nat));
    proof {
        lemma_sum_bound(data@, n as nat);
        let s = sum as int;
        let c = count as int;
        vstd::arithmetic::div_mod::lemma_fundamental_div_mod(s, c);
        let q = s / c;
        assert(q <= 255) by (nonlinear_arith)
            requires
                s == c * q + s % c,
                0 <= s % c,
                s <= 255 * c,
                c > 0,
        ;
    }
    (sum / count) as u8
}

/// Sample points are the bytes at multiples of 128, all of them.
pub proof fn law_sample_points(len: nat, i: int)
    requires
        0 <= i,
    ensures
        128 * sample_count(len) >= len,
        len > 0 ==> 128 * (sample_count(len) - 1) < len,
        i < sample_count(len) <==> 128 * i < len,
{
}

/// Every sample point counts, by exactly its own level: raising the byte at a sample
/// point raises the sum over the buffer by as much, wherever the point is; no other byte
/// counts.
pub proof fn law_every_sample_counts(data: Seq<u8>, i: int, level: u8)
    requires
        0 <= i < data.len(),
    ensures
        ({
            let n = sample_count(data.len());
            let before = sample_sum(data, n) as int;
            let after = sample_sum(data.update(i, level), n) as int;
            after - before == if i % 128 == 0 {
                level - data[i]
            } else {
                0
            }
        }),
{
    lemma_one_sample(data, i, level, sample_count(data.len()));
}

proof fn lemma_one_sample(data: Seq<u8>, i: int, level: u8, n: nat)
    requires
        0 <= i < data.len(),
        n <= sample_count(data.len()),
    ensures
        sample_sum(data.update(i, level), n) as int - sample_sum(data, n) as int == if i % 128 == 0
            && i < 128 * n {
            level - data[i]
        } else {
            0
        },
    decreases n,
{
    if n > 0 {
        lemma_one_sample(data, i, level, (n - 1) as nat);
    }
}

/// Sampled bytes of one level have that level as their mean, whatever the rest is; and a
/// mean never leaves the range of the sampled bytes.
pub proof fn law_mean_is_a_mean(data: Seq<u8>, lo: u8, hi: u8)
    requires
        data.len() > 0,
        forall|i: int| 0 <= i < data.len() && i % 128 == 0 ==> lo <= #[trigger] data[i] <= hi,
    ensures
        lo <= sample_sum(data, sample_count(data.len())) / sample_count(data.len()) <= hi,
{
    let n = sample_count(data.len());
    lemma_sum_between(data, n, lo, hi);
    let (s, c) = (sample_sum(data, n) as int, n as int);
    vstd::arithmetic::div_mod::lemma_fundamental_div_mod(s, c);
    let q = s / c;
    assert(lo <= q <= hi) by (nonlinear_arith)
        requires
            s == c * q + s % c,
            0 <= s % c < c,
            lo * c <= s <= hi * c,
            c > 0,
    ;
}

proof fn lemma_sum_between(data: Seq<u8>, n: nat, lo: u8, hi: u8)
    requires
        n <= sample_count(data.len()),
        forall|i: int| 0 <= i < data.len() && i % 128 == 0 ==> lo <= #[trigger] data[i] <= hi,
    ensures
        lo * n <= sample_sum(data, n) <= hi * n,
    decreases n,
{
    if n > 0 {
        lemma_sum_between(data, (n - 1) as nat, lo, hi);
        let i = (n - 1) * 128;
        assert(i % 128 == 0 && i < data.len());
        assert(lo <= data[i] <= hi);
        assert(lo * n == lo * (n - 1) + lo && hi * n == hi * (n - 1) + hi) by (nonlinear_arith);
    } else {
        assert(lo * 0 == 0 && hi * 0 == 0) by (nonlinear_arith);
    }
}

// ── Exposure stepping ─────────────────────────────────────────────────────────

pub const AE_DEADZONE: i32 = 10;

pub const AE_EXPOSURE_STEP_US: i32 = 200;

pub const AE_MIN_EXPOSURE_US: i32 = 500;

/// Smallest gain, in quarter steps.
pub const AE_MIN_GAIN_Q: i32 = 4;

#[derive(Debug, Clone, Copy, PartialEq, Eq, Structural)]
pub enum ExposureMode {
    Auto,
    Manual,
}

/// Exposure limits and the current setting. Gain is counted in quarters, the
/// size of one gain step.
#[derive(Debug, Clone, Copy, PartialEq, Eq, Structural)]
pub struct ExposureConfig {
    pub mode: ExposureMode,
    /// Target brightness (0..=255).
    pub target_luma: u8,
    /// Ceiling for exposure (us). Keeps motion blur bounded.
    pub max_exposure_us: i32,
    /// Ceiling for gain.
    pub max_gain_q: i32,
    pub manual_exposure_us: i32,
    pub manual_gain_q: i32,
    pub current_exposure_us: i32,
    pub current_gain_q: i32,
    pub current_luma: u8,
    /// Smoothed luma in thousandths; 0 before the first frame.
    pub luma_ema_ml: u32,
}

impl Default for ExposureConfig {
    fn default() -> (r: Self)
        ensures
            r == (ExposureConfig {
                mode: ExposureMode::Auto,
                target_luma: 128,
                max_exposure_us: 100_000,
                max_gain_q: 64,
                manual_exposure_us: 8_000,
                manual_gain_q: 32,
                current_exposure_us: 8_000,
                current_gain_q: 32,
                current_luma: 0,
                luma_ema_ml: 0,
            }),
    {
        ExposureConfig {
            mode: ExposureMode::Auto,
            target_luma: 128,
            max_exposure_us: 100_000,
            max_gain_q: 64,
            manual_exposure_us: 8_000,
            manual_gain_q: 32,
            current_exposure_us: 8_000,
            current_gain_q: 32,
            current_luma: 0,
            luma_ema_ml: 0,
        }
    }
}

/// Exposure and gain after one step against a smoothed luma: nothing inside
/// the dead zone; too dark raises the gain and, once that is at its ceiling,
/// the exposure; too bright lowers the exposure and, once that is at its
/// floor, the gain.
pub open spec fn stepped(cfg: ExposureConfig, luma: u8) -> (int, int) {
    let error = luma - cfg.target_luma;
    let (exp, gain) = (cfg.current_exposure_us as int, cfg.current_gain_q as int);
    if error < -AE_DEADZONE {
        if gain < cfg.max_gain_q {
            (exp, if gain + 1 < cfg.max_gain_q { gain + 1 } else { cfg.max_gain_q as int })
        } else {
            (
                if exp + AE_EXPOSURE_STEP_US < cfg.max_exposure_us {
                    exp + AE_EXPOSURE_STEP_US
                } else {
                    cfg.max_exposure_us as int
                },
                gain,
            )
        }
    } else if error > AE_DEADZONE {
        if exp > AE_MIN_EXPOSURE_US {
            (
                if exp - AE_EXPOSURE_STEP_US > AE_MIN_EXPOSURE_US {
                    exp - AE_EXPOSURE_STEP_US
                } else {
                    AE_MIN_EXPOSURE_US as int
                },
                gain,
            )
        } else {
            (exp, if gain - 1 > AE_MIN_GAIN_Q { gain - 1 } else { AE_MIN_GAIN_Q as int })
        }
    } else {
        (exp, gain)
    }
}

/// One step of the exposure control for the smoothed luma `luma`: raises gain
/// before exposure when dark, lowers exposure before gain when bright. Returns
/// the exposure (us) and gain (quarters) to apply.
pub fn exposure_step(cfg: &mut ExposureConfig, luma: u8) -> (r: (i32, i32))
    requires
        old(cfg).current_exposure_us <= i32::MAX - AE_EXPOSURE_STEP_US,
        old(cfg).current_gain_q > i32::MIN,
    ensures
        (r.0 as int, r.1 as int) == stepped(*old(cfg), luma),
        *final(cfg) == (ExposureConfig {
            current_luma: luma,
            current_exposure_us: r.0,
            current_gain_q: r.1,
            ..*old(cfg)
        }),
{
    let error: i32 = luma as i32 - cfg.target_luma as i32;
    cfg.current_luma = luma;
    if error < -AE_DEADZONE {
        if cfg.current_gain_q < cfg.max_gain_q {
            cfg.current_gain_q = cfg.current_gain_q + 1;
        } else {
            let next: i32 = cfg.current_exposure_us + AE_EXPOSURE_STEP_US;
            cfg.current_exposure_us =
            if next < cfg.max_exposure_us {
                next
            } else {
                cfg.max_exposure_us
            };
        }
    } else if error > AE_DEADZONE {
        if cfg.current_exposure_us > AE_MIN_EXPOSURE_US {
            let next: i32 = cfg.current_exposure_us - AE_EXPOSURE_STEP_US;
            cfg.current_exposure_us =
            if next > AE_MIN_EXPOSURE_US {
                next
            } else {
                AE_MIN_EXPOSURE_US
            };
        } else {
            let next: i32 = cfg.current_gain_q - 1;
            cfg.current_gain_q =
            if next > AE_MIN_GAIN_Q {
                next
            } else {
                AE_MIN_GAIN_Q
            };
        }
    }
    (cfg.current_exposure_us, cfg.current_gain_q)
}

/// Smoothed luma after one more frame, in thousandths, rounded down: 15 % of the
/// way to the frame's luma; the first frame's luma itself. It fades towards 0 but
/// does not get there, as 0 stands for no frame yet.
pub open spec fn luma_smoothed(prev_ml: u32, luma: u8) -> int {
    let next = (15 * (luma * 1000) + 85 * prev_ml) / 100;
    if prev_ml == 0 {
        luma * 1000
    } else if next == 0 {
        1
    } else {
        next
    }
}

impl ExposureConfig {
    /// The smoothed luma is a luma.
    pub open spec fn wf(&self) -> bool {
        self.luma_ema_ml <= 255_000
    }
}

/// One frame with the mean luma `luma`: smooths it, and then steps the exposure
/// control, or applies the manual setting as it is. Returns the exposure (us) and
/// gain (quarters) to apply.
pub fn capture_step(cfg: &mut ExposureConfig, luma: u8) -> (r: (i32, i32))
    requires
        old(cfg).wf(),
        old(cfg).mode == ExposureMode::Auto ==> old(cfg).current_exposure_us <= i32::MAX
            - AE_EXPOSURE_STEP_US && old(cfg).current_gain_q > i32::MIN,
    ensures
        final(cfg).wf(),
        ({
            let ema = luma_smoothed(old(cfg).luma_ema_ml, luma);
            let shown = (ema / 1000) as u8;
            &&& (r.0 as int, r.1 as int) == (match old(cfg).mode {
                ExposureMode::Auto => stepped(*old(cfg), shown),
                ExposureMode::Manual => (
                    old(cfg).manual_exposure_us as int,
                    old(cfg).manual_gain_q as int,
                ),
            })
            &&& *final(cfg) == (ExposureConfig {
                luma_ema_ml: ema as u32,
                current_luma: shown,
                current_exposure_us: r.0,
                current_gain_q: r.1,
                ..*old(cfg)
            })
        }),
{
    let next: u32 = (15 * (luma as u32 * 1000) + 85 * cfg.luma_ema_ml) / 100;
    cfg.luma_ema_ml = if cfg.luma_ema_ml == 0 {
        luma as u32 * 1000
    } else if next == 0 {
        1
    } else {
        next
    };
    let shown: u8 = (cfg.luma_ema_ml / 1000) as u8;
    match cfg.mode {
        ExposureMode::Auto => exposure_step(cfg, shown),
        ExposureMode::Manual => {
            cfg.current_luma = shown;
            cfg.current_exposure_us = cfg.manual_exposure_us;
            cfg.current_gain_q = cfg.manual_gain_q;
            (cfg.manual_exposure_us, cfg.manual_gain_q)
        },
    }
}

/// A frame darker than the target by more than the dead zone makes the picture brighter
/// by one notch where there is room: a quarter of gain, and 200 us of exposure only once
/// the gain is at its ceiling.
pub proof fn law_dark_frame_brightens(cfg: ExposureConfig, luma: u8)
    requires
        luma + 10 < cfg.target_luma,
    ensures
        ({
            let (exp, gain) = stepped(cfg, luma);
            &&& cfg.current_gain_q < cfg.max_gain_q ==> gain == cfg.current_gain_q + 1 && exp
                == cfg.current_exposure_us
            &&& cfg.current_gain_q >= cfg.max_gain_q ==> gain == cfg.current_gain_q
            &&& cfg.current_gain_q >= cfg.max_gain_q && cfg.current_exposure_us + 200
                <= cfg.max_exposure_us ==> exp == cfg.current_exposure_us + 200
            &&& cfg.current_gain_q >= cfg.max_gain_q && cfg.current_exposure_us + 200
                > cfg.max_exposure_us ==> exp == cfg.max_exposure_us
        }),
{
}

/// A frame brighter than the target by more than the dead zone makes the picture darker
/// by one notch where there is room: 200 us of exposure, and a quarter of gain only once
/// the exposure is at its floor of 500 us.
pub proof fn law_bright_frame_darkens(cfg: ExposureConfig, luma: u8)
    requires
        luma > cfg.target_luma + 10,
    ensures
        ({
            let (exp, gain) = stepped(cfg, luma);
            &&& cfg.current_exposure_us >= 700 ==> exp == cfg.current_exposure_us - 200 && gain
                == cfg.current_gain_q
            &&& 500 < cfg.current_exposure_us < 700 ==> exp == 500 && gain == cfg.current_gain_q
            &&& cfg.current_exposure_us <= 500 ==> exp == cfg.current_exposure_us
            &&& cfg.current_exposure_us <= 500 && cfg.current_gain_q >= 5 ==> gain
                == cfg.current_gain_q - 1
            &&& cfg.current_exposure_us <= 500 && cfg.current_gain_q < 5 ==> gain == 4
        }),
{
}

/// A frame within the dead zone of ten levels changes nothing.
pub proof fn law_near_target_holds(cfg: ExposureConfig, luma: u8)
    requires
        -10 <= luma - cfg.target_luma <= 10,
    ensures
        stepped(cfg, luma) == (cfg.current_exposure_us as int, cfg.current_gain_q as int),
{
}

/// The smoothed luma moves towards the frame's by 15 parts in a hundred of the way,
/// rounded down to a thousandth, and never past it. The first frame counts in full.
pub proof fn law_smoothing_goes_part_of_the_way(prev_ml: u32, luma: u8)
    requires
        prev_ml <= 255_000,
    ensures
        prev_ml == 0 ==> luma_smoothed(prev_ml, luma) == 1000 * luma,
        prev_ml > 0 ==> ({
            let next = luma_smoothed(prev_ml, luma);
            let way = 15 * (1000 * luma - prev_ml);
            &&& next > 1 ==> 100 * (next - prev_ml) <= way < 100 * (next - prev_ml) + 100
            &&& prev_ml <= 1000 * luma ==> prev_ml <= next <= 1000 * luma
            &&& prev_ml >= 1000 * luma ==> next <= prev_ml && (next >= 1000 * luma || next == 1)
            &&& next >= 1
        }),
{
}

/// A setting inside the envelope stays inside it under every step.
pub proof fn law_step_keeps_envelope(cfg: ExposureConfig, luma: u8)
    requires
        AE_MIN_EXPOSURE_US <= cfg.current_exposure_us <= cfg.max_exposure_us,
        AE_MIN_GAIN_Q <= cfg.current_gain_q <= cfg.max_gain_q,
    ensures
        AE_MIN_EXPOSURE_US <= stepped(cfg, luma).0 <= cfg.max_exposure_us,
        AE_MIN_GAIN_Q <= stepped(cfg, luma).1 <= cfg.max_gain_q,
{
}

// ── Brightness axis ───────────────────────────────────────────────────────────

/// Luma that the controller aims at, in thousandths.
pub const AE_TARGET_LUMA_ML: i64 = 128_000;

/// No step within this of the target (thousandths of luma).
pub const AE_BRIGHT_DEADZONE_ML: i64 = 8_000;

/// Brightest setting, in millionths of a stop above the darkest.
pub const AE_MAX_BRIGHTNESS_UST: i64 = 11_640_000;

/// Stops that the gain alone can give, in millionths.
pub const AE_GAIN_STOPS_UST: i64 = 4_000_000;

/// A brightness within the axis.
pub open spec fn on_axis(b: int) -> int {
    if b < 0 {
        0
    } else if b > AE_MAX_BRIGHTNESS_UST {
        AE_MAX_BRIGHTNESS_UST as int
    } else {
        b
    }
}

/// Stops of a brightness that the gain gives: all of them until it saturates.
pub open spec fn gain_stops(b: int) -> int {
    if on_axis(b) <= AE_GAIN_STOPS_UST {
        on_axis(b)
    } else {
        AE_GAIN_STOPS_UST as int
    }
}

/// Stops of a brightness that the exposure gives: what the gain cannot.
pub open spec fn exposure_stops(b: int) -> int {
    on_axis(b) - gain_stops(b)
}

/// Splits a brightness into stops of gain and stops of exposure above the
/// darkest setting, gain first, all in millionths of a stop.
pub fn brightness_to_settings(b_ust: i64) -> (r: (i64, i64))
    ensures
        r.0 == gain_stops(b_ust as int),
        r.1 == exposure_stops(b_ust as int),
{
    let b: i64 = if b_ust < 0 {
        0
    } else if b_ust > AE_MAX_BRIGHTNESS_UST {
        AE_MAX_BRIGHTNESS_UST
    } else {
        b_ust
    };
    if b <= AE_GAIN_STOPS_UST {
        (b, 0)
    } else {
        (AE_GAIN_STOPS_UST, b - AE_GAIN_STOPS_UST)
    }
}

/// Brightness of stops of gain and stops of exposure; neither counts below its
/// darkest setting.
pub fn settings_to_brightness(gain_ust: i64, exposure_ust: i64) -> (r: i64)
    requires
        brightness_of(gain_ust as int, exposure_ust as int) <= i64::MAX,
    ensures
        r == brightness_of(gain_ust as int, exposure_ust as int),
{
    let g: i64 = if gain_ust > 0 {
        gain_ust
    } else {
        0
    };
    let e: i64 = if exposure_ust > 0 {
        exposure_ust
    } else {
        0
    };
    g + e
}

/// Brightness of stops of gain and stops of exposure.
pub open spec fn brightness_of(gain: int, exposure: int) -> int {
    (if gain > 0 {
        gain
    } else {
        0
    }) + (if exposure > 0 {
        exposure
    } else {
        0
    })
}

/// Splitting a brightness and reading it back gives it again, as far as it is
/// on the axis.
pub proof fn law_brightness_roundtrip(b: int)
    ensures
        brightness_of(gain_stops(b), exposure_stops(b)) == on_axis(b),
        0 <= b <= AE_MAX_BRIGHTNESS_UST ==> brightness_of(gain_stops(b), exposure_stops(b)) == b,
{
}

/// The exposure is only lengthened once the gain is at its ceiling.
pub proof fn law_gain_ramps_before_exposure(b: int)
    ensures
        exposure_stops(b) > 0 ==> gain_stops(b) == AE_GAIN_STOPS_UST,
        exposure_stops(b) >= 0,
{
}

/// Direction of a step.
#[derive(Debug, Clone, Copy, PartialEq, Eq, Structural)]
pub enum StepDir {
    Hold,
    Brighten,
    Darken,
}

/// Brightness controller. Its step size is damped: halved when the direction
/// turns, growing back while it stays.
#[derive(Debug, Clone, Copy, PartialEq, Eq, Structural)]
pub struct BrightnessControl {
    /// Intended brightness in millionths of a stop.
    pub brightness_ust: i64,
    /// Step size in millionths of the full one.
    pub step_scale_ppm: i64,
    pub last_dir: StepDir,
}

/// Direction for a predicted luma in thousandths.
pub open spec fn dir_of(predicted_ml: int) -> StepDir {
    let error = predicted_ml - AE_TARGET_LUMA_ML;
    if error < -AE_BRIGHT_DEADZONE_ML {
        StepDir::Brighten
    } else if error > AE_BRIGHT_DEADZONE_ML {
        StepDir::Darken
    } else {
        StepDir::Hold
    }
}

/// Step size after a step in a direction that is not hold.
pub open spec fn damped(scale: int, last: StepDir, dir: StepDir) -> int {
    if dir == last {
        if scale * 11 / 10 > 1_000_000 {
            1_000_000
        } else {
            scale * 11 / 10
        }
    } else if last != StepDir::Hold {
        if scale / 2 < 100_000 {
            100_000
        } else {
            scale / 2
        }
    } else {
        scale
    }
}

/// The controller after a step against a predicted luma: one eightieth of a stop
/// per count of error, scaled by the step size.
pub open spec fn controlled(c: BrightnessControl, predicted_ml: int) -> BrightnessControl {
    let dir = dir_of(predicted_ml);
    if dir == StepDir::Hold {
        BrightnessControl { last_dir: dir, ..c }
    } else {
        let scale = damped(c.step_scale_ppm as int, c.last_dir, dir);
        let stops = trunc_div((AE_TARGET_LUMA_ML - predicted_ml) * scale, 80_000);
        BrightnessControl {
            brightness_ust: on_axis(c.brightness_ust + stops) as i64,
            step_scale_ppm: scale as i64,
            last_dir: dir,
        }
    }
}

impl Default for BrightnessControl {
    /// Starts at 8 ms and 8x gain: seven stops.
    fn default() -> (r: Self)
        ensures
            r == (BrightnessControl {
                brightness_ust: 7_000_000,
                step_scale_ppm: 1_000_000,
                last_dir: StepDir::Hold,
            }),
    {
        BrightnessControl {
            brightness_ust: 7_000_000,
            step_scale_ppm: 1_000_000,
            last_dir: StepDir::Hold,
        }
    }
}

impl BrightnessControl {
    pub open spec fn wf(&self) -> bool {
        &&& 0 <= self.brightness_ust <= AE_MAX_BRIGHTNESS_UST
        &&& 100_000 <= self.step_scale_ppm <= 1_000_000
    }

    /// One step against the luma (thousandths) that is expected once the
    /// intended brightness is applied. Returns the stops of gain and of exposure
    /// to set.
    pub fn ae_step(&mut self, predicted_ml: i64) -> (r: (i64, i64))
        requires
            old(self).wf(),
        ensures
            final(self).wf(),
            *final(self) == controlled(*old(self), predicted_ml as int),
            r.0 == gain_stops(final(self).brightness_ust as int),
            r.1 == exposure_stops(final(self).brightness_ust as int),
    {
        let error: i128 = predicted_ml as i128 - AE_TARGET_LUMA_ML as i128;
        let dir: StepDir = if error < -(AE_BRIGHT_DEADZONE_ML as i128) {
            StepDir::Brighten
        } else if error > AE_BRIGHT_DEADZONE_ML as i128 {
            StepDir::Darken
        } else {
            StepDir::Hold
        };
        if dir != StepDir::Hold {
            if dir == self.last_dir {
                let grown: i64 = self.step_scale_ppm * 11 / 10;
                self.step_scale_ppm = if grown > 1_000_000 {
                    1_000_000
                } else {
                    grown
                };
            } else if self.last_dir != StepDir::Hold {
                let halved: i64 = self.step_scale_ppm / 2;
                self.step_scale_ppm = if halved < 100_000 {
                    100_000
                } else {
                    halved
                };
            }
            let scale: i128 = self.step_scale_ppm as i128;
            assert(-0x1_0000_0000_0000_0000 * 1_000_000 <= (-error) * scale
                <= 0x1_0000_0000_0000_0000 * 1_000_000) by (nonlinear_arith)
                requires
                    -0x1_0000_0000_0000_0000 <= error <= 0x1_0000_0000_0000_0000,
                    0 <= scale <= 1_000_000,
            ;
            let stops: i128 = div_wide_to_zero((-error) * scale, 80_000);
            let b: i128 = self.brightness_ust as i128 + stops;
            self.brightness_ust = if b < 0 {
                0
            } else if b > AE_MAX_BRIGHTNESS_UST as i128 {
                AE_MAX_BRIGHTNESS_UST
            } else {
                b as i64
            };
        }
        self.last_dir = dir;
        brightness_to_settings(self.brightness_ust)
    }
}

/// A dark frame never lowers the brightness, a bright one never raises it, and
/// inside the dead zone it stays.
pub proof fn law_step_goes_the_right_way(c: BrightnessControl, predicted_ml: int)
    requires
        c.wf(),
    ensures
        predicted_ml <= AE_TARGET_LUMA_ML ==> controlled(c, predicted_ml).brightness_ust
            >= c.brightness_ust,
        predicted_ml >= AE_TARGET_LUMA_ML ==> controlled(c, predicted_ml).brightness_ust
            <= c.brightness_ust,
        120_000 <= predicted_ml <= 136_000 ==> controlled(c, predicted_ml).brightness_ust
            == c.brightness_ust,
{
    let dir = dir_of(predicted_ml);
    let scale = damped(c.step_scale_ppm as int, c.last_dir, dir);
    let n = (AE_TARGET_LUMA_ML - predicted_ml) * scale;
    assert(scale > 0);
    if predicted_ml <= AE_TARGET_LUMA_ML {
        assert(n >= 0) by (nonlinear_arith)
            requires
                n == (AE_TARGET_LUMA_ML - predicted_ml) * scale,
                predicted_ml <= AE_TARGET_LUMA_ML,
                scale > 0,
        ;
    }
    if predicted_ml >= AE_TARGET_LUMA_ML {
        assert(n <= 0) by (nonlinear_arith)
            requires
                n == (AE_TARGET_LUMA_ML - predicted_ml) * scale,
                predicted_ml >= AE_TARGET_LUMA_ML,
                scale > 0,
        ;
    }
}

/// The axis runs from the darkest setting over 11.64 stops, of which the gain gives the
/// first four and the exposure the rest; what lies beyond an end is that end.
pub proof fn law_brightness_axis(b: int)
    ensures
        b <= 0 ==> gain_stops(b) == 0 && exposure_stops(b) == 0,
        0 <= b <= 4_000_000 ==> gain_stops(b) == b && exposure_stops(b) == 0,
        4_000_000 <= b <= 11_640_000 ==> gain_stops(b) == 4_000_000 && exposure_stops(b) == b
            - 4_000_000,
        b >= 11_640_000 ==> gain_stops(b) == 4_000_000 && exposure_stops(b) == 7_640_000,
{
}

/// Stops below the darkest setting do not count, and the others add up.
pub proof fn law_stops_add_up(gain: int, exposure: int)
    ensures
        gain >= 0 && exposure >= 0 ==> brightness_of(gain, exposure) == gain + exposure,
        gain <= 0 && exposure >= 0 ==> brightness_of(gain, exposure) == exposure,
        gain >= 0 && exposure <= 0 ==> brightness_of(gain, exposure) == gain,
        gain <= 0 && exposure <= 0 ==> brightness_of(gain, exposure) == 0,
{
}

/// A step is made brighter below a luma of 120 and darker above 136; between them the
/// controller holds.
pub proof fn law_which_way_to_step(predicted_ml: int)
    ensures
        dir_of(predicted_ml) is Brighten <==> predicted_ml < 120_000,
        dir_of(predicted_ml) is Darken <==> predicted_ml > 136_000,
{
}

/// The step size grows by a tenth with every step the same way, up to 1; a step the other
/// way halves it, down to a tenth; after a hold it stays.
pub proof fn law_step_size(scale: int, last: StepDir, dir: StepDir)
    requires
        100_000 <= scale <= 1_000_000,
        !(dir is Hold),
    ensures
        ({
            let next = damped(scale, last, dir);
            &&& 100_000 <= next <= 1_000_000
            &&& last == dir && 11 * scale <= 10_000_000 ==> 10 * next <= 11 * scale < 10 * next + 10
            &&& last == dir && 11 * scale > 10_000_000 ==> next == 1_000_000
            &&& last is Hold ==> next == scale
            &&& last != dir && !(last is Hold) && scale >= 200_000 ==> 2 * next <= scale < 2 * next
                + 2
            &&& last != dir && !(last is Hold) && scale < 200_000 ==> next == 100_000
        }),
{
}

/// A step goes one eightieth of a stop for each level that the predicted luma is off 128,
/// times the step size, as far as the axis reaches; a hold changes neither the brightness nor
/// the step size.
pub proof fn law_step_is_proportional(c: BrightnessControl, predicted_ml: int)
    requires
        c.wf(),
    ensures
        ({
            let next = controlled(c, predicted_ml);
            let dir = dir_of(predicted_ml);
            let scale = damped(c.step_scale_ppm as int, c.last_dir, dir);
            let way = (128_000 - predicted_ml) * scale;
            let made = 80_000 * (next.brightness_ust - c.brightness_ust);
            &&& next.last_dir == dir
            &&& dir is Hold ==> next.brightness_ust == c.brightness_ust && next.step_scale_ppm
                == c.step_scale_ppm
            &&& !(dir is Hold) ==> next.step_scale_ppm == scale
            &&& dir is Brighten ==> made <= way && (way < made + 80_000 || next.brightness_ust
                == 11_640_000)
            &&& dir is Darken ==> way <= made && (made < way + 80_000 || next.brightness_ust == 0)
        }),
{
    let dir = dir_of(predicted_ml);
    if !(dir is Hold) {
        law_step_size(c.step_scale_ppm as int, c.last_dir, dir);
        let scale = damped(c.step_scale_ppm as int, c.last_dir, dir);
        let off = 128_000 - predicted_ml;
        let way = off * scale;
        assert(off > 0 ==> way > 0) by (nonlinear_arith)
            requires
                way == off * scale,
                scale > 0,
        ;
        assert(off < 0 ==> way < 0) by (nonlinear_arith)
            requires
                way == off * scale,
                scale > 0,
        ;
    }
}

} // verus!
