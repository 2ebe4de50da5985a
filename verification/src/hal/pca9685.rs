//! PCA9685 16-channel 12-bit PWM driver over I2C.
use super::i2c::{
    last_write, read_answered, run_script, script_ran, write_answered, Bus, BusEvent, I2cBus, Step,
};
use crate::Error;
use vstd::prelude::*;

verus! {

pub const MODE1: u8 = 0x00;

pub const PRESCALE: u8 = 0xFE;

pub const LED0_ON_L: u8 = 0x06;

pub const OSC_FREQ: u32 = 25_000_000;

pub const PWM_RES: u32 = 4096;

pub const MAX_DUTY: u16 = 4095;

/// Off count that sets the full-off bit.
pub const FULL_OFF: u16 = 4096;

/// Highest channel whose registers exist in the 8-bit register space.
pub const MAX_CHANNEL: u8 = 61;

/// The four register writes of a PWM setting: on and off counts, low byte
/// first.
pub open spec fn pwm_script(channel: u8, on: u16, off: u16) -> Seq<Step> {
    let base = 6 + 4 * channel;
    seq![
        Step::Write { reg: base as u8, val: (on % 256) as u8 },
        Step::Write { reg: (base + 1) as u8, val: (on / 256) as u8 },
        Step::Write { reg: (base + 2) as u8, val: (off % 256) as u8 },
        Step::Write { reg: (base + 3) as u8, val: (off / 256) as u8 },
    ]
}

pub(crate) fn push_pwm_steps(steps: &mut Vec<Step>, channel: u8, on: u16, off: u16)
    requires
        channel <= MAX_CHANNEL,
    ensures
        final(steps)@ == old(steps)@ + pwm_script(channel, on, off),
{
    let ghost before = steps@;
    let base: u8 = LED0_ON_L + 4 * channel;
    steps.push(Step::Write { reg: base, val: (on % 256) as u8 });
    steps.push(Step::Write { reg: base + 1, val: (on / 256) as u8 });
    steps.push(Step::Write { reg: base + 2, val: (off % 256) as u8 });
    steps.push(Step::Write { reg: base + 3, val: (off / 256) as u8 });
    assert(steps@ =~= before + pwm_script(channel, on, off));
}

/// The prescaler for a PWM frequency: the oscillator divided by 4096 times the
/// frequency, rounded to the nearest (halves up), less one, within a byte. A frequency
/// of zero asks for more than any prescaler gives, and gets the largest.
pub open spec fn prescale_of(freq_hz: u32) -> int {
    let d = PWM_RES * freq_hz;
    let q = (2 * OSC_FREQ + d) / (2 * d);
    let b = if freq_hz == 0 || q > 255 {
        255
    } else {
        q
    };
    if b == 0 {
        0
    } else {
        b - 1
    }
}

/// Prescaler value for a PWM frequency.
pub fn prescale(freq_hz: u32) -> (r: u8)
    ensures
        r == prescale_of(freq_hz),
{
    if freq_hz == 0 {
        return 254;
    }
    assert(PWM_RES * freq_hz <= 4096 * 0x1_0000_0000) by (nonlinear_arith)
        requires
            PWM_RES == 4096,
            freq_hz <= 0x1_0000_0000,
    ;
    let d: u64 = PWM_RES as u64 * freq_hz as u64;
    let q: u64 = (2 * OSC_FREQ as u64 + d) / (2 * d);
    let b: u8 = if q > 255 {
        255
    } else {
        q as u8
    };
    if b == 0 {
        0
    } else {
        b - 1
    }
}

/// The writes of a frequency change, for the mode register's old value: sleep,
/// set the prescaler, wake, wait, restart.
pub open spec fn freq_script(old_mode: u8, prescale: u8) -> Seq<Step> {
    seq![
        Step::Write { reg: MODE1, val: (old_mode & 0x7F) | 0x10 },
        Step::Write { reg: PRESCALE, val: prescale },
        Step::Write { reg: MODE1, val: old_mode },
        Step::Pause { ms: 5 },
        Step::Write { reg: MODE1, val: old_mode | 0x80 },
    ]
}

/// Off count of a servo pulse, in ninetieths of a microsecond, at 50 Hz.
pub open spec fn pulse_count(pulse90: int) -> u16 {
    let n = pulse90 * 4096 / 1_800_000int;
    if n < 0 {
        0
    } else if n > 65535 {
        65535
    } else {
        n as u16
    }
}

/// Off count of a servo pulse at 50 Hz.
pub fn servo_count(pulse90: i64) -> (r: u16)
    ensures
        r == pulse_count(pulse90 as int),
{
    if pulse90 < 0 {
        0
    } else {
        let n: i128 = pulse90 as i128 * 4096 / 1_800_000;
        if n > 65535 {
            65535
        } else {
            n as u16
        }
    }
}

/// Driver of one chip.
pub struct Pca9685<B: I2cBus> {
    pub bus: Bus<B>,
}

/// The frequency change after the mode register gave `mode`.
pub open spec fn freq_set(
    before: Seq<BusEvent>,
    after: Seq<BusEvent>,
    freq_hz: u32,
    mode: Result<u8, Error>,
    r: Result<(), Error>,
) -> bool {
    let read = before.push(BusEvent::Read { reg: MODE1, result: mode });
    match mode {
        Err(e) => after == read && r == Err::<(), Error>(e),
        Ok(m) => script_ran(read, after, freq_script(m, prescale_of(freq_hz) as u8), r),
    }
}

impl<B: I2cBus> Pca9685<B> {
    /// Takes over a bus that addresses the chip, and resets its mode. Fails with
    /// the bus's error, and only where the bus answers the reset with one.
    pub fn new(dev: B) -> (r: Result<Self, Error>)
        ensures
            match r {
                Ok(d) => {
                    &&& write_answered(dev, MODE1, 0, Ok(()))
                    &&& d.bus.history() == Seq::<BusEvent>::empty().push(
                        BusEvent::Write { reg: MODE1, val: 0, result: Ok(()) },
                    )
                },
                Err(e) => write_answered(dev, MODE1, 0, Err(e)),
            },
    {
        let mut bus = Bus::new(dev);
        match bus.write_byte(MODE1, 0x00) {
            Ok(u) => Ok(Pca9685 { bus }),
            Err(e) => Err(e),
        }
    }

    /// Sets the PWM frequency of all channels.
    pub fn set_pwm_freq(&mut self, freq_hz: u32) -> (r: Result<(), Error>)
        ensures
            exists|mode: Result<u8, Error>|
                read_answered(old(self).bus.state(), MODE1, mode) && #[trigger] freq_set(
                    old(self).bus.history(),
                    final(self).bus.history(),
                    freq_hz,
                    mode,
                    r,
                ),
    {
        let ghost before = self.bus.history();
        let p: u8 = prescale(freq_hz);
        let ghost dev = self.bus.state();
        let mode: Result<u8, Error> = self.bus.read_byte(MODE1);
        assert(read_answered(dev, MODE1, mode));
        let ghost answer = mode;
        match mode {
            Err(e) => {
                let r: Result<(), Error> = Err(e);
                assert(freq_set(before, self.bus.history(), freq_hz, answer, r));
                r
            },
            Ok(m) => {
                let steps: Vec<Step> = vec![
                    Step::Write { reg: MODE1, val: (m & 0x7F) | 0x10 },
                    Step::Write { reg: PRESCALE, val: p },
                    Step::Write { reg: MODE1, val: m },
                    Step::Pause { ms: 5 },
                    Step::Write { reg: MODE1, val: m | 0x80 },
                ];
                assert(steps@ =~= freq_script(m, p));
                let r: Result<(), Error> = run_script(&mut self.bus, steps.as_slice());
                assert(freq_set(before, self.bus.history(), freq_hz, answer, r));
                r
            },
        }
    }

    /// Sets the on and off counts of a channel.
    pub fn set_pwm(&mut self, channel: u8, on: u16, off: u16) -> (r: Result<(), Error>)
        requires
            channel <= MAX_CHANNEL,
        ensures
            script_ran(
                old(self).bus.history(),
                final(self).bus.history(),
                pwm_script(channel, on, off),
                r,
            ),
    {
        let mut steps: Vec<Step> = Vec::new();
        push_pwm_steps(&mut steps, channel, on, off);
        assert(steps@ =~= pwm_script(channel, on, off));
        run_script(&mut self.bus, steps.as_slice())
    }

    /// Sets a servo pulse on a channel, given in ninetieths of a microsecond.
    pub fn set_servo_pulse_us(&mut self, channel: u8, pulse90: i64) -> (r: Result<(), Error>)
        requires
            channel <= MAX_CHANNEL,
        ensures
            script_ran(
                old(self).bus.history(),
                final(self).bus.history(),
                pwm_script(channel, 0, pulse_count(pulse90 as int)),
                r,
            ),
    {
        let off: u16 = servo_count(pulse90);
        self.set_pwm(channel, 0, off)
    }
}

/// The four writes of a PWM setting put the on count and the off count into the channel's
/// own registers, low byte first, and touch no other channel.
pub proof fn law_pwm_setting_reaches_its_channel(channel: u8, on: u16, off: u16, reg: u8)
    requires
        channel <= MAX_CHANNEL,
    ensures
        ({
            let s = pwm_script(channel, on, off);
            let base = 6 + 4 * channel;
            &&& base <= reg < base + 4 <==> last_write(s, reg) is Some
            &&& ({
                let (a, b, c, d) = (
                    last_write(s, base as u8),
                    last_write(s, (base + 1) as u8),
                    last_write(s, (base + 2) as u8),
                    last_write(s, (base + 3) as u8),
                );
                &&& a is Some && b is Some && c is Some && d is Some
                &&& a->Some_0 + 256 * b->Some_0 == on
                &&& c->Some_0 + 256 * d->Some_0 == off
            })
        }),
{
    let s = pwm_script(channel, on, off);
    let base = 6 + 4 * channel;
    lemma_pwm_writes(channel, on, off, reg);
    lemma_pwm_writes(channel, on, off, base as u8);
    lemma_pwm_writes(channel, on, off, (base + 1) as u8);
    lemma_pwm_writes(channel, on, off, (base + 2) as u8);
    lemma_pwm_writes(channel, on, off, (base + 3) as u8);
}

/// What a PWM setting leaves in a register.
pub(crate) proof fn lemma_pwm_writes(channel: u8, on: u16, off: u16, reg: u8)
    requires
        channel <= MAX_CHANNEL,
    ensures
        last_write(pwm_script(channel, on, off), reg) == (if reg == 6 + 4 * channel {
            Some((on % 256) as u8)
        } else if reg == 7 + 4 * channel {
            Some((on / 256) as u8)
        } else if reg == 8 + 4 * channel {
            Some((off % 256) as u8)
        } else if reg == 9 + 4 * channel {
            Some((off / 256) as u8)
        } else {
            None
        }),
{
    let s = pwm_script(channel, on, off);
    let a = s.drop_last();
    let b = a.drop_last();
    let c = b.drop_last();
    assert(c.drop_last() =~= Seq::<Step>::empty());
    assert(last_write(c.drop_last(), reg) is None);
    assert(last_write(c, reg) == (if reg == 6 + 4 * channel {
        Some((on % 256) as u8)
    } else {
        None
    }));
    assert(b.last() == s[1] && a.last() == s[2]);
    assert(last_write(b, reg) == (if reg == 7 + 4 * channel {
        Some((on / 256) as u8)
    } else {
        last_write(c, reg)
    }));
    assert(last_write(a, reg) == (if reg == 8 + 4 * channel {
        Some((off % 256) as u8)
    } else {
        last_write(b, reg)
    }));
}

/// The prescaler is the one that comes nearest: the oscillator through 4096 times one more
/// than it, off by at most half a step of the frequency, as far as a byte allows.
pub proof fn law_prescaler_comes_nearest(freq_hz: u32)
    requires
        freq_hz > 0,
    ensures
        ({
            let p = prescale_of(freq_hz);
            &&& 0 <= p <= 254
            &&& p > 0 ==> 4096 * freq_hz * (2 * p + 1) <= 2 * 25_000_000
            &&& p < 254 ==> 2 * 25_000_000 < 4096 * freq_hz * (2 * p + 3)
        }),
{
    let d = PWM_RES * freq_hz;
    let n = 2 * OSC_FREQ + d;
    assert(d >= 4096) by (nonlinear_arith)
        requires
            d == PWM_RES * freq_hz,
            PWM_RES == 4096,
            freq_hz >= 1,
    ;
    vstd::arithmetic::div_mod::lemma_fundamental_div_mod(n, 2 * d);
    let q = n / (2 * d);
    let p = prescale_of(freq_hz);
    assert(q >= 0) by (nonlinear_arith)
        requires
            n == (2 * d) * q + n % (2 * d),
            n % (2 * d) < 2 * d,
            n >= 0,
            d > 0,
    ;
    assert(n == (2 * d) * q + n % (2 * d));
    assert((2 * d) * q <= n < (2 * d) * (q + 1)) by (nonlinear_arith)
        requires
            n == (2 * d) * q + n % (2 * d),
            0 <= n % (2 * d) < 2 * d,
    ;
    if p > 0 {
        assert(d * (2 * p + 1) <= 50_000_000) by (nonlinear_arith)
            requires
                (2 * d) * q <= 50_000_000 + d,
                p + 1 <= q,
                d > 0,
        ;
    }
    if p < 254 {
        assert(50_000_000 < d * (2 * p + 3)) by (nonlinear_arith)
            requires
                50_000_000 + d < (2 * d) * (q + 1),
                q <= p + 1,
                d > 0,
        ;
    }
}

/// A higher frequency never gets a larger prescaler.
pub proof fn law_prescaler_is_antitone(lo: u32, hi: u32)
    requires
        lo <= hi,
    ensures
        prescale_of(hi) <= prescale_of(lo),
{
    if 0 < lo {
        law_prescaler_comes_nearest(lo);
        law_prescaler_comes_nearest(hi);
        let (a, b) = (prescale_of(lo), prescale_of(hi));
        if b > a {
            let (d, e) = (4096 * lo, 4096 * hi);
            assert(d * (2 * a + 3) <= e * (2 * b + 1)) by (nonlinear_arith)
                requires
                    0 <= d <= e,
                    0 <= a < b,
            ;
        }
    } else if hi > 0 {
        law_prescaler_comes_nearest(hi);
    }
}

/// A frequency change puts the chip to sleep before it writes the prescaler, wakes it with
/// its old mode and restarts it last; the other bits of the mode stay.
pub proof fn law_frequency_change_sleeps_and_restarts(mode: u8, prescale: u8)
    ensures
        ({
            let s = freq_script(mode, prescale);
            &&& s.len() == 5
            &&& s[0] matches Step::Write { reg, val } && reg == MODE1 && val & 0x10 == 0x10 && val
                & 0x80 == 0 && val & 0x6F == mode & 0x6F
            &&& s[1] == (Step::Write { reg: 0xFE, val: prescale })
            &&& s[2] == (Step::Write { reg: 0, val: mode })
            &&& s[3] matches Step::Pause { ms } && ms >= 5
            &&& s[4] matches Step::Write { reg, val } && reg == MODE1 && val & 0x80 == 0x80 && val
                & 0x7F == mode & 0x7F
        }),
{
    assert(((mode & 0x7F) | 0x10u8) & 0x10 == 0x10 && ((mode & 0x7F) | 0x10u8) & 0x80 == 0 && ((mode
        & 0x7F) | 0x10u8) & 0x6F == mode & 0x6F && (mode | 0x80u8) & 0x80 == 0x80 && (mode | 0x80u8)
        & 0x7F == mode & 0x7F) by (bit_vector);
}

/// The off count of a servo pulse is its share of the 20 ms period in 4096ths, rounded
/// down; nothing for a pulse below zero.
pub proof fn law_pulse_is_a_share_of_the_period(pulse90: int)
    ensures
        pulse90 <= 0 ==> pulse_count(pulse90) == 0,
        0 <= pulse90 < 20_000 * 90 ==> pulse_count(pulse90) * (20_000 * 90) <= pulse90 * 4096 < (
        pulse_count(pulse90) + 1) * (20_000 * 90),
{
}

/// A frequency change first reads the mode; where that fails nothing is written, and the
/// error is the result. Otherwise every write of the change is made, or the first that fails
/// ends it.
pub proof fn law_frequency_change_reads_first(
    before: Seq<BusEvent>,
    after: Seq<BusEvent>,
    freq_hz: u32,
    mode: Result<u8, Error>,
    r: Result<(), Error>,
)
    requires
        freq_set(before, after, freq_hz, mode, r),
    ensures
        after.len() > before.len(),
        after[before.len() as int] == (BusEvent::Read { reg: 0, result: mode }),
        mode is Err ==> after.len() == before.len() + 1 && r is Err && r->Err_0 == mode->Err_0,
        mode is Ok && r is Ok ==> after.len() == before.len() + 1 + freq_script(
            mode->Ok_0,
            prescale_of(freq_hz) as u8,
        ).len(),
{
    let read = before.push(BusEvent::Read { reg: MODE1, result: mode });
    if mode is Ok {
        let steps = freq_script(mode->Ok_0, prescale_of(freq_hz) as u8);
        crate::hal::i2c::law_script_runs_in_order(read, after, steps, r);
        assert(read.len() <= after.len());
        assert(after.take(read.len() as int)[before.len() as int] == read[before.len() as int]);
    }
}

/// A longer pulse never has a smaller count, and no count exceeds 65535.
pub proof fn law_pulse_count_is_monotone(a: int, b: int)
    requires
        a <= b,
    ensures
        pulse_count(a) <= pulse_count(b) <= 65535,
        b >= 65536 * 1_800_000 ==> pulse_count(b) == 65535,
        0 <= b < 16 * 1_800_000 ==> pulse_count(b) * 1_800_000 <= b * 4096 < (pulse_count(b) + 1)
            * 1_800_000 || pulse_count(b) == 65535,
{
}

} // verus!
