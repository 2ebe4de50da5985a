//! The polling of the orientation sensor.
use super::{
    is_due, next_index, ring_push, ImuSample, ImuState, CALIB_PERIOD_US, MIN_GYR_CALIB,
    RING_CAPACITY,
};
use crate::hal::bmi160::burst;
use crate::hal::bno055::{
    calib_of, calib_read, no_frame, sample_of, Bno055, CalibStatus, FusionSample, REG_CALIB_STAT,
    REG_QUA_DATA,
};
use crate::hal::i2c::{read_answered, BusEvent, I2cBus};
use crate::Error;
use vstd::prelude::*;

verus! {

/// How often the achieved rate is reckoned (microseconds).
pub const RATE_PERIOD_US: u64 = 1_000_000;

/// What one poll came to.
#[derive(Debug, Clone, Copy, PartialEq, Eq, Structural)]
pub enum PollOutcome {
    /// A sample was published.
    Published,
    /// A sample came, but the sensor is still warming up.
    Gated,
    /// The sensor has no fusion frame yet.
    NoFrame,
    /// The read failed: wait a sample period before the next.
    Failed,
}

/// Sensor, sample stream and the times that the polling goes by.
pub struct ImuPoller<B: I2cBus> {
    pub chip: Bno055<B>,
    pub state: ImuState,
    pub last_calib_us: Option<u64>,
    pub last_rate_us: u64,
    pub samples_this_period: u32,
    /// Achieved rate in samples per thousand seconds; 0 before the first
    /// period.
    pub rate_mhz: u64,
}

/// The calibration status is due to be read.
pub open spec fn calib_due(last: Option<u64>, now_us: u64) -> bool {
    last matches Some(t) ==> now_us - t >= CALIB_PERIOD_US
}

/// The stream after a poll: the calibration status that was read, if any, and
/// the frame that was read.
pub open spec fn stream_after(
    before: ImuState,
    after: ImuState,
    now_us: u64,
    calib: Option<Result<u8, Error>>,
    frame: Result<Seq<u8>, Error>,
    r: PollOutcome,
) -> bool {
    let c = match calib {
        Some(Ok(b)) => calib_of(b),
        _ => before.calib,
    };
    &&& after.calib == c
    &&& match frame {
        Err(_) => {
            &&& r == PollOutcome::Failed
            &&& after.read_failures == before.read_failures + 1
            &&& after.next_sample_index == before.next_sample_index
            &&& after.latest == before.latest
            &&& after.ring@ == before.ring@
        },
        Ok(b) => {
            &&& after.read_failures == before.read_failures
            &&& if no_frame(b) {
                &&& r == PollOutcome::NoFrame
                &&& after.next_sample_index == before.next_sample_index
                &&& after.latest == before.latest
                &&& after.ring@ == before.ring@
            } else {
                &&& after.next_sample_index == next_index(before.next_sample_index)
                &&& if c.gyr >= MIN_GYR_CALIB {
                    &&& r == PollOutcome::Published
                    &&& after.latest is Some
                    &&& sample_of(b, after.latest->Some_0.fusion)
                    &&& after.latest->Some_0.t_read_us == now_us
                    &&& after.latest->Some_0.sample_index == before.next_sample_index
                    &&& after.ring@ == ring_push(before.ring@, after.latest->Some_0)
                } else {
                    &&& r == PollOutcome::Gated
                    &&& after.latest == before.latest
                    &&& after.ring@ == before.ring@
                }
            }
        },
    }
}

/// What a poll asks of the bus: the calibration status when it is due, then one
/// fusion burst.
pub open spec fn bus_after(
    before: Seq<BusEvent>,
    after: Seq<BusEvent>,
    calib: Option<Result<u8, Error>>,
    frame: Result<Seq<u8>, Error>,
) -> bool {
    match calib {
        None => burst(before, after, REG_QUA_DATA, 14, frame),
        Some(c) => exists|mid: Seq<BusEvent>| #[trigger]
            calib_read(before, mid, c) && burst(mid, after, REG_QUA_DATA, 14, frame),
    }
}

/// A poll between two states, given what the sensor answered.
pub open spec fn polled<B: I2cBus>(
    before: ImuPoller<B>,
    after: ImuPoller<B>,
    now_us: u64,
    calib: Option<Result<u8, Error>>,
    frame: Result<Seq<u8>, Error>,
    r: PollOutcome,
) -> bool {
    &&& calib is Some == calib_due(before.last_calib_us, now_us)
    &&& calib matches Some(c) ==> read_answered(before.chip.bus.state(), REG_CALIB_STAT, c)
    &&& bus_after(before.chip.bus.history(), after.chip.bus.history(), calib, frame)
    &&& stream_after(before.state, after.state, now_us, calib, frame, r)
    &&& after.last_calib_us == (if calib is Some {
        Some(now_us)
    } else {
        before.last_calib_us
    })
    &&& after.samples_this_period == (if r == PollOutcome::Published || r == PollOutcome::Gated {
        (before.samples_this_period + 1) as u32
    } else {
        before.samples_this_period
    })
    &&& after.last_rate_us == before.last_rate_us
    &&& after.rate_mhz == before.rate_mhz
}

/// Rate of a period: samples per thousand seconds.
pub open spec fn period_rate(samples: u32, elapsed_us: u64) -> int {
    (samples * 1_000_000_000) / (elapsed_us as int)
}

/// The smoothed rate after one more period: a fifth of the way, or the first
/// rate itself.
pub open spec fn smoothed(prev: u64, rate: int) -> int {
    if prev == 0 {
        rate
    } else {
        (rate + 4 * prev) / 5
    }
}

impl<B: I2cBus> ImuPoller<B> {
    /// The stream is well-formed and the counters have room.
    pub open spec fn wf(&self) -> bool {
        &&& self.state.wf()
        &&& self.rate_mhz <= 5_000_000_000_000
    }

    /// Nothing read yet; the calibration status is due at once.
    pub fn new(chip: Bno055<B>, now_us: u64) -> (r: Self)
        ensures
            r.wf(),
            r.chip == chip,
            r.state.latest is None,
            r.state.ring@ == Seq::<ImuSample>::empty(),
            r.state.calib == (CalibStatus { sys: 0, gyr: 0, acc: 0, mag: 0 }),
            r.state.next_sample_index == 0,
            r.state.read_failures == 0,
            r.last_calib_us is None,
            r.last_rate_us == now_us,
            r.samples_this_period == 0,
            r.rate_mhz == 0,
    {
        ImuPoller {
            chip,
            state: ImuState::new(),
            last_calib_us: None,
            last_rate_us: now_us,
            samples_this_period: 0,
            rate_mhz: 0,
        }
    }

    /// One poll: refreshes the calibration status when due, reads a fusion frame
    /// and publishes it once the gyro is calibrated.
    pub fn poll(&mut self, now_us: u64) -> (r: PollOutcome)
        requires
            old(self).wf(),
            old(self).state.read_failures < u64::MAX,
            old(self).samples_this_period < u32::MAX,
        ensures
            final(self).wf(),
            exists|calib: Option<Result<u8, Error>>, frame: Result<Seq<u8>, Error>| #[trigger]
                polled(*old(self), *final(self), now_us, calib, frame, r),
    {
        let ghost start = *self;
        let due = match self.last_calib_us {
            None => true,
            Some(t) => is_due(t, now_us, CALIB_PERIOD_US),
        };
        let ghost mut calib: Option<Result<u8, Error>> = None;
        if due {
            let ghost h0 = self.chip.bus.history();
            let got: Result<CalibStatus, Error> = self.chip.read_calib();
            proof {
                let a = choose|a: Result<u8, Error>|
                    read_answered(start.chip.bus.state(), REG_CALIB_STAT, a) && #[trigger]
                    calib_read(h0, self.chip.bus.history(), a) && match a {
                        Ok(b) => got == Ok::<CalibStatus, Error>(calib_of(b)),
                        Err(e) => got == Err::<CalibStatus, Error>(e),
                    };
                calib = Some(a);
            }
            if let Ok(c) = got {
                self.state.on_calib(c);
            }
            self.last_calib_us = Some(now_us);
        }
        let ghost h1 = self.chip.bus.history();
        let got: Result<Option<FusionSample>, Error> = self.chip.read_fusion();
        let ghost frame = choose|a: Result<Seq<u8>, Error>| #[trigger]
            burst(h1, self.chip.bus.history(), REG_QUA_DATA, 14, a) && match a {
                Ok(b) => got is Ok && match got->Ok_0 {
                    Some(s) => !no_frame(b) && sample_of(b, s),
                    None => no_frame(b),
                },
                Err(e) => got == Err::<Option<FusionSample>, Error>(e),
            };
        let r: PollOutcome = match got {
            Ok(Some(f)) => {
                self.samples_this_period = self.samples_this_period + 1;
                if self.state.on_fusion(f, now_us) {
                    PollOutcome::Published
                } else {
                    PollOutcome::Gated
                }
            },
            Ok(None) => PollOutcome::NoFrame,
            Err(e) => {
                self.state.on_failure();
                PollOutcome::Failed
            },
        };
        assert(polled(start, *self, now_us, calib, frame, r));
        r
    }

    /// Reckons the achieved rate once a period is over; tells whether it was.
    pub fn update_rate(&mut self, now_us: u64) -> (done: bool)
        requires
            old(self).wf(),
        ensures
            final(self).wf(),
            done == (now_us - old(self).last_rate_us >= RATE_PERIOD_US),
            if done {
                &&& final(self).rate_mhz == smoothed(
                    old(self).rate_mhz,
                    period_rate(
                        old(self).samples_this_period,
                        (now_us - old(self).last_rate_us) as u64,
                    ),
                )
                &&& final(self).samples_this_period == 0
                &&& final(self).last_rate_us == now_us
            } else {
                &&& final(self).rate_mhz == old(self).rate_mhz
                &&& final(self).samples_this_period == old(self).samples_this_period
                &&& final(self).last_rate_us == old(self).last_rate_us
            },
            final(self).chip == old(self).chip,
            final(self).state == old(self).state,
            final(self).last_calib_us == old(self).last_calib_us,
    {
        if !is_due(self.last_rate_us, now_us, RATE_PERIOD_US) {
            return false;
        }
        let elapsed: u64 = now_us - self.last_rate_us;
        let n: u64 = self.samples_this_period as u64 * 1_000_000_000;
        let rate: u64 = n / elapsed;
        assert(rate <= 4_294_967_295_000) by (nonlinear_arith)
            requires
                rate == n / elapsed,
                n <= 4_294_967_295 * 1_000_000_000,
                elapsed >= 1_000_000,
        ;
        self.rate_mhz = if self.rate_mhz == 0 {
            rate
        } else {
            (rate + 4 * self.rate_mhz) / 5
        };
        self.samples_this_period = 0;
        self.last_rate_us = now_us;
        true
    }

    /// Achieved rate in samples per thousand seconds.
    pub fn rate_mhz(&self) -> (r: u64)
        ensures
            r == self.rate_mhz,
    {
        self.rate_mhz
    }
}

/// Nothing is published while the gyro is not calibrated.
pub proof fn law_nothing_published_while_warming_up(
    before: ImuState,
    after: ImuState,
    now_us: u64,
    calib: Option<Result<u8, Error>>,
    frame: Result<Seq<u8>, Error>,
    r: PollOutcome,
)
    requires
        stream_after(before, after, now_us, calib, frame, r),
        after.calib.gyr < MIN_GYR_CALIB,
    ensures
        after.latest == before.latest,
        after.ring@ == before.ring@,
{
}

/// One poll's step of the stream, at some time and with some answers of the sensor.
pub open spec fn stream_step(before: ImuState, after: ImuState, r: PollOutcome) -> bool {
    exists|now_us: u64, calib: Option<Result<u8, Error>>, frame: Result<Seq<u8>, Error>| #[trigger]
        stream_after(before, after, now_us, calib, frame, r)
}

/// Every poll is one step of the stream.
pub proof fn law_poll_steps_the_stream<B: I2cBus>(
    before: ImuPoller<B>,
    after: ImuPoller<B>,
    now_us: u64,
    calib: Option<Result<u8, Error>>,
    frame: Result<Seq<u8>, Error>,
    r: PollOutcome,
)
    requires
        polled(before, after, now_us, calib, frame, r),
    ensures
        stream_step(before.state, after.state, r),
{
    assert(stream_after(before.state, after.state, now_us, calib, frame, r));
}

/// A run of polls from a fresh stream: the stream before the first poll and after each,
/// and what each poll came to.
pub open spec fn stream_run(states: Seq<ImuState>, outcomes: Seq<PollOutcome>) -> bool {
    &&& states.len() == outcomes.len() + 1
    &&& states[0].latest is None
    &&& states[0].ring@ == Seq::<ImuSample>::empty()
    &&& states[0].next_sample_index == 0
    &&& forall|i: int|
        0 <= i < outcomes.len() ==> #[trigger] stream_step(states[i], states[i + 1], outcomes[i])
}

/// Frames among the first `n` polls, published or withheld.
pub open spec fn frames_before(outcomes: Seq<PollOutcome>, n: nat) -> nat
    decreases n,
{
    if n == 0 {
        0
    } else {
        let before = frames_before(outcomes, (n - 1) as nat);
        let r = outcomes[n - 1];
        if r == PollOutcome::Published || r == PollOutcome::Gated {
            before + 1
        } else {
            before
        }
    }
}

/// The samples that the first `n` polls published, oldest first.
pub open spec fn published(
    states: Seq<ImuState>,
    outcomes: Seq<PollOutcome>,
    n: nat,
) -> Seq<ImuSample>
    decreases n,
{
    if n == 0 {
        Seq::empty()
    } else {
        let before = published(states, outcomes, (n - 1) as nat);
        if outcomes[n - 1] == PollOutcome::Published {
            before.push(states[n as int].latest->Some_0)
        } else {
            before
        }
    }
}

/// The newest samples of a stream that the ring has room for.
pub open spec fn newest(all: Seq<ImuSample>) -> Seq<ImuSample> {
    if all.len() <= RING_CAPACITY {
        all
    } else {
        all.skip(all.len() - RING_CAPACITY)
    }
}

/// Over a run of polls the frames are numbered one by one from zero, modulo 2^32, and
/// the withheld ones count: what a poll publishes carries the number of frames that came
/// before it. A frame is published exactly where the gyro is calibrated. The ring holds
/// the newest published samples, oldest first, and the latest sample is its newest.
pub proof fn law_frames_are_numbered(
    states: Seq<ImuState>,
    outcomes: Seq<PollOutcome>,
    n: nat,
)
    requires
        stream_run(states, outcomes),
        n <= outcomes.len(),
    ensures
        states[n as int].next_sample_index == frames_before(outcomes, n) % 0x1_0000_0000,
        states[n as int].ring@ == newest(published(states, outcomes, n)),
        states[n as int].ring@.len() <= RING_CAPACITY,
        states[n as int].latest == (if published(states, outcomes, n).len() == 0 {
            None
        } else {
            Some(published(states, outcomes, n).last())
        }),
        forall|i: int|
            0 <= i < n && outcomes[i] == PollOutcome::Published ==> {
                let s = #[trigger] states[i + 1];
                &&& s.latest is Some
                &&& s.latest->Some_0.sample_index == frames_before(outcomes, i as nat) % 0x1_0000_0000
                &&& s.calib.gyr >= MIN_GYR_CALIB
            },
        forall|i: int|
            0 <= i < n && outcomes[i] == PollOutcome::Gated ==> (#[trigger] states[i + 1]).calib.gyr
                < MIN_GYR_CALIB,
    decreases n,
{
    if n > 0 {
        let m = (n - 1) as nat;
        law_frames_are_numbered(states, outcomes, m);
        let (before, after, r) = (states[m as int], states[m as int + 1], outcomes[m as int]);
        assert(stream_step(before, after, r));
        let f = frames_before(outcomes, m);
        if f % 0x1_0000_0000 == 0xFFFF_FFFF {
            assert((f + 1) % 0x1_0000_0000 == 0);
        } else {
            assert((f + 1) % 0x1_0000_0000 == f % 0x1_0000_0000 + 1);
        }
        let old_all = published(states, outcomes, m);
        let all = published(states, outcomes, n);
        if r == PollOutcome::Published {
            let s = after.latest->Some_0;
            assert(all == old_all.push(s));
            assert(newest(all) =~= ring_push(newest(old_all), s));
        }
    }
}

/// The rate of a period is its samples per thousand seconds, rounded down, and the
/// smoothed rate goes a fifth of the way to it, rounded down; the first counts in full.
pub proof fn law_rate_is_samples_over_time(samples: u32, elapsed_us: u64, prev: u64)
    requires
        elapsed_us > 0,
    ensures
        ({
            let rate = period_rate(samples, elapsed_us);
            &&& rate * elapsed_us <= 1_000_000_000 * samples < (rate + 1) * elapsed_us
            &&& smoothed(0, rate) == rate
            &&& prev > 0 ==> 5 * (smoothed(prev, rate) - prev) <= rate - prev < 5 * (smoothed(
                prev,
                rate,
            ) - prev) + 5
        }),
{
    let (n, d) = (samples * 1_000_000_000, elapsed_us as int);
    vstd::arithmetic::div_mod::lemma_fundamental_div_mod(n, d);
    let q = n / d;
    assert(q * d <= n < (q + 1) * d) by (nonlinear_arith)
        requires
            n == d * q + n % d,
            0 <= n % d < d,
    ;
}

/// The calibration status is read at first and then once a second.
pub proof fn law_calibration_once_a_second(last: u64, now_us: u64)
    ensures
        calib_due(None, now_us),
        calib_due(Some(last), now_us) <==> now_us - last >= 1_000_000,
{
}

/// A frame is published exactly where the gyro has some calibration, as it is and with the
/// time of its reading; the newest published one is the latest and the last of the ring.
pub proof fn law_published_frame(
    before: ImuState,
    after: ImuState,
    now_us: u64,
    calib: Option<Result<u8, Error>>,
    b: Seq<u8>,
    r: PollOutcome,
)
    requires
        b.len() == 14,
        stream_after(before, after, now_us, calib, Ok(b), r),
    ensures
        r == PollOutcome::Published <==> after.calib.gyr >= 1 && exists|i: int|
            0 <= i < 8 && #[trigger] b[i] != 0,
        r == PollOutcome::Published ==> after.latest is Some && ({
            let s = after.latest->Some_0;
            &&& s.t_read_us == now_us
            &&& b[0] == s.fusion.w % 256 && b[2] == s.fusion.x % 256 && b[4] == s.fusion.y % 256
                && b[6] == s.fusion.z % 256
            &&& after.ring@.last() == s
        }),
{
    crate::hal::bno055::law_no_frame_is_all_zero(b);
}

/// Every frame that is read counts for the rate, published or not, and nothing else does. A
/// poll reads the calibration where it is due and notes when it did.
pub proof fn law_frames_count_for_the_rate<B: I2cBus>(
    before: ImuPoller<B>,
    after: ImuPoller<B>,
    now_us: u64,
    calib: Option<Result<u8, Error>>,
    frame: Result<Seq<u8>, Error>,
    r: PollOutcome,
)
    requires
        polled(before, after, now_us, calib, frame, r),
        before.samples_this_period < u32::MAX,
    ensures
        r == PollOutcome::Published || r == PollOutcome::Gated ==> after.samples_this_period
            == before.samples_this_period + 1,
        r != PollOutcome::Published && r != PollOutcome::Gated ==> after.samples_this_period
            == before.samples_this_period,
        after.rate_mhz == before.rate_mhz,
        after.last_rate_us == before.last_rate_us,
        calib is Some <==> calib_due(before.last_calib_us, now_us),
        calib is Some ==> after.last_calib_us == Some(now_us),
        calib is None ==> after.last_calib_us == before.last_calib_us,
{
}

/// A poll ends with a burst of 14 bytes from register 0x20, behind a read of the calibration
/// where that is due, and asks nothing else.
pub proof fn law_what_a_poll_asks(
    before: Seq<BusEvent>,
    after: Seq<BusEvent>,
    calib: Option<Result<u8, Error>>,
    frame: Result<Seq<u8>, Error>,
)
    requires
        bus_after(before, after, calib, frame),
    ensures
        after.last() is ReadBlock,
        after.last()->ReadBlock_reg == 0x20,
        after.last()->len == 14,
        after.last()->ReadBlock_result == frame,
        frame is Ok ==> frame->Ok_0.len() == 14,
        calib is None ==> after.len() == before.len() + 1,
        calib is Some ==> after.len() == before.len() + 2 && after[before.len() as int] == (
        BusEvent::Read { reg: 0x35, result: calib->0 }),
{
    if calib is Some {
        let mid = choose|mid: Seq<BusEvent>| #[trigger]
            calib_read(before, mid, calib->0) && burst(mid, after, REG_QUA_DATA, 14, frame);
        assert(after[before.len() as int] == mid[before.len() as int]);
    }
}

/// A failed read is counted and changes nothing of the samples; a frame that came is none,
/// and takes the next number whether it is published or not. The calibration is the last one
/// that was read.
pub proof fn law_what_a_poll_changes(
    before: ImuState,
    after: ImuState,
    now_us: u64,
    calib: Option<Result<u8, Error>>,
    frame: Result<Seq<u8>, Error>,
    r: PollOutcome,
)
    requires
        stream_after(before, after, now_us, calib, frame, r),
    ensures
        r == PollOutcome::Failed <==> frame is Err,
        frame is Err ==> after.read_failures == before.read_failures + 1,
        frame is Ok ==> after.read_failures == before.read_failures,
        r == PollOutcome::Failed || r == PollOutcome::NoFrame ==> after.next_sample_index
            == before.next_sample_index,
        r == PollOutcome::Published || r == PollOutcome::Gated ==> after.next_sample_index
            == next_index(before.next_sample_index),
        r != PollOutcome::Published ==> after.latest == before.latest && after.ring@ == before.ring@,
        r == PollOutcome::Published ==> after.latest is Some && after.latest->0.sample_index
            == before.next_sample_index && after.ring@ == ring_push(before.ring@, after.latest->0),
        calib is Some && calib->0 is Ok ==> after.calib == calib_of(calib->0->Ok_0),
        calib is None || calib->0 is Err ==> after.calib == before.calib,
{
}

} // verus!
