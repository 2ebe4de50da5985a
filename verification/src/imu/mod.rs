//! The stream of orientation samples: a latest-sample slot and a ring of recent
//! ones, gated on the sensor's warm-up.
//!
//! After power-up the sensor zeroes its gyro while standing still. Until its
//! gyro calibration reaches the first rung, what it reports is meaningless and
//! is not published.
pub mod poll;

use crate::hal::bno055::{CalibStatus, FusionSample};
use std::collections::VecDeque;
use vstd::prelude::*;

verus! {

/// Sample period in microseconds: the sensor's fusion rate of 100 Hz.
pub const SAMPLE_PERIOD_US: u64 = 10_000;

/// How often the calibration status is read again.
pub const CALIB_PERIOD_US: u64 = 1_000_000;

/// Samples kept: 10 s.
pub const RING_CAPACITY: usize = 1000;

/// Gyro calibration from which on the orientation can be trusted.
pub const MIN_GYR_CALIB: u8 = 1;

/// One sample with the host clock at which it was read.
#[derive(Debug, Clone, Copy, PartialEq, Eq, Structural)]
pub struct ImuSample {
    pub fusion: FusionSample,
    /// Host monotonic clock in microseconds.
    pub t_read_us: u64,
    /// Running number; a stalled stream shows as this not advancing.
    pub sample_index: u32,
}

/// State of the sample stream.
#[derive(Debug)]
pub struct ImuState {
    pub latest: Option<ImuSample>,
    /// Recent samples, oldest first.
    pub ring: VecDeque<ImuSample>,
    pub read_failures: u64,
    pub calib: CalibStatus,
    pub next_sample_index: u32,
}

/// The ring with one more sample; the oldest goes when it is full.
pub open spec fn ring_push(ring: Seq<ImuSample>, s: ImuSample) -> Seq<ImuSample> {
    if ring.len() == RING_CAPACITY {
        ring.drop_first().push(s)
    } else {
        ring.push(s)
    }
}

/// The samples among the first `n` that were read at `since` or later.
pub open spec fn since_list(ring: Seq<ImuSample>, since: u64, n: nat) -> Seq<ImuSample>
    decreases n,
{
    if n == 0 {
        Seq::empty()
    } else {
        let before = since_list(ring, since, (n - 1) as nat);
        if ring[n - 1].t_read_us >= since {
            before.push(ring[n - 1])
        } else {
            before
        }
    }
}

/// The next sample number.
pub open spec fn next_index(i: u32) -> u32 {
    if i == u32::MAX {
        0
    } else {
        (i + 1) as u32
    }
}

impl ImuState {
    /// The ring is bounded, and its newest sample is the latest one.
    pub open spec fn wf(&self) -> bool {
        &&& self.ring@.len() <= RING_CAPACITY
        &&& match self.latest {
            Some(s) => self.ring@.len() > 0 && self.ring@.last() == s,
            None => self.ring@.len() == 0,
        }
    }

    pub fn new() -> (r: Self)
        ensures
            r.wf(),
            r.latest is None,
            r.ring@ == Seq::<ImuSample>::empty(),
            r.read_failures == 0,
            r.calib == (CalibStatus { sys: 0, gyr: 0, acc: 0, mag: 0 }),
            r.next_sample_index == 0,
    {
        ImuState {
            latest: None,
            ring: VecDeque::new(),
            read_failures: 0,
            calib: CalibStatus { sys: 0, gyr: 0, acc: 0, mag: 0 },
            next_sample_index: 0,
        }
    }

    /// A calibration status was read.
    pub fn on_calib(&mut self, c: CalibStatus)
        requires
            old(self).wf(),
        ensures
            final(self).wf(),
            final(self).calib == c,
            final(self).latest == old(self).latest,
            final(self).ring@ == old(self).ring@,
            final(self).read_failures == old(self).read_failures,
            final(self).next_sample_index == old(self).next_sample_index,
    {
        self.calib = c;
    }

    /// A fusion frame was read. The number advances in any case; the sample is
    /// published only once the gyro is calibrated. Tells whether it was.
    pub fn on_fusion(&mut self, fusion: FusionSample, t_read_us: u64) -> (published: bool)
        requires
            old(self).wf(),
        ensures
            final(self).wf(),
            final(self).calib == old(self).calib,
            final(self).read_failures == old(self).read_failures,
            final(self).next_sample_index == next_index(old(self).next_sample_index),
            published == (old(self).calib.gyr >= MIN_GYR_CALIB),
            ({
                let s = ImuSample {
                    fusion,
                    t_read_us,
                    sample_index: old(self).next_sample_index,
                };
                if published {
                    final(self).latest == Some(s) && final(self).ring@ == ring_push(
                        old(self).ring@,
                        s,
                    )
                } else {
                    final(self).latest == old(self).latest && final(self).ring@ == old(self).ring@
                }
            }),
    {
        let idx: u32 = self.next_sample_index;
        self.next_sample_index = if idx == u32::MAX {
            0
        } else {
            idx + 1
        };
        if self.calib.gyr < MIN_GYR_CALIB {
            return false;
        }
        let s = ImuSample { fusion, t_read_us, sample_index: idx };
        self.latest = Some(s);
        if self.ring.len() == RING_CAPACITY {
            let ghost full = self.ring@;
            let _ = self.ring.pop_front();
            assert(self.ring@ =~= full.drop_first());
        }
        self.ring.push_back(s);
        true
    }

    /// A read failed.
    pub fn on_failure(&mut self)
        requires
            old(self).wf(),
            old(self).read_failures < u64::MAX,
        ensures
            final(self).wf(),
            final(self).read_failures == old(self).read_failures + 1,
            final(self).calib == old(self).calib,
            final(self).latest == old(self).latest,
            final(self).ring@ == old(self).ring@,
            final(self).next_sample_index == old(self).next_sample_index,
    {
        self.read_failures = self.read_failures + 1;
    }

    /// Most recent sample; none before the warm-up is over.
    pub fn latest(&self) -> (r: Option<ImuSample>)
        ensures
            r == self.latest,
    {
        self.latest
    }

    /// All samples in the ring read at `since_us` or later, oldest first.
    pub fn recent_since(&self, since_us: u64) -> (r: Vec<ImuSample>)
        ensures
            r@ == since_list(self.ring@, since_us, self.ring@.len()),
    {
        let mut out: Vec<ImuSample> = Vec::new();
        let mut i: usize = 0;
        while i < self.ring.len()
            invariant
                i <= self.ring@.len(),
                out@ == since_list(self.ring@, since_us, i as nat),
            decreases self.ring@.len() - i,
        {
            let s: ImuSample = self.ring[i];
            if s.t_read_us >= since_us {
                out.push(s);
            }
            i = i + 1;
        }
        out
    }

    /// Most recent sample in the ring read at `at_us` or before; none if there
    /// is no such sample.
    pub fn latest_before(&self, at_us: u64) -> (r: Option<ImuSample>)
        ensures
            match r {
                Some(s) => exists|i: int| #[trigger] is_last_before(self.ring@, at_us, i) && s
                    == self.ring@[i],
                None => forall|i: int|
                    0 <= i < self.ring@.len() ==> (#[trigger] self.ring@[i]).t_read_us > at_us,
            },
    {
        let mut n: usize = self.ring.len();
        while n > 0
            invariant
                n <= self.ring@.len(),
                forall|i: int|
                    n <= i < self.ring@.len() ==> (#[trigger] self.ring@[i]).t_read_us > at_us,
            decreases n,
        {
            let s: ImuSample = self.ring[n - 1];
            if s.t_read_us <= at_us {
                assert(is_last_before(self.ring@, at_us, n - 1));
                return Some(s);
            }
            n = n - 1;
        }
        None
    }

    /// Latest calibration status.
    pub fn calib_status(&self) -> (r: CalibStatus)
        ensures
            r == self.calib,
    {
        self.calib
    }
}

/// Sample `i` is the last one of the ring read at `at` or before.
pub open spec fn is_last_before(ring: Seq<ImuSample>, at: u64, i: int) -> bool {
    &&& 0 <= i < ring.len()
    &&& ring[i].t_read_us <= at
    &&& forall|j: int| i < j < ring.len() ==> (#[trigger] ring[j]).t_read_us > at
}

/// Whether something that last happened at `last_us` and is to happen every
/// `period_us` is due.
pub fn is_due(last_us: u64, now_us: u64, period_us: u64) -> (r: bool)
    ensures
        r == (now_us - last_us >= period_us),
{
    now_us >= last_us && now_us - last_us >= period_us
}

/// The number of the previous sample is never repeated by the next one, also
/// across the wrap.
pub proof fn law_sample_numbers_advance(i: u32)
    ensures
        next_index(i) != i,
{
}

/// The samples since an instant are those of the ring that were read then or later, all of
/// them and in order.
pub proof fn law_recent_samples(ring: Seq<ImuSample>, since: u64)
    ensures
        since_list(ring, since, ring.len()) == ring.filter(|s: ImuSample| s.t_read_us >= since),
{
    lemma_since_is_filter(ring, since, ring.len());
    assert(ring.take(ring.len() as int) =~= ring);
}

proof fn lemma_since_is_filter(ring: Seq<ImuSample>, since: u64, n: nat)
    requires
        n <= ring.len(),
    ensures
        since_list(ring, since, n) == ring.take(n as int).filter(
            |s: ImuSample| s.t_read_us >= since,
        ),
    decreases n,
{
    let keep = |s: ImuSample| s.t_read_us >= since;
    reveal(Seq::filter);
    if n > 0 {
        lemma_since_is_filter(ring, since, (n - 1) as nat);
        assert(ring.take(n as int).drop_last() =~= ring.take(n - 1));
        assert(ring.take(n as int).last() == ring[n - 1]);
    } else {
        assert(ring.take(0).len() == 0);
    }
}

/// A full ring drops its oldest sample; the others keep their order.
pub proof fn law_ring_drops_the_oldest(ring: Seq<ImuSample>, s: ImuSample)
    requires
        ring.len() <= 1000,
    ensures
        ring.len() < 1000 ==> ring_push(ring, s) == ring.push(s),
        ring.len() == 1000 ==> ring_push(ring, s) == ring.skip(1).push(s),
{
}

/// Numbers count up by one and wrap to zero after the largest.
pub proof fn law_numbers_count_up(i: u32)
    ensures
        next_index(i) == (i + 1) % 0x1_0000_0000,
{
}

/// A sample that was read by an instant, with every later one of the ring read after it, is
/// the last before the instant; there is one wherever any was read by then, and no second.
pub proof fn law_last_before_an_instant(ring: Seq<ImuSample>, at: u64, i: int, k: int)
    requires
        0 <= i < ring.len(),
        ring[i].t_read_us <= at,
    ensures
        (forall|j: int| i < j < ring.len() ==> (#[trigger] ring[j]).t_read_us > at)
            ==> is_last_before(ring, at, i),
        exists|m: int| i <= m && #[trigger] is_last_before(ring, at, m),
        is_last_before(ring, at, i) && is_last_before(ring, at, k) ==> i == k,
    decreases ring.len() - i,
{
    if exists|j: int| i < j < ring.len() && (#[trigger] ring[j]).t_read_us <= at {
        let j = choose|j: int| i < j < ring.len() && (#[trigger] ring[j]).t_read_us <= at;
        law_last_before_an_instant(ring, at, j, k);
        let m = choose|m: int| j <= m && #[trigger] is_last_before(ring, at, m);
        assert(i <= m && is_last_before(ring, at, m));
    } else {
        assert(is_last_before(ring, at, i));
    }
}

} // verus!
