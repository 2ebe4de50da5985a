//! Bitrate adaptation and keyframe requests from receiver feedback.
//!
//! A picture loss indication or full intra request asks for a keyframe. The
//! loss in receiver reports moves the bitrate: a multiplicative cut on loss,
//! gradual additive recovery when the link is clean.
use vstd::prelude::*;

verus! {

/// Bitrate envelope (bits per second).
pub const INITIAL_BITRATE: u32 = 2_500_000;

pub const MIN_BITRATE: u32 = 300_000;

pub const MAX_BITRATE: u32 = 4_000_000;

/// Loss at which to back off, in 1/256; 13 is about 5 %.
pub const LOSS_BACKOFF_THRESHOLD: u8 = 13;

/// Bits per second added per clean report.
pub const RECOVERY_STEP: u32 = 150_000;

/// The target is kept in millionths of a bit per second.
pub const MICRO: u64 = 1_000_000;

/// A feedback packet.
#[derive(Debug)]
pub enum Feedback {
    /// Picture loss indication or full intra request.
    KeyframeRequest,
    /// The loss fractions of a receiver report, in 1/256.
    Report { fraction_lost: Vec<u8> },
    /// Anything else.
    Other,
}

/// What to tell the encoder.
#[derive(Debug, Clone, Copy, PartialEq, Eq, Structural)]
pub enum EncoderOrder {
    Nothing,
    Keyframe,
    Bitrate(u32),
}

/// Bitrate controller of one session.
#[derive(Debug, Clone, Copy, PartialEq, Eq, Structural)]
pub struct RateControl {
    /// Target bitrate in millionths of a bit per second.
    pub target: u64,
}

/// The highest loss in a report; 0 for an empty one.
pub open spec fn worst_loss(f: Seq<u8>, n: nat) -> u8
    decreases n,
{
    if n == 0 {
        0
    } else {
        let before = worst_loss(f, (n - 1) as nat);
        if f[n - 1] > before {
            f[n - 1]
        } else {
            before
        }
    }
}

/// The target after a report with this worst loss: cut to 85 % on loss, raised
/// by a step otherwise, and kept inside the envelope.
pub open spec fn next_target(target: u64, worst: u8) -> u64 {
    if worst >= LOSS_BACKOFF_THRESHOLD {
        let cut = target * 17 / 20;
        if cut < MIN_BITRATE * MICRO {
            (MIN_BITRATE * MICRO) as u64
        } else {
            cut as u64
        }
    } else {
        let up = target + RECOVERY_STEP * MICRO;
        if up > MAX_BITRATE * MICRO {
            (MAX_BITRATE * MICRO) as u64
        } else {
            up as u64
        }
    }
}

fn worst(f: &Vec<u8>) -> (r: u8)
    ensures
        r == worst_loss(f@, f@.len()),
{
    let mut w: u8 = 0;
    let mut i: usize = 0;
    while i < f.len()
        invariant
            i <= f@.len(),
            w == worst_loss(f@, i as nat),
        decreases f@.len() - i,
    {
        if f[i] > w {
            w = f[i];
        }
        i = i + 1;
    }
    w
}

impl RateControl {
    /// The target lies in the envelope.
    pub open spec fn wf(&self) -> bool {
        MIN_BITRATE * MICRO <= self.target <= MAX_BITRATE * MICRO
    }

    pub fn new() -> (r: Self)
        ensures
            r.wf(),
            r.target == INITIAL_BITRATE * MICRO,
    {
        RateControl { target: INITIAL_BITRATE as u64 * MICRO }
    }

    /// One feedback packet: a keyframe request is passed on; a receiver report
    /// moves the target, and the encoder hears of it when it moved by at least
    /// one bit per second.
    pub fn on_feedback(&mut self, packet: &Feedback) -> (r: EncoderOrder)
        requires
            old(self).wf(),
        ensures
            final(self).wf(),
            match *packet {
                Feedback::KeyframeRequest => r == EncoderOrder::Keyframe && *final(self) == *old(
                    self,
                ),
                Feedback::Other => r == EncoderOrder::Nothing && *final(self) == *old(self),
                Feedback::Report { fraction_lost } => {
                    let next = next_target(
                        old(self).target,
                        worst_loss(fraction_lost@, fraction_lost@.len()),
                    );
                    &&& final(self).target == next
                    &&& r == (if next - old(self).target >= MICRO || old(self).target - next >= MICRO {
                        EncoderOrder::Bitrate((next / MICRO) as u32)
                    } else {
                        EncoderOrder::Nothing
                    })
                },
            },
    {
        match packet {
            Feedback::KeyframeRequest => EncoderOrder::Keyframe,
            Feedback::Other => EncoderOrder::Nothing,
            Feedback::Report { fraction_lost } => {
                let loss: u8 = worst(fraction_lost);
                let prev: u64 = self.target;
                let next: u64 = if loss >= LOSS_BACKOFF_THRESHOLD {
                    let cut: u64 = prev * 17 / 20;
                    if cut < MIN_BITRATE as u64 * MICRO {
                        MIN_BITRATE as u64 * MICRO
                    } else {
                        cut
                    }
                } else {
                    let up: u64 = prev + RECOVERY_STEP as u64 * MICRO;
                    if up > MAX_BITRATE as u64 * MICRO {
                        MAX_BITRATE as u64 * MICRO
                    } else {
                        up
                    }
                };
                self.target = next;
                let moved: u64 = if next > prev {
                    next - prev
                } else {
                    prev - next
                };
                if moved >= MICRO {
                    EncoderOrder::Bitrate((next / MICRO) as u32)
                } else {
                    EncoderOrder::Nothing
                }
            },
        }
    }
}

/// Whatever the receiver reports, the target stays inside the envelope; loss
/// never raises it and a clean report never lowers it.
pub proof fn law_bitrate_in_envelope(target: u64, worst: u8)
    requires
        MIN_BITRATE * MICRO <= target <= MAX_BITRATE * MICRO,
    ensures
        MIN_BITRATE * MICRO <= next_target(target, worst) <= MAX_BITRATE * MICRO,
        worst >= LOSS_BACKOFF_THRESHOLD ==> next_target(target, worst) <= target,
        worst < LOSS_BACKOFF_THRESHOLD ==> next_target(target, worst) >= target,
{
}

/// The worst loss of a report is the largest in it.
pub proof fn law_worst_loss_is_the_largest(f: Seq<u8>, n: nat, i: int)
    requires
        n <= f.len(),
        0 <= i < n,
    ensures
        worst_loss(f, n) >= f[i],
        exists|k: int| 0 <= k < n && #[trigger] f[k] == worst_loss(f, n),
        worst_loss(f, 0) == 0,
    decreases n,
{
    if n > 1 {
        let m = (n - 1) as nat;
        law_worst_loss_is_the_largest(
            f,
            m,
            if i < m {
                i
            } else {
                0
            },
        );
        if worst_loss(f, n) == worst_loss(f, m) {
            let k = choose|k: int| 0 <= k < m && #[trigger] f[k] == worst_loss(f, m);
            assert(f[k] == worst_loss(f, n));
        } else {
            assert(f[n - 1] == worst_loss(f, n));
        }
    } else {
        assert(worst_loss(f, 0) == 0);
        assert(f[0] == worst_loss(f, n));
    }
}

/// A loss of 13 parts in 256 or more cuts the target to 85 %, rounded down to a millionth
/// of a bit per second but not below 300 kbit/s; less raises it by 150 kbit/s, but not
/// above 4 Mbit/s.
pub proof fn law_bitrate_steps(target: u64, worst: u8)
    requires
        300_000_000_000 <= target <= 4_000_000_000_000,
    ensures
        ({
            let next = next_target(target, worst);
            &&& worst >= 13 && next > 300_000_000_000 ==> 20 * next <= 17 * target < 20 * next + 20
            &&& worst >= 13 && next == 300_000_000_000 ==> 17 * target < 20 * (next + 1)
            &&& worst >= 13 ==> next >= 300_000_000_000
            &&& worst < 13 && target <= 3_850_000_000_000 ==> next == target + 150_000_000_000
            &&& worst < 13 && target > 3_850_000_000_000 ==> next == 4_000_000_000_000
        }),
{
}

} // verus!
