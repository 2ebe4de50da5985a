//! Which completed requests become published frames.
use vstd::prelude::*;

verus! {

/// Completed requests that are thrown away after start-up.
pub const WARMUP_FRAMES: usize = 5;

/// Publication state of the capture loop.
#[derive(Debug, Clone, Copy, PartialEq, Eq, Structural)]
pub struct FrameGate {
    /// Requests thrown away so far.
    pub warmup: usize,
    /// Frames published so far; a waiting reader looks for a change of it.
    pub generation: u64,
}

impl FrameGate {
    pub open spec fn wf(&self) -> bool {
        &&& self.warmup <= WARMUP_FRAMES
        &&& self.generation > 0 ==> self.warmup == WARMUP_FRAMES
    }

    /// The state after one more completed request.
    pub open spec fn completed(&self) -> FrameGate {
        if self.warmup == WARMUP_FRAMES {
            FrameGate { generation: (self.generation + 1) as u64, ..*self }
        } else {
            FrameGate { warmup: (self.warmup + 1) as usize, ..*self }
        }
    }

    pub fn new() -> (r: Self)
        ensures
            r.wf(),
            r.warmup == 0,
            r.generation == 0,
    {
        FrameGate { warmup: 0, generation: 0 }
    }

    /// A request completed. Tells whether its frame is published: not until the
    /// warm-up is over, and from then on always, each time under a new
    /// generation.
    pub fn on_completed(&mut self) -> (publish: bool)
        requires
            old(self).wf(),
            old(self).generation < u64::MAX,
        ensures
            final(self).wf(),
            publish == (old(self).warmup == WARMUP_FRAMES),
            *final(self) == old(self).completed(),
    {
        if self.warmup >= WARMUP_FRAMES {
            self.generation = self.generation + 1;
            true
        } else {
            self.warmup = self.warmup + 1;
            false
        }
    }
}

/// Bytes of a frame buffer that hold the picture.
pub open spec fn payload_of(bytes_used: Option<usize>, width: u32, height: u32) -> int {
    match bytes_used {
        Some(n) => n as int,
        None => width * height * 2,
    }
}

/// Bytes to take from a frame buffer: what its metadata says, or else the size
/// of a full YUYV picture.
pub fn payload_len(bytes_used: Option<usize>, width: u32, height: u32) -> (r: usize)
    requires
        bytes_used is None ==> width * height * 2 <= usize::MAX,
    ensures
        r == payload_of(bytes_used, width, height),
{
    match bytes_used {
        Some(n) => n,
        None => {
            assert(width as usize * height as usize <= width * height * 2) by (nonlinear_arith)
                requires
                    0 <= width,
                    0 <= height,
            ;
            width as usize * height as usize * 2
        },
    }
}

/// The state after `n` completed requests.
pub open spec fn after_requests(n: nat) -> FrameGate
    decreases n,
{
    if n == 0 {
        FrameGate { warmup: 0, generation: 0 }
    } else {
        after_requests((n - 1) as nat).completed()
    }
}

/// The first five requests are thrown away, and each one after them is published under the
/// next generation.
pub proof fn law_five_frames_are_thrown_away(n: nat)
    requires
        n <= u64::MAX,
    ensures
        after_requests(n).wf(),
        n <= 5 ==> after_requests(n).generation == 0 && after_requests(n).warmup == n,
        n >= 5 ==> after_requests(n).generation == n - 5 && after_requests(n).warmup == 5,
    decreases n,
{
    if n > 0 {
        law_five_frames_are_thrown_away((n - 1) as nat);
    }
}

/// Metadata decides how much of a buffer is the picture; without it, two bytes a pixel are.
pub proof fn law_payload(n: usize, width: u32, height: u32)
    ensures
        payload_of(Some(n), width, height) == n,
        payload_of(None, width, height) == 2 * (width * height),
{
}

} // verus!
