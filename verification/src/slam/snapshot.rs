//! What the map publisher shows of the camera path.
use vstd::prelude::*;

verus! {

/// Most path points published; the newest are kept.
pub const MAX_TRAJECTORY: usize = 800;

/// How many points of a path of `n` are published: all, up to the limit.
pub open spec fn shown(n: int) -> int {
    if n > MAX_TRAJECTORY {
        MAX_TRAJECTORY as int
    } else {
        n
    }
}

/// First path point that is published.
pub fn published_from(n: usize) -> (start: usize)
    ensures
        start == n - shown(n as int),
        n <= 800 ==> start == 0,
        n > 800 ==> n - start == 800,
{
    if n > MAX_TRAJECTORY {
        n - MAX_TRAJECTORY
    } else {
        0
    }
}

/// What is compared of a result: its corner count and its detection time.
pub open spec fn stamp(n_total: u32, detect_cms: u32) -> u32 {
    n_total ^ detect_cms
}

/// Lets a stream send only what has changed since it last sent.
#[derive(Debug, Clone, Copy, PartialEq, Eq, Structural)]
pub struct StreamGate {
    pub last_sent: u32,
}

impl StreamGate {
    /// Nothing was sent yet.
    pub fn new() -> (r: Self)
        ensures
            r.last_sent == u32::MAX,
    {
        StreamGate { last_sent: u32::MAX }
    }

    /// Whether a result with this corner count and detection time (hundredths
    /// of a millisecond) is new; it is then taken as sent.
    pub fn offer(&mut self, n_total: u32, detect_cms: u32) -> (send: bool)
        ensures
            send == (stamp(n_total, detect_cms) != old(self).last_sent),
            final(self).last_sent == stamp(n_total, detect_cms),
    {
        let stamp: u32 = n_total ^ detect_cms;
        if stamp == self.last_sent {
            return false;
        }
        self.last_sent = stamp;
        true
    }
}

/// A path is shown whole up to 800 points, and by its 800 newest beyond.
pub proof fn law_newest_points_are_shown(n: int)
    requires
        n >= 0,
    ensures
        n <= 800 ==> shown(n) == n,
        n >= 800 ==> shown(n) == 800,
{
}

/// A change of the corner count alone, or of the detection time alone, is never taken for
/// what was sent.
pub proof fn law_a_change_is_noticed(n: u32, cms: u32, other: u32)
    ensures
        other != n ==> stamp(other, cms) != stamp(n, cms),
        other != cms ==> stamp(n, other) != stamp(n, cms),
{
    assert(other != n ==> other ^ cms != n ^ cms) by (bit_vector);
    assert(other != cms ==> n ^ other != n ^ cms) by (bit_vector);
}

} // verus!
