//! HC-SR04 ultrasonic distance sensor.
use vstd::prelude::*;

verus! {

/// Longest waits for the echo line: to fall idle, to rise, to fall again (ms).
pub const ECHO_IDLE_MS: u64 = 100;

pub const ECHO_START_MS: u64 = 10;

pub const ECHO_END_MS: u64 = 50;

/// Distance in micrometres for an echo of this many nanoseconds: half the way
/// of sound at 343 m/s, rounded to whole millimetres (halves up).
pub open spec fn echo_distance(ns: u64) -> int {
    ((ns * 1715 + 5_000_000) / 10_000_000) * 1000
}

/// Distance in micrometres for an echo of this length.
pub fn echo_um(ns: u64) -> (r: u64)
    ensures
        r == echo_distance(ns),
{
    (((ns as u128 * 1715 + 5_000_000) / 10_000_000) * 1000) as u64
}

/// The distance is the millimetre nearest to half the way that sound goes at 343 m/s in
/// the time of the echo; a longer echo is never nearer.
pub proof fn law_echo_is_half_the_way(ns: u64, longer: u64)
    requires
        ns <= longer,
    ensures
        echo_distance(ns) % 1000 == 0,
        -1_000_000 < 2_000 * echo_distance(ns) - 343 * ns <= 1_000_000,
        echo_distance(ns) <= echo_distance(longer),
{
}

} // verus!
