//! Timed driving with built-in safety.
use vstd::prelude::*;

verus! {

/// Clearance that driving forward needs (micrometres).
pub const SAFE_DISTANCE_UM: u64 = 300_000;

/// Settling time of the pan servo (milliseconds).
pub const PAN_SETTLE_MS: u64 = 300;

/// Time between two clearance checks while driving (milliseconds).
pub const DRIVE_CHECK_INTERVAL_MS: u64 = 100;

/// The way the car can move.
#[derive(Debug, Clone, Copy, PartialEq, Eq, Structural)]
pub enum Manoeuvre {
    Forward,
    Backward,
    TurnLeft,
    TurnRight,
}

/// Left and right side of a manoeuvre at a duty.
pub open spec fn sides(m: Manoeuvre, duty: int) -> (int, int) {
    match m {
        Manoeuvre::Forward => (duty, duty),
        Manoeuvre::Backward => (-duty, -duty),
        Manoeuvre::TurnLeft => (-duty, duty),
        Manoeuvre::TurnRight => (duty, -duty),
    }
}

/// Left and right duty of a manoeuvre.
pub fn duties(m: Manoeuvre, duty: i32) -> (r: (i32, i32))
    requires
        duty > i32::MIN,
    ensures
        (r.0 as int, r.1 as int) == sides(m, duty as int),
{
    match m {
        Manoeuvre::Forward => (duty, duty),
        Manoeuvre::Backward => (-duty, -duty),
        Manoeuvre::TurnLeft => (-duty, duty),
        Manoeuvre::TurnRight => (duty, -duty),
    }
}

/// The way ahead is clear: nothing was measured, or it is far enough.
pub open spec fn is_clear(dist: Option<u64>) -> bool {
    dist matches Some(d) ==> d > SAFE_DISTANCE_UM
}

/// Whether the way ahead is clear.
pub fn clear_ahead(dist_um: Option<u64>) -> (r: bool)
    ensures
        r == is_clear(dist_um),
{
    match dist_um {
        None => true,
        Some(d) => d > SAFE_DISTANCE_UM,
    }
}

/// A drive that is under way.
#[derive(Debug, Clone, Copy, PartialEq, Eq, Structural)]
pub struct Drive {
    pub left: i32,
    pub right: i32,
    pub deadline_us: u64,
}

/// What to do next in a drive.
#[derive(Debug, Clone, Copy, PartialEq, Eq, Structural)]
pub enum DriveAction {
    /// Keep going and look again after the check interval.
    Continue,
    /// Time is up: stop the motors; the drive completed.
    Complete,
    /// An obstacle is in the way: stop the motors; the drive was cut short.
    Obstacle,
}

/// Driving forward needs a look ahead first.
pub open spec fn looks_ahead(left: i32, right: i32) -> bool {
    left > 0 && right > 0
}

impl Drive {
    /// Starts a drive, unless it goes forward and the way is not clear.
    pub fn start(
        left: i32,
        right: i32,
        duration_us: u64,
        now_us: u64,
        dist_um: Option<u64>,
    ) -> (r: Option<Self>)
        requires
            now_us + duration_us <= u64::MAX,
        ensures
            r == (if looks_ahead(left, right) && !is_clear(dist_um) {
                None
            } else {
                Some(Drive { left, right, deadline_us: (now_us + duration_us) as u64 })
            }),
    {
        if left > 0 && right > 0 && !clear_ahead(dist_um) {
            return None;
        }
        Some(Drive { left, right, deadline_us: now_us + duration_us })
    }

    /// The next action, given the time and the distance that is read while
    /// driving forward.
    pub fn poll(&self, now_us: u64, dist_um: Option<u64>) -> (r: DriveAction)
        ensures
            r == (if now_us >= self.deadline_us {
                DriveAction::Complete
            } else if looks_ahead(self.left, self.right) && (dist_um matches Some(d) && d
                < SAFE_DISTANCE_UM) {
                DriveAction::Obstacle
            } else {
                DriveAction::Continue
            }),
    {
        if now_us >= self.deadline_us {
            return DriveAction::Complete;
        }
        if self.left > 0 && self.right > 0 {
            if let Some(d) = dist_um {
                if d < SAFE_DISTANCE_UM {
                    return DriveAction::Obstacle;
                }
            }
        }
        DriveAction::Continue
    }
}

/// Only driving ahead with both sides looks for obstacles, and clear means nothing within
/// 30 cm.
pub proof fn law_what_is_clear(left: i32, right: i32, dist: Option<u64>)
    ensures
        is_clear(dist) <==> dist is None || dist->Some_0 > 300_000,
        looks_ahead(left, right) ==> left > 0 && right > 0,
        left > 0 && right > 0 ==> looks_ahead(left, right),
        looks_ahead(left, right) == looks_ahead(right, left),
{
}

/// Forward and backward go straight, one way and the other; the turns are on the spot, to
/// the left with the right side ahead and to the right with the left one. Every side runs at
/// the duty, one way or the other.
pub proof fn law_sides_of_a_manoeuvre(duty: int)
    ensures
        ({
            let (fwd, back) = (sides(Manoeuvre::Forward, duty), sides(Manoeuvre::Backward, duty));
            let (left, right) = (sides(Manoeuvre::TurnLeft, duty), sides(Manoeuvre::TurnRight, duty));
            &&& fwd.0 == fwd.1 && fwd.0 + fwd.1 == 2 * duty
            &&& back.0 == -fwd.0 && back.1 == -fwd.1
            &&& left.0 + left.1 == 0 && left.1 - left.0 == 2 * duty
            &&& right.0 == left.1 && right.1 == left.0
        }),
{
}

} // verus!
