//! Greedy exploration controller on a swept ultrasonic scan: scan, turn to the
//! clearest heading, drive a leg, scan again.
use crate::math::{law_wrap_keeps_direction, wrap_half_turn, wrapped};
use vstd::prelude::*;

verus! {

/// Pan angles of a sweep (degrees).
pub const PAN_FIRST_DEG: i32 = 15;

pub const PAN_LAST_DEG: i32 = 165;

pub const PAN_STEP_DEG: i32 = 10;

pub const PAN_CENTER_DEG: i32 = 90;

/// Servo settling time (milliseconds).
pub const SERVO_SETTLE_MS: u64 = 250;

/// Half width of the window around a heading (degrees).
pub const HEADING_WINDOW_HALF_DEG: i32 = 20;

/// Below this clearance the chassis is hemmed in (micrometres).
pub const BOXED_IN_UM: u64 = 500_000;

/// Forward speed (micrometres per second).
pub const V_FORWARD_UM_S: i32 = 250_000;

/// Turning speed (microradians per second).
pub const W_TURN_URAD_S: i32 = 600_000;

/// Heading error at which a turn is done: 0.05 rad, in whole thousandths of a
/// degree.
pub const TURN_TOLERANCE_MDEG: i64 = 2_864;

pub const TURN_TIMEOUT_US: u64 = 5_000_000;

/// A leg stops at anything this close (micrometres).
pub const STOP_DIST_UM: u64 = 400_000;

/// Longest leg before the next scan (micrometres).
pub const MAX_LEG_UM: u64 = 1_000_000;

/// A leg with no more than this left is done.
pub const LEG_DONE_UM: u64 = 50_000;

pub const DRIVE_TIMEOUT_US: u64 = 8_000_000;

pub const TICK_MS: u64 = 100;

/// One polar scan reading.
#[derive(Debug, Clone, Copy, PartialEq, Eq, Structural)]
pub struct ScanRay {
    /// Pan angle in degrees: 0 left, 90 forward, 180 right.
    pub pan_deg: i32,
    /// Distance in micrometres; none when there was no echo.
    pub distance_um: Option<u64>,
}

/// A scan with the heading chosen from it.
#[derive(Debug)]
pub struct PolarScan {
    pub rays: Vec<ScanRay>,
    pub chosen_idx: usize,
    /// Least distance in the window of the chosen heading; none, which is
    /// infinitely far, if nothing was measured there.
    pub chosen_clearance_um: Option<u64>,
}

#[derive(Debug, Clone, Copy, PartialEq, Eq, Structural)]
pub enum ExplorePhase {
    Idle,
    Scanning,
    Turning { target_theta_mdeg: i64 },
    Driving { distance_remaining_um: u64 },
    BoxedIn,
}

/// The pan angle after another one in a sweep.
pub open spec fn pan_after(pan_deg: int) -> Option<i32> {
    if pan_deg + PAN_STEP_DEG <= PAN_LAST_DEG {
        Some((pan_deg + PAN_STEP_DEG) as i32)
    } else {
        None
    }
}

/// The next pan angle of a sweep.
pub fn next_pan(pan_deg: i32) -> (r: Option<i32>)
    requires
        pan_deg <= PAN_LAST_DEG,
    ensures
        r == pan_after(pan_deg as int),
{
    if pan_deg + PAN_STEP_DEG <= PAN_LAST_DEG {
        Some(pan_deg + PAN_STEP_DEG)
    } else {
        None
    }
}

/// Whether the second ray is in the window around the first.
pub open spec fn in_window(a: ScanRay, b: ScanRay) -> bool {
    -HEADING_WINDOW_HALF_DEG <= b.pan_deg - a.pan_deg <= HEADING_WINDOW_HALF_DEG
}

/// Lesser of two distances, where none is beyond all.
pub open spec fn nearer(a: Option<u64>, b: Option<u64>) -> Option<u64> {
    match (a, b) {
        (None, _) => b,
        (_, None) => a,
        (Some(x), Some(y)) => if y < x {
            b
        } else {
            a
        },
    }
}

/// Least distance among the first `n` rays that lie in the window of ray `i`;
/// none if nothing was measured there.
pub open spec fn clearance_upto(rays: Seq<ScanRay>, i: int, n: nat) -> Option<u64>
    decreases n,
{
    if n == 0 {
        None
    } else {
        let before = clearance_upto(rays, i, (n - 1) as nat);
        if in_window(rays[i], rays[n - 1]) {
            nearer(before, rays[n - 1].distance_um)
        } else {
            before
        }
    }
}

/// Least distance in the window of ray `i`.
pub open spec fn clearance(rays: Seq<ScanRay>, i: int) -> Option<u64> {
    clearance_upto(rays, i, rays.len())
}

/// One clearance is larger than another; none is the largest.
pub open spec fn roomier(a: Option<u64>, b: Option<u64>) -> bool {
    match (a, b) {
        (_, None) => false,
        (None, Some(_)) => true,
        (Some(x), Some(y)) => x > y,
    }
}

/// How far a ray is from straight ahead.
pub open spec fn off_centre(r: ScanRay) -> int {
    if r.pan_deg >= 90 {
        r.pan_deg - 90
    } else {
        90 - r.pan_deg
    }
}

/// Ray `i` is a better heading than ray `j`: roomier, or as roomy and nearer
/// the centre.
pub open spec fn better(rays: Seq<ScanRay>, i: int, j: int) -> bool {
    ||| roomier(clearance(rays, i), clearance(rays, j))
    ||| clearance(rays, i) == clearance(rays, j) && off_centre(rays[i]) < off_centre(rays[j])
}

/// Ray `i` is the best heading among the first `n`: none is better, and none
/// before it is as good.
pub open spec fn is_best(rays: Seq<ScanRay>, i: int, n: int) -> bool {
    &&& 0 <= i < n
    &&& forall|j: int| 0 <= j < n ==> !(#[trigger] better(rays, j, i))
    &&& forall|j: int| 0 <= j < i ==> #[trigger] better(rays, i, j)
}

fn clearance_at(rays: &[ScanRay], i: usize) -> (r: Option<u64>)
    requires
        i < rays@.len(),
    ensures
        r == clearance(rays@, i as int),
{
    let mut least: Option<u64> = None;
    let mut k: usize = 0;
    while k < rays.len()
        invariant
            k <= rays@.len(),
            i < rays@.len(),
            least == clearance_upto(rays@, i as int, k as nat),
        decreases rays@.len() - k,
    {
        let diff: i64 = rays[k].pan_deg as i64 - rays[i].pan_deg as i64;
        if -(HEADING_WINDOW_HALF_DEG as i64) <= diff && diff <= HEADING_WINDOW_HALF_DEG as i64 {
            if let Some(d) = rays[k].distance_um {
                let closer = match least {
                    None => true,
                    Some(l) => d < l,
                };
                if closer {
                    least = Some(d);
                }
            }
        }
        k = k + 1;
    }
    least
}

/// Picks the heading whose window has the largest least distance, a missing
/// reading counting as infinitely far; among equals the one nearest the centre,
/// then the first. Returns its index and its clearance: none, which is infinitely
/// far, if nothing was measured in its window. The worst that missing readings
/// can do is to call a heading free that is not; the collision stop catches that.
pub fn pick_best_heading(rays: &[ScanRay]) -> (r: (usize, Option<u64>))
    requires
        rays@.len() > 0,
    ensures
        is_best(rays@, r.0 as int, rays@.len() as int),
        r.1 == clearance(rays@, r.0 as int),
{
    let n: usize = rays.len();
    let mut best: usize = 0;
    let mut best_c: Option<u64> = clearance_at(rays, 0);
    let mut i: usize = 1;
    while i < n
        invariant
            n == rays@.len(),
            1 <= i <= n,
            best < i,
            best_c == clearance(rays@, best as int),
            is_best(rays@, best as int, i as int),
        decreases n - i,
    {
        let c: Option<u64> = clearance_at(rays, i);
        let more = match (c, best_c) {
            (_, None) => false,
            (None, Some(_)) => true,
            (Some(x), Some(y)) => x > y,
        };
        let same = match (c, best_c) {
            (None, None) => true,
            (Some(x), Some(y)) => x == y,
            _ => false,
        };
        let off_i: i64 = if rays[i].pan_deg >= 90 {
            rays[i].pan_deg as i64 - 90
        } else {
            90 - rays[i].pan_deg as i64
        };
        let off_b: i64 = if rays[best].pan_deg >= 90 {
            rays[best].pan_deg as i64 - 90
        } else {
            90 - rays[best].pan_deg as i64
        };
        let wins = more || same && off_i < off_b;
        assert(wins == better(rays@, i as int, best as int));
        if wins {
            proof {
                assert forall|j: int| 0 <= j < i implies #[trigger] better(rays@, i as int, j) by {
                    assert(!better(rays@, j, best as int));
                }
                assert forall|j: int| 0 <= j < i + 1 implies !(#[trigger] better(
                    rays@,
                    j,
                    i as int,
                )) by {
                    if j < i {
                        assert(better(rays@, i as int, j));
                    }
                }
            }
            best = i;
            best_c = c;
        } else {
            proof {
                assert forall|j: int| 0 <= j < i + 1 implies !(#[trigger] better(
                    rays@,
                    j,
                    best as int,
                )) by {}
            }
        }
        i = i + 1;
    }
    (best, best_c)
}

/// A heading with this clearance is no way out: something is too near. Where
/// nothing was measured the heading counts as free.
pub open spec fn boxed_in(room: Option<u64>) -> bool {
    room matches Some(d) && d < BOXED_IN_UM
}

/// Whether a clearance is too small to drive on.
pub fn is_boxed_in(room: Option<u64>) -> (r: bool)
    ensures
        r == boxed_in(room),
{
    match room {
        Some(d) => d < BOXED_IN_UM,
        None => false,
    }
}

/// The window of the chosen heading is as roomy as any other window.
pub proof fn law_chosen_heading_is_roomiest(rays: Seq<ScanRay>, i: int, j: int)
    requires
        is_best(rays, i, rays.len() as int),
        0 <= j < rays.len(),
    ensures
        !roomier(clearance(rays, j), clearance(rays, i)),
{
    assert(!better(rays, j, i));
}

/// No reading in the window of a heading is nearer than its clearance.
pub proof fn law_clearance_is_a_bound(rays: Seq<ScanRay>, i: int, j: int, d: u64, c: u64)
    requires
        0 <= i < rays.len(),
        0 <= j < rays.len(),
        in_window(rays[i], rays[j]),
        rays[j].distance_um == Some(d),
        clearance(rays, i) == Some(c),
    ensures
        c <= d,
{
    lemma_clearance_bounds(rays, i, rays.len(), j, d);
}

/// The chassis is boxed in only where every heading has something near in its
/// window. So one window without a reading is enough for a way out.
pub proof fn law_boxed_in_needs_obstacles_all_round(rays: Seq<ScanRay>, i: int, j: int)
    requires
        is_best(rays, i, rays.len() as int),
        boxed_in(clearance(rays, i)),
        0 <= j < rays.len(),
    ensures
        boxed_in(clearance(rays, j)),
        exists|k: int|
            0 <= k < rays.len() && in_window(rays[j], rays[k]) && boxed_in(
                (#[trigger] rays[k]).distance_um,
            ),
{
    law_chosen_heading_is_roomiest(rays, i, j);
    lemma_clearance_is_read(rays, j, rays.len());
}

/// A clearance is one of the readings in the window.
proof fn lemma_clearance_is_read(rays: Seq<ScanRay>, i: int, n: nat)
    requires
        n <= rays.len(),
        clearance_upto(rays, i, n) is Some,
    ensures
        exists|k: int|
            0 <= k < n && in_window(rays[i], rays[k]) && (#[trigger] rays[k]).distance_um
                == clearance_upto(rays, i, n),
    decreases n,
{
    let before = clearance_upto(rays, i, (n - 1) as nat);
    if before == clearance_upto(rays, i, n) {
        lemma_clearance_is_read(rays, i, (n - 1) as nat);
    } else {
        assert(in_window(rays[i], rays[n - 1]));
        assert(rays[n - 1].distance_um == clearance_upto(rays, i, n));
    }
}

proof fn lemma_clearance_bounds(rays: Seq<ScanRay>, i: int, n: nat, j: int, d: u64)
    requires
        0 <= j < n,
        in_window(rays[i], rays[j]),
        rays[j].distance_um == Some(d),
    ensures
        clearance_upto(rays, i, n) matches Some(c) && c <= d,
    decreases n,
{
    if j < n - 1 {
        lemma_clearance_bounds(rays, i, (n - 1) as nat, j, d);
    }
}

/// Chassis heading that a pan angle stands for: pan below 90 degrees is to the
/// left, counter-clockwise.
pub open spec fn target_of(theta: int, pan_deg: int) -> int {
    wrapped(theta + (90 - pan_deg) * 1000)
}

/// What to do about turning.
#[derive(Debug, Clone, Copy, PartialEq, Eq, Structural)]
pub enum TurnAction {
    /// Stop the motors; the turn is over.
    Done,
    /// Turn counter-clockwise or clockwise.
    Turn { counter_clockwise: bool },
}

/// What to do about driving.
#[derive(Debug, Clone, Copy, PartialEq, Eq, Structural)]
pub enum LegAction {
    /// Stop the motors; the leg is over.
    Done,
    /// Keep driving forward.
    Forward,
}

/// Status of the controller.
#[derive(Debug)]
pub struct ExploreStatus {
    pub on: bool,
    pub phase: ExplorePhase,
    pub last_scan: Option<PolarScan>,
    pub scans_completed: u32,
}

impl ExploreStatus {
    /// Off and idle.
    pub fn new() -> (r: Self)
        ensures
            !r.on,
            r.phase == ExplorePhase::Idle,
            r.last_scan is None,
            r.scans_completed == 0,
    {
        ExploreStatus { on: false, phase: ExplorePhase::Idle, last_scan: None, scans_completed: 0 }
    }

    /// Switches the controller on or off; nothing else changes.
    pub fn set_on(&mut self, on: bool)
        ensures
            *final(self) == (ExploreStatus { on, ..*old(self) }),
    {
        self.on = on;
    }

    /// Begins a round: a scan when on, rest when off. Tells whether to scan.
    pub fn begin(&mut self) -> (scan: bool)
        ensures
            scan == old(self).on,
            *final(self) == (ExploreStatus {
                phase: if old(self).on {
                    ExplorePhase::Scanning
                } else {
                    ExplorePhase::Idle
                },
                ..*old(self)
            }),
    {
        self.phase = if self.on {
            ExplorePhase::Scanning
        } else {
            ExplorePhase::Idle
        };
        self.on
    }

    /// Takes a finished scan. Returns the heading to turn to, or none when
    /// boxed in, which switches the controller off.
    pub fn scan_done(&mut self, rays: Vec<ScanRay>, theta_mdeg: i64) -> (r: Option<i64>)
        requires
            rays@.len() > 0,
            old(self).scans_completed < u32::MAX,
            -180_000 < theta_mdeg <= 180_000,
            forall|i: int| 0 <= i < rays@.len() ==> 0 <= (#[trigger] rays@[i]).pan_deg <= 180,
        ensures
            final(self).scans_completed == old(self).scans_completed + 1,
            exists|i: int| #[trigger]
                is_best(rays@, i, rays@.len() as int) && ({
                    let room = clearance(rays@, i);
                    if boxed_in(room) {
                        &&& r is None
                        &&& !final(self).on
                        &&& final(self).phase == ExplorePhase::BoxedIn
                        &&& final(self).last_scan == old(self).last_scan
                    } else {
                        &&& r is Some
                        &&& r->Some_0 == target_of(theta_mdeg as int, rays@[i].pan_deg as int)
                        &&& final(self).on == old(self).on
                        &&& final(self).phase == old(self).phase
                        &&& final(self).last_scan == Some(
                            PolarScan {
                                rays,
                                chosen_idx: i as usize,
                                chosen_clearance_um: room,
                            },
                        )
                    }
                }),
    {
        self.scans_completed = self.scans_completed + 1;
        let (idx, room): (usize, Option<u64>) = pick_best_heading(rays.as_slice());
        assert(is_best(rays@, idx as int, rays@.len() as int));
        if is_boxed_in(room) {
            self.on = false;
            self.phase = ExplorePhase::BoxedIn;
            return None;
        }
        let pan: i32 = rays[idx].pan_deg;
        let target: i64 = wrap_half_turn(theta_mdeg + (90 - pan as i64) * 1000);
        self.last_scan = Some(PolarScan { rays, chosen_idx: idx, chosen_clearance_um: room });
        Some(target)
    }

    /// One step of a turn towards `target`. Over when switched off, aligned or
    /// out of time.
    pub fn turn_step(&mut self, target_mdeg: i64, theta_mdeg: i64, elapsed_us: u64) -> (r:
        TurnAction)
        requires
            -180_000 < target_mdeg <= 180_000,
            -180_000 < theta_mdeg <= 180_000,
        ensures
            *final(self) == (if old(self).on {
                ExploreStatus {
                    phase: ExplorePhase::Turning { target_theta_mdeg: target_mdeg },
                    ..*old(self)
                }
            } else {
                *old(self)
            }),
            r == turn_decision(
                old(self).on,
                target_mdeg as int,
                theta_mdeg as int,
                elapsed_us,
            ),
    {
        if !self.on {
            return TurnAction::Done;
        }
        self.phase = ExplorePhase::Turning { target_theta_mdeg: target_mdeg };
        let err: i64 = wrap_half_turn(target_mdeg - theta_mdeg);
        if -TURN_TOLERANCE_MDEG <= err && err <= TURN_TOLERANCE_MDEG || elapsed_us
            > TURN_TIMEOUT_US {
            return TurnAction::Done;
        }
        TurnAction::Turn { counter_clockwise: err > 0 }
    }

    /// One step of a leg. Over when switched off, nearly at its end, close to
    /// an obstacle or out of time.
    pub fn drive_step(&mut self, travelled_um: u64, us_um: Option<u64>, elapsed_us: u64) -> (r:
        LegAction)
        ensures
            ({
                let left = left_of_leg(travelled_um);
                &&& *final(self) == (if old(self).on {
                    ExploreStatus {
                        phase: ExplorePhase::Driving { distance_remaining_um: left },
                        ..*old(self)
                    }
                } else {
                    *old(self)
                })
                &&& r == if leg_over(old(self).on, travelled_um, us_um, elapsed_us) {
                    LegAction::Done
                } else {
                    LegAction::Forward
                }
            }),
    {
        if !self.on {
            return LegAction::Done;
        }
        let left: u64 = if travelled_um >= MAX_LEG_UM {
            0
        } else {
            MAX_LEG_UM - travelled_um
        };
        self.phase = ExplorePhase::Driving { distance_remaining_um: left };
        if left <= LEG_DONE_UM {
            return LegAction::Done;
        }
        if let Some(d) = us_um {
            if d < STOP_DIST_UM {
                return LegAction::Done;
            }
        }
        if elapsed_us > DRIVE_TIMEOUT_US {
            return LegAction::Done;
        }
        LegAction::Forward
    }
}

/// The clearance of a heading is the least reading within 20 degrees of it, and there is
/// none only where nothing was measured there.
pub proof fn law_clearance_is_the_least_reading(rays: Seq<ScanRay>, i: int)
    requires
        0 <= i < rays.len(),
    ensures
        match clearance(rays, i) {
            Some(c) => {
                &&& exists|j: int|
                    0 <= j < rays.len() && -20 <= rays[j].pan_deg - rays[i].pan_deg <= 20 && (
                    #[trigger] rays[j]).distance_um == Some(c)
                &&& forall|j: int|
                    0 <= j < rays.len() && -20 <= rays[j].pan_deg - rays[i].pan_deg <= 20 && (
                    #[trigger] rays[j]).distance_um is Some ==> c <= rays[j].distance_um->Some_0
            },
            None => forall|j: int|
                0 <= j < rays.len() && -20 <= (#[trigger] rays[j]).pan_deg - rays[i].pan_deg <= 20
                    ==> rays[j].distance_um is None,
        },
{
    lemma_clearance_upto(rays, i, rays.len());
}

proof fn lemma_clearance_upto(rays: Seq<ScanRay>, i: int, n: nat)
    requires
        0 <= i < rays.len(),
        n <= rays.len(),
    ensures
        match clearance_upto(rays, i, n) {
            Some(c) => {
                &&& exists|j: int|
                    0 <= j < n && -20 <= rays[j].pan_deg - rays[i].pan_deg <= 20 && (
                    #[trigger] rays[j]).distance_um == Some(c)
                &&& forall|j: int|
                    0 <= j < n && -20 <= rays[j].pan_deg - rays[i].pan_deg <= 20 && (
                    #[trigger] rays[j]).distance_um is Some ==> c <= rays[j].distance_um->Some_0
            },
            None => forall|j: int|
                0 <= j < n && -20 <= (#[trigger] rays[j]).pan_deg - rays[i].pan_deg <= 20
                    ==> rays[j].distance_um is None,
        },
    decreases n,
{
    if n > 0 {
        lemma_clearance_upto(rays, i, (n - 1) as nat);
        let before = clearance_upto(rays, i, (n - 1) as nat);
        let last = rays[n - 1];
        match clearance_upto(rays, i, n) {
            Some(c) => {
                if before == Some(c) {
                    let j = choose|j: int|
                        0 <= j < n - 1 && -20 <= rays[j].pan_deg - rays[i].pan_deg <= 20 && (
                        #[trigger] rays[j]).distance_um == Some(c);
                    assert(rays[j].distance_um == Some(c));
                } else {
                    assert(last.distance_um == Some(c));
                }
                assert forall|j: int|
                    0 <= j < n && -20 <= rays[j].pan_deg - rays[i].pan_deg <= 20 && (
                    #[trigger] rays[j]).distance_um is Some implies c
                    <= rays[j].distance_um->Some_0 by {
                    if j == n - 1 {
                        assert(in_window(rays[i], last));
                    }
                }
            },
            None => {},
        }
    }
}

/// The chosen heading has at least the clearance of every other, no reading being the
/// farthest; of those with as much it is the nearest to straight ahead, and of those the
/// first.
pub proof fn law_chosen_heading(rays: Seq<ScanRay>, i: int, j: int)
    requires
        is_best(rays, i, rays.len() as int),
        0 <= j < rays.len(),
    ensures
        clearance(rays, j) is None ==> clearance(rays, i) is None,
        clearance(rays, i) matches Some(c) ==> clearance(rays, j) is Some && clearance(
            rays,
            j,
        )->Some_0 <= c,
        clearance(rays, j) == clearance(rays, i) ==> {
            let (a, b) = (rays[i].pan_deg - 90, rays[j].pan_deg - 90);
            &&& a * a <= b * b
            &&& a * a == b * b ==> i <= j
        },
{
    assert(!better(rays, j, i));
    if j < i {
        assert(better(rays, i, j));
    }
    let (a, b) = (rays[i].pan_deg - 90, rays[j].pan_deg - 90);
    let (x, y) = (off_centre(rays[i]), off_centre(rays[j]));
    assert(x * x == a * a && y * y == b * b) by (nonlinear_arith)
        requires
            x == a || x == -a,
            y == b || y == -b,
    ;
    if x <= y {
        assert(x * x <= y * y && (x < y ==> x * x < y * y)) by (nonlinear_arith)
            requires
                0 <= x <= y,
        ;
    }
}

/// Panned to the left of the middle means turning left: the target is off the heading by
/// as many degrees as the pan angle is below 90, up to full turns.
pub proof fn law_target_lies_where_the_ray_went(theta: int, pan_deg: int)
    ensures
        -180_000 < target_of(theta, pan_deg) <= 180_000,
        (target_of(theta, pan_deg) - theta - 1000 * (90 - pan_deg)) % 360_000 == 0,
        -180_000 < theta <= 180_000 ==> target_of(theta, 90) == theta,
{
    law_wrap_keeps_direction(theta + (90 - pan_deg) * 1000);
    law_wrap_keeps_direction(theta + (90 - 90) * 1000);
}

/// Less than half a metre is no way out; no reading is.
pub proof fn law_boxed_in_below_half_a_metre(room: Option<u64>)
    ensures
        boxed_in(room) <==> room is Some && room->Some_0 < 500_000,
{
}

/// What is left of a leg, in micrometres.
pub open spec fn left_of_leg(travelled_um: u64) -> u64 {
    if travelled_um >= MAX_LEG_UM {
        0
    } else {
        (MAX_LEG_UM - travelled_um) as u64
    }
}

/// A leg is over: switched off, nearly at its end, close to an obstacle or out of time.
pub open spec fn leg_over(on: bool, travelled_um: u64, us_um: Option<u64>, elapsed_us: u64) -> bool {
    !on || left_of_leg(travelled_um) <= LEG_DONE_UM || (us_um matches Some(d) && d < STOP_DIST_UM)
        || elapsed_us > DRIVE_TIMEOUT_US
}

/// What a turn does next.
pub open spec fn turn_decision(on: bool, target: int, theta: int, elapsed_us: u64) -> TurnAction {
    let err = wrapped(target - theta);
    if !on || -TURN_TOLERANCE_MDEG <= err <= TURN_TOLERANCE_MDEG || elapsed_us > TURN_TIMEOUT_US {
        TurnAction::Done
    } else {
        TurnAction::Turn { counter_clockwise: err > 0 }
    }
}

/// A sweep goes on by ten degrees at a time and ends at 165.
pub proof fn law_sweep_by_ten_degrees(pan_deg: i32)
    requires
        -180 <= pan_deg <= 165,
    ensures
        pan_deg <= 155 ==> pan_after(pan_deg as int) == Some((pan_deg + 10) as i32),
        pan_deg > 155 ==> pan_after(pan_deg as int) is None,
{
}

/// A leg is a metre, and over with five centimetres to go, an obstacle nearer than 40
/// centimetres, or after eight seconds. What is shown as left and what was travelled make
/// the metre.
pub proof fn law_when_a_leg_is_over(travelled_um: u64, us_um: Option<u64>, elapsed_us: u64)
    ensures
        travelled_um <= 1_000_000 ==> left_of_leg(travelled_um) + travelled_um == 1_000_000,
        travelled_um >= 1_000_000 ==> left_of_leg(travelled_um) == 0,
        leg_over(false, travelled_um, us_um, elapsed_us),
        leg_over(true, travelled_um, us_um, elapsed_us) <==> travelled_um >= 950_000 || (us_um is Some
            && us_um->0 < 400_000) || elapsed_us > 8_000_000,
{
}

/// A turn goes the shorter way round, and is over within 2.864 degrees of its target or
/// after five seconds.
pub proof fn law_turn_goes_the_shorter_way(target: int, theta: int, elapsed_us: u64)
    ensures
        turn_decision(false, target, theta, elapsed_us) is Done,
        ({
            let way = (target - theta) % 360_000;
            let r = turn_decision(true, target, theta, elapsed_us);
            &&& r is Done <==> elapsed_us > 5_000_000 || way <= 2_864 || way >= 360_000 - 2_864
            &&& r is Turn ==> (r->counter_clockwise <==> way <= 180_000)
        }),
{
}

} // verus!
