//! Autonomous frontier-based exploration.
//!
//! x is east (right), y is south (down). Robot heading: 0 is north, clockwise
//! positive. Pan servo: 90 degrees is forward, 0 full left, 180 full right.
use super::map::grid::{OccupancyMap, ScanRay, H, W};
use vstd::prelude::*;

verus! {

/// About 37 % power: reliable start, safe speed.
pub const DRIVE_DUTY: i32 = 1500;

/// Duration of one forward step (milliseconds).
pub const STEP_MS: u64 = 400;

/// Estimated way of one step (micrometres).
pub const STEP_UM: u64 = 120_000;

/// Duration of one turn pulse (milliseconds).
pub const TURN_MS: u64 = 280;

/// Estimated turn of one pulse (thousandths of a degree).
pub const TURN_MDEG: i32 = 18_000;

/// Least forward clearance before stepping (micrometres).
pub const SAFE_UM: u64 = 400_000;

/// Heading tolerance before stepping (thousandths of a degree).
pub const ALIGN_MDEG: i32 = 25_000;

/// Stop exploring below this voltage (microvolts).
pub const LOW_BAT_UV: u64 = 6_000_000;

/// Least squared distance, in cells, of a frontier from the robot.
pub const MIN_FRONTIER_DIST2: i64 = 9;

/// Servo settling time between scan steps (milliseconds).
pub const SETTLE_MS: u64 = 300;

/// Pan angles of a sweep, in degrees.
pub const SCAN_ANGLES: [i32; 7] = [30, 50, 70, 90, 110, 130, 150];

#[derive(Debug, Clone, Copy, PartialEq, Eq, Structural)]
pub enum Status {
    Idle,
    Scanning,
    Turning,
    Moving,
    Stuck,
    Complete,
}

/// Name of a status.
pub open spec fn status_name(s: Status) -> Seq<char> {
    match s {
        Status::Idle => "idle"@,
        Status::Scanning => "scanning"@,
        Status::Turning => "turning"@,
        Status::Moving => "moving"@,
        Status::Stuck => "stuck"@,
        Status::Complete => "complete"@,
    }
}

impl Status {
    /// Lower-case name.
    pub fn name(&self) -> (r: String)
        ensures
            r@ == status_name(*self),
    {
        match self {
            Status::Idle => String::from_str("idle"),
            Status::Scanning => String::from_str("scanning"),
            Status::Turning => String::from_str("turning"),
            Status::Moving => String::from_str("moving"),
            Status::Stuck => String::from_str("stuck"),
            Status::Complete => String::from_str("complete"),
        }
    }
}

/// A ray within 30 degrees of forward.
pub open spec fn ahead(r: ScanRay) -> bool {
    60 <= r.pan_deg <= 120
}

/// All rays within 30 degrees of forward have the least clearance.
pub open spec fn forward_safe(rays: Seq<ScanRay>) -> bool {
    forall|i: int|
        0 <= i < rays.len() && ahead(#[trigger] rays[i]) ==> rays[i].dist_um >= SAFE_UM
}

/// Whether it is safe to step forward.
pub fn is_forward_safe(rays: &[ScanRay]) -> (r: bool)
    ensures
        r == forward_safe(rays@),
{
    let mut i: usize = 0;
    while i < rays.len()
        invariant
            i <= rays@.len(),
            forall|j: int|
                0 <= j < i && ahead(#[trigger] rays@[j]) ==> rays@[j].dist_um >= SAFE_UM,
        decreases rays@.len() - i,
    {
        let ray: ScanRay = rays[i];
        if 60 <= ray.pan_deg && ray.pan_deg <= 120 && ray.dist_um < SAFE_UM {
            assert(ahead(rays@[i as int]));
            return false;
        }
        i = i + 1;
    }
    true
}

/// Some ray to the left is shorter than every ray to the right.
pub open spec fn nearest_is_left(rays: Seq<ScanRay>) -> bool {
    exists|i: int| #[trigger] left_of_all(rays, i)
}

/// Ray `i` is to the left and shorter than every ray to the right.
pub open spec fn left_of_all(rays: Seq<ScanRay>, i: int) -> bool {
    &&& 0 <= i < rays.len()
    &&& rays[i].pan_deg < 90
    &&& forall|j: int|
        0 <= j < rays.len() && (#[trigger] rays[j]).pan_deg > 90 ==> rays[i].dist_um
            < rays[j].dist_um
}

/// Whether the nearest obstacle is to the left of centre.
pub fn obstacle_is_left(rays: &[ScanRay]) -> (r: bool)
    ensures
        r == nearest_is_left(rays@),
{
    let n: usize = rays.len();
    let mut best: usize = n;
    let mut i: usize = 0;
    while i < n
        invariant
            i <= n,
            n == rays@.len(),
            best < n ==> best < i && rays@[best as int].pan_deg < 90,
            best <= n,
            forall|j: int|
                0 <= j < i && (#[trigger] rays@[j]).pan_deg < 90 ==> best < n
                    && rays@[best as int].dist_um <= rays@[j].dist_um,
        decreases n - i,
    {
        if rays[i].pan_deg < 90 && (best == n || rays[i].dist_um < rays[best].dist_um) {
            best = i;
        }
        i = i + 1;
    }
    if best == n {
        assert(!nearest_is_left(rays@)) by {
            if nearest_is_left(rays@) {
                let k = choose|k: int| left_of_all(rays@, k);
                assert(rays@[k].pan_deg < 90);
            }
        }
        return false;
    }
    i = 0;
    while i < n
        invariant
            i <= n,
            n == rays@.len(),
            best < n,
            rays@[best as int].pan_deg < 90,
            forall|j: int|
                0 <= j < n && (#[trigger] rays@[j]).pan_deg < 90 ==> rays@[best as int].dist_um
                    <= rays@[j].dist_um,
            forall|j: int|
                0 <= j < i && (#[trigger] rays@[j]).pan_deg > 90 ==> rays@[best as int].dist_um
                    < rays@[j].dist_um,
        decreases n - i,
    {
        if rays[i].pan_deg > 90 && rays[i].dist_um <= rays[best].dist_um {
            assert(!nearest_is_left(rays@)) by {
                if nearest_is_left(rays@) {
                    let k = choose|k: int| left_of_all(rays@, k);
                    assert(rays@[k].pan_deg < 90);
                    assert(rays@[i as int].pan_deg > 90);
                }
            }
            return false;
        }
        i = i + 1;
    }
    assert(left_of_all(rays@, best as int));
    true
}

/// The cell at column `x`, row `y`.
pub open spec fn cell(cells: Seq<u8>, x: int, y: int) -> u8 {
    cells[y * W + x]
}

/// Squared distance in cells.
pub open spec fn dist2(x: int, y: int, rx: int, ry: int) -> int {
    (x - rx) * (x - rx) + (y - ry) * (y - ry)
}

/// A free cell inside the border next to an unknown one, not too near the
/// robot.
pub open spec fn is_frontier(cells: Seq<u8>, rx: int, ry: int, x: int, y: int) -> bool {
    &&& 1 <= x < W - 1
    &&& 1 <= y < H - 1
    &&& 1 <= cell(cells, x, y) <= 127
    &&& cell(cells, x - 1, y) == 0 || cell(cells, x + 1, y) == 0 || cell(cells, x, y - 1) == 0
        || cell(cells, x, y + 1) == 0
    &&& dist2(x, y, rx, ry) >= MIN_FRONTIER_DIST2
}

/// Position in reading order.
pub open spec fn reading_order(x: int, y: int) -> int {
    y * W + x
}

/// The first cell is preferred to the second: nearer, or as near and earlier in
/// reading order.
pub open spec fn preferred(rx: int, ry: int, x: int, y: int, x2: int, y2: int) -> bool {
    let d = dist2(x, y, rx, ry);
    let d2 = dist2(x2, y2, rx, ry);
    d < d2 || d == d2 && reading_order(x, y) <= reading_order(x2, y2)
}

/// The best frontier before position `end` in reading order.
pub open spec fn best_before(
    cells: Seq<u8>,
    rx: int,
    ry: int,
    best: Option<(usize, usize)>,
    end: int,
) -> bool {
    match best {
        None => forall|x: int, y: int|
            reading_order(x, y) < end ==> !(#[trigger] is_frontier(cells, rx, ry, x, y)),
        Some(b) => {
            &&& is_frontier(cells, rx, ry, b.0 as int, b.1 as int)
            &&& reading_order(b.0 as int, b.1 as int) < end
            &&& forall|x: int, y: int|
                reading_order(x, y) < end && #[trigger] is_frontier(cells, rx, ry, x, y)
                    ==> preferred(rx, ry, b.0 as int, b.1 as int, x, y)
        },
    }
}

fn square(n: i128) -> (r: u128)
    requires
        -0x1_0000_0000_0000_0000 < n < 0x1_0000_0000_0000_0000,
    ensures
        r == n * n,
{
    let m: u128 = if n < 0 {
        (-n) as u128
    } else {
        n as u128
    };
    assert(m * m == n * n) by (nonlinear_arith)
        requires
            m == n || m == -n,
    ;
    assert(m * m <= 0xFFFF_FFFF_FFFF_FFFF * 0xFFFF_FFFF_FFFF_FFFF) by (nonlinear_arith)
        requires
            0 <= m <= 0xFFFF_FFFF_FFFF_FFFF,
    ;
    m * m
}

fn squared_distance(x: usize, y: usize, rx: i64, ry: i64) -> (d: u128)
    requires
        x < W,
        y < H,
    ensures
        d == dist2(x as int, y as int, rx as int, ry as int),
{
    let dx: i128 = x as i128 - rx as i128;
    let dy: i128 = y as i128 - ry as i128;
    assert(0 <= dx * dx <= 0x8000_0000_0000_0140 * 0x8000_0000_0000_0140 && 0 <= dy * dy
        <= 0x8000_0000_0000_0140 * 0x8000_0000_0000_0140) by (nonlinear_arith)
        requires
            -0x8000_0000_0000_0140 <= dx <= 0x8000_0000_0000_0140,
            -0x8000_0000_0000_0140 <= dy <= 0x8000_0000_0000_0140,
    ;
    square(dx) + square(dy)
}

/// Nearest frontier cell to the robot at (`rx`, `ry`): a free cell next to an
/// unknown one; among equally near ones the first in reading order.
pub fn find_nearest_frontier(map: &OccupancyMap, rx: i64, ry: i64) -> (r: Option<(usize, usize)>)
    requires
        map.wf(),
    ensures
        match r {
            None => forall|x: int, y: int|
                !(#[trigger] is_frontier(map.cells@, rx as int, ry as int, x, y)),
            Some(b) => {
                &&& is_frontier(map.cells@, rx as int, ry as int, b.0 as int, b.1 as int)
                &&& forall|x: int, y: int| #[trigger]
                    is_frontier(map.cells@, rx as int, ry as int, x, y) ==> preferred(
                        rx as int,
                        ry as int,
                        b.0 as int,
                        b.1 as int,
                        x,
                        y,
                    )
            },
        },
{
    let mut best: Option<(usize, usize)> = None;
    let mut best_d: u128 = 0;
    let mut y: usize = 1;
    assert forall|x: int, y: int| reading_order(x, y) < W implies !(#[trigger] is_frontier(
        map.cells@,
        rx as int,
        ry as int,
        x,
        y,
    )) by {}
    while y < H - 1
        invariant
            map.wf(),
            1 <= y <= H - 1,
            best_before(map.cells@, rx as int, ry as int, best, y * W),
            best matches Some(b) ==> best_d == dist2(b.0 as int, b.1 as int, rx as int, ry as int),
        decreases H - y,
    {
        let mut x: usize = 1;
        assert(best_before(map.cells@, rx as int, ry as int, best, y * W + 1));
        while x < W - 1
            invariant
                map.wf(),
                1 <= y < H - 1,
                1 <= x <= W - 1,
                best_before(map.cells@, rx as int, ry as int, best, y * W + x),
                best matches Some(b) ==> best_d == dist2(
                    b.0 as int,
                    b.1 as int,
                    rx as int,
                    ry as int,
                ),
            decreases W - x,
        {
            let ghost before = best;
            let c: u8 = map.cells[y * W + x];
            let unknown_beside = map.cells[y * W + (x - 1)] == 0 || map.cells[y * W + (x + 1)] == 0
                || map.cells[(y - 1) * W + x] == 0 || map.cells[(y + 1) * W + x] == 0;
            let d: u128 = squared_distance(x, y, rx, ry);
            let found = c != 0 && c <= 127 && unknown_beside && d >= MIN_FRONTIER_DIST2 as u128;
            assert(found == is_frontier(map.cells@, rx as int, ry as int, x as int, y as int));
            if found {
                let better = match best {
                    None => true,
                    Some(b) => d < best_d,
                };
                if better {
                    best = Some((x, y));
                    best_d = d;
                }
            }
            proof {
                lemma_extend(
                    map.cells@,
                    rx as int,
                    ry as int,
                    before,
                    best,
                    x as int,
                    y as int,
                );
            }
            x = x + 1;
        }
        y = y + 1;
        assert(best_before(map.cells@, rx as int, ry as int, best, y * W));
    }
    assert forall|x: int, y: int| #[trigger]
        is_frontier(map.cells@, rx as int, ry as int, x, y) implies reading_order(x, y) < (H - 1)
        * W by {}
    best
}

/// One more cell looked at.
proof fn lemma_extend(
    cells: Seq<u8>,
    rx: int,
    ry: int,
    before: Option<(usize, usize)>,
    after: Option<(usize, usize)>,
    x: int,
    y: int,
)
    requires
        1 <= x < W - 1,
        1 <= y < H - 1,
        best_before(cells, rx, ry, before, y * W + x),
        ({
            let better = is_frontier(cells, rx, ry, x, y) && (match before {
                None => true,
                Some(b) => dist2(x, y, rx, ry) < dist2(b.0 as int, b.1 as int, rx, ry),
            });
            after == if better {
                Some((x as usize, y as usize))
            } else {
                before
            }
        }),
    ensures
        best_before(cells, rx, ry, after, y * W + x + 1),
{
    assert forall|x2: int, y2: int|
        reading_order(x2, y2) < y * W + x + 1 && #[trigger] is_frontier(
            cells,
            rx,
            ry,
            x2,
            y2,
        ) implies reading_order(x2, y2) < y * W + x || x2 == x && y2 == y by {}
}

/// Smallest signed rotation from one heading to another, clockwise positive,
/// in thousandths of a degree: above -180 and at most 180 degrees.
pub open spec fn rotation(from: int, to: int) -> int {
    let d = (to - from) % 360_000;
    if d > 180_000 {
        d - 360_000
    } else {
        d
    }
}

/// Smallest signed rotation between two headings.
pub fn angle_diff(from_mdeg: i32, to_mdeg: i32) -> (r: i32)
    ensures
        r == rotation(from_mdeg as int, to_mdeg as int),
{
    let d: i64 = (to_mdeg as i64 - from_mdeg as i64 + 4_320_000_000) % 360_000;
    assert((to_mdeg - from_mdeg + 4_320_000_000) % 360_000 == (to_mdeg - from_mdeg) % 360_000);
    if d > 180_000 {
        (d - 360_000) as i32
    } else {
        d as i32
    }
}

/// Turning by the rotation between two headings leads from one to the other,
/// and no shorter turn does.
pub proof fn law_rotation_reaches(from: int, to: int, other: int)
    requires
        (from + other) % 360_000 == to % 360_000,
    ensures
        (from + rotation(from, to)) % 360_000 == to % 360_000,
        -180_000 < rotation(from, to) <= 180_000,
        rotation(from, to) <= other || rotation(from, to) <= -other,
        -rotation(from, to) <= other || -rotation(from, to) <= -other,
{
}

/// Heading after a turn pulse.
pub open spec fn turned(heading: int, clockwise: bool) -> int {
    (heading + (if clockwise {
        18_000int
    } else {
        -18_000int
    })) % 360_000
}

/// Heading after a turn pulse, in thousandths of a degree.
pub fn turn(heading_mdeg: i32, clockwise: bool) -> (r: i32)
    requires
        0 <= heading_mdeg < 360_000,
    ensures
        r == turned(heading_mdeg as int, clockwise),
        0 <= r < 360_000,
{
    if clockwise {
        (heading_mdeg + TURN_MDEG) % 360_000
    } else {
        (heading_mdeg + (360_000 - TURN_MDEG)) % 360_000
    }
}

/// A pulse one way and a pulse the other way cancel.
pub proof fn law_turns_cancel(heading: int, clockwise: bool)
    requires
        0 <= heading < 360_000,
    ensures
        turned(turned(heading, clockwise), !clockwise) == heading,
{
}

/// What to do in one exploration step.
#[derive(Debug, Clone, Copy, PartialEq, Eq, Structural)]
pub enum Decision {
    /// One turn pulse towards the frontier.
    Align { clockwise: bool },
    /// One step forward.
    Step,
    /// Two turn pulses to get out.
    Escape { clockwise: bool },
}

impl Decision {
    /// Turn pulses that a decision takes.
    pub open spec fn turn_pulses(&self) -> nat {
        match *self {
            Decision::Align { clockwise } => 1,
            Decision::Step => 0,
            Decision::Escape { clockwise } => 2,
        }
    }

    /// What a decision is shown as.
    pub open spec fn shown_as(&self) -> Status {
        match *self {
            Decision::Align { clockwise } => Status::Turning,
            Decision::Step => Status::Moving,
            Decision::Escape { clockwise } => Status::Stuck,
        }
    }

    /// Status that a decision leads to.
    pub fn status(&self) -> (r: Status)
        ensures
            r == self.shown_as(),
    {
        match self {
            Decision::Align { clockwise } => Status::Turning,
            Decision::Step => Status::Moving,
            Decision::Escape { clockwise } => Status::Stuck,
        }
    }

    /// Number of turn pulses of a decision.
    pub fn pulses(&self) -> (r: u32)
        ensures
            r == self.turn_pulses(),
    {
        match self {
            Decision::Align { clockwise } => 1,
            Decision::Step => 0,
            Decision::Escape { clockwise } => 2,
        }
    }
}

/// The decision for a heading error and a sweep: align first; once aligned step
/// if that is safe, otherwise turn away from the nearest obstacle.
pub open spec fn decision(diff: int, rays: Seq<ScanRay>) -> Decision {
    if diff > ALIGN_MDEG || diff < -ALIGN_MDEG {
        Decision::Align { clockwise: diff > 0 }
    } else if forward_safe(rays) {
        Decision::Step
    } else {
        Decision::Escape { clockwise: nearest_is_left(rays) }
    }
}

/// Decides one exploration step.
pub fn decide(diff_mdeg: i32, rays: &[ScanRay]) -> (r: Decision)
    ensures
        r == decision(diff_mdeg as int, rays@),
{
    if diff_mdeg > ALIGN_MDEG || diff_mdeg < -ALIGN_MDEG {
        Decision::Align { clockwise: diff_mdeg > 0 }
    } else if is_forward_safe(rays) {
        Decision::Step
    } else {
        Decision::Escape { clockwise: obstacle_is_left(rays) }
    }
}

/// A step forward is never decided with an obstacle ahead.
pub proof fn law_no_step_into_obstacle(diff: int, rays: Seq<ScanRay>, i: int)
    requires
        0 <= i < rays.len(),
        ahead(rays[i]),
        rays[i].dist_um < SAFE_UM,
    ensures
        decision(diff, rays) != Decision::Step,
{
}

/// When blocked, the turn goes away from the obstacle: clockwise, which is to the
/// right, if the nearest one is on the left, and to the left otherwise. Two pulses
/// take it 36 degrees that way.
pub proof fn law_escape_turns_away(diff: int, rays: Seq<ScanRay>, heading: int)
    requires
        -ALIGN_MDEG <= diff <= ALIGN_MDEG,
        !forward_safe(rays),
        0 <= heading < 360_000,
    ensures
        decision(diff, rays) matches Decision::Escape { clockwise } && {
            &&& clockwise == nearest_is_left(rays)
            &&& turned(turned(heading, clockwise), clockwise) == (if nearest_is_left(rays) {
                (heading + 36_000) % 360_000
            } else {
                (heading - 36_000) % 360_000
            })
        },
{
}

/// A reading is too low to go on exploring.
pub open spec fn too_low(uv: Option<u64>) -> bool {
    uv matches Some(v) && v < LOW_BAT_UV
}

/// Whether exploring has to end for want of power; a failed reading is no
/// reason.
pub fn battery_low(uv: Option<u64>) -> (r: bool)
    ensures
        r == too_low(uv),
{
    match uv {
        Some(v) => v < LOW_BAT_UV,
        None => false,
    }
}

/// Stepping is safe exactly if no ray within 30 degrees of forward is shorter than 40 cm.
pub proof fn law_safe_to_step(rays: Seq<ScanRay>)
    ensures
        forward_safe(rays) <==> forall|i: int|
            0 <= i < rays.len() && -30 <= (#[trigger] rays[i]).pan_deg - 90 <= 30
                ==> rays[i].dist_um >= 400_000,
{
    if forward_safe(rays) {
        assert forall|i: int|
            0 <= i < rays.len() && -30 <= (#[trigger] rays[i]).pan_deg - 90 <= 30 implies rays[i].dist_um
            >= 400_000 by {
            assert(ahead(rays[i]));
        }
    }
}

/// More than 25 degrees off, the robot turns the short way towards the goal and does not
/// step; within them it steps where that is safe.
pub proof fn law_align_then_step(diff: int, rays: Seq<ScanRay>)
    ensures
        diff > 25_000 ==> decision(diff, rays) == (Decision::Align { clockwise: true }),
        diff < -25_000 ==> decision(diff, rays) == (Decision::Align { clockwise: false }),
        -25_000 <= diff <= 25_000 ==> (decision(diff, rays) == Decision::Step <==> forward_safe(
            rays,
        )),
{
}

/// The nearest obstacle is on the left where some ray left of centre is shorter than all
/// on the right, and is not where a ray on the right is as short as all on the left.
pub proof fn law_nearer_side(rays: Seq<ScanRay>, i: int)
    requires
        0 <= i < rays.len(),
    ensures
        rays[i].pan_deg < 90 && (forall|j: int|
            0 <= j < rays.len() && (#[trigger] rays[j]).pan_deg > 90 ==> rays[i].dist_um
                < rays[j].dist_um) ==> nearest_is_left(rays),
        rays[i].pan_deg > 90 && (forall|j: int|
            0 <= j < rays.len() && (#[trigger] rays[j]).pan_deg < 90 ==> rays[i].dist_um
                <= rays[j].dist_um) ==> !nearest_is_left(rays),
{
    if rays[i].pan_deg < 90 && (forall|j: int|
        0 <= j < rays.len() && (#[trigger] rays[j]).pan_deg > 90 ==> rays[i].dist_um
            < rays[j].dist_um) {
        assert(left_of_all(rays, i));
    }
}

/// A frontier is a free cell off the border with an unknown cell beside, above or below it,
/// three cells or more from the robot.
pub proof fn law_what_a_frontier_is(cells: Seq<u8>, rx: int, ry: int, x: int, y: int)
    requires
        0 < x < 319,
        0 < y < 319,
    ensures
        is_frontier(cells, rx, ry, x, y) <==> {
            &&& 0 < cells[320 * y + x] < 128
            &&& cells[320 * y + x - 1] == 0 || cells[320 * y + x + 1] == 0 || cells[320 * y + x
                - 320] == 0 || cells[320 * y + x + 320] == 0
            &&& (x - rx) * (x - rx) + (y - ry) * (y - ry) >= 9
        },
{
}

/// Cells of the border are never frontiers.
pub proof fn law_no_frontier_on_the_border(cells: Seq<u8>, rx: int, ry: int, x: int, y: int)
    requires
        x <= 0 || x >= 319 || y <= 0 || y >= 319,
    ensures
        !is_frontier(cells, rx, ry, x, y),
{
}

/// The preferred of two cells is the one nearer to the robot as the crow flies; of two as
/// near, the one in the higher row, and in one row the one to the left.
pub proof fn law_nearest_is_preferred(rx: int, ry: int, x: int, y: int, x2: int, y2: int)
    requires
        0 <= x < 320,
        0 <= x2 < 320,
    ensures
        ({
            let d = (x - rx) * (x - rx) + (y - ry) * (y - ry);
            let e = (x2 - rx) * (x2 - rx) + (y2 - ry) * (y2 - ry);
            &&& d < e ==> preferred(rx, ry, x, y, x2, y2)
            &&& d > e ==> !preferred(rx, ry, x, y, x2, y2)
            &&& d == e ==> (preferred(rx, ry, x, y, x2, y2) <==> y < y2 || y == y2 && x <= x2)
        }),
{
}

/// A pulse turns by 18 degrees, to the right where clockwise, and stays on the circle.
pub proof fn law_pulse_turns_eighteen_degrees(heading: int, clockwise: bool)
    ensures
        0 <= turned(heading, clockwise) < 360_000,
        clockwise ==> (turned(heading, clockwise) - heading - 18_000) % 360_000 == 0,
        !clockwise ==> (turned(heading, clockwise) - heading + 18_000) % 360_000 == 0,
{
}

/// Exploring ends below six volts, and never for want of a reading.
pub proof fn law_power_to_explore(uv: u64)
    ensures
        too_low(Some(uv)) <==> uv < 6_000_000,
        !too_low(None),
{
}

/// Only a turn takes pulses: one to align and two to get out of a corner, whichever way
/// round. Each kind of decision is shown as its own.
pub proof fn law_pulses_of_a_decision(d: Decision)
    ensures
        d.turn_pulses() == 0 <==> d is Step,
        d.turn_pulses() == 2 <==> d is Escape,
        d.turn_pulses() <= 2,
        d.shown_as() is Moving <==> d is Step,
        d.shown_as() is Turning <==> d is Align,
        d.shown_as() is Stuck <==> d is Escape,
{
}

} // verus!
