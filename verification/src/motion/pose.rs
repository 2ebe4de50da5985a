//! Planar pose: heading from the orientation sensor relative to the last reset,
//! position from the driven speed, which the ultrasonic sensor overrides when
//! its readings are plausible.
//!
//! Angles are in thousandths of a degree, counter-clockwise positive, distances
//! in micrometres.
use super::gate::{
    against, course, course_of, in_range, is_straight, lemma_speed_fits, speed, speed_between, straight,
    went_against, Course, STATIC_PWM_AVG_THRESHOLD,
};
use super::labels::{v_label_of, VLabel, MIN_WINDOW_US};
use crate::math::{
    div_to_zero, is_root, law_wrap_keeps_direction, length, length2, trunc_div, wrap_half_turn, wrapped,
};
use std::collections::VecDeque;
use vstd::prelude::*;

verus! {

/// Integrator tick (microseconds).
pub const TICK_US: u64 = 50_000;

/// Shortest time between two ticks.
pub const MIN_TICK_US: u64 = 5_000;

/// Shortest time over which an ultrasonic speed is taken.
pub const MIN_SPEED_US: u64 = 10_000;

/// A trail point every so many ticks.
pub const TRAIL_EVERY: u32 = 5;

/// Most trail points kept.
pub const TRAIL_CAP: usize = 1200;

/// Farthest from the origin that the pose is reckoned (micrometres).
pub const MAX_POS_UM: i64 = 100_000_000_000_000;

/// Latest desired motion and the duties it was mapped to.
#[derive(Debug, Clone, Copy, PartialEq, Eq, Structural)]
pub struct MotionTarget {
    pub v_target: i64,
    pub omega_target: i64,
    pub pwm_l: i32,
    pub pwm_r: i32,
}

impl Default for MotionTarget {
    fn default() -> (r: Self)
        ensures
            r == (MotionTarget { v_target: 0, omega_target: 0, pwm_l: 0, pwm_r: 0 }),
    {
        MotionTarget { v_target: 0, omega_target: 0, pwm_l: 0, pwm_r: 0 }
    }
}

/// One trail point with its wall-clock time in milliseconds.
#[derive(Debug, Clone, Copy, PartialEq, Eq, Structural)]
pub struct TrailPoint {
    pub x: i64,
    pub y: i64,
    pub t_ms: u64,
}

/// Ultrasonic forward speed of a tick; none at a near-zero command, where the
/// readings would only add noise.
pub open spec fn v_us_of(
    pwm_l: i32,
    pwm_r: i32,
    us_start: Option<u64>,
    us_end: Option<u64>,
    dt_us: u64,
    pan_mdeg: i32,
) -> Option<int> {
    match (us_start, us_end) {
        (Some(a), Some(b)) => if is_straight(pwm_l, pwm_r, pan_mdeg) && in_range(a) && in_range(b)
            && course_of(pwm_l, pwm_r) != Course::Static && !against(
            course_of(pwm_l, pwm_r),
            b - a,
        ) && dt_us >= MIN_SPEED_US {
            Some(speed(a, b, dt_us))
        } else {
            None
        },
        _ => None,
    }
}

/// Ultrasonic forward speed of a tick in micrometres per second.
pub fn try_v_us(
    pwm_l: i32,
    pwm_r: i32,
    us_start: Option<u64>,
    us_end: Option<u64>,
    dt_us: u64,
    pan_mdeg: i32,
) -> (r: Option<i64>)
    requires
        dt_us <= i64::MAX,
    ensures
        match r {
            Some(v) => v_us_of(pwm_l, pwm_r, us_start, us_end, dt_us, pan_mdeg) == Some(v as int),
            None => v_us_of(pwm_l, pwm_r, us_start, us_end, dt_us, pan_mdeg) is None,
        },
{
    if !straight(pwm_l, pwm_r, pan_mdeg) {
        return None;
    }
    match (us_start, us_end) {
        (Some(a), Some(b)) => {
            if a < 80_000 || a > 800_000 || b < 80_000 || b > 800_000 {
                return None;
            }
            let c: Course = course(pwm_l, pwm_r);
            if c == Course::Static || went_against(c, a, b) || dt_us < MIN_SPEED_US {
                return None;
            }
            Some(speed_between(a, b, dt_us))
        },
        _ => None,
    }
}

/// The pose, and the motion it was reckoned from.
#[derive(Debug)]
pub struct PoseState {
    pub x: i64,
    pub y: i64,
    /// Heading, above -180 and at most 180 degrees.
    pub theta: i64,
    pub v_cmd: i64,
    /// Measured turning speed (thousandths of a degree per second).
    pub omega_gyro: i64,
    pub omega_cmd: i64,
    pub v_us: Option<i64>,
    /// Distance from the origin.
    pub drift: u64,
    pub trail: VecDeque<TrailPoint>,
    /// Advances with every reset.
    pub reset_seq: u32,
}

/// What one tick adds to the pose.
#[derive(Debug, Clone, Copy, PartialEq, Eq, Structural)]
pub struct PoseStep {
    pub theta: i64,
    /// Heading halfway through the tick, in halves of a thousandth of a degree.
    pub theta_mid2: i64,
    pub omega: i64,
    pub v_us: Option<i64>,
    /// Speed to advance with.
    pub v_used: i64,
    pub dt_us: u64,
    /// A trail point is due.
    pub trail_due: bool,
}

/// The trail with one more point; the oldest goes when it is full.
pub open spec fn trail_push(trail: Seq<TrailPoint>, p: TrailPoint) -> Seq<TrailPoint> {
    if trail.len() >= TRAIL_CAP {
        trail.drop_first().push(p)
    } else {
        trail.push(p)
    }
}

impl Default for PoseState {
    fn default() -> (r: Self)
        ensures
            r.wf(),
            r.at_origin(),
            r.reset_seq == 0,
    {
        PoseState {
            x: 0,
            y: 0,
            theta: 0,
            v_cmd: 0,
            omega_gyro: 0,
            omega_cmd: 0,
            v_us: None,
            drift: 0,
            trail: VecDeque::new(),
            reset_seq: 0,
        }
    }
}

impl PoseState {
    /// In range; the drift is the distance from the origin; the trail is
    /// bounded.
    pub open spec fn wf(&self) -> bool {
        &&& -MAX_POS_UM <= self.x <= MAX_POS_UM
        &&& -MAX_POS_UM <= self.y <= MAX_POS_UM
        &&& -180_000 < self.theta <= 180_000
        &&& is_root(length2(self.x as int, self.y as int), self.drift as int)
        &&& self.trail@.len() <= TRAIL_CAP
    }

    /// Everything is zero but for the reset count.
    pub open spec fn at_origin(&self) -> bool {
        &&& self.x == 0 && self.y == 0 && self.theta == 0
        &&& self.v_cmd == 0 && self.omega_gyro == 0 && self.omega_cmd == 0
        &&& self.v_us is None
        &&& self.drift == 0
        &&& self.trail@ == Seq::<TrailPoint>::empty()
    }

    /// Back to the origin; the count of resets advances, and wraps.
    pub fn reset(&mut self)
        ensures
            final(self).wf(),
            final(self).at_origin(),
            final(self).reset_seq == (if old(self).reset_seq == u32::MAX {
                0u32
            } else {
                (old(self).reset_seq + 1) as u32
            }),
    {
        let seq: u32 = if self.reset_seq == u32::MAX {
            0
        } else {
            self.reset_seq + 1
        };
        *self = PoseState::default();
        self.reset_seq = seq;
    }

    /// Moves by (`dx`, `dy`) and takes over what a tick measured.
    pub fn advance(&mut self, step: PoseStep, dx: i64, dy: i64, target: MotionTarget, t_ms: u64)
        requires
            old(self).wf(),
            -180_000 < step.theta <= 180_000,
            -MAX_POS_UM <= old(self).x + dx <= MAX_POS_UM,
            -MAX_POS_UM <= old(self).y + dy <= MAX_POS_UM,
        ensures
            final(self).wf(),
            final(self).x == old(self).x + dx,
            final(self).y == old(self).y + dy,
            final(self).theta == step.theta,
            final(self).v_cmd == target.v_target,
            final(self).omega_cmd == target.omega_target,
            final(self).omega_gyro == step.omega,
            final(self).v_us == step.v_us,
            final(self).reset_seq == old(self).reset_seq,
            final(self).trail@ == (if step.trail_due {
                trail_push(
                    old(self).trail@,
                    TrailPoint {
                        x: (old(self).x + dx) as i64,
                        y: (old(self).y + dy) as i64,
                        t_ms,
                    },
                )
            } else {
                old(self).trail@
            }),
    {
        self.x = self.x + dx;
        self.y = self.y + dy;
        self.theta = step.theta;
        self.v_cmd = target.v_target;
        self.omega_cmd = target.omega_target;
        self.omega_gyro = step.omega;
        self.v_us = step.v_us;
        self.drift = length(self.x, self.y);
        if step.trail_due {
            if self.trail.len() >= TRAIL_CAP {
                let ghost full = self.trail@;
                let _ = self.trail.pop_front();
                assert(self.trail@ =~= full.drop_first());
            }
            self.trail.push_back(TrailPoint { x: self.x, y: self.y, t_ms });
        }
    }
}

/// State of the integrator between ticks.
#[derive(Debug, Clone, Copy, PartialEq, Eq, Structural)]
pub struct PoseWorker {
    pub last_tick_us: u64,
    pub initial_us: Option<u64>,
    pub trail_counter: u32,
    /// Yaw at the last reset; none until a sample came.
    pub yaw_origin: Option<i64>,
    pub last_theta: Option<i64>,
    pub last_seen_reset_seq: u32,
}

/// What a tick reads.
#[derive(Debug, Clone, Copy, PartialEq, Eq, Structural)]
pub struct TickInput {
    pub now_us: u64,
    pub reset_seq: u32,
    /// Yaw of the orientation sensor; none while it warms up.
    pub yaw: Option<i64>,
    pub us: Option<u64>,
    pub pwm_l: i32,
    pub pwm_r: i32,
    pub pan_mdeg: i32,
    pub v_target: i64,
}

/// Time since the last tick.
pub open spec fn tick_len(w: PoseWorker, i: TickInput) -> u64 {
    if i.now_us > w.last_tick_us {
        (i.now_us - w.last_tick_us) as u64
    } else {
        0
    }
}

/// The integrator once it has noticed a reset.
pub open spec fn noticed(w: PoseWorker, i: TickInput) -> PoseWorker {
    if i.reset_seq != w.last_seen_reset_seq {
        PoseWorker {
            yaw_origin: None,
            last_theta: None,
            last_seen_reset_seq: i.reset_seq,
            ..w
        }
    } else {
        w
    }
}

/// The next tick count.
pub open spec fn next_count(c: u32) -> u32 {
    if c == u32::MAX {
        0
    } else {
        (c + 1) as u32
    }
}

/// Heading relative to the last reset.
pub open spec fn theta_of(w: PoseWorker, yaw: i64) -> int {
    match w.yaw_origin {
        Some(o) => wrapped(yaw - o),
        None => wrapped(0),
    }
}

/// The step of a tick with a yaw reading, in a state that has noticed resets.
pub open spec fn step_of(w: PoseWorker, i: TickInput, yaw: i64, s: PoseStep) -> bool {
    let dt = tick_len(w, i);
    let theta = theta_of(w, yaw);
    let prev = match w.last_theta {
        Some(p) => p as int,
        None => theta,
    };
    let v = v_us_of(i.pwm_l, i.pwm_r, w.initial_us, i.us, dt, i.pan_mdeg);
    &&& s.theta == theta
    &&& s.omega == (if w.last_theta is Some {
        trunc_div(wrapped(theta - prev) * 1_000_000, dt as int)
    } else {
        0
    })
    &&& s.theta_mid2 == 2 * prev + wrapped(theta - prev)
    &&& match s.v_us {
        Some(x) => v == Some(x as int) && s.v_used == x,
        None => v is None && s.v_used == i.v_target,
    }
    &&& s.dt_us == dt
    &&& s.trail_due == (next_count(w.trail_counter) % TRAIL_EVERY == 0)
}

impl PoseWorker {
    /// The last heading and the last yaw are in range.
    pub open spec fn wf(&self) -> bool {
        &&& self.last_theta matches Some(t) ==> -180_000 < t <= 180_000
        &&& self.yaw_origin matches Some(o) ==> -1_000_000_000 <= o <= 1_000_000_000
    }

    pub fn new(now_us: u64, us: Option<u64>, reset_seq: u32) -> (r: Self)
        ensures
            r.wf(),
            r == (PoseWorker {
                last_tick_us: now_us,
                initial_us: us,
                trail_counter: 0,
                yaw_origin: None,
                last_theta: None,
                last_seen_reset_seq: reset_seq,
            }),
    {
        PoseWorker {
            last_tick_us: now_us,
            initial_us: us,
            trail_counter: 0,
            yaw_origin: None,
            last_theta: None,
            last_seen_reset_seq: reset_seq,
        }
    }

    /// One tick. Nothing happens if it comes too soon; without a yaw reading the
    /// window moves on but nothing is added.
    pub fn tick(&mut self, i: TickInput) -> (r: Option<PoseStep>)
        requires
            old(self).wf(),
            i.now_us <= i64::MAX,
            i.yaw matches Some(y) ==> -1_000_000_000 <= y <= 1_000_000_000,
        ensures
            final(self).wf(),
            r matches Some(s) ==> -180_000 < s.theta <= 180_000,
            ({
                let w = noticed(*old(self), i);
                if tick_len(*old(self), i) < MIN_TICK_US {
                    r is None && *final(self) == *old(self)
                } else {
                    match i.yaw {
                        None => r is None && *final(self) == (PoseWorker {
                            last_tick_us: i.now_us,
                            initial_us: i.us,
                            ..w
                        }),
                        Some(yaw) => {
                            &&& r is Some
                            &&& step_of(w, i, yaw, r->Some_0)
                            &&& *final(self) == (PoseWorker {
                                last_tick_us: i.now_us,
                                initial_us: i.us,
                                trail_counter: next_count(w.trail_counter),
                                yaw_origin: Some(
                                    match w.yaw_origin {
                                        Some(o) => o,
                                        None => yaw,
                                    },
                                ),
                                last_theta: Some(r->Some_0.theta),
                                ..w
                            })
                        },
                    }
                }
            }),
    {
        let dt: u64 = if i.now_us > self.last_tick_us {
            i.now_us - self.last_tick_us
        } else {
            0
        };
        if dt < MIN_TICK_US {
            return None;
        }
        if i.reset_seq != self.last_seen_reset_seq {
            self.yaw_origin = None;
            self.last_theta = None;
            self.last_seen_reset_seq = i.reset_seq;
        }
        let yaw: i64 = match i.yaw {
            None => {
                self.last_tick_us = i.now_us;
                self.initial_us = i.us;
                return None;
            },
            Some(y) => y,
        };
        let origin: i64 = match self.yaw_origin {
            Some(o) => o,
            None => yaw,
        };
        self.yaw_origin = Some(origin);
        let theta: i64 = wrap_half_turn(yaw - origin);
        let (prev, known): (i64, bool) = match self.last_theta {
            Some(p) => (p, true),
            None => (theta, false),
        };
        let turn: i64 = wrap_half_turn(theta - prev);
        let omega: i64 = if known {
            div_to_zero(turn * 1_000_000, dt as i64)
        } else {
            0
        };
        self.last_theta = Some(theta);
        let v_us: Option<i64> = try_v_us(i.pwm_l, i.pwm_r, self.initial_us, i.us, dt, i.pan_mdeg);
        let v_used: i64 = match v_us {
            Some(v) => v,
            None => i.v_target,
        };
        let count: u32 = if self.trail_counter == u32::MAX {
            0
        } else {
            self.trail_counter + 1
        };
        self.trail_counter = count;
        self.last_tick_us = i.now_us;
        self.initial_us = i.us;
        Some(
            PoseStep {
                theta,
                theta_mid2: 2 * prev + turn,
                omega,
                v_us,
                v_used,
                dt_us: dt,
                trail_due: count % TRAIL_EVERY == 0,
            },
        )
    }
}

/// The first tick with a reading after a reset has the heading zero, whatever
/// the sensor says.
pub proof fn law_reset_zeroes_heading(w: PoseWorker, i: TickInput, yaw: i64, s: PoseStep)
    requires
        i.reset_seq != w.last_seen_reset_seq,
        step_of(noticed(w, i), i, yaw, s),
    ensures
        s.theta == 0,
        s.omega == 0,
{
}

/// At a near-zero command the ultrasonic sensor is never taken for motion.
pub proof fn law_no_speed_at_rest(
    us_start: Option<u64>,
    us_end: Option<u64>,
    dt_us: u64,
    pan_mdeg: i32,
)
    ensures
        v_us_of(0, 0, us_start, us_end, dt_us, pan_mdeg) is None,
{
}

/// Above a near-zero command the pose and the labels take the same speed from the
/// same readings; at a near-zero command the pose takes none.
pub proof fn law_pose_and_labels_agree(
    pwm_l: i32,
    pwm_r: i32,
    us_start: Option<u64>,
    us_end: Option<u64>,
    dt_us: u64,
    pan_mdeg: i32,
)
    requires
        dt_us >= MIN_WINDOW_US,
    ensures
        ({
            let avg = trunc_div(pwm_l + pwm_r, 2);
            let pose = v_us_of(pwm_l, pwm_r, us_start, us_end, dt_us, pan_mdeg);
            let label = v_label_of(pwm_l, pwm_r, us_start, us_end, dt_us, pan_mdeg);
            if avg > STATIC_PWM_AVG_THRESHOLD || avg < -STATIC_PWM_AVG_THRESHOLD {
                match label {
                    VLabel::Speed(v) => pose == Some(v as int),
                    _ => pose is None,
                }
            } else {
                pose is None
            }
        }),
{
    if let (Some(a), Some(b)) = (us_start, us_end) {
        if in_range(a) && in_range(b) {
            lemma_speed_fits(a, b, dt_us);
        }
    }
}

/// The trail never grows past its cap, and the newest point is its last.
pub proof fn law_trail_is_bounded(trail: Seq<TrailPoint>, p: TrailPoint)
    requires
        trail.len() <= TRAIL_CAP,
    ensures
        trail_push(trail, p).len() <= TRAIL_CAP,
        trail_push(trail, p).last() == p,
{
}

/// The heading turns with the sensor: between two ticks of one session it changes by what
/// the yaw changed by, up to full turns, and it stays within half a turn.
pub proof fn law_heading_follows_the_yaw(
    w: PoseWorker,
    i: TickInput,
    j: TickInput,
    yaw: i64,
    later: i64,
    s: PoseStep,
    t: PoseStep,
)
    requires
        w.yaw_origin is Some,
        step_of(w, i, yaw, s),
        step_of(w, j, later, t),
    ensures
        ((t.theta - s.theta) - (later - yaw)) % 360_000 == 0,
        -180_000 < t.theta <= 180_000,
        yaw == w.yaw_origin->Some_0 ==> s.theta == 0,
{
    law_wrap_keeps_direction(yaw - w.yaw_origin->Some_0);
    law_wrap_keeps_direction(later - w.yaw_origin->Some_0);
}

/// The turning speed makes the turn: over the tick it covers the change of heading, the
/// short way round, to rounding. The heading that the motion goes along is half-way
/// between the one before and the one after.
pub proof fn law_turn_of_a_tick(w: PoseWorker, i: TickInput, yaw: i64, s: PoseStep, before: i64)
    requires
        w.last_theta == Some(before),
        tick_len(w, i) > 0,
        step_of(w, i, yaw, s),
    ensures
        ({
            let turn = s.theta_mid2 - 2 * before;
            let covered = s.omega * s.dt_us;
            &&& -180_000 < turn <= 180_000
            &&& (turn - (s.theta - before)) % 360_000 == 0
            &&& turn >= 0 ==> covered <= 1_000_000 * turn < covered + s.dt_us
            &&& turn <= 0 ==> covered - s.dt_us < 1_000_000 * turn <= covered
        }),
        s.dt_us == i.now_us - w.last_tick_us,
{
    law_wrap_keeps_direction(s.theta - before);
    let turn = wrapped(s.theta - before);
    let m = if turn >= 0 {
        turn * 1_000_000
    } else {
        -(turn * 1_000_000)
    };
    let d = s.dt_us as int;
    vstd::arithmetic::div_mod::lemma_fundamental_div_mod(m, d);
    let q = m / d;
    assert(q * d <= m < q * d + d && (-q) * d == -(q * d)) by (nonlinear_arith)
        requires
            m == d * q + m % d,
            0 <= m % d < d,
    ;
}

/// The pose goes by the measured speed where there is one and by the commanded one where
/// there is none; there is one exactly where the window is straight, both readings count,
/// the command is not near zero, the distance did not go against it, and 10 ms passed.
pub proof fn law_speed_of_a_tick(w: PoseWorker, i: TickInput, yaw: i64, s: PoseStep, a: u64, b: u64)
    requires
        step_of(w, i, yaw, s),
        w.initial_us == Some(a),
        i.us == Some(b),
    ensures
        s.v_us is None ==> s.v_used == i.v_target,
        s.v_us matches Some(v) ==> s.v_used == v && v == speed(a, b, s.dt_us),
        s.v_us is Some <==> {
            &&& i.pwm_l - i.pwm_r < 200 && i.pwm_r - i.pwm_l < 200
            &&& 85_000 <= i.pan_mdeg <= 95_000
            &&& 80_000 <= a <= 800_000 && 80_000 <= b <= 800_000
            &&& i.pwm_l + i.pwm_r >= 402 && b <= a + 10_000 || i.pwm_l + i.pwm_r <= -402 && a <= b
                + 10_000
            &&& s.dt_us >= 10_000
        },
{
    crate::motion::gate::law_course_goes_by_both_sides(i.pwm_l, i.pwm_r);
}

/// Without both readings there is no measured speed.
pub proof fn law_no_reading_no_speed(
    pwm_l: i32,
    pwm_r: i32,
    us: Option<u64>,
    dt_us: u64,
    pan_mdeg: i32,
)
    ensures
        v_us_of(pwm_l, pwm_r, None, us, dt_us, pan_mdeg) is None,
        v_us_of(pwm_l, pwm_r, us, None, dt_us, pan_mdeg) is None,
{
}

/// A point goes into the trail at every fifth tick with a reading: of five in a row
/// exactly one is due.
pub proof fn law_trail_every_fifth_tick(c: u32)
    requires
        c < u32::MAX - 5,
    ensures
        next_count(c) == c + 1,
        c % 5 == 4 <==> next_count(c) % TRAIL_EVERY == 0,
{
}

/// A full trail drops its oldest point and keeps the others in order.
pub proof fn law_trail_drops_the_oldest(trail: Seq<TrailPoint>, p: TrailPoint)
    requires
        trail.len() <= 1200,
    ensures
        trail.len() < 1200 ==> trail_push(trail, p) == trail.push(p),
        trail.len() == 1200 ==> trail_push(trail, p) == trail.skip(1).push(p),
{
}

/// At the origin the robot stands still, heading along the first axis, with no speed known
/// and no way behind it.
pub proof fn law_at_the_origin(p: PoseState)
    requires
        p.at_origin(),
    ensures
        p.x == 0 && p.y == 0 && p.theta == 0,
        p.v_cmd == 0 && p.omega_gyro == 0 && p.omega_cmd == 0 && p.drift == 0,
        p.v_us is None && p.trail@.len() == 0,
{
}

} // verus!
