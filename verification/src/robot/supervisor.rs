//! Robot supervisor: what the control loop decides between the web layer and
//! the hardware.
//!
//! It takes commands and sensor readings and enforces the safety behaviours:
//! forward-collision lock with hysteresis, time-to-collision estimate and
//! dead-man stop.
use crate::api::{Command, SensorConfig};
use vstd::prelude::*;

verus! {

/// Stop and lock out forward commands when closer than this (micrometres).
pub const COLLISION_STOP_UM: u64 = 300_000;

/// Unlock only after the obstacle retreats past this.
pub const COLLISION_CLEAR_UM: u64 = 380_000;

/// Longest time without a command while driving (microseconds).
pub const DEAD_MAN_TIMEOUT_US: u64 = 500_000;

/// Approaching faster than 2 cm/s: that is 20000 um per 1000000 us.
pub open spec fn closing(d_prev: u64, d_now: u64, dt_us: u64) -> bool {
    dt_us > 0 && (d_prev - d_now) * 50 > dt_us
}

/// Time to collision in microseconds from two successive distances `dt_us`
/// apart; none unless approaching faster than 2 cm/s.
pub open spec fn ttc(d_prev: u64, d_now: u64, dt_us: u64) -> Option<int> {
    if closing(d_prev, d_now, dt_us) {
        Some((d_now * dt_us) / (d_prev - d_now))
    } else {
        None
    }
}

/// Time to collision in microseconds, rounded down, from two successive
/// ultrasonic readings `dt_us` apart.
pub fn time_to_collision(d_prev: u64, d_now: u64, dt_us: u64) -> (r: Option<u128>)
    ensures
        match r {
            Some(t) => ttc(d_prev, d_now, dt_us) == Some(t as int),
            None => ttc(d_prev, d_now, dt_us) is None,
        },
{
    if dt_us == 0 || d_prev <= d_now {
        return None;
    }
    let diff: u64 = d_prev - d_now;
    if diff as u128 * 50 > dt_us as u128 {
        assert(d_now * dt_us <= u64::MAX * u64::MAX) by (nonlinear_arith)
            requires
                d_now <= u64::MAX,
                dt_us <= u64::MAX,
        ;
        Some((d_now as u128 * dt_us as u128) / diff as u128)
    } else {
        None
    }
}

/// Outcome of one collision evaluation.
#[derive(Debug, Clone, Copy, PartialEq, Eq, Structural)]
pub struct CollisionDecision {
    /// Hard-stop the motors now.
    pub stop: bool,
    /// Lock state to carry forward.
    pub lock: bool,
}

/// An obstacle is nearer than the stop threshold.
pub open spec fn near(us: Option<u64>) -> bool {
    us matches Some(d) && d < COLLISION_STOP_UM
}

/// An obstacle is past the clear threshold.
pub open spec fn clear(us: Option<u64>) -> bool {
    us matches Some(d) && d > COLLISION_CLEAR_UM
}

/// Stop and lock when an obstacle is inside the stop threshold while driving
/// forward; clear the lock only once it is past the clear threshold.
pub open spec fn collision(going_forward: bool, us: Option<u64>, lock: bool) -> CollisionDecision {
    CollisionDecision {
        stop: going_forward && near(us),
        lock: (lock || going_forward && near(us)) && !clear(us),
    }
}

/// Forward-collision state machine with hysteresis.
pub fn collision_step(going_forward: bool, us_um: Option<u64>, lock: bool) -> (r: CollisionDecision)
    ensures
        r == collision(going_forward, us_um, lock),
{
    let mut stop = false;
    let mut lock = lock;
    if let Some(d) = us_um {
        if going_forward && d < COLLISION_STOP_UM {
            stop = true;
            lock = true;
        }
        if lock && d > COLLISION_CLEAR_UM {
            lock = false;
        }
    }
    CollisionDecision { stop, lock }
}

/// What the hardware has to do for a command.
#[derive(Debug, Clone, Copy, PartialEq, Eq, Structural)]
pub enum CommandAction {
    Stop,
    Drive { left: i32, right: i32 },
    /// Forward command ignored: an obstacle is in the way.
    Blocked,
    Pan(i32),
    Tilt(i32),
    Emote,
    /// Nothing to do.
    Settle,
}

/// State of the supervisor.
#[derive(Debug, Clone, Copy, PartialEq, Eq)]
pub struct Supervisor {
    pub motor_left: i32,
    pub motor_right: i32,
    pub obstacle_lock: bool,
    pub is_driving: bool,
    pub last_drive_us: u64,
    /// Previous distance and when it was read.
    pub prev_us: Option<(u64, u64)>,
    pub pan_mdeg: i32,
    pub tilt_mdeg: i32,
    pub config: SensorConfig,
    /// Low-pass-filtered battery voltage in microvolts.
    pub battery_uv: Option<u64>,
}

/// Both sides turn forward.
pub open spec fn forward(left: i32, right: i32) -> bool {
    left > 0 && right > 0
}

/// The state after a command, and what the hardware has to do.
pub open spec fn command_step(s: Supervisor, cmd: Command, now_us: u64) -> (
    Supervisor,
    CommandAction,
) {
    match cmd {
        Command::Stop => (
            Supervisor {
                obstacle_lock: false,
                motor_left: 0,
                motor_right: 0,
                is_driving: false,
                ..s
            },
            CommandAction::Stop,
        ),
        Command::SetMotors { left, right } => {
            let lock = s.obstacle_lock && left >= 0 && right >= 0;
            if lock && forward(left, right) {
                (s, CommandAction::Blocked)
            } else {
                (
                    Supervisor {
                        obstacle_lock: lock,
                        motor_left: left,
                        motor_right: right,
                        last_drive_us: now_us,
                        is_driving: left != 0 || right != 0,
                        ..s
                    },
                    CommandAction::Drive { left, right },
                )
            }
        },
        Command::SetPan(a) => (Supervisor { pan_mdeg: a, ..s }, CommandAction::Pan(a)),
        Command::SetTilt(a) => (Supervisor { tilt_mdeg: a, ..s }, CommandAction::Tilt(a)),
        Command::Emote => (s, CommandAction::Emote),
        Command::SetSensors(cfg) => (Supervisor { config: cfg, ..s }, CommandAction::Settle),
    }
}

/// Time between two clock readings; none passes backwards.
pub open spec fn elapsed(from_us: u64, now_us: u64) -> u64 {
    if now_us > from_us {
        (now_us - from_us) as u64
    } else {
        0
    }
}

/// The state after a distance poll, and whether to stop the motors.
pub open spec fn distance_step(s: Supervisor, us: Option<u64>, now_us: u64) -> (Supervisor, bool) {
    let c = collision(forward(s.motor_left, s.motor_right), us, s.obstacle_lock);
    (
        Supervisor {
            prev_us: match us {
                Some(d) => Some((d, now_us)),
                None => None,
            },
            obstacle_lock: c.lock,
            motor_left: if c.stop {
                0
            } else {
                s.motor_left
            },
            motor_right: if c.stop {
                0
            } else {
                s.motor_right
            },
            is_driving: s.is_driving && !c.stop,
            ..s
        },
        c.stop,
    )
}

/// Time to collision that a distance poll reports.
pub open spec fn polled_ttc(s: Supervisor, us: Option<u64>, now_us: u64) -> Option<int> {
    match (s.prev_us, us) {
        (Some(p), Some(d)) => ttc(p.0, d, elapsed(p.1, now_us)),
        _ => None,
    }
}

/// The state after the dead-man check, and whether to stop the motors.
pub open spec fn dead_man_step(s: Supervisor, now_us: u64) -> (Supervisor, bool) {
    if s.is_driving && elapsed(s.last_drive_us, now_us) > DEAD_MAN_TIMEOUT_US {
        (Supervisor { is_driving: false, ..s }, true)
    } else {
        (s, false)
    }
}

/// The filtered battery voltage after one more reading: a twentieth of the way
/// towards it.
pub open spec fn filtered(prev: Option<u64>, reading: u32) -> u64 {
    match prev {
        None => reading as u64,
        Some(p) => ((19 * p + reading) / 20int) as u64,
    }
}

impl Supervisor {
    /// While locked the robot is not set to drive forward; while it drives, a
    /// motor is on; the battery reading is in range.
    pub open spec fn wf(&self) -> bool {
        &&& self.obstacle_lock ==> !forward(self.motor_left, self.motor_right)
        &&& self.is_driving ==> self.motor_left != 0 || self.motor_right != 0
        &&& self.battery_uv matches Some(v) ==> v <= u32::MAX
    }

    /// Stopped, unlocked, bracket straight ahead, all sensors on.
    pub fn new(now_us: u64) -> (r: Self)
        ensures
            r.wf(),
            r == (Supervisor {
                motor_left: 0,
                motor_right: 0,
                obstacle_lock: false,
                is_driving: false,
                last_drive_us: now_us,
                prev_us: None,
                pan_mdeg: 90_000,
                tilt_mdeg: 90_000,
                config: SensorConfig { light: true, ir: true, us: true },
                battery_uv: None,
            }),
    {
        Supervisor {
            motor_left: 0,
            motor_right: 0,
            obstacle_lock: false,
            is_driving: false,
            last_drive_us: now_us,
            prev_us: None,
            pan_mdeg: 90_000,
            tilt_mdeg: 90_000,
            config: SensorConfig { light: true, ir: true, us: true },
            battery_uv: None,
        }
    }

    /// Takes a command.
    pub fn on_command(&mut self, cmd: Command, now_us: u64) -> (r: CommandAction)
        requires
            old(self).wf(),
        ensures
            final(self).wf(),
            (*final(self), r) == command_step(*old(self), cmd, now_us),
    {
        match cmd {
            Command::Stop => {
                self.obstacle_lock = false;
                self.motor_left = 0;
                self.motor_right = 0;
                self.is_driving = false;
                CommandAction::Stop
            },
            Command::SetMotors { left, right } => {
                let lock = self.obstacle_lock && left >= 0 && right >= 0;
                if lock && left > 0 && right > 0 {
                    CommandAction::Blocked
                } else {
                    self.obstacle_lock = lock;
                    self.motor_left = left;
                    self.motor_right = right;
                    self.last_drive_us = now_us;
                    self.is_driving = left != 0 || right != 0;
                    CommandAction::Drive { left, right }
                }
            },
            Command::SetPan(a) => {
                self.pan_mdeg = a;
                CommandAction::Pan(a)
            },
            Command::SetTilt(a) => {
                self.tilt_mdeg = a;
                CommandAction::Tilt(a)
            },
            Command::Emote => CommandAction::Emote,
            Command::SetSensors(cfg) => {
                self.config = cfg;
                CommandAction::Settle
            },
        }
    }

    /// Takes a distance reading, or its absence: estimates the time to
    /// collision and runs the collision stop. Returns the estimate and whether
    /// to stop the motors.
    pub fn on_distance(&mut self, us_um: Option<u64>, now_us: u64) -> (r: (Option<u128>, bool))
        requires
            old(self).wf(),
        ensures
            final(self).wf(),
            (*final(self), r.1) == distance_step(*old(self), us_um, now_us),
            match r.0 {
                Some(t) => polled_ttc(*old(self), us_um, now_us) == Some(t as int),
                None => polled_ttc(*old(self), us_um, now_us) is None,
            },
    {
        let estimate: Option<u128> = match (self.prev_us, us_um) {
            (Some(p), Some(d)) => {
                let dt: u64 = if now_us > p.1 {
                    now_us - p.1
                } else {
                    0
                };
                time_to_collision(p.0, d, dt)
            },
            _ => None,
        };
        self.prev_us = match us_um {
            Some(d) => Some((d, now_us)),
            None => None,
        };
        let going_forward = self.motor_left > 0 && self.motor_right > 0;
        let c: CollisionDecision = collision_step(going_forward, us_um, self.obstacle_lock);
        if c.stop {
            self.motor_left = 0;
            self.motor_right = 0;
            self.is_driving = false;
        }
        self.obstacle_lock = c.lock;
        (estimate, c.stop)
    }

    /// Takes a battery reading in microvolts; a failed read changes nothing.
    pub fn on_battery(&mut self, reading_uv: Option<u32>)
        requires
            old(self).wf(),
        ensures
            final(self).wf(),
            *final(self) == (match reading_uv {
                None => *old(self),
                Some(v) => Supervisor {
                    battery_uv: Some(filtered(old(self).battery_uv, v)),
                    ..*old(self)
                },
            }),
    {
        if let Some(v) = reading_uv {
            let f: u64 = match self.battery_uv {
                None => v as u64,
                Some(p) => (19 * p + v as u64) / 20,
            };
            self.battery_uv = Some(f);
        }
    }

    /// Safety stop if the motors have been on with no command for too long.
    pub fn dead_man(&mut self, now_us: u64) -> (stop: bool)
        requires
            old(self).wf(),
        ensures
            final(self).wf(),
            (*final(self), stop) == dead_man_step(*old(self), now_us),
    {
        if self.is_driving && now_us > self.last_drive_us && now_us - self.last_drive_us
            > DEAD_MAN_TIMEOUT_US {
            self.is_driving = false;
            true
        } else {
            false
        }
    }
}

/// A near obstacle stops a robot that drives forward, and locks it.
pub proof fn law_near_obstacle_stops(s: Supervisor, us: Option<u64>, now_us: u64)
    requires
        s.wf(),
        forward(s.motor_left, s.motor_right),
        near(us),
    ensures
        distance_step(s, us, now_us).1,
        distance_step(s, us, now_us).0.obstacle_lock,
        !distance_step(s, us, now_us).0.is_driving,
{
}

/// A locked robot ignores every forward command.
pub proof fn law_locked_ignores_forward(s: Supervisor, left: i32, right: i32, now_us: u64)
    requires
        s.wf(),
        s.obstacle_lock,
        forward(left, right),
    ensures
        command_step(s, Command::SetMotors { left, right }, now_us) == (s, CommandAction::Blocked),
{
}

/// A command with a backward component is carried out, locked or not, and
/// releases the lock.
pub proof fn law_backward_is_never_blocked(s: Supervisor, left: i32, right: i32, now_us: u64)
    requires
        s.wf(),
        left < 0 || right < 0,
    ensures
        command_step(s, Command::SetMotors { left, right }, now_us).1 == (CommandAction::Drive {
            left,
            right,
        }),
        !command_step(s, Command::SetMotors { left, right }, now_us).0.obstacle_lock,
{
}

/// Only an obstacle past the clear threshold lets a reading release the lock;
/// no reading does not.
pub proof fn law_lock_holds_until_clear(s: Supervisor, us: Option<u64>, now_us: u64)
    requires
        s.wf(),
        s.obstacle_lock,
    ensures
        distance_step(s, us, now_us).0.obstacle_lock <==> !clear(us),
{
}

/// An explicit stop always stops and unlocks.
pub proof fn law_stop_always_stops(s: Supervisor, now_us: u64)
    requires
        s.wf(),
    ensures
        command_step(s, Command::Stop, now_us).1 == CommandAction::Stop,
        !command_step(s, Command::Stop, now_us).0.is_driving,
        !command_step(s, Command::Stop, now_us).0.obstacle_lock,
{
}

/// A driving robot that hears nothing for longer than the timeout is stopped,
/// once.
pub proof fn law_silence_stops_once(s: Supervisor, now_us: u64, later_us: u64)
    requires
        s.wf(),
        s.is_driving,
        elapsed(s.last_drive_us, now_us) > DEAD_MAN_TIMEOUT_US,
    ensures
        dead_man_step(s, now_us).1,
        !dead_man_step(dead_man_step(s, now_us).0, later_us).1,
{
}

/// The battery filter never leaves the range between its last value and the
/// reading.
pub proof fn law_filter_stays_between(p: u64, reading: u32)
    requires
        p <= u32::MAX,
    ensures
        p <= reading ==> p <= filtered(Some(p), reading) <= reading,
        p >= reading ==> reading <= filtered(Some(p), reading) <= p,
{
}

/// The time to collision is how long the way that is left takes at the pace at which it
/// shrank: so many times the shrinkage, in units of the time between the readings, make up
/// the distance. There is one exactly where the distance shrinks by more than 2 cm/s.
pub proof fn law_time_to_collision(d_prev: u64, d_now: u64, dt_us: u64)
    ensures
        ttc(d_prev, d_now, dt_us) is Some <==> dt_us > 0 && (d_prev - d_now) * 1_000_000 > 20_000
            * dt_us,
        ttc(d_prev, d_now, dt_us) matches Some(t) ==> t * (d_prev - d_now) <= d_now * dt_us < (t
            + 1) * (d_prev - d_now),
{
    if ttc(d_prev, d_now, dt_us) is Some {
        let (n, d) = (d_now * dt_us, d_prev - d_now);
        vstd::arithmetic::div_mod::lemma_fundamental_div_mod(n, d);
        let t = n / d;
        assert(t * d <= n < (t + 1) * d) by (nonlinear_arith)
            requires
                n == d * t + n % d,
                0 <= n % d < d,
        ;
    }
}

/// A nearer obstacle, closed in on as fast, is met sooner or at the same time.
pub proof fn law_nearer_is_sooner(d: u64, nearer: u64, shrink: u64, dt_us: u64)
    requires
        nearer <= d,
        d + shrink <= u64::MAX,
    ensures
        ({
            let (a, b) = (
                ttc((nearer + shrink) as u64, nearer, dt_us),
                ttc((d + shrink) as u64, d, dt_us),
            );
            &&& a is Some <==> b is Some
            &&& a is Some ==> a->Some_0 <= b->Some_0
        }),
{
    if ttc((d + shrink) as u64, d, dt_us) is Some {
        let s = shrink as int;
        assert(nearer * dt_us <= d * dt_us) by (nonlinear_arith)
            requires
                0 <= nearer <= d,
                0 <= dt_us,
        ;
        vstd::arithmetic::div_mod::lemma_div_is_ordered(nearer * dt_us, d * dt_us, s);
    }
}

/// Thresholds of the collision stop: nearer than 30 cm stops and locks a robot that goes
/// forward, and only something farther than 38 cm unlocks. Between the two, and without a
/// reading, the lock stays as it is.
pub proof fn law_collision_thresholds(going_forward: bool, us: Option<u64>, lock: bool)
    ensures
        ({
            let c = collision(going_forward, us, lock);
            &&& c.stop <==> going_forward && us is Some && us->Some_0 < 300_000
            &&& c.stop ==> c.lock
            &&& us is None ==> c.lock == lock
            &&& us is Some && 300_000 <= us->Some_0 <= 380_000 ==> c.lock == lock
            &&& us is Some && us->Some_0 > 380_000 ==> !c.lock
            &&& us is Some && us->Some_0 < 300_000 && !going_forward ==> c.lock == lock
        }),
{
}

/// A command to the motors that is not blocked is carried out as given, and nothing else
/// changes but the time of it and the lock; only forward commands are ever blocked.
pub proof fn law_motors_do_as_told(s: Supervisor, left: i32, right: i32, now_us: u64)
    requires
        s.wf(),
    ensures
        ({
            let (t, a) = command_step(s, Command::SetMotors { left, right }, now_us);
            &&& a == CommandAction::Blocked <==> s.obstacle_lock && left > 0 && right > 0
            &&& a == CommandAction::Blocked ==> t == s
            &&& a != CommandAction::Blocked ==> {
                &&& a == (CommandAction::Drive { left, right })
                &&& t.motor_left == left && t.motor_right == right
                &&& t.is_driving <==> left != 0 || right != 0
                &&& t.last_drive_us == now_us
                &&& t.obstacle_lock <==> s.obstacle_lock && left >= 0 && right >= 0
            }
            &&& t.pan_mdeg == s.pan_mdeg && t.tilt_mdeg == s.tilt_mdeg && t.config == s.config
            &&& t.battery_uv == s.battery_uv && t.prev_us == s.prev_us
        }),
{
}

/// The other commands do their own thing and leave the drive alone; a stop leaves the
/// bracket alone.
pub proof fn law_other_commands(s: Supervisor, mdeg: i32, cfg: SensorConfig, now_us: u64)
    requires
        s.wf(),
    ensures
        command_step(s, Command::SetPan(mdeg), now_us).1 == CommandAction::Pan(mdeg),
        command_step(s, Command::SetPan(mdeg), now_us).0 == (Supervisor { pan_mdeg: mdeg, ..s }),
        command_step(s, Command::SetTilt(mdeg), now_us).1 == CommandAction::Tilt(mdeg),
        command_step(s, Command::SetTilt(mdeg), now_us).0 == (Supervisor { tilt_mdeg: mdeg, ..s }),
        command_step(s, Command::SetSensors(cfg), now_us).0 == (Supervisor { config: cfg, ..s }),
        command_step(s, Command::Emote, now_us) == (s, CommandAction::Emote),
        command_step(s, Command::Stop, now_us).0.motor_left == 0,
        command_step(s, Command::Stop, now_us).0.motor_right == 0,
        command_step(s, Command::Stop, now_us).0.pan_mdeg == s.pan_mdeg,
        command_step(s, Command::Stop, now_us).0.tilt_mdeg == s.tilt_mdeg,
{
}

/// A reading changes the drive only to stop it, and is remembered with its time for the
/// next estimate; a missing one is forgotten.
pub proof fn law_reading_only_stops(s: Supervisor, us: Option<u64>, now_us: u64, later_us: u64)
    requires
        s.wf(),
    ensures
        ({
            let (t, stop) = distance_step(s, us, now_us);
            &&& stop <==> s.motor_left > 0 && s.motor_right > 0 && us is Some && us->Some_0 < 300_000
            &&& !stop ==> t.motor_left == s.motor_left && t.motor_right == s.motor_right
                && t.is_driving == s.is_driving
            &&& stop ==> t.motor_left == 0 && t.motor_right == 0 && !t.is_driving
            &&& t.last_drive_us == s.last_drive_us && t.battery_uv == s.battery_uv
            &&& us is Some && later_us > now_us ==> forall|e: u64|
                #![trigger polled_ttc(t, Some(e), later_us)]
                polled_ttc(t, Some(e), later_us) == ttc(us->Some_0, e, (later_us - now_us) as u64)
            &&& us is None ==> forall|e: u64|
                #![trigger polled_ttc(t, Some(e), later_us)]
                polled_ttc(t, Some(e), later_us) is None
        }),
{
}

/// The robot is stopped for silence exactly where it drives and the last command to the
/// motors is more than half a second old; nothing else changes.
pub proof fn law_dead_man_after_half_a_second(s: Supervisor, now_us: u64)
    requires
        s.wf(),
    ensures
        dead_man_step(s, now_us).1 <==> s.is_driving && now_us - s.last_drive_us > 500_000,
        !dead_man_step(s, now_us).1 ==> dead_man_step(s, now_us).0 == s,
        dead_man_step(s, now_us).1 ==> dead_man_step(s, now_us).0 == (Supervisor {
            is_driving: false,
            ..s
        }),
{
}

/// The filter takes a twentieth of the way to the reading, rounded down; the first reading
/// counts in full.
pub proof fn law_filter_takes_a_twentieth(p: u64, reading: u32)
    requires
        p <= u32::MAX,
    ensures
        filtered(None, reading) == reading,
        20 * (filtered(Some(p), reading) - p) <= reading - p < 20 * (filtered(Some(p), reading) - p)
            + 20,
{
}

/// The robot goes forward where both sides do, however slowly. No time passes backwards.
pub proof fn law_going_forward(left: i32, right: i32, from_us: u64, now_us: u64)
    ensures
        forward(left, right) <==> left >= 1 && right >= 1,
        from_us <= now_us ==> from_us + elapsed(from_us, now_us) == now_us,
        from_us >= now_us ==> elapsed(from_us, now_us) == 0,
{
}

} // verus!
