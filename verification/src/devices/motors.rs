//! 4WD motor control via the PWM driver.
//!
//! Channel pairs (forward, reverse) per wheel: left front (7, 6), left rear
//! (5, 4), right front (1, 0), right rear (2, 3).
use crate::hal::i2c::{
    last_write, lemma_last_write_of_both, run_script, script_ran, I2cBus, Step,
};
use crate::hal::pca9685::{
    lemma_pwm_writes, push_pwm_steps, pwm_script, Pca9685, FULL_OFF, MAX_DUTY,
};
use crate::Error;
use vstd::prelude::*;

verus! {

/// Forward channel of a wheel.
pub open spec fn fwd_channel(wheel: int) -> u8 {
    if wheel == 0 {
        7
    } else if wheel == 1 {
        5
    } else if wheel == 2 {
        1
    } else {
        2
    }
}

/// Reverse channel of a wheel.
pub open spec fn rev_channel(wheel: int) -> u8 {
    if wheel == 0 {
        6
    } else if wheel == 1 {
        4
    } else if wheel == 2 {
        0
    } else {
        3
    }
}

/// A duty within +-4095.
pub open spec fn clamped(duty: i32) -> i32 {
    if duty < -4095 {
        (-4095int) as i32
    } else if duty > 4095 {
        4095
    } else {
        duty
    }
}

/// The writes that set a wheel: the inactive pin is turned fully off before the
/// active one gets its duty; a duty of 0 brakes with both pins on.
pub open spec fn wheel_script(wheel: int, duty: i32) -> Seq<Step> {
    let d = clamped(duty);
    if d > 0 {
        pwm_script(fwd_channel(wheel), 0, FULL_OFF) + pwm_script(rev_channel(wheel), 0, d as u16)
    } else if d < 0 {
        pwm_script(rev_channel(wheel), 0, FULL_OFF) + pwm_script(fwd_channel(wheel), 0, (-d) as u16)
    } else {
        pwm_script(fwd_channel(wheel), 0, MAX_DUTY) + pwm_script(rev_channel(wheel), 0, MAX_DUTY)
    }
}

/// The writes that set all wheels: left front, left rear, right front, right
/// rear.
pub open spec fn drive_script(left: i32, right: i32) -> Seq<Step> {
    wheel_script(0, left) + wheel_script(1, left) + wheel_script(2, right) + wheel_script(3, right)
}

fn push_wheel_steps(steps: &mut Vec<Step>, wheel: usize, duty: i32)
    requires
        wheel < 4,
    ensures
        final(steps)@ == old(steps)@ + wheel_script(wheel as int, duty),
{
    let ghost before = steps@;
    let d: i32 = if duty < -4095 {
        -4095
    } else if duty > 4095 {
        4095
    } else {
        duty
    };
    let (fwd, rev): (u8, u8) = if wheel == 0 {
        (7, 6)
    } else if wheel == 1 {
        (5, 4)
    } else if wheel == 2 {
        (1, 0)
    } else {
        (2, 3)
    };
    if d > 0 {
        push_pwm_steps(steps, fwd, 0, FULL_OFF);
        push_pwm_steps(steps, rev, 0, d as u16);
    } else if d < 0 {
        push_pwm_steps(steps, rev, 0, FULL_OFF);
        push_pwm_steps(steps, fwd, 0, (-d) as u16);
    } else {
        push_pwm_steps(steps, fwd, 0, MAX_DUTY);
        push_pwm_steps(steps, rev, 0, MAX_DUTY);
    }
    assert(steps@ =~= before + wheel_script(wheel as int, duty));
}

/// The motors of the car; the wheels hang on the PWM driver that is passed in.
#[derive(Debug, Clone, Copy)]
pub struct Motors;

impl Motors {
    /// Sets one wheel: -4095 is full reverse, 4095 full forward, 0 brakes.
    pub fn set_wheel<B: I2cBus>(pwm: &mut Pca9685<B>, wheel: usize, duty: i32) -> (r: Result<
        (),
        Error,
    >)
        requires
            wheel < 4,
        ensures
            script_ran(
                old(pwm).bus.history(),
                final(pwm).bus.history(),
                wheel_script(wheel as int, duty),
                r,
            ),
    {
        let mut steps: Vec<Step> = Vec::new();
        push_wheel_steps(&mut steps, wheel, duty);
        assert(steps@ =~= wheel_script(wheel as int, duty));
        run_script(&mut pwm.bus, steps.as_slice())
    }

    /// Sets all wheels: left and right side duty.
    pub fn drive<B: I2cBus>(pwm: &mut Pca9685<B>, left: i32, right: i32) -> (r: Result<(), Error>)
        ensures
            script_ran(
                old(pwm).bus.history(),
                final(pwm).bus.history(),
                drive_script(left, right),
                r,
            ),
    {
        let mut steps: Vec<Step> = Vec::new();
        push_wheel_steps(&mut steps, 0, left);
        push_wheel_steps(&mut steps, 1, left);
        push_wheel_steps(&mut steps, 2, right);
        push_wheel_steps(&mut steps, 3, right);
        assert(steps@ =~= drive_script(left, right));
        run_script(&mut pwm.bus, steps.as_slice())
    }

    /// Brakes all wheels.
    pub fn stop<B: I2cBus>(pwm: &mut Pca9685<B>) -> (r: Result<(), Error>)
        ensures
            script_ran(
                old(pwm).bus.history(),
                final(pwm).bus.history(),
                drive_script(0, 0),
                r,
            ),
    {
        Self::drive(pwm, 0, 0)
    }
}

/// However large the request, the duty stays within the driver's range, and its
/// sign is kept.
pub proof fn law_duty_in_range(duty: i32)
    ensures
        -4095 <= clamped(duty) <= 4095,
        clamped(duty) > 0 <==> duty > 0,
        clamped(duty) < 0 <==> duty < 0,
{
}

/// Setting a wheel never leaves both of its pins driving against each other:
/// unless it brakes, one of them is turned fully off, and that comes first.
pub proof fn law_inactive_pin_goes_off_first(wheel: int, duty: i32)
    requires
        0 <= wheel < 4,
        duty != 0,
    ensures
        wheel_script(wheel, duty).take(4) == pwm_script(
            if duty > 0 {
                fwd_channel(wheel)
            } else {
                rev_channel(wheel)
            },
            0,
            FULL_OFF,
        ),
{
    assert(wheel_script(wheel, duty).take(4) =~= pwm_script(
        if duty > 0 {
            fwd_channel(wheel)
        } else {
            rev_channel(wheel)
        },
        0,
        FULL_OFF,
    ));
}

/// Off count that a script leaves in a channel.
pub open spec fn off_count(steps: Seq<Step>, channel: int) -> int {
    last_write(steps, (8 + 4 * channel) as u8)->Some_0 + 256 * last_write(
        steps,
        (9 + 4 * channel) as u8,
    )->Some_0
}

/// What a pair of pins drives a wheel with: the duty on the reverse pin while the forward
/// pin is off, less the duty on the forward pin while the reverse pin is off; nothing when
/// both are on, which brakes.
pub open spec fn wheel_power(steps: Seq<Step>, fwd: int, rev: int) -> int {
    let (f, r) = (off_count(steps, fwd), off_count(steps, rev));
    if f == 4096 {
        r
    } else if r == 4096 {
        -f
    } else {
        0
    }
}

proof fn lemma_wheel_writes(wheel: int, duty: i32, channel: u8)
    requires
        0 <= wheel < 4,
        channel < 16,
    ensures
        ({
            let s = wheel_script(wheel, duty);
            let (f, r) = (fwd_channel(wheel), rev_channel(wheel));
            let (lo, hi) = ((8 + 4 * channel) as u8, (9 + 4 * channel) as u8);
            &&& channel != f && channel != r ==> last_write(s, lo) is None && last_write(s, hi) is None
            &&& channel == f || channel == r ==> last_write(s, lo) is Some && last_write(s, hi) is Some
            &&& channel == f ==> off_count(s, channel as int) == (if clamped(duty) > 0 {
                4096
            } else if clamped(duty) < 0 {
                -clamped(duty)
            } else {
                4095
            })
            &&& channel == r ==> off_count(s, channel as int) == (if clamped(duty) > 0 {
                clamped(duty) as int
            } else if clamped(duty) < 0 {
                4096
            } else {
                4095
            })
        }),
{
    let d = clamped(duty);
    let (f, r) = (fwd_channel(wheel), rev_channel(wheel));
    let (c1, o1, c2, o2): (u8, u16, u8, u16) = if d > 0 {
        (f, FULL_OFF, r, d as u16)
    } else if d < 0 {
        (r, FULL_OFF, f, (-d) as u16)
    } else {
        (f, MAX_DUTY, r, MAX_DUTY)
    };
    let (a, b) = (pwm_script(c1, 0, o1), pwm_script(c2, 0, o2));
    let (lo, hi) = ((8 + 4 * channel) as u8, (9 + 4 * channel) as u8);
    lemma_last_write_of_both(a, b, lo);
    lemma_last_write_of_both(a, b, hi);
    lemma_pwm_writes(c1, 0, o1, lo);
    lemma_pwm_writes(c1, 0, o1, hi);
    lemma_pwm_writes(c2, 0, o2, lo);
    lemma_pwm_writes(c2, 0, o2, hi);
}

/// After a drive each wheel has the duty of its side, within the driver's range: the left
/// front wheel is on channels 7 and 6, the left rear one on 5 and 4, the right front one
/// on 1 and 0, the right rear one on 2 and 3. A duty of zero brakes with both pins on.
pub proof fn law_drive_powers_each_side(left: i32, right: i32)
    ensures
        ({
            let s = drive_script(left, right);
            let l = if left > 4095 {
                4095
            } else if left < -4095 {
                -4095
            } else {
                left as int
            };
            let r = if right > 4095 {
                4095
            } else if right < -4095 {
                -4095
            } else {
                right as int
            };
            &&& wheel_power(s, 7, 6) == l
            &&& wheel_power(s, 5, 4) == l
            &&& wheel_power(s, 1, 0) == r
            &&& wheel_power(s, 2, 3) == r
            &&& left == 0 ==> off_count(s, 7) == 4095 && off_count(s, 6) == 4095 && off_count(s, 5)
                == 4095 && off_count(s, 4) == 4095
            &&& right == 0 ==> off_count(s, 1) == 4095 && off_count(s, 0) == 4095 && off_count(s, 2)
                == 4095 && off_count(s, 3) == 4095
        }),
{
    lemma_drive_channel(left, right, 7);
    lemma_drive_channel(left, right, 6);
    lemma_drive_channel(left, right, 5);
    lemma_drive_channel(left, right, 4);
    lemma_drive_channel(left, right, 1);
    lemma_drive_channel(left, right, 0);
    lemma_drive_channel(left, right, 2);
    lemma_drive_channel(left, right, 3);
}

/// A drive leaves in a channel what its wheel's script leaves there.
proof fn lemma_drive_channel(left: i32, right: i32, channel: u8)
    requires
        channel < 8,
    ensures
        ({
            let s = drive_script(left, right);
            let w: int = if channel >= 6 {
                0
            } else if channel >= 4 {
                1
            } else if channel <= 1 {
                2
            } else {
                3
            };
            let duty = if w < 2 {
                clamped(left)
            } else {
                clamped(right)
            };
            off_count(s, channel as int) == (if duty == 0 {
                4095
            } else if (duty > 0) == (channel == fwd_channel(w)) {
                4096
            } else if duty > 0 {
                duty as int
            } else {
                -duty
            })
        }),
{
    let (a, b, c, d) = (
        wheel_script(0, left),
        wheel_script(1, left),
        wheel_script(2, right),
        wheel_script(3, right),
    );
    let (lo, hi) = ((8 + 4 * channel) as u8, (9 + 4 * channel) as u8);
    lemma_last_write_of_both(a, b, lo);
    lemma_last_write_of_both(a, b, hi);
    lemma_last_write_of_both(a + b, c, lo);
    lemma_last_write_of_both(a + b, c, hi);
    lemma_last_write_of_both(a + b + c, d, lo);
    lemma_last_write_of_both(a + b + c, d, hi);
    lemma_wheel_writes(0, left, channel);
    lemma_wheel_writes(1, left, channel);
    lemma_wheel_writes(2, right, channel);
    lemma_wheel_writes(3, right, channel);
}

} // verus!
