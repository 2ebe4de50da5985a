//! The I2C bus as the drivers see it, and the running of register scripts.
use crate::Error;
use vstd::prelude::*;

verus! {

/// One operation on a bus, with its outcome.
#[allow(inconsistent_fields)]
pub enum BusEvent {
    Write { reg: u8, val: u8, result: Result<(), Error> },
    Read { reg: u8, result: Result<u8, Error> },
    ReadBlock { reg: u8, len: nat, result: Result<Seq<u8>, Error> },
    Pause { ms: u64 },
}

/// What a burst answered: the bytes, or the error.
pub open spec fn block_answer(r: Result<(), Error>, bytes: Seq<u8>) -> Result<Seq<u8>, Error> {
    match r {
        Ok(_) => Ok(bytes),
        Err(e) => Err(e),
    }
}

/// Minimal I2C surface that the drivers need.
pub trait I2cBus {
    fn write_byte(&mut self, reg: u8, val: u8) -> Result<(), Error>;

    fn read_byte(&mut self, reg: u8) -> Result<u8, Error>;

    /// Plain burst: write `reg`, then read `buf.len()` bytes.
    fn read_block(&mut self, reg: u8, buf: &mut [u8]) -> Result<(), Error>;

    /// Waits before the next operation.
    fn pause(&mut self, ms: u64);
}

/// `r` is an answer of the device to a register write.
pub open spec fn write_answered<B: I2cBus>(
    dev: B,
    reg: u8,
    val: u8,
    r: Result<(), Error>,
) -> bool {
    exists|d: &mut B|
        *d == dev && #[trigger] call_ensures(B::write_byte, (d, reg, val), r)
}

/// `r` is an answer of the device to a register read.
pub open spec fn read_answered<B: I2cBus>(dev: B, reg: u8, r: Result<u8, Error>) -> bool {
    exists|d: &mut B| *d == dev && #[trigger] call_ensures(B::read_byte, (d, reg), r)
}

/// Some state of the device answers a register write with the error `e`.
pub open spec fn write_refused<B: I2cBus>(reg: u8, val: u8, e: Error) -> bool {
    exists|dev: B| #[trigger] write_answered(dev, reg, val, Err(e))
}

/// A bus with the history of what was asked of it, in order, and what it
/// answered. Nothing but the four operations reaches the device or adds to the
/// history: each asks the device for just what it says, once, and enters that.
pub struct Bus<B: I2cBus> {
    dev: B,
    log: Ghost<Seq<BusEvent>>,
}

impl<B: I2cBus> Bus<B> {
    /// What was asked of the bus so far.
    pub closed spec fn history(&self) -> Seq<BusEvent> {
        self.log@
    }

    /// The device in its present state.
    pub closed spec fn state(&self) -> B {
        self.dev
    }

    /// A bus that nothing was asked of yet.
    pub fn new(dev: B) -> (r: Self)
        ensures
            r.state() == dev,
            r.history() == Seq::<BusEvent>::empty(),
    {
        Bus { dev, log: Ghost(Seq::empty()) }
    }

    /// The device, to look at.
    pub fn device(&self) -> (r: &B)
        ensures
            *r == self.state(),
    {
        &self.dev
    }

    pub fn write_byte(&mut self, reg: u8, val: u8) -> (r: Result<(), Error>)
        ensures
            final(self).history() == old(self).history().push(
                BusEvent::Write { reg, val, result: r },
            ),
            exists|d: &mut B|
                *d == old(self).state() && *final(d) == final(self).state() && #[trigger]
                    call_ensures(B::write_byte, (d, reg, val), r),
    {
        let r: Result<(), Error> = self.dev.write_byte(reg, val);
        proof {
            self.log@ = self.log@.push(BusEvent::Write { reg, val, result: r });
        }
        r
    }

    pub fn read_byte(&mut self, reg: u8) -> (r: Result<u8, Error>)
        ensures
            final(self).history() == old(self).history().push(BusEvent::Read { reg, result: r }),
            exists|d: &mut B|
                *d == old(self).state() && *final(d) == final(self).state() && #[trigger]
                    call_ensures(B::read_byte, (d, reg), r),
    {
        let r: Result<u8, Error> = self.dev.read_byte(reg);
        proof {
            self.log@ = self.log@.push(BusEvent::Read { reg, result: r });
        }
        r
    }

    pub fn read_block(&mut self, reg: u8, buf: &mut [u8]) -> (r: Result<(), Error>)
        ensures
            final(self).history() == old(self).history().push(
                BusEvent::ReadBlock {
                    reg,
                    len: old(buf)@.len(),
                    result: block_answer(r, final(buf)@),
                },
            ),
            exists|d: &mut B, b: &mut [u8]|
                *d == old(self).state() && *final(d) == final(self).state() && b@ == old(buf)@
                    && final(b)@ == final(buf)@ && #[trigger] call_ensures(
                    B::read_block,
                    (d, reg, b),
                    r,
                ),
    {
        let ghost len = buf@.len();
        let r: Result<(), Error> = self.dev.read_block(reg, buf);
        proof {
            self.log@ = self.log@.push(
                BusEvent::ReadBlock {
                    reg,
                    len,
                    result: block_answer(r, buf@),
                },
            );
        }
        r
    }

    pub fn pause(&mut self, ms: u64)
        ensures
            final(self).history() == old(self).history().push(BusEvent::Pause { ms }),
            exists|d: &mut B|
                *d == old(self).state() && *final(d) == final(self).state() && #[trigger]
                    call_ensures(B::pause, (d, ms), ()),
    {
        self.dev.pause(ms);
        proof {
            self.log@ = self.log@.push(BusEvent::Pause { ms });
        }
    }
}

/// One step of a register script.
#[derive(Debug, Clone, Copy, PartialEq, Eq, Structural)]
pub enum Step {
    Write { reg: u8, val: u8 },
    Pause { ms: u64 },
}

/// The event of a step that went well.
pub open spec fn done(s: Step) -> BusEvent {
    match s {
        Step::Write { reg, val } => BusEvent::Write { reg, val, result: Ok(()) },
        Step::Pause { ms } => BusEvent::Pause { ms },
    }
}

/// The events of the first `n` steps, all gone well.
pub open spec fn performed(steps: Seq<Step>, n: nat) -> Seq<BusEvent> {
    Seq::new(n, |i: int| done(steps[i]))
}

/// A script ran from one history to another: all of it with success, or up to
/// a write that failed, whose error is the result.
pub open spec fn script_ran(
    before: Seq<BusEvent>,
    after: Seq<BusEvent>,
    steps: Seq<Step>,
    r: Result<(), Error>,
) -> bool {
    match r {
        Ok(_) => after == before + performed(steps, steps.len()),
        Err(e) => exists|n: int| #[trigger] stopped_at(before, after, steps, n, e),
    }
}

/// The script stopped at step `n`, a write that failed with `e`.
pub open spec fn stopped_at(
    before: Seq<BusEvent>,
    after: Seq<BusEvent>,
    steps: Seq<Step>,
    n: int,
    e: Error,
) -> bool {
    &&& 0 <= n < steps.len()
    &&& steps[n] matches Step::Write { reg, val } && after == (before + performed(
        steps,
        n as nat,
    )).push(BusEvent::Write { reg, val, result: Err(e) })
}

/// Some state of the device answers a write of the script with the error `e`.
pub open spec fn script_refused<B: I2cBus>(steps: Seq<Step>, e: Error) -> bool {
    exists|n: int|
        0 <= n < steps.len() && match #[trigger] steps[n] {
            Step::Write { reg, val } => write_refused::<B>(reg, val, e),
            Step::Pause { ms } => false,
        }
}

/// Runs a register script, up to the first write that fails.
pub fn run_script<B: I2cBus>(bus: &mut Bus<B>, steps: &[Step]) -> (r: Result<(), Error>)
    ensures
        script_ran(old(bus).history(), final(bus).history(), steps@, r),
        r matches Err(e) ==> script_refused::<B>(steps@, e),
{
    let ghost before = bus.history();
    let mut n: usize = 0;
    assert(before + performed(steps@, 0) =~= before);
    while n < steps.len()
        invariant
            n <= steps@.len(),
            before == old(bus).history(),
            bus.history() == before + performed(steps@, n as nat),
        decreases steps@.len() - n,
    {
        match steps[n] {
            Step::Write { reg, val } => {
                let ghost dev = bus.state();
                let w: Result<(), Error> = bus.write_byte(reg, val);
                assert(write_answered(dev, reg, val, w));
                match w {
                    Ok(u) => {},
                    Err(e) => {
                        assert(stopped_at(before, bus.history(), steps@, n as int, e));
                        return Err(e);
                    },
                }
            },
            Step::Pause { ms } => {
                bus.pause(ms);
            },
        }
        n = n + 1;
        assert(bus.history() =~= before + performed(steps@, n as nat));
    }
    Ok(())
}

/// Signed little-endian 16-bit value of two bytes.
pub open spec fn le16(lo: u8, hi: u8) -> int {
    let v = lo + 256 * hi;
    if v >= 32768 {
        v - 65536
    } else {
        v
    }
}

/// Signed little-endian 16-bit value.
pub fn read_le16(lo: u8, hi: u8) -> (r: i16)
    ensures
        r == le16(lo, hi),
{
    let v: i32 = lo as i32 + 256 * hi as i32;
    if v >= 32768 {
        (v - 65536) as i16
    } else {
        v as i16
    }
}

/// Text of the error for a chip that answers with the wrong id.
pub open spec fn wrong_id_text(got: u8, expected: u8) -> Seq<char> {
    "wrong CHIP_ID: got 0x"@ + crate::text::hex_byte(got) + ", expected 0x"@
        + crate::text::hex_byte(expected)
}

/// Checks a chip id.
pub fn check_chip_id(got: u8, expected: u8) -> (r: Result<(), Error>)
    ensures
        r is Ok <==> got == expected,
        r is Err ==> r->Err_0 is Imu && r->Err_0->Imu_0@ == wrong_id_text(got, expected),
{
    if got == expected {
        return Ok(());
    }
    let mut s: String = String::from_str("wrong CHIP_ID: got 0x");
    crate::text::push_hex(&mut s, got);
    s.append(", expected 0x");
    crate::text::push_hex(&mut s, expected);
    Err(Error::Imu(s))
}

/// A chip was brought up, or not: the device `dev` was asked for its id, and if
/// it is the expected one the script ran.
pub open spec fn brought_up<B: I2cBus>(
    dev: B,
    before: Seq<BusEvent>,
    after: Seq<BusEvent>,
    id_reg: u8,
    expected: u8,
    steps: Seq<Step>,
    r: Result<(), Error>,
) -> bool {
    exists|id: Result<u8, Error>|
        read_answered(dev, id_reg, id) && #[trigger] id_answered::<B>(
            before,
            after,
            id_reg,
            expected,
            steps,
            r,
            id,
        )
}

/// The bring-up after the id register gave `id`.
pub open spec fn id_answered<B: I2cBus>(
    before: Seq<BusEvent>,
    after: Seq<BusEvent>,
    id_reg: u8,
    expected: u8,
    steps: Seq<Step>,
    r: Result<(), Error>,
    id: Result<u8, Error>,
) -> bool {
    let probed = before.push(BusEvent::Read { reg: id_reg, result: id });
    match id {
        Err(e) => after == probed && r == Err::<(), Error>(e),
        Ok(got) => if got == expected {
            &&& script_ran(probed, after, steps, r)
            &&& r matches Err(e) ==> script_refused::<B>(steps, e)
        } else {
            &&& after == probed
            &&& r is Err
            &&& r->Err_0 is Imu
            &&& r->Err_0->Imu_0@ == wrong_id_text(got, expected)
        },
    }
}

/// Reads and checks a chip's id, then runs its bring-up script.
pub fn bring_up<B: I2cBus>(bus: &mut Bus<B>, id_reg: u8, expected: u8, steps: &[Step]) -> (r: Result<
    (),
    Error,
>)
    ensures
        brought_up(
            old(bus).state(),
            old(bus).history(),
            final(bus).history(),
            id_reg,
            expected,
            steps@,
            r,
        ),
{
    let ghost before = bus.history();
    let ghost dev = bus.state();
    let id: Result<u8, Error> = bus.read_byte(id_reg);
    assert(read_answered(dev, id_reg, id));
    let ghost answer = id;
    match id {
        Err(e) => {
            let r: Result<(), Error> = Err(e);
            assert(id_answered::<B>(before, bus.history(), id_reg, expected, steps@, r, answer));
            r
        },
        Ok(got) => {
            let checked: Result<(), Error> = check_chip_id(got, expected);
            match checked {
                Err(e) => {
                    let r: Result<(), Error> = Err(e);
                    assert(id_answered::<B>(before, bus.history(), id_reg, expected, steps@, r, answer));
                    r
                },
                Ok(u) => {
                    let r: Result<(), Error> = run_script(bus, steps);
                    assert(id_answered::<B>(before, bus.history(), id_reg, expected, steps@, r, answer));
                    r
                },
            }
        },
    }
}

/// What a register holds after the writes of a script: the last value written to it.
pub open spec fn last_write(steps: Seq<Step>, reg: u8) -> Option<u8>
    decreases steps.len(),
{
    if steps.len() == 0 {
        None
    } else {
        match steps.last() {
            Step::Write { reg: at, val } if at == reg => Some(val),
            _ => last_write(steps.drop_last(), reg),
        }
    }
}

/// What comes later in a script counts.
pub proof fn lemma_last_write_of_both(a: Seq<Step>, b: Seq<Step>, reg: u8)
    ensures
        last_write(a + b, reg) == (if last_write(b, reg) is Some {
            last_write(b, reg)
        } else {
            last_write(a, reg)
        }),
    decreases b.len(),
{
    if b.len() == 0 {
        assert(a + b =~= a);
    } else {
        lemma_last_write_of_both(a, b.drop_last(), reg);
        assert((a + b).drop_last() =~= a + b.drop_last());
    }
}

/// A signed value is its two bytes, low one first, up to a multiple of 65536.
pub proof fn law_le16_is_twos_complement(lo: u8, hi: u8)
    ensures
        -32768 <= le16(lo, hi) <= 32767,
        (le16(lo, hi) - lo - 256 * hi) % 65536 == 0,
        le16(lo, hi) < 0 <==> hi >= 128,
        le16(lo, hi) % 256 == lo,
{
}

/// A script that goes well has done every step, in order and once. One that fails ends with
/// the write that failed: all steps before it were done, and none after it.
pub proof fn law_script_runs_in_order(
    before: Seq<BusEvent>,
    after: Seq<BusEvent>,
    steps: Seq<Step>,
    r: Result<(), Error>,
)
    requires
        script_ran(before, after, steps, r),
    ensures
        before.is_prefix_of(after),
        r is Ok ==> after.len() == before.len() + steps.len(),
        r is Err ==> before.len() < after.len() <= before.len() + steps.len(),
        forall|i: int|
            0 <= i < steps.len() && (r is Ok || before.len() + i < after.len() - 1)
                ==> #[trigger] step_done(steps[i], after[before.len() + i]),
        r is Err ==> after.last() is Write && after.last()->Write_result == r,
{
    match r {
        Ok(_) => {
            assert(before =~= after.take(before.len() as int));
        },
        Err(e) => {
            let n = choose|n: int| #[trigger] stopped_at(before, after, steps, n, e);
            assert(before =~= after.take(before.len() as int));
            assert(after.last()->Write_result == r);
        },
    }
}

/// The event is that of the step, gone well: a write of its value to its register, or a
/// pause of its length.
pub open spec fn step_done(step: Step, event: BusEvent) -> bool {
    match step {
        Step::Write { reg, val } => event is Write && event->Write_reg == reg && event->Write_val
            == val && event->Write_result is Ok,
        Step::Pause { ms } => event is Pause && event->ms == ms,
    }
}

/// A chip with another id than expected, or none, is asked nothing more; with the expected
/// one its script runs.
pub proof fn law_only_the_right_chip_is_set_up<B: I2cBus>(
    before: Seq<BusEvent>,
    after: Seq<BusEvent>,
    id_reg: u8,
    expected: u8,
    steps: Seq<Step>,
    r: Result<(), Error>,
    id: Result<u8, Error>,
)
    requires
        id_answered::<B>(before, after, id_reg, expected, steps, r, id),
    ensures
        after.len() > before.len(),
        after[before.len() as int] == (BusEvent::Read { reg: id_reg, result: id }),
        id != Ok::<u8, Error>(expected) ==> r is Err && after.len() == before.len() + 1,
        id == Ok::<u8, Error>(expected) && r is Ok ==> after.len() == before.len() + 1 + steps.len(),
{
    let probed = before.push(BusEvent::Read { reg: id_reg, result: id });
    if id == Ok::<u8, Error>(expected) {
        law_script_runs_in_order(probed, after, steps, r);
        assert(after[before.len() as int] == probed[before.len() as int]);
    }
}

} // verus!
