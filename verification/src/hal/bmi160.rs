//! BMI160 6-DOF IMU (3-axis gyro and accelerometer) over I2C.
//!
//! Gyro and accelerometer triples are returned in the sensor's body frame
//! exactly as the chip reports them.
use super::i2c::{
    bring_up, brought_up, last_write, le16, performed, read_answered, read_le16, Bus, BusEvent,
    Step,
};
pub use super::i2c::I2cBus;
use crate::single::{law_single_is_near, round, single};
use crate::Error;
use vstd::prelude::*;

verus! {

pub const REG_CHIP_ID: u8 = 0x00;

/// 24-bit chip-internal timer.
pub const REG_SENSORTIME: u8 = 0x18;

/// Start of the gyro X/Y/Z block; the accelerometer follows 6 bytes later.
pub const REG_DATA_GYR: u8 = 0x0C;

pub const REG_ACC_CONF: u8 = 0x40;

pub const REG_ACC_RANGE: u8 = 0x41;

pub const REG_GYR_CONF: u8 = 0x42;

pub const REG_GYR_RANGE: u8 = 0x43;

pub const REG_CMD: u8 = 0x7E;

/// Expected chip id.
pub const CHIP_ID_BMI160: u8 = 0xD1;

/// Bring the accelerometer to normal power.
pub const CMD_ACC_NORMAL: u8 = 0x11;

/// Bring the gyroscope to normal power.
pub const CMD_GYR_NORMAL: u8 = 0x15;

/// Wake-up times from suspend, rounded up; writes during wake-up are lost.
pub const ACC_WAKEUP_MS: u64 = 4;

pub const GYR_WAKEUP_MS: u64 = 81;

/// 200 Hz, normal filter.
pub const ACC_CONF_DEFAULT: u8 = 0x29;

pub const GYR_CONF_DEFAULT: u8 = 0x29;

/// +-4 g.
pub const ACC_RANGE_DEFAULT: u8 = 0x05;

/// +-500 degrees per second.
pub const GYR_RANGE_DEFAULT: u8 = 0x02;

/// One sample: raw signed counts for gyro and accelerometer.
#[derive(Debug, Clone, Copy, PartialEq, Eq)]
pub struct RawSample {
    pub gyro: [i16; 3],
    pub accel: [i16; 3],
}

/// The bring-up script: wake both sensors, accelerometer first, and only then
/// configure them.
pub open spec fn bring_up_script() -> Seq<Step> {
    seq![
        Step::Write { reg: REG_CMD, val: CMD_ACC_NORMAL },
        Step::Pause { ms: ACC_WAKEUP_MS },
        Step::Write { reg: REG_CMD, val: CMD_GYR_NORMAL },
        Step::Pause { ms: GYR_WAKEUP_MS },
        Step::Write { reg: REG_ACC_CONF, val: ACC_CONF_DEFAULT },
        Step::Write { reg: REG_ACC_RANGE, val: ACC_RANGE_DEFAULT },
        Step::Write { reg: REG_GYR_CONF, val: GYR_CONF_DEFAULT },
        Step::Write { reg: REG_GYR_RANGE, val: GYR_RANGE_DEFAULT },
    ]
}

fn bring_up_steps() -> (r: Vec<Step>)
    ensures
        r@ == bring_up_script(),
{
    let r: Vec<Step> = vec![
        Step::Write { reg: REG_CMD, val: CMD_ACC_NORMAL },
        Step::Pause { ms: ACC_WAKEUP_MS },
        Step::Write { reg: REG_CMD, val: CMD_GYR_NORMAL },
        Step::Pause { ms: GYR_WAKEUP_MS },
        Step::Write { reg: REG_ACC_CONF, val: ACC_CONF_DEFAULT },
        Step::Write { reg: REG_ACC_RANGE, val: ACC_RANGE_DEFAULT },
        Step::Write { reg: REG_GYR_CONF, val: GYR_CONF_DEFAULT },
        Step::Write { reg: REG_GYR_RANGE, val: GYR_RANGE_DEFAULT },
    ];
    assert(r@ =~= bring_up_script());
    r
}

/// The three axes in six bytes from `at` on.
pub open spec fn axes(b: Seq<u8>, at: int) -> Seq<int> {
    seq![le16(b[at], b[at + 1]), le16(b[at + 2], b[at + 3]), le16(b[at + 4], b[at + 5])]
}

/// The three values are these numbers.
pub open spec fn same_axes(a: [i16; 3], s: Seq<int>) -> bool {
    a@[0] == s[0] && a@[1] == s[1] && a@[2] == s[2]
}

/// Three little-endian axes in a buffer, from `at` on.
pub fn parse_axes(buf: &[u8], at: usize) -> (r: [i16; 3])
    requires
        at + 6 <= buf@.len(),
    ensures
        same_axes(r, axes(buf@, at as int)),
{
    let len: usize = buf.len();
    [
        read_le16(buf[at], buf[at + 1]),
        read_le16(buf[at + 2], buf[at + 3]),
        read_le16(buf[at + 4], buf[at + 5]),
    ]
}

/// Gyro, then accelerometer.
pub fn parse_sample(buf: &[u8]) -> (r: RawSample)
    requires
        buf@.len() >= 12,
    ensures
        same_axes(r.gyro, axes(buf@, 0)),
        same_axes(r.accel, axes(buf@, 6)),
{
    RawSample { gyro: parse_axes(buf, 0), accel: parse_axes(buf, 6) }
}

/// Gyro count to 8192nds of a degree per second at the default range: 500 degrees per
/// second are 32768 counts.
pub const GYRO_DPS_PER_LSB: i32 = 125;

/// Accelerometer count to units of 2^-33 m/s2 at the default range: 4 g, of 9.80665 m/s2
/// in single precision, are 32768 counts.
pub const ACCEL_MPS2_PER_LSB: i64 = 10_283_018;

/// Acceleration of an accelerometer count, in single precision.
pub open spec fn acceleration(count: i16) -> int {
    single(count * ACCEL_MPS2_PER_LSB)
}

fn count_acceleration(count: i16) -> (r: i64)
    ensures
        r == acceleration(count),
{
    assert(-0x80_0000_0000 <= count * ACCEL_MPS2_PER_LSB <= 0x80_0000_0000) by (nonlinear_arith)
        requires
            -0x8000 <= count <= 0x8000,
            ACCEL_MPS2_PER_LSB == 10_283_018,
    ;
    round(count as i128 * ACCEL_MPS2_PER_LSB as i128) as i64
}

/// Turning speed about axis `k` of gyroscope counts.
pub open spec fn turning(gyro: Seq<i16>, k: int) -> int {
    if k == 2 {
        -gyro[2] * GYRO_DPS_PER_LSB
    } else {
        gyro[k] * GYRO_DPS_PER_LSB
    }
}

impl RawSample {
    /// Turning speeds in 8192nds of a degree per second, in the chassis frame:
    /// counter-clockwise about the vertical is positive. The chip counts the other
    /// way about its z axis as it is mounted, so z is negated; x and y are passed on
    /// as they are.
    pub fn gyro_dps(&self) -> (r: [i32; 3])
        ensures
            forall|k: int| 0 <= k < 3 ==> #[trigger] r@[k] == turning(self.gyro@, k),
    {
        [
            self.gyro[0] as i32 * GYRO_DPS_PER_LSB,
            self.gyro[1] as i32 * GYRO_DPS_PER_LSB,
            -(self.gyro[2] as i32) * GYRO_DPS_PER_LSB,
        ]
    }

    /// Accelerations in units of 2^-33 m/s2, in single precision.
    pub fn accel_mps2(&self) -> (r: [i64; 3])
        ensures
            forall|k: int| 0 <= k < 3 ==> #[trigger] r@[k] == acceleration(self.accel@[k]),
    {
        [
            count_acceleration(self.accel[0]),
            count_acceleration(self.accel[1]),
            count_acceleration(self.accel[2]),
        ]
    }
}

/// Driver of one chip.
pub struct Bmi160<B: I2cBus> {
    pub bus: Bus<B>,
}

/// Chip time of three bytes.
pub open spec fn chip_time(b: Seq<u8>) -> int {
    b[0] + 256 * b[1] + 65536 * b[2]
}

/// A burst of `len` bytes at `reg` was read between two histories and gave
/// `answer`.
pub open spec fn burst(
    before: Seq<BusEvent>,
    after: Seq<BusEvent>,
    reg: u8,
    len: nat,
    answer: Result<Seq<u8>, Error>,
) -> bool {
    &&& after == before.push(BusEvent::ReadBlock { reg, len, result: answer })
    &&& answer is Ok ==> answer->Ok_0.len() == len
}

impl<B: I2cBus> Bmi160<B> {
    /// Opens the device: verifies the chip id, brings both sensors to normal
    /// power and configures range and rate.
    ///
    /// On failure the device is dropped, and what it was asked goes with it: the error
    /// arm says only that some bring-up of this device ends in that error. `bring_up`,
    /// which keeps the bus, says exactly what was asked.
    pub fn open(dev: B) -> (r: Result<Self, Error>)
        ensures
            match r {
                Ok(d) => {
                    &&& read_answered(dev, REG_CHIP_ID, Ok(CHIP_ID_BMI160))
                    &&& d.bus.history() == Seq::<BusEvent>::empty().push(
                        BusEvent::Read { reg: REG_CHIP_ID, result: Ok(CHIP_ID_BMI160) },
                    ) + performed(bring_up_script(), bring_up_script().len())
                },
                Err(e) => exists|after: Seq<BusEvent>| #[trigger]
                    brought_up(
                        dev,
                        Seq::<BusEvent>::empty(),
                        after,
                        REG_CHIP_ID,
                        CHIP_ID_BMI160,
                        bring_up_script(),
                        Err(e),
                    ),
            },
    {
        let mut bus = Bus::new(dev);
        let steps: Vec<Step> = bring_up_steps();
        let up: Result<(), Error> = bring_up(
            &mut bus,
            REG_CHIP_ID,
            CHIP_ID_BMI160,
            steps.as_slice(),
        );
        match up {
            Ok(u) => Ok(Bmi160 { bus }),
            Err(e) => Err(e),
        }
    }

    /// Single 12-byte burst: both triples in one transfer.
    pub fn read_both(&mut self) -> (r: Result<RawSample, Error>)
        ensures
            exists|answer: Result<Seq<u8>, Error>| #[trigger]
                burst(
                    old(self).bus.history(),
                    final(self).bus.history(),
                    REG_DATA_GYR,
                    12,
                    answer,
                ) && match answer {
                    Ok(b) => r is Ok && same_axes(r->Ok_0.gyro, axes(b, 0)) && same_axes(
                        r->Ok_0.accel,
                        axes(b, 6),
                    ),
                    Err(e) => r == Err::<RawSample, Error>(e),
                },
    {
        let ghost before = self.bus.history();
        let mut buf: [u8; 12] = [0u8; 12];
        let got: Result<(), Error> = self.bus.read_block(REG_DATA_GYR, &mut buf);
        match got {
            Ok(u) => {
                assert(burst(before, self.bus.history(), REG_DATA_GYR, 12, Ok(buf@)));
                Ok(parse_sample(&buf))
            },
            Err(e) => {
                assert(burst(before, self.bus.history(), REG_DATA_GYR, 12, Err(e)));
                Err(e)
            },
        }
    }

    fn read_axes(&mut self, reg: u8) -> (r: Result<[i16; 3], Error>)
        ensures
            exists|answer: Result<Seq<u8>, Error>| #[trigger]
                burst(old(self).bus.history(), final(self).bus.history(), reg, 6, answer)
                    && match answer {
                    Ok(b) => r is Ok && same_axes(r->Ok_0, axes(b, 0)),
                    Err(e) => r == Err::<[i16; 3], Error>(e),
                },
    {
        let ghost before = self.bus.history();
        let mut buf: [u8; 6] = [0u8; 6];
        let got: Result<(), Error> = self.bus.read_block(reg, &mut buf);
        match got {
            Ok(u) => {
                assert(burst(before, self.bus.history(), reg, 6, Ok(buf@)));
                Ok(parse_axes(&buf, 0))
            },
            Err(e) => {
                assert(burst(before, self.bus.history(), reg, 6, Err(e)));
                Err(e)
            },
        }
    }

    pub fn read_gyro_raw(&mut self) -> (r: Result<[i16; 3], Error>)
        ensures
            exists|answer: Result<Seq<u8>, Error>| #[trigger]
                burst(
                    old(self).bus.history(),
                    final(self).bus.history(),
                    REG_DATA_GYR,
                    6,
                    answer,
                ) && match answer {
                    Ok(b) => r is Ok && same_axes(r->Ok_0, axes(b, 0)),
                    Err(e) => r == Err::<[i16; 3], Error>(e),
                },
    {
        self.read_axes(REG_DATA_GYR)
    }

    pub fn read_accel_raw(&mut self) -> (r: Result<[i16; 3], Error>)
        ensures
            exists|answer: Result<Seq<u8>, Error>| #[trigger]
                burst(
                    old(self).bus.history(),
                    final(self).bus.history(),
                    (REG_DATA_GYR + 6) as u8,
                    6,
                    answer,
                ) && match answer {
                    Ok(b) => r is Ok && same_axes(r->Ok_0, axes(b, 0)),
                    Err(e) => r == Err::<[i16; 3], Error>(e),
                },
    {
        self.read_axes(REG_DATA_GYR + 6)
    }

    /// Chip-internal time (24 bits, little-endian).
    pub fn read_sensortime(&mut self) -> (r: Result<u32, Error>)
        ensures
            exists|answer: Result<Seq<u8>, Error>| #[trigger]
                burst(
                    old(self).bus.history(),
                    final(self).bus.history(),
                    REG_SENSORTIME,
                    3,
                    answer,
                ) && match answer {
                    Ok(b) => r is Ok && r->Ok_0 == chip_time(b),
                    Err(e) => r == Err::<u32, Error>(e),
                },
    {
        let ghost before = self.bus.history();
        let mut buf: [u8; 3] = [0u8; 3];
        let got: Result<(), Error> = self.bus.read_block(REG_SENSORTIME, &mut buf);
        match got {
            Ok(u) => {
                assert(burst(before, self.bus.history(), REG_SENSORTIME, 3, Ok(buf@)));
                Ok(buf[0] as u32 + 256 * buf[1] as u32 + 65536 * buf[2] as u32)
            },
            Err(e) => {
                assert(burst(before, self.bus.history(), REG_SENSORTIME, 3, Err(e)));
                Err(e)
            },
        }
    }
}

/// A triple spells its six bytes, low byte first, x before y before z.
pub proof fn law_axes_spell_the_bytes(b: Seq<u8>, at: int, a: [i16; 3])
    requires
        0 <= at,
        at + 6 <= b.len(),
        same_axes(a, axes(b, at)),
    ensures
        a@[0] % 256 == b[at] && (a@[0] - b[at] - 256 * b[at + 1]) % 65536 == 0,
        a@[1] % 256 == b[at + 2] && (a@[1] - b[at + 2] - 256 * b[at + 3]) % 65536 == 0,
        a@[2] % 256 == b[at + 4] && (a@[2] - b[at + 4] - 256 * b[at + 5]) % 65536 == 0,
{
}

/// The gyroscope's full scale is 500 degrees per second for 2^15 counts, in 8192nds of a
/// degree; the vertical axis counts the other way.
pub proof fn law_turning_scale(gyro: Seq<i16>)
    requires
        gyro.len() == 3,
    ensures
        0x8000 * turning(gyro, 0) == 4_096_000 * gyro[0],
        0x8000 * turning(gyro, 1) == 4_096_000 * gyro[1],
        0x8000 * turning(gyro, 2) == -4_096_000 * gyro[2],
{
    let (x, y, z) = (gyro[0] as int, gyro[1] as int, gyro[2] as int);
    let k = GYRO_DPS_PER_LSB as int;
    assert(x * k == 125 * x && y * k == 125 * y && -z * k == -(125 * z)) by (nonlinear_arith)
        requires
            k == 125,
    ;
}

/// The accelerometer counts 8192 for 9.80665 m/s2, within one part in a million; readings of
/// opposite counts are opposite.
pub proof fn law_acceleration_scale(count: i16)
    ensures
        ({
            let off = 819_200_000 * acceleration(count) - 8_423_848_206_663_680 * count;
            let whole = 8_423_848_206_663_680 * count;
            if count >= 0 {
                -whole <= 1_000_000 * off <= whole
            } else {
                whole <= 1_000_000 * off <= -whole
            }
        }),
        count > i16::MIN ==> acceleration((-count) as i16) == -acceleration(count),
{
    let c = count as int;
    let k = ACCEL_MPS2_PER_LSB as int;
    assert(c * k == 10_283_018 * c) by (nonlinear_arith)
        requires
            k == 10_283_018,
    ;
    law_single_is_near(c * k);
    if count > i16::MIN {
        assert((-count) as i16 == -count);
        assert((-count) * ACCEL_MPS2_PER_LSB == -(count * ACCEL_MPS2_PER_LSB)) by (nonlinear_arith);
    }
}

/// The chip's time counts up through its three bytes, the lowest first.
pub proof fn law_chip_time_counts_up(b: Seq<u8>, next: Seq<u8>)
    requires
        b.len() == 3,
        next.len() == 3,
    ensures
        0 <= chip_time(b) < 0x100_0000,
        b[0] < 255 && next == b.update(0, (b[0] + 1) as u8) ==> chip_time(next) == chip_time(b) + 1,
        b[0] == 255 && b[1] < 255 && next == seq![0u8, (b[1] + 1) as u8, b[2]] ==> chip_time(next)
            == chip_time(b) + 1,
        b[0] == 255 && b[1] == 255 && b[2] < 255 && next == seq![0u8, 0u8, (b[2] + 1) as u8]
            ==> chip_time(next) == chip_time(b) + 1,
        chip_time(seq![0u8, 0u8, 0u8]) == 0,
{
}

/// Bring-up leaves the accelerometer at 4 g and the gyroscope at 500 degrees per second, and
/// wakes the accelerometer before the gyroscope and both before they are configured.
pub proof fn law_bring_up_leaves_the_ranges()
    ensures
        last_write(bring_up_script(), 0x41) == Some(0x05u8),
        last_write(bring_up_script(), 0x43) == Some(0x02u8),
        last_write(bring_up_script().take(2), 0x7e) == Some(0x11u8),
        last_write(bring_up_script().take(4), 0x7e) == Some(0x15u8),
        last_write(bring_up_script().take(4), 0x40) is None,
        last_write(bring_up_script().take(4), 0x41) is None,
        last_write(bring_up_script().take(4), 0x42) is None,
        last_write(bring_up_script().take(4), 0x43) is None,
        last_write(bring_up_script(), 0x40) is Some,
        last_write(bring_up_script(), 0x42) is Some,
{
    let s = bring_up_script();
    assert(s.drop_last() =~= s.take(7));
    assert(s.take(7).drop_last() =~= s.take(6));
    assert(s.take(6).drop_last() =~= s.take(5));
    assert(s.take(5).drop_last() =~= s.take(4));
    assert(s.take(4).drop_last() =~= s.take(3));
    assert(s.take(3).drop_last() =~= s.take(2));
    assert(s.take(2).drop_last() =~= s.take(1));
    assert(s.take(1).drop_last() =~= s.take(0));
    reveal_with_fuel(last_write, 9);
}

/// A burst is one read of its length at its register, entered behind what was asked before.
pub proof fn law_burst_is_one_read(
    before: Seq<BusEvent>,
    after: Seq<BusEvent>,
    reg: u8,
    len: nat,
    answer: Result<Seq<u8>, Error>,
)
    requires
        burst(before, after, reg, len, answer),
    ensures
        after.len() == before.len() + 1,
        after.drop_last() == before,
        after.last() is ReadBlock,
        after.last()->ReadBlock_reg == reg,
        after.last()->len == len,
        after.last()->ReadBlock_result == answer,
        answer is Ok ==> answer->Ok_0.len() == len,
{
    assert(after.drop_last() =~= before);
}

} // verus!
