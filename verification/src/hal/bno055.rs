//! BNO055 absolute-orientation sensor over I2C, in 6-DoF fusion mode.
use super::bmi160::burst;
use super::i2c::{
    bring_up, brought_up, le16, performed, read_answered, read_le16, Bus, BusEvent, Step,
};
pub use super::i2c::I2cBus;
use crate::Error;
use vstd::prelude::*;

verus! {

pub const REG_CHIP_ID: u8 = 0x00;

/// Start of the quaternion block; 14 bytes from here hold the quaternion and
/// the linear acceleration.
pub const REG_QUA_DATA: u8 = 0x20;

/// Calibration status: two bits each for system, gyro, accelerometer and
/// magnetometer.
pub const REG_CALIB_STAT: u8 = 0x35;

pub const REG_UNIT_SEL: u8 = 0x3B;

pub const REG_OPR_MODE: u8 = 0x3D;

pub const REG_PWR_MODE: u8 = 0x3E;

pub const REG_SYS_TRIGGER: u8 = 0x3F;

/// Expected chip id.
pub const CHIP_ID_BNO055: u8 = 0xA0;

/// Configuration mode, required before changing settings.
pub const OPR_MODE_CONFIG: u8 = 0x00;

/// 6-DoF accelerometer and gyro fusion, magnetometer off.
pub const OPR_MODE_IMUPLUS: u8 = 0x08;

pub const PWR_MODE_NORMAL: u8 = 0x00;

/// Wait after a mode change.
pub const MODE_SWITCH_MS: u64 = 30;

/// Calibration status per subsystem, each 0..=3.
#[derive(Debug, Clone, Copy, PartialEq, Eq, Structural)]
pub struct CalibStatus {
    pub sys: u8,
    pub gyr: u8,
    pub acc: u8,
    pub mag: u8,
}

impl Default for CalibStatus {
    fn default() -> (r: Self)
        ensures
            r == (CalibStatus { sys: 0, gyr: 0, acc: 0, mag: 0 }),
    {
        CalibStatus { sys: 0, gyr: 0, acc: 0, mag: 0 }
    }
}

/// The four two-bit fields of a status byte, highest first.
pub open spec fn calib_of(b: u8) -> CalibStatus {
    CalibStatus {
        sys: (b / 64) as u8,
        gyr: (b / 16 % 4) as u8,
        acc: (b / 4 % 4) as u8,
        mag: (b % 4) as u8,
    }
}

impl CalibStatus {
    pub fn from_byte(b: u8) -> (r: Self)
        ensures
            r == calib_of(b),
    {
        CalibStatus { sys: b / 64, gyr: b / 16 % 4, acc: b / 4 % 4, mag: b % 4 }
    }
}

/// One fusion sample in counts of the chip: orientation quaternion (16384 per
/// unit) and linear acceleration (100 per m/s2).
#[derive(Debug, Clone, Copy, PartialEq, Eq, Structural)]
pub struct FusionSample {
    pub w: i16,
    pub x: i16,
    pub y: i16,
    pub z: i16,
    pub ax: i16,
    pub ay: i16,
    pub az: i16,
}

/// The signed value at byte `at`.
pub open spec fn s16_at(b: Seq<u8>, at: int) -> int {
    le16(b[at], b[at + 1])
}

/// The quaternion is all zero: there is no fusion frame yet.
pub open spec fn no_frame(b: Seq<u8>) -> bool {
    s16_at(b, 0) == 0 && s16_at(b, 2) == 0 && s16_at(b, 4) == 0 && s16_at(b, 6) == 0
}

/// The sample that a burst holds.
pub open spec fn sample_of(b: Seq<u8>, s: FusionSample) -> bool {
    &&& s.w == s16_at(b, 0)
    &&& s.x == s16_at(b, 2)
    &&& s.y == s16_at(b, 4)
    &&& s.z == s16_at(b, 6)
    &&& s.ax == s16_at(b, 8)
    &&& s.ay == s16_at(b, 10)
    &&& s.az == s16_at(b, 12)
}

/// Signed little-endian value of the two bytes from `at` on.
pub fn s16(buf: &[u8], at: usize) -> (r: i16)
    requires
        at + 2 <= buf@.len(),
    ensures
        r == s16_at(buf@, at as int),
{
    let len: usize = buf.len();
    read_le16(buf[at], buf[at + 1])
}

/// Parses a 14-byte burst; `None` if the quaternion is all zero, which the chip
/// reports until it has produced its first fusion frame.
pub fn parse_burst(buf: &[u8; 14]) -> (r: Option<FusionSample>)
    ensures
        match r {
            Some(s) => !no_frame(buf@) && sample_of(buf@, s),
            None => no_frame(buf@),
        },
{
    let s = FusionSample {
        w: s16(buf, 0),
        x: s16(buf, 2),
        y: s16(buf, 4),
        z: s16(buf, 6),
        ax: s16(buf, 8),
        ay: s16(buf, 10),
        az: s16(buf, 12),
    };
    if s.w == 0 && s.x == 0 && s.y == 0 && s.z == 0 {
        None
    } else {
        Some(s)
    }
}

/// The bring-up script: configuration mode first, then power, triggers and
/// units, then fusion.
pub open spec fn bring_up_script() -> Seq<Step> {
    seq![
        Step::Write { reg: REG_OPR_MODE, val: OPR_MODE_CONFIG },
        Step::Pause { ms: MODE_SWITCH_MS },
        Step::Write { reg: REG_PWR_MODE, val: PWR_MODE_NORMAL },
        Step::Write { reg: REG_SYS_TRIGGER, val: 0 },
        Step::Write { reg: REG_UNIT_SEL, val: 0 },
        Step::Write { reg: REG_OPR_MODE, val: OPR_MODE_IMUPLUS },
        Step::Pause { ms: MODE_SWITCH_MS },
    ]
}

fn bring_up_steps() -> (r: Vec<Step>)
    ensures
        r@ == bring_up_script(),
{
    let r: Vec<Step> = vec![
        Step::Write { reg: REG_OPR_MODE, val: OPR_MODE_CONFIG },
        Step::Pause { ms: MODE_SWITCH_MS },
        Step::Write { reg: REG_PWR_MODE, val: PWR_MODE_NORMAL },
        Step::Write { reg: REG_SYS_TRIGGER, val: 0 },
        Step::Write { reg: REG_UNIT_SEL, val: 0 },
        Step::Write { reg: REG_OPR_MODE, val: OPR_MODE_IMUPLUS },
        Step::Pause { ms: MODE_SWITCH_MS },
    ];
    assert(r@ =~= bring_up_script());
    r
}

/// Driver of one chip.
pub struct Bno055<B: I2cBus> {
    pub bus: Bus<B>,
}

impl<B: I2cBus> Bno055<B> {
    /// Opens the device: verifies the chip id and brings the chip up in fusion
    /// mode.
    ///
    /// On failure the device is dropped, and what it was asked goes with it: the error
    /// arm says only that some bring-up of this device ends in that error. `bring_up`,
    /// which keeps the bus, says exactly what was asked.
    pub fn open(dev: B) -> (r: Result<Self, Error>)
        ensures
            match r {
                Ok(d) => {
                    &&& read_answered(dev, REG_CHIP_ID, Ok(CHIP_ID_BNO055))
                    &&& d.bus.history() == Seq::<BusEvent>::empty().push(
                        BusEvent::Read { reg: REG_CHIP_ID, result: Ok(CHIP_ID_BNO055) },
                    ) + performed(bring_up_script(), bring_up_script().len())
                },
                Err(e) => exists|after: Seq<BusEvent>| #[trigger]
                    brought_up(
                        dev,
                        Seq::<BusEvent>::empty(),
                        after,
                        REG_CHIP_ID,
                        CHIP_ID_BNO055,
                        bring_up_script(),
                        Err(e),
                    ),
            },
    {
        let mut bus = Bus::new(dev);
        let steps: Vec<Step> = bring_up_steps();
        let up: Result<(), Error> = bring_up(
            &mut bus,
            REG_CHIP_ID,
            CHIP_ID_BNO055,
            steps.as_slice(),
        );
        match up {
            Ok(u) => Ok(Bno055 { bus }),
            Err(e) => Err(e),
        }
    }

    /// Single 14-byte burst: quaternion and linear acceleration in one
    /// transfer; `None` while the chip has not produced its first fusion frame.
    pub fn read_fusion(&mut self) -> (r: Result<Option<FusionSample>, Error>)
        ensures
            exists|answer: Result<Seq<u8>, Error>| #[trigger]
                burst(
                    old(self).bus.history(),
                    final(self).bus.history(),
                    REG_QUA_DATA,
                    14,
                    answer,
                ) && match answer {
                    Ok(b) => r is Ok && match r->Ok_0 {
                        Some(s) => !no_frame(b) && sample_of(b, s),
                        None => no_frame(b),
                    },
                    Err(e) => r == Err::<Option<FusionSample>, Error>(e),
                },
    {
        let ghost before = self.bus.history();
        let mut buf: [u8; 14] = [0u8; 14];
        let got: Result<(), Error> = self.bus.read_block(REG_QUA_DATA, &mut buf);
        match got {
            Ok(u) => {
                assert(burst(before, self.bus.history(), REG_QUA_DATA, 14, Ok(buf@)));
                Ok(parse_burst(&buf))
            },
            Err(e) => {
                assert(burst(before, self.bus.history(), REG_QUA_DATA, 14, Err(e)));
                Err(e)
            },
        }
    }

    /// Reads and decodes the calibration status.
    pub fn read_calib(&mut self) -> (r: Result<CalibStatus, Error>)
        ensures
            exists|answer: Result<u8, Error>|
                read_answered(old(self).bus.state(), REG_CALIB_STAT, answer) && #[trigger]
                    calib_read(old(self).bus.history(), final(self).bus.history(), answer)
                    && match answer {
                    Ok(b) => r == Ok::<CalibStatus, Error>(calib_of(b)),
                    Err(e) => r == Err::<CalibStatus, Error>(e),
                },
    {
        let ghost before = self.bus.history();
        let ghost dev = self.bus.state();
        let got: Result<u8, Error> = self.bus.read_byte(REG_CALIB_STAT);
        assert(read_answered(dev, REG_CALIB_STAT, got));
        assert(calib_read(before, self.bus.history(), got));
        match got {
            Ok(b) => Ok(CalibStatus::from_byte(b)),
            Err(e) => Err(e),
        }
    }
}

/// The calibration register was read between two histories and gave `answer`.
pub open spec fn calib_read(
    before: Seq<BusEvent>,
    after: Seq<BusEvent>,
    answer: Result<u8, Error>,
) -> bool {
    after == before.push(BusEvent::Read { reg: REG_CALIB_STAT, result: answer })
}

/// The calibration fields are two bits each and make up the byte: system first, then
/// gyro, accelerometer and magnetometer.
pub proof fn law_calibration_fields(b: u8)
    ensures
        ({
            let c = calib_of(b);
            &&& 64 * c.sys + 16 * c.gyr + 4 * c.acc + c.mag == b
            &&& c.sys <= 3 && c.gyr <= 3 && c.acc <= 3 && c.mag <= 3
        }),
{
}

/// A sample spells the burst: every byte is the low or the high part of one component, in
/// the order w, x, y, z and then the three accelerations.
pub proof fn law_sample_spells_the_burst(b: Seq<u8>, s: FusionSample)
    requires
        b.len() == 14,
        sample_of(b, s),
    ensures
        b[0] == s.w % 256 && (s.w - b[0] - 256 * b[1]) % 65536 == 0,
        b[2] == s.x % 256 && (s.x - b[2] - 256 * b[3]) % 65536 == 0,
        b[4] == s.y % 256 && (s.y - b[4] - 256 * b[5]) % 65536 == 0,
        b[6] == s.z % 256 && (s.z - b[6] - 256 * b[7]) % 65536 == 0,
        b[8] == s.ax % 256 && (s.ax - b[8] - 256 * b[9]) % 65536 == 0,
        b[10] == s.ay % 256 && (s.ay - b[10] - 256 * b[11]) % 65536 == 0,
        b[12] == s.az % 256 && (s.az - b[12] - 256 * b[13]) % 65536 == 0,
{
}

/// There is no frame exactly while all eight bytes of the quaternion are zero.
pub proof fn law_no_frame_is_all_zero(b: Seq<u8>)
    requires
        b.len() == 14,
    ensures
        no_frame(b) <==> forall|i: int| 0 <= i < 8 ==> b[i] == 0,
{
    if no_frame(b) {
        assert forall|i: int| 0 <= i < 8 implies b[i] == 0 by {
            assert(i == 0 || i == 1 || i == 2 || i == 3 || i == 4 || i == 5 || i == 6 || i == 7);
        }
    }
}

/// The calibration is one read of register 0x35, entered behind what was asked before.
pub proof fn law_calibration_is_one_read(
    before: Seq<BusEvent>,
    after: Seq<BusEvent>,
    answer: Result<u8, Error>,
)
    requires
        calib_read(before, after, answer),
    ensures
        after.len() == before.len() + 1,
        after.drop_last() == before,
        after.last() == (BusEvent::Read { reg: 0x35, result: answer }),
{
    assert(after.drop_last() =~= before);
}

} // verus!
