//! Chip drivers against a recording bus.
use std::cell::RefCell;
use std::collections::HashMap;

use ginger_rs::devices::motors::Motors;
use ginger_rs::devices::pan_tilt::{angle_to_pulse, PanTilt, PAN_TRIM_MDEG};
use ginger_rs::hal::bmi160::{self, Bmi160, I2cBus, RawSample};
use ginger_rs::hal::bno055::{self, Bno055, CalibStatus};
use ginger_rs::hal::buzzer::half_period_ns;
use ginger_rs::hal::led::LedStrip;
use ginger_rs::hal::pca9685::{prescale, servo_count, Pca9685};
use ginger_rs::hal::ultrasonic::echo_um;
use ginger_rs::Error;

/// Writes go into an ordered log; reads come from `regs` (single bytes) or
/// `blocks` (bursts). Unknown reads return zero.
#[derive(Default)]
struct MockBus {
    regs: RefCell<HashMap<u8, u8>>,
    blocks: HashMap<u8, Vec<u8>>,
    writes: RefCell<Vec<(u8, u8)>>,
    pauses: Vec<u64>,
    fail_after: Option<usize>,
}

impl I2cBus for MockBus {
    fn write_byte(&mut self, reg: u8, val: u8) -> Result<(), Error> {
        if let Some(n) = self.fail_after {
            if self.writes.borrow().len() == n {
                return Err(Error::Bus(String::from("no answer")));
            }
        }
        self.writes.borrow_mut().push((reg, val));
        self.regs.borrow_mut().insert(reg, val);
        Ok(())
    }

    fn read_byte(&mut self, reg: u8) -> Result<u8, Error> {
        Ok(self.regs.borrow().get(&reg).copied().unwrap_or(0))
    }

    fn read_block(&mut self, reg: u8, buf: &mut [u8]) -> Result<(), Error> {
        let src = self.blocks.get(&reg).cloned().unwrap_or_default();
        for (i, slot) in buf.iter_mut().enumerate() {
            *slot = src.get(i).copied().unwrap_or(0);
        }
        Ok(())
    }

    fn pause(&mut self, ms: u64) {
        self.pauses.push(ms);
    }
}

fn stocked(id: u8) -> MockBus {
    let bus = MockBus::default();
    bus.regs.borrow_mut().insert(0x00, id);
    bus
}

#[test]
fn bmi160_open_verifies_chip_id_and_runs_configured_sequence() {
    let bus = stocked(bmi160::CHIP_ID_BMI160);
    let imu = Bmi160::open(bus).expect("open should succeed with correct CHIP_ID");
    assert_eq!(
        *imu.bus.device().writes.borrow(),
        vec![
            (bmi160::REG_CMD, bmi160::CMD_ACC_NORMAL),
            (bmi160::REG_CMD, bmi160::CMD_GYR_NORMAL),
            (bmi160::REG_ACC_CONF, bmi160::ACC_CONF_DEFAULT),
            (bmi160::REG_ACC_RANGE, bmi160::ACC_RANGE_DEFAULT),
            (bmi160::REG_GYR_CONF, bmi160::GYR_CONF_DEFAULT),
            (bmi160::REG_GYR_RANGE, bmi160::GYR_RANGE_DEFAULT),
        ]
    );
    assert_eq!(imu.bus.device().pauses, vec![4, 81]);
}

#[test]
fn bmi160_open_rejects_wrong_chip_id() {
    let result = Bmi160::open(stocked(0x42));
    let err = match result {
        Err(e) => e,
        Ok(_) => panic!("should reject non-BMI160 chip id"),
    };
    let msg = err.message();
    assert!(msg.contains("0x42"), "error mentions actual id: {msg}");
    assert!(msg.contains("0xd1"), "error mentions expected id: {msg}");
    assert_eq!(msg, "wrong CHIP_ID: got 0x42, expected 0xd1");
}

#[test]
fn open_stops_at_the_first_refused_write() {
    let mut bus = stocked(bmi160::CHIP_ID_BMI160);
    bus.fail_after = Some(1);
    match Bmi160::open(bus) {
        Err(Error::Bus(s)) => assert_eq!(s, "no answer"),
        _ => panic!("the bus error comes through"),
    }
}

#[test]
fn read_both_parses_little_endian_axes() {
    let mut bus = stocked(bmi160::CHIP_ID_BMI160);
    bus.blocks.insert(
        bmi160::REG_DATA_GYR,
        vec![0x01, 0x00, 0xFF, 0xFF, 0x00, 0x01, 0x00, 0x80, 0x00, 0x00, 0xFF, 0x7F],
    );
    let mut imu = Bmi160::open(bus).unwrap();
    let s = imu.read_both().unwrap();
    assert_eq!(s.gyro, [1, -1, 256]);
    assert_eq!(s.accel, [i16::MIN, 0, i16::MAX]);
    assert_eq!(imu.read_gyro_raw().unwrap(), [1, -1, 256]);
    assert_eq!(imu.read_accel_raw().unwrap(), [0, 0, 0]);
}

#[test]
fn raw_to_si_uses_default_ranges() {
    let s = RawSample {
        gyro: [32768i32.try_into().unwrap_or(i16::MAX), 0, 0],
        accel: [0, 0, 32768i32.try_into().unwrap_or(i16::MAX)],
    };
    let g = s.gyro_dps()[0] as f32 / 8192.0;
    let a = s.accel_mps2()[2] as f32 / (1u64 << 33) as f32;
    assert!((g - 500.0).abs() < 0.05, "gyro near full scale: {g}");
    let expected = 4.0 * 9.806_65;
    assert!((a - expected).abs() < 0.01, "accel near full scale: {a} vs {expected}");
}

#[test]
fn turning_counter_clockwise_is_positive() {
    let s = RawSample { gyro: [32767, -32768, 32767], accel: [0, 0, 0] };
    assert_eq!(s.gyro_dps(), [32767 * 125, -500 * 8192, -32767 * 125]);
    let s = RawSample { gyro: [0, 0, -32768], accel: [0, 0, 0] };
    assert_eq!(s.gyro_dps(), [0, 0, 500 * 8192]);
}

#[test]
fn si_units_are_the_single_precision_ones() {
    let gyro_scale: f32 = 500.0 / 32768.0;
    let accel_scale: f32 = (4.0 * 9.806_65) / 32768.0;
    for c in i16::MIN..=i16::MAX {
        let s = RawSample { gyro: [c, c, c], accel: [c, c, c] };
        let g = s.gyro_dps();
        assert_eq!(g[0] as f32 / 8192.0, c as f32 * gyro_scale);
        assert_eq!(g[2] as f32 / 8192.0, -(c as f32) * gyro_scale);
        assert_eq!(s.accel_mps2()[1] as f32 / (1u64 << 33) as f32, c as f32 * accel_scale);
    }
}

#[test]
fn sensortime_assembles_three_byte_little_endian_counter() {
    let mut bus = stocked(bmi160::CHIP_ID_BMI160);
    bus.blocks.insert(bmi160::REG_SENSORTIME, vec![0x78, 0x56, 0x34]);
    let mut imu = Bmi160::open(bus).unwrap();
    assert_eq!(imu.read_sensortime().unwrap(), 0x0034_5678);
}

#[test]
fn bno055_open_verifies_chip_id_and_runs_configured_sequence() {
    let imu = Bno055::open(stocked(bno055::CHIP_ID_BNO055))
        .expect("open should succeed with correct CHIP_ID");
    assert_eq!(
        *imu.bus.device().writes.borrow(),
        vec![
            (bno055::REG_OPR_MODE, bno055::OPR_MODE_CONFIG),
            (bno055::REG_PWR_MODE, bno055::PWR_MODE_NORMAL),
            (bno055::REG_SYS_TRIGGER, 0x00),
            (bno055::REG_UNIT_SEL, 0x00),
            (bno055::REG_OPR_MODE, bno055::OPR_MODE_IMUPLUS),
        ]
    );
}

#[test]
fn bno055_open_rejects_wrong_chip_id() {
    let err = match Bno055::open(stocked(0x42)) {
        Err(e) => e,
        Ok(_) => panic!("should reject non-BNO055 chip id"),
    };
    let msg = err.message();
    assert!(msg.contains("0x42"), "error mentions actual id: {msg}");
    assert!(msg.contains("0xa0"), "error mentions expected id: {msg}");
}

#[test]
fn read_fusion_parses_identity_quaternion_and_linear_accel() {
    let mut bus = stocked(bno055::CHIP_ID_BNO055);
    let mut burst = vec![0u8; 14];
    burst[0..2].copy_from_slice(&16384i16.to_le_bytes());
    burst[8..10].copy_from_slice(&200i16.to_le_bytes());
    burst[10..12].copy_from_slice(&(-50i16).to_le_bytes());
    bus.blocks.insert(bno055::REG_QUA_DATA, burst);
    let mut imu = Bno055::open(bus).unwrap();
    let s = imu.read_fusion().unwrap().expect("non-zero quaternion");
    assert!((s.w as f32 / 16384.0 - 1.0).abs() < 1e-3);
    assert_eq!((s.x, s.y, s.z), (0, 0, 0));
    assert!((s.ax as f32 / 100.0 - 2.0).abs() < 1e-3);
    assert!((s.ay as f32 / 100.0 + 0.5).abs() < 1e-3);
    assert_eq!(s.az, 0);
}

#[test]
fn read_fusion_returns_none_when_chip_has_not_produced_a_frame() {
    let mut bus = stocked(bno055::CHIP_ID_BNO055);
    bus.blocks.insert(bno055::REG_QUA_DATA, vec![0u8; 14]);
    let mut imu = Bno055::open(bus).unwrap();
    assert!(imu.read_fusion().unwrap().is_none());
}

#[test]
fn calib_status_decodes_packed_byte() {
    let c = CalibStatus::from_byte(0xE4);
    assert_eq!(c, CalibStatus { sys: 3, gyr: 2, acc: 1, mag: 0 });
    let c = CalibStatus::from_byte(0x00);
    assert_eq!(c, CalibStatus::default());
    let c = CalibStatus::from_byte(0xFF);
    assert_eq!(c, CalibStatus { sys: 3, gyr: 3, acc: 3, mag: 3 });
}

#[test]
fn read_calib_round_trips() {
    let mut bus = stocked(bno055::CHIP_ID_BNO055);
    bus.regs.borrow_mut().insert(bno055::REG_CALIB_STAT, 0xE4);
    let mut imu = Bno055::open(bus).unwrap();
    assert_eq!(
        imu.read_calib().unwrap(),
        CalibStatus { sys: 3, gyr: 2, acc: 1, mag: 0 }
    );
}

#[test]
fn read_fusion_parses_90deg_yaw_rotation() {
    let mut bus = stocked(bno055::CHIP_ID_BNO055);
    let cos45 = (std::f32::consts::FRAC_PI_4).cos();
    let sin45 = (std::f32::consts::FRAC_PI_4).sin();
    let w = (cos45 * 16384.0) as i16;
    let z = (sin45 * 16384.0) as i16;
    let mut burst = vec![0u8; 14];
    burst[0..2].copy_from_slice(&w.to_le_bytes());
    burst[6..8].copy_from_slice(&z.to_le_bytes());
    bus.blocks.insert(bno055::REG_QUA_DATA, burst);
    let mut imu = Bno055::open(bus).unwrap();
    let s = imu.read_fusion().unwrap().unwrap();
    let yaw = 2.0 * (s.z as f32).atan2(s.w as f32);
    assert!(
        (yaw - std::f32::consts::FRAC_PI_2).abs() < 1e-2,
        "yaw = {yaw} (expected pi/2)"
    );
}

#[test]
fn pwm_frequency_change_sleeps_and_restarts() {
    let mut pwm = match Pca9685::new(MockBus::default()) {
        Ok(p) => p,
        Err(_) => panic!("the mock bus takes all writes"),
    };
    pwm.bus.device().regs.borrow_mut().insert(0x00, 0x01);
    pwm.set_pwm_freq(50).unwrap();
    // 25 MHz / (4096 * 50) = 122.07, so the prescaler is 121.
    assert_eq!(prescale(50), 121);
    assert_eq!(
        *pwm.bus.device().writes.borrow(),
        vec![(0x00, 0x00), (0x00, 0x11), (0xFE, 121), (0x00, 0x01), (0x00, 0x81)]
    );
    assert_eq!(pwm.bus.device().pauses, vec![5]);
    // Far too slow for a byte, and far too fast for the oscillator.
    assert_eq!(prescale(1), 254);
    assert_eq!(prescale(0), 254);
    for f in 0..3000u32 {
        let p = ((25_000_000f32 / (4096f32 * f as f32)).round() as u8).saturating_sub(1);
        assert_eq!(prescale(f), p, "{f} Hz");
    }
    assert_eq!(prescale(1_000_000), 0);
}

#[test]
fn the_mounted_bracket_looks_straight_ahead() {
    let pt = PanTilt::mounted();
    assert_eq!((pt.pan_trim_mdeg, pt.tilt_trim_mdeg), (PAN_TRIM_MDEG, 0));
    // 90 degrees with the trim is the pulse of 83.5 degrees without: 1572.2 us.
    assert_eq!(angle_to_pulse(90_000, true, PAN_TRIM_MDEG), 141_500);
    assert_eq!(angle_to_pulse(83_500, true, 0), 141_500);
}

#[test]
fn pwm_reset_hands_on_the_error_of_the_bus() {
    let mut bus = MockBus::default();
    bus.fail_after = Some(0);
    match Pca9685::new(bus) {
        Ok(_) => panic!("the bus refuses the reset"),
        Err(e) => assert_eq!(e.message(), "no answer"),
    }
}

#[test]
fn wheel_writes_turn_the_inactive_pin_off_first() {
    let mut pwm = match Pca9685::new(MockBus::default()) {
        Ok(p) => p,
        Err(_) => panic!("the mock bus takes all writes"),
    };
    pwm.bus.device().writes.borrow_mut().clear();
    Motors::set_wheel(&mut pwm, 0, 1500).unwrap();
    // Channel 7 fully off (4096), then channel 6 at 1500.
    assert_eq!(
        *pwm.bus.device().writes.borrow(),
        vec![(34, 0), (35, 0), (36, 0), (37, 16), (30, 0), (31, 0), (32, 0xDC), (33, 0x05)]
    );
    pwm.bus.device().writes.borrow_mut().clear();
    Motors::set_wheel(&mut pwm, 3, -9999).unwrap();
    // Clamped to 4095: channel 3 off, channel 2 at 4095.
    assert_eq!(
        *pwm.bus.device().writes.borrow(),
        vec![(18, 0), (19, 0), (20, 0), (21, 16), (14, 0), (15, 0), (16, 0xFF), (17, 0x0F)]
    );
    pwm.bus.device().writes.borrow_mut().clear();
    Motors::stop(&mut pwm).unwrap();
    assert_eq!(pwm.bus.device().writes.borrow().len(), 32);
    assert!(pwm.bus.device().writes.borrow().iter().skip(3).step_by(4).all(|&(_, v)| v == 0x0F));
    pwm.bus.device().writes.borrow_mut().clear();
    Motors::drive(&mut pwm, 100, -100).unwrap();
    assert_eq!(pwm.bus.device().writes.borrow().len(), 32);
}

#[test]
fn servo_angles_map_to_pulses() {
    // 0, 90 and 180 degrees are 500, 1500 and 2500 us, in ninetieths.
    assert_eq!(angle_to_pulse(0, false, 0), 500 * 90);
    assert_eq!(angle_to_pulse(90_000, false, 0), 1500 * 90);
    assert_eq!(angle_to_pulse(180_000, false, 0), 2500 * 90);
    assert_eq!(angle_to_pulse(270_000, false, 0), 2500 * 90);
    assert_eq!(angle_to_pulse(0, true, 0), 2500 * 90);
    // The trim is 72.2 us.
    assert_eq!(PAN_TRIM_MDEG / 90, 72);
    // 1500 us of a 20 ms period is 307 of 4096.
    assert_eq!(servo_count(1500 * 90), 307);
    assert_eq!(servo_count(-1), 0);
    assert_eq!(servo_count(i64::MAX), 65535);
    let mut pwm = match Pca9685::new(MockBus::default()) {
        Ok(p) => p,
        Err(_) => panic!("the mock bus takes all writes"),
    };
    pwm.bus.device().writes.borrow_mut().clear();
    let pt = PanTilt::new(0, 0);
    pt.center(&mut pwm).unwrap();
    assert_eq!(
        *pwm.bus.device().writes.borrow(),
        vec![(38, 0), (39, 0), (40, 0x33), (41, 1), (42, 0), (43, 0), (44, 0x33), (45, 1)]
    );
    pwm.bus.device().writes.borrow_mut().clear();
    pt.set_pan(&mut pwm, 0).unwrap();
    pt.set_tilt(&mut pwm, 0).unwrap();
    assert_eq!(pwm.bus.device().writes.borrow()[2], (40, 0x00));
    assert_eq!(pwm.bus.device().writes.borrow()[3], (41, 2));
    assert_eq!(pwm.bus.device().writes.borrow()[6], (44, 102));
}

#[test]
fn led_colours_are_scaled_and_sent_bit_by_bit() {
    let mut strip = LedStrip::new(255);
    strip.set(1, 10, 20, 30);
    assert_eq!(&strip.buf[3..6], &[20, 10, 30]);
    let mut dim = LedStrip::new(51);
    dim.set_all(255, 100, 3);
    assert_eq!(&dim.buf[21..24], &[20, 51, 1]);
    let tx = strip.frame();
    assert_eq!(tx.len(), 192);
    // Green of LED 1 is 20 = 0b00010100.
    assert_eq!(&tx[24..32], &[0x80, 0x80, 0x80, 0xF8, 0x80, 0xF8, 0x80, 0x80]);
    assert!(strip.clear().iter().all(|&b| b == 0x80));
}

#[test]
fn tone_and_echo_formulas() {
    assert_eq!(half_period_ns(0), None);
    assert_eq!(half_period_ns(440), Some(1_136_363));
    // 5.831 ms of echo is one metre.
    assert_eq!(echo_um(5_830_904), 1_000_000);
    // Rounded to the millimetre.
    assert_eq!(echo_um(2_916), 1_000);
    assert_eq!(echo_um(2_915), 0);
    assert_eq!(echo_um(u64::MAX), 3_163_616_608_641_188_000);
}
