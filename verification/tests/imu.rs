//! Orientation sample stream and rotation hints.
use std::cell::Cell;

use ginger_rs::hal::bno055::{
    Bno055, CalibStatus, FusionSample, I2cBus, CHIP_ID_BNO055, REG_CALIB_STAT, REG_CHIP_ID,
    REG_QUA_DATA,
};
use ginger_rs::imu::poll::{ImuPoller, PollOutcome};
use ginger_rs::imu::{is_due, ImuSample, ImuState, RING_CAPACITY};
use ginger_rs::slam::rotation::{delta_rotation, rotation_between};
use ginger_rs::Error;

/// Every burst returns the identity quaternion and an acceleration that counts
/// up.
struct CounterBus {
    i: i16,
    calib_byte: Cell<u8>,
    broken: Cell<bool>,
}

impl I2cBus for CounterBus {
    fn write_byte(&mut self, _reg: u8, _val: u8) -> Result<(), Error> {
        Ok(())
    }

    fn read_byte(&mut self, reg: u8) -> Result<u8, Error> {
        match reg {
            REG_CHIP_ID => Ok(CHIP_ID_BNO055),
            REG_CALIB_STAT => Ok(self.calib_byte.get()),
            _ => Ok(0),
        }
    }

    fn read_block(&mut self, reg: u8, buf: &mut [u8]) -> Result<(), Error> {
        if self.broken.get() {
            return Err(Error::Bus(String::from("unplugged")));
        }
        for b in buf.iter_mut() {
            *b = 0;
        }
        if reg == REG_QUA_DATA && buf.len() == 14 {
            buf[0..2].copy_from_slice(&16384i16.to_le_bytes());
            buf[8..10].copy_from_slice(&self.i.to_le_bytes());
            self.i += 1;
        }
        Ok(())
    }

    fn pause(&mut self, _ms: u64) {}
}

fn poller(calib_byte: u8) -> ImuPoller<CounterBus> {
    let chip = Bno055::open(CounterBus {
        i: 0,
        calib_byte: Cell::new(calib_byte),
        broken: Cell::new(false),
    });
    match chip {
        Ok(c) => ImuPoller::new(c, 0),
        Err(_) => panic!("mock CHIP_ID is stocked"),
    }
}

#[test]
fn polling_thread_produces_a_stream_of_samples() {
    let mut imu = poller(0x30);
    for k in 1..=12u64 {
        assert_eq!(imu.poll(k * 10_000), PollOutcome::Published);
    }
    let latest = imu.state.latest().expect("latest sample after polling");
    assert!(latest.sample_index >= 2, "sample_index = {}", latest.sample_index);
    assert_eq!(latest.fusion.ax, 11);
    assert!(imu.chip.bus.device().i >= 2);
}

#[test]
fn latest_is_none_until_calibrated() {
    let mut imu = poller(0x00);
    for k in 1..=12u64 {
        assert_eq!(imu.poll(k * 10_000), PollOutcome::Gated);
    }
    assert!(imu.state.latest().is_none(), "latest() should be None while gyr=0");
    assert!(imu.state.recent_since(0).is_empty());
    assert_eq!(imu.state.calib_status().gyr, 0);
    // The number advances all the same.
    assert_eq!(imu.state.next_sample_index, 12);
}

#[test]
fn imu_timestamps_are_on_the_host_monotonic_clock() {
    let mut imu = poller(0x30);
    for k in 1..=8u64 {
        imu.poll(k * 10_000);
    }
    let t_query = 45_000;
    let after = imu.state.recent_since(t_query);
    assert!(!after.is_empty(), "expected samples after the query instant");
    for s in &after {
        assert!(s.t_read_us >= t_query);
    }
    assert_eq!(after.len(), 4);
}

#[test]
fn recent_since_future_instant_is_empty() {
    let mut imu = poller(0x30);
    for k in 1..=12u64 {
        imu.poll(k * 10_000);
    }
    assert!(imu.state.recent_since(60_000_000).is_empty());
}

#[test]
fn calib_status_surfaces_to_consumers() {
    let mut imu = poller(0x30);
    imu.poll(10_000);
    let c = imu.state.calib_status();
    assert_eq!(c.gyr, 3, "calibrated mock should report gyr=3");
    assert_eq!(c.mag, 0, "IMUPLUS leaves mag at 0");
}

#[test]
fn a_fresh_poller_is_uncalibrated() {
    let imu = poller(0x30);
    let c = imu.state.calib_status();
    assert_eq!((c.sys, c.gyr, c.acc, c.mag), (0, 0, 0, 0));
    assert!(imu.state.ring.is_empty());
}

#[test]
fn withheld_frames_are_numbered_too() {
    let mut imu = poller(0x00);
    for k in 0..50u64 {
        assert_eq!(imu.poll(k * 10_000), PollOutcome::Gated);
    }
    imu.chip.bus.device().calib_byte.set(0x10);
    imu.chip.bus.device().broken.set(true);
    assert_eq!(imu.poll(1_000_000), PollOutcome::Failed);
    imu.chip.bus.device().broken.set(false);
    for k in 0..(RING_CAPACITY as u64 + 7) {
        assert_eq!(imu.poll(1_010_000 + k * 10), PollOutcome::Published);
        assert_eq!(imu.state.latest().unwrap().sample_index, 50 + k as u32);
    }
    // The ring holds the newest, oldest first.
    assert_eq!(imu.state.ring.len(), RING_CAPACITY);
    for (k, s) in imu.state.ring.iter().enumerate() {
        assert_eq!(s.sample_index, 57 + k as u32);
    }
    imu.state.next_sample_index = u32::MAX;
    imu.poll(2_000_000);
    assert_eq!(imu.state.latest().unwrap().sample_index, u32::MAX);
    imu.poll(2_000_010);
    assert_eq!(imu.state.latest().unwrap().sample_index, 0);
}

#[test]
fn calibration_is_read_again_once_a_second() {
    let mut imu = poller(0x00);
    assert_eq!(imu.poll(0), PollOutcome::Gated);
    imu.chip.bus.device().calib_byte.set(0x10);
    assert_eq!(imu.poll(999_999), PollOutcome::Gated);
    assert_eq!(imu.poll(1_000_000), PollOutcome::Published);
    assert!(is_due(0, 5, 5) && !is_due(0, 4, 5) && !is_due(9, 4, 0 + 1));
}

#[test]
fn failed_reads_are_counted_and_change_nothing_else() {
    let mut imu = poller(0x30);
    imu.poll(10_000);
    imu.chip.bus.device().broken.set(true);
    assert_eq!(imu.poll(20_000), PollOutcome::Failed);
    assert_eq!(imu.state.read_failures, 1);
    assert_eq!(imu.state.ring.len(), 1);
    assert_eq!(imu.state.next_sample_index, 1);
}

#[test]
fn rate_is_smoothed_over_periods() {
    let mut imu = poller(0x30);
    for k in 1..=100u64 {
        imu.poll(k * 10_000);
    }
    assert!(!imu.update_rate(999_999));
    assert!(imu.update_rate(1_000_000));
    assert_eq!(imu.rate_mhz(), 100_000);
    for k in 1..=50u64 {
        imu.poll(1_000_000 + k * 10_000);
    }
    assert!(imu.update_rate(2_000_000));
    assert_eq!(imu.rate_mhz(), 90_000);
}

fn fusion(w: i16, x: i16, y: i16, z: i16) -> FusionSample {
    FusionSample { w, x, y, z, ax: 0, ay: 0, az: 0 }
}

#[test]
fn ring_drops_the_oldest_sample() {
    let mut st = ImuState::new();
    st.on_calib(CalibStatus { sys: 0, gyr: 1, acc: 0, mag: 0 });
    for k in 0..(RING_CAPACITY as u64 + 5) {
        assert!(st.on_fusion(fusion(16384, 0, 0, 0), k));
    }
    assert_eq!(st.ring.len(), RING_CAPACITY);
    assert_eq!(st.ring[0].t_read_us, 5);
    assert_eq!(st.latest_before(4), None);
    assert_eq!(st.latest_before(7).map(|s| s.sample_index), Some(7));
    st.on_failure();
    assert_eq!(st.read_failures, 1);
}

fn sample(f: FusionSample, index: u32) -> ImuSample {
    ImuSample { fusion: f, t_read_us: index as u64 * 10_000, sample_index: index }
}

#[test]
fn delta_rotation_recovers_90deg_yaw_between_snapshots() {
    let q_prev = fusion(16384, 0, 0, 0);
    let c = (std::f64::consts::FRAC_PI_4.cos() * 16384.0) as i16;
    let q_curr = fusion(c, 0, 0, c);
    let dr = delta_rotation(&sample(q_prev, 0), &sample(q_curr, 1))
        .expect("distinct sample indices return Some");
    let yaw = 2.0 * (dr.z as f64).atan2(dr.w as f64);
    assert!((yaw - std::f64::consts::FRAC_PI_2).abs() < 1e-6, "yaw = {yaw}");
    assert!(dr.z > 0 && dr.x == 0 && dr.y == 0);
}

#[test]
fn delta_rotation_identity_when_orientations_match() {
    // 0.3 rad about y.
    let q = fusion((0.15f64.cos() * 16384.0) as i16, 0, (0.15f64.sin() * 16384.0) as i16, 0);
    let dr = delta_rotation(&sample(q, 0), &sample(q, 1)).unwrap();
    assert_eq!((dr.x, dr.y, dr.z), (0, 0, 0));
    assert!(dr.w > 0);
}

#[test]
fn same_sample_index_returns_none() {
    let q = fusion(16384, 0, 0, 0);
    assert!(delta_rotation(&sample(q, 7), &sample(q, 7)).is_none());
}

#[test]
fn rotation_back_is_the_conjugate() {
    let a = sample(fusion(12000, 3000, -4000, 5000), 1);
    let b = sample(fusion(9000, -7000, 2000, 1000), 2);
    let there = delta_rotation(&a, &b).unwrap();
    let back = delta_rotation(&b, &a).unwrap();
    assert_eq!((back.w, back.x, back.y, back.z), (there.w, -there.x, -there.y, -there.z));
}

#[test]
fn rotation_hint_needs_samples_at_both_ends() {
    let mut st = ImuState::new();
    assert!(rotation_between(&st, 5, 25).is_none());
    st.on_calib(CalibStatus { sys: 0, gyr: 3, acc: 0, mag: 0 });
    st.on_fusion(fusion(16384, 0, 0, 0), 10);
    st.on_fusion(fusion(0, 0, 0, 16384), 20);
    assert!(rotation_between(&st, 5, 25).is_none());
    assert!(rotation_between(&st, 12, 15).is_none());
    let q = rotation_between(&st, 12, 25).unwrap();
    assert_eq!((q.w, q.z), (0, 16384 * 16384));
}
