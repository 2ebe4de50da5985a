//! Camera frames and exposure.
use ginger_rs::camera::auto_exposure::{
    brightness_to_settings, capture_step, exposure_step, mean_luma, settings_to_brightness, BrightnessControl,
    ExposureConfig, ExposureMode, StepDir, AE_MAX_BRIGHTNESS_UST,
};
use ginger_rs::camera::capture::{payload_len, FrameGate};
use ginger_rs::camera::mock::{gray_to_yuyv, noise_byte, replay_index};
use ginger_rs::camera::Frame;
use ginger_rs::server::{
    camera_frame, default_frame_q, default_frame_w, encode_gray, frame_to_sample, scale_luma,
};
use ginger_rs::single::{divide, round};
use ginger_rs::Error;

/// Exposure in microseconds and gain of a brightness in stops.
fn settings(b: f32) -> (i32, f32) {
    let (g, e) = brightness_to_settings((b as f64 * 1e6) as i64);
    let gain = 2.0_f32.powf(g as f32 / 1e6);
    let exp = 500.0 * 2.0_f32.powf(e as f32 / 1e6);
    ((exp as i32).min(100_000), gain)
}

fn stops(x: f32) -> i64 {
    (x.log2() as f64 * 1e6) as i64
}

#[test]
fn brightness_round_trips_through_settings() {
    for &b in &[0.0_f32, 1.0, 3.5, 4.0, 6.0, 10.0, 11.6] {
        let (exp, gain) = settings(b);
        let back = settings_to_brightness(stops(gain), stops(exp as f32 / 500.0)) as f32 / 1e6;
        assert!((back - b).abs() < 0.05, "b={b} round-tripped to {back}");
    }
}

#[test]
fn gain_ramps_before_exposure() {
    let (exp_lo, gain_lo) = settings(2.0);
    assert_eq!(exp_lo, 500);
    assert!((gain_lo - 4.0).abs() < 0.01);
    let (exp_hi, gain_hi) = settings(6.0);
    assert!((gain_hi - 16.0).abs() < 0.01);
    assert!(exp_hi > 500);
}

#[test]
fn settings_clamp_to_envelope() {
    let (exp, gain) = settings(1000.0);
    assert!(exp <= 100_000, "exp {exp} exceeds envelope");
    assert!(exp > 90_000, "exp {exp} not near the ceiling");
    assert!((gain - 16.0).abs() < 0.01);
    let (exp, gain) = settings(-5.0);
    assert_eq!(exp, 500);
    assert!((gain - 1.0).abs() < 0.01);
}

#[test]
fn ae_step_holds_inside_deadzone() {
    let mut cfg = BrightnessControl::default();
    cfg.ae_step(128_000);
    assert_eq!(cfg.last_dir, StepDir::Hold);
    assert_eq!(cfg.brightness_ust, 7_000_000);
}

#[test]
fn ae_step_brightens_a_dark_frame() {
    let mut cfg = BrightnessControl::default();
    let before = brightness_to_settings(cfg.brightness_ust);
    let after = cfg.ae_step(20_000);
    assert!(after > before);
    assert_eq!(cfg.last_dir, StepDir::Brighten);
    // 108 counts of error, an eightieth of a stop each.
    assert_eq!(cfg.brightness_ust, 8_350_000);
}

#[test]
fn steps_are_damped_when_the_direction_turns() {
    let mut cfg = BrightnessControl::default();
    cfg.ae_step(20_000);
    cfg.ae_step(200_000);
    assert_eq!(cfg.step_scale_ppm, 500_000);
    cfg.ae_step(200_000);
    assert_eq!(cfg.step_scale_ppm, 550_000);
    for _ in 0..50 {
        cfg.ae_step(0);
    }
    assert_eq!(cfg.brightness_ust, AE_MAX_BRIGHTNESS_UST);
    assert_eq!(cfg.step_scale_ppm, 1_000_000);
}

#[test]
fn exposure_steps_gain_first_when_dark_and_exposure_first_when_bright() {
    let mut cfg = ExposureConfig::default();
    assert_eq!(exposure_step(&mut cfg, 128), (8_000, 32));
    assert_eq!(exposure_step(&mut cfg, 20), (8_000, 33));
    cfg.current_gain_q = 64;
    assert_eq!(exposure_step(&mut cfg, 20), (8_200, 64));
    assert_eq!(exposure_step(&mut cfg, 250), (8_000, 64));
    cfg.current_exposure_us = 500;
    assert_eq!(exposure_step(&mut cfg, 250), (500, 63));
}

#[test]
fn manual_exposure_is_applied_as_asked() {
    let mut cfg = ExposureConfig {
        mode: ExposureMode::Manual,
        manual_exposure_us: 2_000,
        manual_gain_q: 10,
        ..ExposureConfig::default()
    };
    assert_eq!(capture_step(&mut cfg, 40), (2_000, 10));
    assert_eq!((cfg.current_luma, cfg.luma_ema_ml), (40, 40_000));
    assert_eq!((cfg.current_exposure_us, cfg.current_gain_q), (2_000, 10));
    // 15 % of the way from 40 to 240.
    assert_eq!(capture_step(&mut cfg, 240), (2_000, 10));
    assert_eq!((cfg.current_luma, cfg.luma_ema_ml), (70, 70_000));
    // Back to automatic: still dark, so the gain goes up from there.
    cfg.mode = ExposureMode::Auto;
    assert_eq!(capture_step(&mut cfg, 70), (2_000, 11));
    let mut dark = ExposureConfig { luma_ema_ml: 1, ..ExposureConfig::default() };
    capture_step(&mut dark, 0);
    assert_eq!(dark.luma_ema_ml, 1);
}

#[test]
fn mean_luma_of_uniform_buffer() {
    let buf = vec![100u8; 4096];
    assert_eq!(mean_luma(&buf), 100);
}

#[test]
fn extreme_predictions_end_at_the_ends_of_the_axis() {
    let mut c = BrightnessControl::default();
    c.ae_step(i64::MAX);
    assert_eq!(c.brightness_ust, 0);
    c.ae_step(i64::MIN);
    assert_eq!(c.brightness_ust, 11_640_000);
    assert_eq!(settings_to_brightness(i64::MAX, -5), i64::MAX);
}

#[test]
fn mean_luma_empty_defaults_to_mid() {
    assert_eq!(mean_luma(&[]), 128);
}

#[test]
fn warmup_frames_are_thrown_away() {
    let mut gate = FrameGate::new();
    for _ in 0..5 {
        assert!(!gate.on_completed());
    }
    assert!(gate.on_completed());
    assert_eq!(gate.generation, 1);
    assert_eq!(payload_len(None, 4, 2), 16);
    assert_eq!(payload_len(Some(7), 4, 2), 7);
}

#[test]
fn grey_frames_convert_to_rgb_and_ppm() {
    let f = gray_to_yuyv(2, 1, &[0, 255]);
    assert_eq!(f.data, vec![0, 128, 255, 128]);
    assert_eq!(f.to_rgb(), vec![0, 0, 0, 255, 255, 255]);
    let ppm = f.to_ppm();
    assert!(ppm.starts_with(b"P6\n2 1\n255\n"));
    assert_eq!(ppm.len(), 11 + 6);
    let f = gray_to_yuyv(4, 2, &[10, 20, 30, 40, 50, 60, 70, 80]);
    let (rgb, w, h) = f.to_rgb_scaled(1, 2);
    assert_eq!((w, h), (2, 1));
    assert_eq!(rgb, vec![10, 10, 10, 30, 30, 30]);
    let (rgb, w, h) = f.to_rgb_scaled(2, 1);
    assert_eq!((w, h), (8, 4));
    assert_eq!(rgb[3 * 8 * 3 + 3], 50);
    assert_eq!(f.to_rgb_scaled(0, 1), (vec![10, 10, 10], 1, 1));
    assert!(noise_byte(3, 4) <= 255);
    assert_eq!(replay_index(7, 3), 1);
}

/// A frame with colours and no regularity.
fn noise_frame(w: u32, h: u32) -> Frame {
    let mut s = 0x9E37_79B9u32;
    let mut data = Vec::new();
    for _ in 0..(w * h + 1) / 2 * 4 {
        s ^= s << 13;
        s ^= s >> 17;
        s ^= s << 5;
        data.push((s >> 9) as u8);
    }
    Frame { width: w, height: h, id: 0, data }
}

/// Pixels that a reduction samples, in the machine's single precision.
fn samples_f32(f: &Frame, scale: f32) -> (Vec<(usize, usize)>, u32, u32) {
    let (sw, sh) = (f.width as usize, f.height as usize);
    let dw = ((sw as f32 * scale) as usize).max(1);
    let dh = ((sh as f32 * scale) as usize).max(1);
    let x_stride = sw as f32 / dw as f32;
    let y_stride = sh as f32 / dh as f32;
    let mut out = Vec::new();
    for dy in 0..dh {
        for dx in 0..dw {
            out.push(((dx as f32 * x_stride) as usize, (dy as f32 * y_stride) as usize));
        }
    }
    (out, dw as u32, dh as u32)
}

#[test]
fn rounding_is_that_of_the_machine() {
    let mut s = 0x1234_5678_9ABC_DEFFu64;
    for _ in 0..20_000 {
        s ^= s << 13;
        s ^= s >> 7;
        s ^= s << 17;
        let n = s >> (s % 50);
        assert_eq!(round(n as i128), n as f32 as i128);
        assert_eq!(round(-(n as i128)), -(n as f32 as i128));
        // Both are whole numbers of 24 bits, so the quotient is the machine's.
        let (a, b) = (1 + (s >> 11) % 0xFF_FFFF, 1 + (s >> 37) % 0xFF_FFFF);
        let q = divide((a as u128) << 56, b as u128);
        assert_eq!(q as f64 / (1u64 << 56) as f64, (a as f32 / b as f32) as f64);
    }
    // Halves go to the even neighbour.
    assert_eq!(round(0x100_0001), 0x100_0000);
    assert_eq!(round(0x100_0003), 0x100_0004);
}

#[test]
fn scaling_is_single_precision() {
    for (w, h) in [(64u32, 48u32), (38, 29), (7, 5), (101, 3)] {
        let f = noise_frame(w, h);
        for (num, den) in [(1u32, 2u32), (1, 3), (3, 10), (7, 10), (9, 10), (1, 1000), (6, 5)] {
            let (rgb, dw, dh) = f.to_rgb_scaled(num, den);
            let (at, ew, eh) = samples_f32(&f, num as f32 / den as f32);
            assert_eq!((dw, dh), (ew, eh), "{w}x{h} at {num}/{den}");
            assert_eq!(rgb.len(), (3 * dw * dh) as usize);
            for (k, &(sx, sy)) in at.iter().enumerate() {
                let g = (sy * w as usize + sx) / 2 * 4;
                let y = f.data[g + 2 * (sx % 2)] as i32;
                let v = f.data[g + 3] as i32;
                let red = (y + 1402 * (v - 128) / 1000).clamp(0, 255) as u8;
                assert_eq!(rgb[3 * k], red, "{w}x{h} at {num}/{den}, pixel {k}");
            }
        }
    }
}

#[test]
fn scale_one_is_the_whole_picture() {
    let f = noise_frame(38, 29);
    assert_eq!(f.to_rgb_scaled(1, 1), (f.to_rgb(), 38, 29));
    assert_eq!(f.to_rgb_scaled(7, 7).0, f.to_rgb());
    assert_eq!(f.to_rgb().len(), 3 * 38 * 29);
}

#[test]
fn a_pixel_that_is_not_sampled_needs_no_data() {
    // Five pixels fill two groups and a half; the reduction reads the two whole ones.
    let mut f = noise_frame(5, 1);
    let whole = f.to_rgb_scaled(2, 5);
    f.data.truncate(10);
    assert_eq!(f.to_rgb_scaled(2, 5), whole);
    assert_eq!((whole.1, whole.2), (2, 1));
    // An empty frame still gives one pixel.
    f.width = 0;
    assert_eq!(f.to_rgb_scaled(1, 1).0.len(), 3);
}

fn ramp_frame(w: u32, h: u32) -> Frame {
    let luma: Vec<u8> = (0..w * h).map(|i| (i % 251) as u8).collect();
    gray_to_yuyv(w, h, &luma)
}

#[test]
fn still_is_a_framed_jpeg_of_the_asked_size() {
    let frame = ramp_frame(320, 240);
    let jpeg = camera_frame(&frame, 64, 70).unwrap();
    assert!(jpeg.len() > 4, "jpeg body too short: {} bytes", jpeg.len());
    assert_eq!(&jpeg[..2], &[0xff, 0xd8], "missing JPEG SOI marker");
    assert_eq!(&jpeg[jpeg.len() - 2..], &[0xff, 0xd9], "missing JPEG EOI marker");
    // The frame header holds height 48 and width 64.
    let at = jpeg
        .windows(2)
        .position(|w| w == [0xff, 0xc0])
        .expect("baseline frame header");
    assert_eq!(&jpeg[at + 5..at + 9], &[0, 48, 0, 64]);
    // Width and quality are clamped.
    assert_eq!(camera_frame(&frame, 1, 70).unwrap(), camera_frame(&frame, 16, 70).unwrap());
    assert_eq!(
        camera_frame(&frame, 9999, 255).unwrap(),
        camera_frame(&frame, 320, 100).unwrap()
    );
    assert_eq!((default_frame_w(), default_frame_q()), (320, 70));
}

#[test]
fn luma_is_sampled_nearest_neighbour() {
    let frame = gray_to_yuyv(4, 2, &[10, 20, 30, 40, 50, 60, 70, 80]);
    assert_eq!(scale_luma(&frame, 2, 2), vec![10, 30, 50, 70]);
    assert_eq!(scale_luma(&frame, 4, 1), vec![10, 20, 30, 40]);
}

#[test]
fn bad_images_are_not_encoded() {
    for r in [encode_gray(&[], 0, 4, 70), encode_gray(&[1, 2, 3], 2, 2, 70)] {
        match r {
            Err(Error::Camera(s)) => assert_eq!(s, "jpeg encode: bad image"),
            _ => panic!("an error was due"),
        }
    }
    assert!(encode_gray(&[1, 2, 3, 4], 2, 2, 70).is_ok());
}

#[test]
fn frame_age_is_compared_on_one_clock() {
    assert_eq!(frame_to_sample(100, 40, 70), 30);
    assert_eq!(frame_to_sample(100, 90, 70), -20);
}
