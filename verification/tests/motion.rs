//! Drive mapping, labels, pose, exploration controller and model bookkeeping.
use ginger_rs::math::{isqrt, length, wrap_half_turn};
use ginger_rs::motion::arcade::arcade_drive;
use ginger_rs::motion::explore::{
    is_boxed_in, next_pan, pick_best_heading, ExplorePhase, ExploreStatus, LegAction, ScanRay,
    TurnAction, BOXED_IN_UM,
};
use ginger_rs::motion::labels::{
    scan_window, v_label, InertialSample, LabelStats, LabelWorker, VLabel, WindowEnd,
};
use ginger_rs::motion::model::{
    boot_battery, load_decision, mirror_sample, sample_of_window, synthetic_forward, LoadDecision,
    Meta, SCHEMA_VERSION,
};
use ginger_rs::motion::pose::{
    try_v_us, MotionTarget, PoseState, PoseStep, PoseWorker, TickInput, TRAIL_CAP,
};

const MAX: i32 = 4095;

/// Micrometres of centimetres.
fn cm(x: f32) -> u64 {
    (x * 10_000.0).round() as u64
}

// ── Drive mapping ─────────────────────────────────────────────────────────────

/// Duties of a forward speed in m/s and a turning speed in rad/s.
fn drive(v: f64, w: f64) -> (i32, i32) {
    arcade_drive((v * 1e6) as i32, (w * 1e6) as i32)
}

#[test]
fn pure_forward_symmetric() {
    let (l, r) = drive(0.5, 0.0);
    assert_eq!(l, r, "forward should be symmetric");
    assert!(l > 0, "forward should be positive PWMs");
    assert_eq!(l, 1250);
}

#[test]
fn pure_reverse_symmetric() {
    let (l, r) = drive(-0.5, 0.0);
    assert_eq!(l, r);
    assert!(l < 0);
}

#[test]
fn ccw_intent_drives_pwm_l_greater_than_pwm_r() {
    let (l, r) = drive(0.0, 0.5);
    assert!(l > r, "CCW intent should yield pwm_l > pwm_r; got L={l}, R={r}");
    assert_eq!(l, -r, "pure rotation should be anti-symmetric");
}

#[test]
fn reversing_both_speeds_negates_both_duties() {
    for (v, w) in [(0.3, 0.2), (-0.7, 0.4), (0.123457, -0.765433), (2.0, 2.0)] {
        let (l, r) = drive(v, w);
        assert_eq!(drive(-v, -w), (-l, -r));
        assert_eq!(drive(v, -w), (r, l));
        assert!(l.abs() <= 4095 && r.abs() <= 4095);
        assert!(if w > 0.0 { l >= r } else { l <= r });
    }
}

#[test]
fn cw_intent_drives_pwm_l_less_than_pwm_r() {
    let (l, r) = drive(0.0, -0.5);
    assert!(l < r);
    assert_eq!(l, -r);
}

#[test]
fn clamps_at_max_duty() {
    let (l, r) = drive(5.0, 5.0);
    assert_eq!(l, MAX);
    assert!(r >= -MAX && r <= MAX);
    let (l, r) = drive(-5.0, 5.0);
    assert!(l >= -MAX && l <= MAX);
    assert_eq!(r, -MAX);
}

#[test]
fn zero_intent_zero_pwm() {
    assert_eq!(drive(0.0, 0.0), (0, 0));
}

// ── Labels ────────────────────────────────────────────────────────────────────

fn v_label_test(pwm_l: i32, pwm_r: i32, us_start: f32, us_end: f32) -> VLabel {
    v_label_test_pan(pwm_l, pwm_r, us_start, us_end, 90)
}

fn v_label_test_pan(pwm_l: i32, pwm_r: i32, us_start: f32, us_end: f32, pan: i32) -> VLabel {
    v_label(pwm_l, pwm_r, Some(cm(us_start)), Some(cm(us_end)), 200_000, pan * 1000)
}

#[test]
fn v_label_forward_straight_monotonic() {
    match v_label_test(1500, 1500, 30.0, 20.0) {
        VLabel::Speed(v) => assert!((v as f32 / 1e6 - 0.5).abs() < 1e-3, "got {v}"),
        other => panic!("expected Speed, got {other:?}"),
    }
}

#[test]
fn v_label_reverse_straight_monotonic() {
    match v_label_test(-1500, -1500, 20.0, 30.0) {
        VLabel::Speed(v) => assert!((v as f32 / 1e6 + 0.5).abs() < 1e-3, "got {v}"),
        other => panic!("expected Speed, got {other:?}"),
    }
}

#[test]
fn v_label_rejects_turning_window() {
    assert_eq!(v_label_test(2000, 1000, 30.0, 29.0), VLabel::NotStraight);
}

#[test]
fn v_label_rejects_out_of_range() {
    assert_eq!(v_label_test(1500, 1500, 5.0, 4.0), VLabel::OutOfRange);
    assert_eq!(v_label_test(-1500, -1500, 70.0, 85.0), VLabel::OutOfRange);
}

#[test]
fn v_label_rejects_non_monotonic() {
    assert_eq!(v_label_test(1500, 1500, 30.0, 35.0), VLabel::NonMonotonic);
}

#[test]
fn v_label_tolerates_us_noise_at_zero_command() {
    match v_label_test(0, 0, 30.0, 30.5) {
        VLabel::Speed(_) => {}
        other => panic!("expected Speed at near-zero command, got {other:?}"),
    }
}

#[test]
fn v_label_tolerates_small_wrong_sign_jitter() {
    match v_label_test(1500, 1500, 30.0, 30.5) {
        VLabel::Speed(_) => {}
        other => panic!("expected Speed with sub-noise jitter, got {other:?}"),
    }
}

#[test]
fn v_label_rejects_when_pan_off_centre() {
    assert_eq!(v_label_test_pan(1500, 1500, 30.0, 20.0, 60), VLabel::NotStraight);
    assert_eq!(v_label_test_pan(1500, 1500, 30.0, 20.0, 120), VLabel::NotStraight);
    match v_label_test_pan(1500, 1500, 30.0, 20.0, 87) {
        VLabel::Speed(_) => {}
        other => panic!("expected Speed at pan=87, got {other:?}"),
    }
}

#[test]
fn v_label_needs_both_readings_and_time() {
    assert_eq!(v_label(1500, 1500, None, Some(cm(20.0)), 200_000, 90_000), VLabel::NoReading);
    assert_eq!(
        v_label(1500, 1500, Some(cm(30.0)), Some(cm(20.0)), 49_999, 90_000),
        VLabel::TooShort
    );
}

const G: f32 = 9.80665;

/// Sample of a turn in deg/s and an acceleration in m/s2.
fn inertial(gz: f32, ax: f32, ay: f32, az: f32) -> InertialSample {
    InertialSample {
        omega_z: (gz.to_radians() as f64 * 1e6) as i32,
        ax: (ax * 1e6) as i32,
        ay: (ay * 1e6) as i32,
        az: (az * 1e6) as i32,
    }
}

#[test]
fn scan_clean_window_passes() {
    let s = vec![inertial(29.0, 0.0, 0.0, G); 30];
    let r = scan_window(&s);
    assert!(!r.gyro_spike && !r.accel_spike);
    assert!((r.omega_mean as f32 / 1e6 - 29.0_f32.to_radians()).abs() < 1e-3);
}

#[test]
fn scan_gyro_spike_window_rejects() {
    let mut s = vec![inertial(0.0, 0.0, 0.0, G); 30];
    s[15] = inertial(360.0, 0.0, 0.0, G);
    let r = scan_window(&s);
    assert!(r.gyro_spike, "should detect gyro spike");
    assert!(!r.accel_spike);
}

#[test]
fn scan_accel_spike_window_rejects() {
    let mut s = vec![inertial(0.0, 0.0, 0.0, G); 30];
    s[10] = inertial(0.0, 0.0, 0.0, 15.0);
    let r = scan_window(&s);
    assert!(r.accel_spike, "should detect accel spike");
    assert!(!r.gyro_spike);
}

#[test]
fn scan_combined_spike_rejects() {
    let mut s = vec![inertial(0.0, 0.0, 0.0, G); 30];
    s[5] = inertial(400.0, 0.0, 0.0, 14.0);
    let r = scan_window(&s);
    assert!(r.gyro_spike && r.accel_spike);
}

#[test]
fn stats_default_clean() {
    let s = LabelStats::default();
    assert_eq!(s.samples_observed, 0);
    assert_eq!(s.samples_v_labelled, 0);
    assert_eq!(s.rejections.gyro_spike, 0);
    assert_eq!(s.rejections.accel_spike, 0);
}

fn window_end(now_us: u64, us: f32) -> WindowEnd {
    WindowEnd {
        now_us,
        us: Some(cm(us)),
        pwm_l: 1500,
        pwm_r: 1500,
        pan_mdeg: 90_000,
        battery_mv: 7_800,
    }
}

#[test]
fn labeller_carries_measurements_forward() {
    let mut w = LabelWorker::new(0, Some(cm(60.0)));
    let clean = vec![inertial(10.0, 0.0, 0.0, G); 20];
    let first = w.tick(&clean, window_end(200_000, 50.0)).unwrap();
    assert!(first.v_label_present);
    assert_eq!(first.v_target, 500_000);
    assert_eq!((first.v_prev, first.pwm_l_prev), (0, 0));
    // A spike drops the window and counts, but begins the next one.
    let mut spiky = clean.clone();
    spiky[3] = inertial(400.0, 0.0, 0.0, G);
    assert!(w.tick(&spiky, window_end(400_000, 45.0)).is_none());
    assert_eq!(w.stats.rejections.gyro_spike, 1);
    assert_eq!(w.window_start_us, 400_000);
    // Against the command: no label, the old speed stands in.
    let third = w.tick(&clean, window_end(600_000, 55.0)).unwrap();
    assert!(!third.v_label_present);
    assert_eq!((third.v_target, third.v_prev), (500_000, 500_000));
    assert_eq!(w.stats.rejections.v_non_monotonic, 1);
    assert_eq!((w.stats.samples_observed, w.stats.samples_v_labelled), (2, 1));
    assert!(w.tick(&[], window_end(800_000, 50.0)).is_none());
    let s = sample_of_window(&first);
    assert_eq!(s.ds_obs_um, Some(100_000));
    assert_eq!(sample_of_window(&third).ds_obs_um, None);
    assert_eq!(s.dtheta_obs_urad, first.omega_target / 5);
}

// ── Pose ──────────────────────────────────────────────────────────────────────

/// Integrates one tick on the library's pose, as the worker's loop does.
fn integrate_tick(pose: &mut PoseState, v: f64, omega: f64, dt_s: f64) {
    let theta = pose.theta as f64 / 1000.0;
    let turn = (omega * dt_s).to_degrees();
    let mid = (theta + 0.5 * turn).to_radians();
    let step = PoseStep {
        theta: wrap_half_turn(((theta + turn) * 1000.0).round() as i64),
        theta_mid2: 0,
        omega: 0,
        v_us: None,
        v_used: 0,
        dt_us: (dt_s * 1e6) as u64,
        trail_due: false,
    };
    let dx = (v * mid.cos() * dt_s * 1e6).round() as i64;
    let dy = (v * mid.sin() * dt_s * 1e6).round() as i64;
    pose.advance(step, dx, dy, MotionTarget::default(), 0);
}

#[test]
fn pure_forward_increments_x() {
    let mut pose = PoseState::default();
    for _ in 0..20 {
        integrate_tick(&mut pose, 0.3, 0.0, 0.05);
    }
    assert!((pose.x as f32 / 1e6 - 0.3).abs() < 1e-4, "x = {}", pose.x);
    assert!((pose.y as f32 / 1e6).abs() < 1e-4, "y = {}", pose.y);
    assert_eq!(pose.theta, 0);
}

#[test]
fn pure_rotation_keeps_position() {
    let mut pose = PoseState::default();
    for _ in 0..40 {
        integrate_tick(&mut pose, 0.0, std::f64::consts::PI / 2.0, 0.05);
    }
    assert_eq!((pose.x, pose.y), (0, 0));
    assert!((pose.theta - 180_000).abs() < 60 || (pose.theta + 180_000).abs() < 60);
}

#[test]
fn square_path_closes() {
    let mut pose = PoseState::default();
    for _side in 0..4 {
        for _ in 0..40 {
            integrate_tick(&mut pose, 0.5, 0.0, 0.05);
        }
        for _ in 0..20 {
            integrate_tick(&mut pose, 0.0, std::f64::consts::PI / 2.0, 0.05);
        }
    }
    assert!(pose.drift < 1_000, "drift = {} um", pose.drift);
    assert!(pose.theta.abs() < 60, "theta = {}", pose.theta);
}

#[test]
fn reset_clears() {
    let mut pose = PoseState::default();
    integrate_tick(&mut pose, 0.3, 0.5, 0.5);
    assert!(pose.drift > 0);
    pose.reset();
    assert_eq!(pose.x, 0);
    assert_eq!(pose.y, 0);
    assert_eq!(pose.theta, 0);
    assert_eq!(pose.drift, 0);
    assert!(pose.trail.is_empty());
    assert_eq!(pose.reset_seq, 1);
}

#[test]
fn theta_stays_in_range() {
    let mut pose = PoseState::default();
    for _ in 0..1000 {
        integrate_tick(&mut pose, 0.0, 3.0, 0.05);
    }
    assert!(pose.theta > -180_000 && pose.theta <= 180_000, "theta = {}", pose.theta);
}

fn v_us(l: i32, r: i32, a: f32, b: f32, pan: i32) -> Option<i64> {
    try_v_us(l, r, Some(cm(a)), Some(cm(b)), 50_000, pan * 1000)
}

#[test]
fn v_us_gate_forward_straight() {
    match v_us(1500, 1500, 30.0, 20.0, 90) {
        Some(x) => assert!((x as f32 / 1e6 - 2.0).abs() < 1e-3, "v = {x}"),
        None => panic!("expected Some, got None"),
    }
}

#[test]
fn v_us_gate_turning_rejects() {
    assert!(v_us(2000, 1000, 30.0, 29.0, 90).is_none());
}

#[test]
fn v_us_gate_range_rejects() {
    assert!(v_us(1500, 1500, 5.0, 4.0, 90).is_none());
    assert!(v_us(1500, 1500, 70.0, 85.0, 90).is_none());
}

#[test]
fn v_us_gate_non_monotonic_rejects() {
    assert!(v_us(1500, 1500, 30.0, 35.0, 90).is_none());
}

#[test]
fn v_us_gate_zero_command_rejects() {
    assert!(v_us(0, 0, 30.0, 30.5, 90).is_none());
    assert!(v_us(0, 0, 30.0, 30.0, 90).is_none());
}

#[test]
fn v_us_gate_rejects_when_pan_off_centre() {
    assert!(v_us(1500, 1500, 30.0, 20.0, 60).is_none());
    assert!(v_us(1500, 1500, 30.0, 20.0, 120).is_none());
    assert!(v_us(1500, 1500, 30.0, 20.0, 87).is_some());
    assert!(v_us(1500, 1500, 30.0, 20.0, 93).is_some());
}

fn tick_input(now_us: u64, reset_seq: u32, yaw: Option<i64>) -> TickInput {
    TickInput {
        now_us,
        reset_seq,
        yaw,
        us: None,
        pwm_l: 0,
        pwm_r: 0,
        pan_mdeg: 90_000,
        v_target: 250_000,
    }
}

#[test]
fn heading_is_relative_to_the_last_reset() {
    let mut w = PoseWorker::new(0, None, 0);
    assert!(w.tick(tick_input(4_999, 0, Some(10_000))).is_none());
    assert_eq!(w.last_tick_us, 0);
    assert!(w.tick(tick_input(50_000, 0, None)).is_none());
    assert_eq!(w.last_tick_us, 50_000);
    let s = w.tick(tick_input(100_000, 0, Some(170_000))).unwrap();
    assert_eq!((s.theta, s.omega, s.v_used), (0, 0, 250_000));
    // Across the half turn: 20 degrees in 50 ms.
    let s = w.tick(tick_input(150_000, 0, Some(-170_000))).unwrap();
    assert_eq!((s.theta, s.omega, s.theta_mid2), (20_000, 400_000, 20_000));
    let s = w.tick(tick_input(200_000, 1, Some(-100_000))).unwrap();
    assert_eq!((s.theta, s.omega), (0, 0));
    // Three steps so far; every fifth leaves a trail point.
    assert!(!w.tick(tick_input(250_000, 1, Some(0))).unwrap().trail_due);
    assert!(w.tick(tick_input(300_000, 1, Some(0))).unwrap().trail_due);
}

#[test]
fn trail_keeps_the_newest_points() {
    let mut pose = PoseState::default();
    let step = PoseStep {
        theta: 0,
        theta_mid2: 0,
        omega: 7,
        v_us: Some(3),
        v_used: 3,
        dt_us: 50_000,
        trail_due: true,
    };
    for k in 0..(TRAIL_CAP as u64 + 3) {
        pose.advance(step, 1, 0, MotionTarget::default(), k);
    }
    assert_eq!(pose.trail.len(), TRAIL_CAP);
    assert_eq!(pose.trail[0].t_ms, 3);
    assert_eq!(pose.trail[TRAIL_CAP - 1].x, TRAIL_CAP as i64 + 3);
    assert_eq!((pose.omega_gyro, pose.v_us), (7, Some(3)));
}

#[test]
fn roots_and_lengths_round_down() {
    assert_eq!(isqrt(0), 0);
    assert_eq!(isqrt(15), 3);
    assert_eq!(isqrt(16), 4);
    assert_eq!(length(-3, 4), 5);
    assert_eq!(length(1_000_000, 1_000_000), 1_414_213);
}

// ── Exploration controller ────────────────────────────────────────────────────

fn ray(pan_deg: i32, distance_cm: f32) -> ScanRay {
    ScanRay { pan_deg, distance_um: Some(cm(distance_cm)) }
}

fn sweep(f: impl Fn(i32) -> f32) -> Vec<ScanRay> {
    (15..=165).step_by(10).map(|p| ray(p, f(p))).collect()
}

#[test]
fn pick_best_heading_prefers_clearest_window() {
    let rays = sweep(|p| {
        if p < 50 {
            50.0
        } else if p > 130 {
            60.0
        } else {
            150.0
        }
    });
    let (idx, clearance) = pick_best_heading(&rays);
    assert!(
        (rays[idx].pan_deg - 90).abs() < 20,
        "expected near-centre, got pan={}",
        rays[idx].pan_deg
    );
    assert!(clearance.unwrap() >= cm(60.0));
}

#[test]
fn pick_best_heading_tiebreaks_toward_centre() {
    let rays = sweep(|_| 150.0);
    let (idx, _) = pick_best_heading(&rays);
    let picked = rays[idx].pan_deg;
    assert!(picked == 85 || picked == 95, "got {picked}");
    assert_eq!(picked, 85);
}

#[test]
fn boxed_in_when_no_window_clears() {
    let rays = sweep(|_| 30.0);
    let (_, clearance) = pick_best_heading(&rays);
    assert!(clearance.unwrap() < BOXED_IN_UM);
    assert!(is_boxed_in(clearance));
}

#[test]
fn wrap_pi_keeps_range() {
    let pi = 180_000i64;
    for a in [0, 57_296, pi - 573, -pi + 573] {
        let w = wrap_half_turn(a);
        assert!(w > -pi && w <= pi, "{a} to {w} out of range");
    }
    assert_eq!(wrap_half_turn(3 * pi), pi);
    assert_eq!(wrap_half_turn(-pi), pi);
    assert_eq!(wrap_half_turn(-3 * pi - 1), pi - 1);
}

#[test]
fn missing_readings_count_as_infinitely_far() {
    let mut rays = sweep(|_| 100.0);
    for r in rays.iter_mut() {
        if r.pan_deg <= 65 {
            r.distance_um = None;
        }
    }
    let (idx, clearance) = pick_best_heading(&rays);
    assert_eq!(rays[idx].pan_deg, 45);
    assert_eq!(clearance, None);
    assert!(!is_boxed_in(clearance));
    // A single bearing without a reading is free.
    let open = vec![ScanRay { pan_deg: 90, distance_um: None }];
    assert_eq!(pick_best_heading(&open), (0, None));
    // Nothing near in the whole sweep: the controller goes on.
    let mut ex = ExploreStatus::new();
    ex.set_on(true);
    assert_eq!(ex.scan_done(open, 0), Some(0));
    assert!(ex.on);
    assert_eq!(ex.last_scan.unwrap().chosen_clearance_um, None);
}

#[test]
fn every_window_without_a_speed_is_counted_once() {
    let mut w = LabelWorker::new(0, None);
    let counts = |w: &LabelWorker| {
        let r = w.stats.rejections;
        (r.v_not_straight, r.v_out_of_range, r.v_non_monotonic)
    };
    let (far, near) = (Some(cm(30.0)), Some(cm(20.0)));
    assert_eq!(w.try_v_label(1500, 1500, far, near, 200_000, 90_000), Some(500_000));
    assert_eq!(counts(&w), (0, 0, 0));
    assert_eq!(w.try_v_label(1500, 1500, None, near, 200_000, 90_000), None);
    assert_eq!(counts(&w), (0, 1, 0));
    assert_eq!(w.try_v_label(1500, 1500, far, near, 49_999, 90_000), None);
    assert_eq!(counts(&w), (0, 2, 0));
    assert_eq!(w.try_v_label(1500, 1500, far, Some(cm(90.0)), 200_000, 90_000), None);
    assert_eq!(counts(&w), (0, 3, 0));
    assert_eq!(w.try_v_label(2000, 1000, far, near, 200_000, 90_000), None);
    assert_eq!(w.try_v_label(1500, 1500, None, None, 200_000, 60_000), None);
    assert_eq!(counts(&w), (2, 3, 0));
    assert_eq!(w.try_v_label(1500, 1500, near, far, 200_000, 90_000), None);
    assert_eq!(counts(&w), (2, 3, 1));
    assert_eq!(w.stats.samples_observed, 0);
}

#[test]
fn pose_and_labels_take_the_same_speed() {
    let (far, near) = (Some(cm(30.0)), Some(cm(20.0)));
    for pwm in [-1500, -201, 201, 1500] {
        let label = match v_label(pwm, pwm, far, near, 200_000, 90_000) {
            VLabel::Speed(v) => Some(v),
            _ => None,
        };
        assert_eq!(try_v_us(pwm, pwm, far, near, 200_000, 90_000), label);
    }
    assert_eq!(try_v_us(200, 200, far, far, 200_000, 90_000), None);
    assert_eq!(v_label(200, 200, far, far, 200_000, 90_000), VLabel::Speed(0));
}

#[test]
fn controller_runs_scan_turn_drive() {
    let mut ex = ExploreStatus::new();
    assert!(!ex.begin());
    assert_eq!(ex.phase, ExplorePhase::Idle);
    ex.set_on(true);
    assert!(ex.begin());
    assert_eq!(ex.phase, ExplorePhase::Scanning);
    let target = ex.scan_done(sweep(|p| if p < 90 { 150.0 } else { 40.0 }), 0).unwrap();
    // Clear to the left: a counter-clockwise turn of 25 to 75 degrees.
    assert!(target > 0);
    assert_eq!(ex.scans_completed, 1);
    assert_eq!(
        ex.turn_step(target, 0, 0),
        TurnAction::Turn { counter_clockwise: true }
    );
    assert_eq!(ex.phase, ExplorePhase::Turning { target_theta_mdeg: target });
    assert_eq!(ex.turn_step(target, target - 2_864, 0), TurnAction::Done);
    assert_eq!(
        ex.turn_step(target, target + 2_865, 0),
        TurnAction::Turn { counter_clockwise: false }
    );
    assert_eq!(ex.turn_step(target, 0, 5_000_001), TurnAction::Done);
    assert_eq!(ex.drive_step(100_000, None, 0), LegAction::Forward);
    assert_eq!(ex.phase, ExplorePhase::Driving { distance_remaining_um: 900_000 });
    assert_eq!(ex.drive_step(950_000, None, 0), LegAction::Done);
    assert_eq!(ex.drive_step(0, Some(399_999), 0), LegAction::Done);
    assert_eq!(ex.drive_step(0, Some(400_000), 0), LegAction::Forward);
    assert_eq!(ex.drive_step(0, None, 8_000_001), LegAction::Done);
    // Hemmed in: off, and the last good scan stays.
    assert!(ex.scan_done(sweep(|_| 30.0), 0).is_none());
    assert!(!ex.on && ex.phase == ExplorePhase::BoxedIn && ex.last_scan.is_some());
    assert_eq!(ex.turn_step(0, 90_000, 0), TurnAction::Done);
    assert_eq!(ex.drive_step(0, None, 0), LegAction::Done);
    assert_eq!(next_pan(155), Some(165));
    assert_eq!(next_pan(165), None);
}

// ── Model ─────────────────────────────────────────────────────────────────────

#[test]
fn prior_has_the_signs_of_the_wiring() {
    let (ds, dtheta) = synthetic_forward(1500, 1500);
    assert_eq!((ds, dtheta), (119_600, 0));
    assert!(synthetic_forward(-1500, -1500).0 < 0);
    assert!(synthetic_forward(1500, -1500).1 > 0);
    assert!(synthetic_forward(-1500, 1500).1 < 0);
    // Inside the dead band nothing moves; 1400 of difference is 0.0529 rad.
    assert_eq!(synthetic_forward(199, 199).0, 0);
    assert_eq!(synthetic_forward(700, -700), (0, 529_200));
}

#[test]
fn saved_models_are_kept_only_if_they_fit() {
    assert_eq!(load_decision(SCHEMA_VERSION, 7_800, 7_800), LoadDecision::Keep);
    assert_eq!(load_decision(1, 7_800, 7_800), LoadDecision::WrongSchema);
    assert_eq!(load_decision(SCHEMA_VERSION, 7_200, 8_400), LoadDecision::Stale);
    assert_eq!(load_decision(SCHEMA_VERSION, 8_100, 7_800), LoadDecision::Keep);
    assert_eq!(load_decision(SCHEMA_VERSION, 8_101, 7_800), LoadDecision::Stale);
    assert_eq!(boot_battery(7_900, 0), Some(7_900));
    assert_eq!(boot_battery(500, 2_999_999), None);
    assert_eq!(boot_battery(500, 3_000_000), Some(7_800));
    let mut meta = Meta::new(7_800, 5);
    meta.observed(7_700);
    assert_eq!((meta.trained_steps, meta.last_battery_mv), (1, 7_700));
}

#[test]
fn mirroring_swaps_sides_and_undoes_itself() {
    let mut w = LabelWorker::new(0, None);
    let clean = vec![inertial(10.0, 0.0, 0.0, G); 5];
    let mut e = window_end(200_000, 50.0);
    e.pwm_l = 900;
    let s = sample_of_window(&w.tick(&clean, e).unwrap());
    let m = mirror_sample(&s);
    assert_eq!((m.input.pwm_l, m.input.pwm_r), (1500, 900));
    assert_eq!(m.dtheta_obs_urad, -s.dtheta_obs_urad);
    assert_eq!(mirror_sample(&m), s);
}

/// The record of the model that is in use after a start with a saved one.
fn after_start(saved: Meta, now_mv: i32) -> Meta {
    match load_decision(saved.schema_version, saved.last_battery_mv, now_mv) {
        LoadDecision::Keep => saved,
        _ => Meta::new(now_mv, 0),
    }
}

#[test]
fn battery_staleness_triggers_rebootstrap() {
    let loaded = after_start(Meta::new(7_200, 0), 8_400);
    assert!((loaded.last_battery_mv as f32 / 1000.0 - 8.4).abs() < 1e-3);
}

#[test]
fn schema_version_mismatch_rebootstraps() {
    let mut saved = Meta::new(7_800, 0);
    saved.schema_version = 1;
    assert_eq!(after_start(saved, 7_800).schema_version, SCHEMA_VERSION);
}
