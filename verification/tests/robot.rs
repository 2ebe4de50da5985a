//! Supervisor, timed driving, map and frontier exploration.
use ginger_rs::api::{battery_pct, Command, DriveBody, SensorConfig, SensorSnapshot};
use ginger_rs::robot::car::{clear_ahead, duties, Drive, DriveAction, Manoeuvre};
use ginger_rs::robot::explore::{
    angle_diff, battery_low, decide, find_nearest_frontier, is_forward_safe, obstacle_is_left, turn,
    Decision, Status,
};
use ginger_rs::robot::map::grid::{scan_ray, CastRay, OccupancyMap, ScanRay, H, W};
use ginger_rs::robot::supervisor::{
    collision_step, time_to_collision, CommandAction, Supervisor,
};

/// Micrometres of centimetres.
fn cm(x: f32) -> u64 {
    (x * 10_000.0).round() as u64
}

#[test]
fn ttc_reports_when_closing() {
    let ttc = time_to_collision(cm(100.0), cm(90.0), 100_000).unwrap() as f32 / 1e6;
    assert!((ttc - 0.9).abs() < 1e-4);
}

#[test]
fn ttc_takes_any_distance() {
    assert_eq!(time_to_collision(u64::MAX, u64::MAX - 1, 1), Some(u64::MAX as u128 - 1));
    assert_eq!(time_to_collision(u64::MAX, 0, u64::MAX), Some(0));
}

#[test]
fn ttc_none_when_not_closing() {
    assert!(time_to_collision(cm(90.0), cm(90.5), 100_000).is_none());
    assert!(time_to_collision(cm(90.0), cm(89.99), 100_000).is_none());
    assert!(time_to_collision(cm(100.0), cm(50.0), 0).is_none());
}

#[test]
fn collision_locks_on_close_obstacle_while_forward() {
    let d = collision_step(true, Some(cm(20.0)), false);
    assert!(d.stop);
    assert!(d.lock);
}

#[test]
fn collision_does_not_trigger_when_not_forward() {
    let d = collision_step(false, Some(cm(10.0)), false);
    assert!(!d.stop);
    assert!(!d.lock);
}

#[test]
fn collision_lock_holds_through_hysteresis_band() {
    let d = collision_step(false, Some(cm(35.0)), true);
    assert!(!d.stop);
    assert!(d.lock);
    let d = collision_step(false, Some(cm(40.0)), true);
    assert!(!d.lock);
}

#[test]
fn collision_lock_persists_when_distance_unknown() {
    let d = collision_step(false, None, true);
    assert!(d.lock);
}

#[test]
fn supervisor_blocks_forward_until_clear() {
    let mut s = Supervisor::new(0);
    let go = DriveBody { left: 1500, right: 1500 }.command();
    assert_eq!(s.on_command(go, 10), CommandAction::Drive { left: 1500, right: 1500 });
    assert_eq!(s.on_distance(Some(cm(100.0)), 20), (None, false));
    // 75 cm in 0.1 s: 750 cm/s, 25 cm left.
    let (ttc, stop) = s.on_distance(Some(cm(25.0)), 100_020);
    assert!(stop && s.obstacle_lock && !s.is_driving);
    assert_eq!(ttc, Some(33_333));
    assert_eq!(s.on_command(go, 200_000), CommandAction::Blocked);
    // Turning is allowed and keeps the lock; backing up releases it.
    assert_eq!(
        s.on_command(Command::SetMotors { left: 0, right: 900 }, 300_000),
        CommandAction::Drive { left: 0, right: 900 }
    );
    assert!(s.obstacle_lock);
    s.on_distance(None, 310_000);
    assert!(s.obstacle_lock);
    assert_eq!(
        s.on_command(Command::SetMotors { left: -900, right: 900 }, 320_000),
        CommandAction::Drive { left: -900, right: 900 }
    );
    assert!(!s.obstacle_lock);
    assert_eq!(s.on_command(go, 330_000), CommandAction::Drive { left: 1500, right: 1500 });
}

#[test]
fn supervisor_stops_a_silent_robot_once() {
    let mut s = Supervisor::new(0);
    s.on_command(Command::SetMotors { left: 100, right: 0 }, 1_000);
    assert!(!s.dead_man(501_000));
    assert!(s.dead_man(501_001));
    assert!(!s.dead_man(900_000));
    assert_eq!(s.on_command(Command::Stop, 0), CommandAction::Stop);
    assert_eq!(s.on_command(Command::SetPan(45_000), 0), CommandAction::Pan(45_000));
    assert_eq!(s.on_command(Command::SetTilt(80_000), 0), CommandAction::Tilt(80_000));
    assert_eq!((s.pan_mdeg, s.tilt_mdeg), (45_000, 80_000));
    assert_eq!(s.on_command(Command::Emote, 0), CommandAction::Emote);
    let cfg = SensorConfig { light: false, ir: true, us: false };
    assert_eq!(s.on_command(Command::SetSensors(cfg), 0), CommandAction::Settle);
    assert_eq!(s.config, cfg);
    assert_eq!(SensorConfig::default(), SensorConfig { light: true, ir: true, us: true });
}

#[test]
fn battery_charge_is_single_precision() {
    // In single precision 6.72 V is a little less than 30 %.
    assert_eq!(battery_pct(6_720), 29);
    for mv in -100..12_000i32 {
        let v = mv as f32 / 1000.0;
        let p = ((v - 6.0f32) / (8.4f32 - 6.0) * 100.0).clamp(0.0, 100.0) as u8;
        assert_eq!(battery_pct(mv), p, "{mv} mV");
    }
    assert_eq!(battery_pct(i32::MAX), 100);
    assert_eq!(battery_pct(i32::MIN), 0);
}

#[test]
fn battery_voltage_is_filtered_and_mapped() {
    let mut s = Supervisor::new(0);
    s.on_battery(Some(8_000_000));
    s.on_battery(None);
    assert_eq!(s.battery_uv, Some(8_000_000));
    s.on_battery(Some(7_000_000));
    assert_eq!(s.battery_uv, Some(7_950_000));
    assert_eq!(battery_pct(8_400), 100);
    assert_eq!(battery_pct(6_000), 0);
    assert_eq!(battery_pct(7_200), 50);
    assert_eq!(battery_pct(5_000), 0);
    assert_eq!(battery_pct(9_000), 100);
    let snap = SensorSnapshot::initial();
    assert_eq!((snap.exposure_us, snap.gain_q, snap.pan_mdeg), (8_000, 32, 90_000));
}

#[test]
fn driving_forward_needs_clearance() {
    assert!(clear_ahead(None) && clear_ahead(Some(300_001)) && !clear_ahead(Some(300_000)));
    assert!(Drive::start(500, 500, 1_000, 0, Some(100_000)).is_none());
    assert!(Drive::start(-500, 500, 1_000, 0, Some(100_000)).is_some());
    let d = Drive::start(500, 500, 1_000, 0, None).unwrap();
    assert_eq!(d.poll(500, Some(299_999)), DriveAction::Obstacle);
    assert_eq!(d.poll(500, Some(300_000)), DriveAction::Continue);
    assert_eq!(d.poll(1_000, Some(1)), DriveAction::Complete);
    assert_eq!(duties(Manoeuvre::Forward, 5), (5, 5));
    assert_eq!(duties(Manoeuvre::Backward, 5), (-5, -5));
    assert_eq!(duties(Manoeuvre::TurnLeft, 5), (-5, 5));
    assert_eq!(duties(Manoeuvre::TurnRight, 5), (5, -5));
}

fn ray(pan_deg: i32, dist_um: u64) -> ScanRay {
    ScanRay { pan_deg, dist_um, capped: false }
}

#[test]
fn exploration_aligns_steps_or_escapes() {
    let open = vec![ray(30, 100_000), ray(90, 400_000), ray(150, 1_500_000)];
    assert!(is_forward_safe(&open));
    assert!(obstacle_is_left(&open));
    assert_eq!(decide(25_001, &open), Decision::Align { clockwise: true });
    assert_eq!(decide(-30_000, &open), Decision::Align { clockwise: false });
    assert_eq!(decide(25_000, &open), Decision::Step);
    let blocked = vec![ray(70, 900_000), ray(90, 399_999), ray(110, 500_000)];
    assert!(!is_forward_safe(&blocked));
    assert!(!obstacle_is_left(&blocked));
    // The nearest obstacle is on the right, so the turn goes to the left.
    assert_eq!(decide(0, &blocked), Decision::Escape { clockwise: false });
    let left = vec![ray(70, 300_000), ray(90, 399_999), ray(110, 500_000)];
    assert!(obstacle_is_left(&left));
    assert_eq!(decide(0, &left), Decision::Escape { clockwise: true });
    assert_eq!(turn(turn(340_000, true), true), 16_000);
    assert_eq!(Decision::Step.status(), Status::Moving);
    assert_eq!(Decision::Escape { clockwise: true }.pulses(), 2);
    assert_eq!(Decision::Align { clockwise: true }.status().name(), "turning");
    assert_eq!(Status::Idle.name(), "idle");
    assert_eq!(Status::Scanning.name(), "scanning");
    assert_eq!(Status::Moving.name(), "moving");
    assert_eq!(Status::Stuck.name(), "stuck");
    assert_eq!(Status::Complete.name(), "complete");
    assert!(battery_low(Some(5_999_999)) && !battery_low(Some(6_000_000)) && !battery_low(None));
}

#[test]
fn headings_turn_the_short_way() {
    assert_eq!(angle_diff(350_000, 10_000), 20_000);
    assert_eq!(angle_diff(10_000, 350_000), -20_000);
    assert_eq!(angle_diff(0, 180_000), 180_000);
    assert_eq!(angle_diff(0, -180_000), 180_000);
    assert_eq!(turn(350_000, true), 8_000);
    assert_eq!(turn(turn(350_000, true), false), 350_000);
}

#[test]
fn nearest_frontier_is_first_of_the_nearest() {
    let mut map = OccupancyMap::new();
    assert_eq!(find_nearest_frontier(&map, 160, 160), None);
    for (x, y) in [(160, 160), (165, 160), (155, 160), (160, 170), (161, 161)] {
        map.cells[y * W + x] = 40;
    }
    map.cells[155 * W + 160] = 200;
    // The robot's own neighbourhood does not count, nor does an occupied cell;
    // of the two at distance five the earlier in reading order wins.
    assert_eq!(find_nearest_frontier(&map, 160, 160), Some((155, 160)));
    // Surrounded by known cells it is no frontier.
    for (x, y) in [(154, 160), (156, 160), (155, 159), (155, 161)] {
        map.cells[y * W + x] = 200;
    }
    assert_eq!(find_nearest_frontier(&map, 160, 160), Some((165, 160)));
    // A robot off the grid still has a nearest frontier.
    assert_eq!(find_nearest_frontier(&map, 160, i64::MAX), Some((160, 170)));
}

#[test]
fn rays_mark_free_cells_and_one_obstacle() {
    let mut map = OccupancyMap::new();
    let path = vec![(10, 10), (11, 10), (-1, 5), (11, 10)];
    map.integrate_ray(&path, Some((12, 10)));
    assert_eq!(map.cells[10 * W + 10], 8);
    assert_eq!(map.cells[10 * W + 11], 16);
    assert_eq!(map.cells[10 * W + 12], 144);
    map.integrate_ray(&[(12, 10)], None);
    assert_eq!(map.cells[10 * W + 12], 144);
    let r = scan_ray(70, Some(2_000_000));
    assert!(r.capped && r.dist_um == 1_500_000);
    let r = scan_ray(70, None);
    assert!(r.capped);
    let r = scan_ray(70, Some(500_000));
    assert!(!r.capped && r.dist_um == 500_000);
}

#[test]
fn map_is_drawn_as_png_and_text() {
    let mut map = OccupancyMap::new();
    map.integrate_ray(&[(160, 159), (160, 158)], Some((160, 157)));
    let rgb = map.render_rgb(160, 160, 160, 150);
    assert_eq!(rgb.len(), W * H * 3);
    // The heading dot is white, the corner very dark.
    assert_eq!(&rgb[(150 * W + 160) * 3..][..3], &[255, 255, 255]);
    assert_eq!(&rgb[..3], &[14, 14, 28]);
    let png = map.render_png(160, 160, 160, 150);
    assert_eq!(&png[..8], &[0x89, 0x50, 0x4e, 0x47, 0x0d, 0x0a, 0x1a, 0x0a]);
    // Width and height in the header chunk.
    assert_eq!(&png[16..24], &[0, 0, 1, 64, 0, 0, 1, 64]);
    let text = map.to_ascii(160, 160);
    assert_eq!(text, "?????\n?????\n??#??\n??.??\n??.??\n??@??\n?????\n");
    assert_eq!(OccupancyMap::new().to_ascii(160, 160), "(empty map)");
}

#[test]
fn sweep_integrates_ray_after_ray() {
    let mut map = OccupancyMap::new();
    map.integrate_scan(&[
        CastRay { path: vec![(5, 5), (5, 4)], end: Some((5, 3)) },
        CastRay { path: vec![(5, 5), (6, 4), (-1, 0)], end: None },
        CastRay { path: vec![(5, 3)], end: Some((400, 0)) },
    ]);
    let cell = |x: usize, y: usize| map.cells[y * W + x];
    assert_eq!((cell(5, 5), cell(5, 4), cell(6, 4)), (16, 8, 8));
    // An obstacle is not freed by a ray that runs through it.
    assert_eq!(cell(5, 3), 144);
    assert_eq!(map.cells.iter().filter(|&&c| c != 0).count(), 4);
}
