//! The SLAM pipeline from the first frame to loss and recovery, on features
//! projected from a known scene. The solver of these tests knows the true pose.
use ginger_rs::slam::brief::{Descriptor, DESC_BYTES};
use ginger_rs::slam::frontend::{
    reloc_pairs, track_pairs, BootAction, Features, Frontend, RelocAction, Solve, Stage,
    TrackAction, INIT_MIN_MATCHES, RELOC_MAX_FRAMES, SOFT_LOST_MAX, TRACK_MIN_INLIERS,
};
use ginger_rs::slam::place::{PlaceAction, PlaceDb};
use ginger_rs::slam::status::{FrameStatus, TwoViewModel, WeakReason};
use rand::rngs::SmallRng;
use rand::{Rng, SeedableRng};

const W: usize = 640;
const H: usize = 480;
const FOCAL: f64 = 635.0;

fn descriptor(r: &mut SmallRng) -> Descriptor {
    let mut d = [0u8; DESC_BYTES];
    for b in d.iter_mut() {
        *b = r.random::<u8>();
    }
    d
}

/// Landmarks with a descriptor each, mutually far apart.
fn scene(n: usize) -> Vec<([f64; 3], Descriptor)> {
    let mut r = SmallRng::seed_from_u64(0x00AB_CDEF_1234_5678);
    (0..n)
        .map(|_| {
            let p = [
                (r.random::<f64>() - 0.5) * 6.0,
                (r.random::<f64>() - 0.5) * 4.0,
                3.0 + r.random::<f64>() * 6.0,
            ];
            (p, descriptor(&mut r))
        })
        .collect()
}

/// What a camera sees that has moved by `tx` to the right.
fn frame(scene: &[([f64; 3], Descriptor)], tx: f64) -> Features {
    let mut f = Features { pts: Vec::new(), descs: Vec::new() };
    for (p, d) in scene {
        let x = (p[0] - tx) / p[2] * FOCAL + W as f64 / 2.0;
        let y = p[1] / p[2] * FOCAL + H as f64 / 2.0;
        if x >= 0.0 && y >= 0.0 && x < W as f64 - 1.0 && y < H as f64 - 1.0 {
            f.pts.push((x.round() as u16, y.round() as u16));
            f.descs.push(*d);
        }
    }
    f
}

/// A frame that resembles nothing.
fn garbage(r: &mut SmallRng) -> Features {
    Features {
        pts: (0..200).map(|i| ((i % W) as u16, (i % H) as u16)).collect(),
        descs: (0..200).map(|_| descriptor(r)).collect(),
    }
}

fn copy(f: &Features) -> Features {
    Features { pts: f.pts.clone(), descs: f.descs.clone() }
}

/// What a frame left behind.
struct Out {
    status: String,
    tracking: bool,
    n_points: usize,
    n_tracked: u32,
    cameras: Vec<f64>,
    keyframes: usize,
    lost_frames: u32,
    lost_budget_frames: u32,
}

/// The pipeline with a map of descriptors; a pose is the camera's way to the
/// right.
struct Session {
    fe: Frontend<f64>,
    map: Vec<Descriptor>,
    db: PlaceDb,
    keyframes: u32,
    status: String,
    cameras: Vec<f64>,
}

impl Session {
    fn new() -> Self {
        Session {
            fe: Frontend::new(),
            map: Vec::new(),
            db: PlaceDb::new(0),
            keyframes: 0,
            status: String::new(),
            cameras: Vec::new(),
        }
    }

    fn keyframe(&mut self, f: &Features) -> u32 {
        let kf = self.keyframes;
        self.keyframes += 1;
        for d in &f.descs {
            if !self.map.contains(d) {
                self.map.push(*d);
            }
        }
        if let PlaceAction::Train = self.db.on_keyframe(kf, f.descs.clone()) {
            self.db.trained(512);
        }
        kf
    }

    fn publish(&mut self, status: FrameStatus) {
        self.status = status.text();
        if let Stage::Tracking { track } = &self.fe.stage {
            self.cameras = track.trajectory.clone();
        }
    }

    fn boot(&mut self, cur: &Features, truth: f64) {
        let anchor = match &self.fe.stage {
            Stage::Bootstrapping { anchor } => anchor.as_ref().map(copy),
            _ => None,
        };
        match self.fe.boot_step(copy(cur), W) {
            BootAction::Anchored => self.status = FrameStatus::AnchorSet.text(),
            BootAction::Initialize { pairs } => {
                self.keyframe(&anchor.unwrap());
                let kf = self.keyframe(cur);
                self.fe.initialized(0.0, truth, kf, pairs.len() as u32);
                let model = TwoViewModel::Essential;
                self.publish(FrameStatus::Initialized { points: pairs.len(), model });
            }
            _ => {}
        }
    }

    fn track(&mut self, cur: &Features, truth: f64) {
        let (predicted, since) = match &self.fe.stage {
            Stage::Tracking { track } => {
                let n = track.trajectory.len();
                let (a, b) = (track.trajectory[n - 2], track.trajectory[n - 1]);
                (b + (b - a), track.frames_since_kf + 1)
            }
            _ => panic!("tracking"),
        };
        let (solve, reason, of) = match track_pairs(&self.map, &cur.descs) {
            Err(n) => (Solve::FewMatches, WeakReason::Matches { n }, 0),
            Ok(p) => {
                let n = p.len();
                (Solve::Solved { pose: truth, n_inliers: n }, WeakReason::SolveFailed, n)
            }
        };
        match self.fe.track_step(predicted, solve) {
            TrackAction::Healthy => {
                let mut status = FrameStatus::Tracking { n: of, of };
                if since >= 4 {
                    let kf = self.keyframe(cur);
                    self.fe.promoted(kf);
                    status = FrameStatus::Keyframe { kf, n: of, of };
                }
                self.publish(status);
            }
            TrackAction::Shaky => {
                let skips = self.fe.consecutive_track_fails;
                self.publish(FrameStatus::Shaky { reason, skips });
            }
            TrackAction::Lost => self.status = FrameStatus::Lost { reason }.text(),
        }
    }

    fn relocalize(&mut self, cur: &Features, truth: f64) {
        let lost = match &self.fe.stage {
            Stage::Lost { since, .. } => since + 1,
            _ => panic!("lost"),
        };
        let found = reloc_pairs(&self.map, &cur.descs).map(|p| (truth, p.len()));
        match self.fe.reloc_step(found, self.db.is_ready()) {
            RelocAction::Recovered => {
                let n = found.unwrap().1;
                self.publish(FrameStatus::Relocalized { n, kf: 0, lost });
            }
            RelocAction::GaveUp => {
                self.map.clear();
                self.db.reset();
                self.keyframes = 0;
                self.cameras.clear();
                self.status = FrameStatus::GaveUp { lost }.text();
            }
            RelocAction::Searching => self.status = FrameStatus::Searching { lost }.text(),
            RelocAction::Preserved => {
                let (keyframes, points) = (self.keyframes as usize, self.map.len());
                self.status = FrameStatus::Preserved { lost, keyframes, points }.text();
            }
        }
    }

    fn step(&mut self, cur: Features, truth: f64) -> Out {
        match &self.fe.stage {
            Stage::Bootstrapping { .. } => self.boot(&cur, truth),
            Stage::Tracking { .. } => self.track(&cur, truth),
            Stage::Lost { .. } => self.relocalize(&cur, truth),
        }
        self.fe.end_frame(cur, 0, self.db.is_ready());
        Out {
            status: self.status.clone(),
            tracking: self.fe.hud.tracking,
            n_points: self.map.len(),
            n_tracked: self.fe.hud.n_tracked,
            cameras: self.cameras.clone(),
            keyframes: self.keyframes as usize,
            lost_frames: self.fe.hud.lost_frames,
            lost_budget_frames: self.fe.hud.lost_budget_frames,
        }
    }
}

#[test]
fn full_lifecycle_anchor_init_tracking() {
    let world = scene(240);
    let mut s = Session::new();
    let mut last = None;
    let mut init_frame = None;
    for i in 0..24 {
        let tx = i as f64 * 0.08;
        let f = frame(&world, tx);
        assert!(f.pts.len() >= INIT_MIN_MATCHES, "frame {i}: only {} feats", f.pts.len());
        let out = s.step(f, tx);
        if out.tracking && init_frame.is_none() {
            init_frame = Some(i);
            assert!(out.n_points > 20, "thin map: {}", out.n_points);
            assert!(out.keyframes >= 2, "no bootstrap keyframes: {}", out.keyframes);
            assert!(out.status.contains("essential"));
        }
        last = Some(out);
    }
    let init_at = init_frame.expect("never initialized");
    assert!(init_at < 12, "init took too long: frame {init_at}");
    let out = last.unwrap();
    assert!(out.tracking);
    assert!(out.status.contains("tracking:"), "final status: {}", out.status);
    assert!(out.cameras.len() > 5, "short trajectory");
    let moved = (out.cameras[0] - out.cameras.last().unwrap()).abs();
    assert!(moved > 1e-3, "camera did not move: {moved}");
}

#[test]
fn trajectory_grows_each_tracked_frame() {
    let world = scene(240);
    let mut s = Session::new();
    for i in 0..8 {
        let tx = i as f64 * 0.1;
        s.step(frame(&world, tx), tx);
    }
    let a = s.step(frame(&world, 0.8), 0.8);
    assert!(a.tracking, "not tracking after warm-up: {}", a.status);
    let b = s.step(frame(&world, 0.9), 0.9);
    assert_eq!(b.cameras.len(), a.cameras.len() + 1, "trajectory did not extend");
    assert!(b.n_tracked >= TRACK_MIN_INLIERS as u32);
}

#[test]
fn pipeline_is_deterministic() {
    let run = || {
        let world = scene(200);
        let mut s = Session::new();
        let mut out = None;
        for i in 0..24 {
            let tx = i as f64 * 0.08;
            out = Some(s.step(frame(&world, tx), tx));
        }
        let out = out.unwrap();
        (out.keyframes, out.n_points, out.cameras.last().copied())
    };
    let (a, b) = (run(), run());
    assert!(a.0 >= 3 && a.1 > 20, "determinism check too shallow: {a:?}");
    assert_eq!(a.0, b.0, "keyframe count not deterministic");
    assert_eq!(a.1, b.1, "map point count not deterministic");
    assert_eq!(a.2, b.2, "final camera centre not deterministic");
}

#[test]
fn tracking_lost_on_unmatchable_frame_without_corruption() {
    let world = scene(240);
    let mut s = Session::new();
    for i in 0..10 {
        let tx = i as f64 * 0.1;
        s.step(frame(&world, tx), tx);
    }
    let good = s.step(frame(&world, 1.0), 1.0);
    assert!(good.tracking, "precondition: tracking");
    let n_pts = good.n_points;
    let bad = garbage(&mut SmallRng::seed_from_u64(0x99));
    for i in 0..SOFT_LOST_MAX {
        let shaky = s.step(copy(&bad), 0.0);
        assert!(
            shaky.status.contains("shaky") || shaky.status.contains("predicting"),
            "frame {i}: expected shaky status, got: {}",
            shaky.status
        );
        assert_eq!(shaky.n_points, n_pts, "map points corrupted at frame {i}");
    }
    let lost = s.step(copy(&bad), 0.0);
    assert!(
        lost.status.contains("lost"),
        "expected lost after grace period, got: {}",
        lost.status
    );
    assert_eq!(lost.n_points, n_pts);
}

#[test]
fn relocalizes_after_track_loss() {
    let world = scene(220);
    let mut s = Session::new();
    let mut good = None;
    for i in 0..64 {
        let tx = i as f64 * 0.07;
        good = Some(s.step(frame(&world, tx), tx));
    }
    let good = good.unwrap();
    assert!(good.tracking, "precondition: tracking ({})", good.status);
    assert!(s.db.is_ready(), "vocab must be trained for relocalization");
    let n_pts = good.n_points;
    let traj = good.cameras.len();

    let mut r = SmallRng::seed_from_u64(0x6105);
    for _ in 0..SOFT_LOST_MAX {
        let shaky = s.step(garbage(&mut r), 0.0);
        assert!(
            shaky.status.contains("shaky"),
            "expected shaky during grace period, got: {}",
            shaky.status
        );
        assert_eq!(shaky.n_points, n_pts, "map corrupted while shaky");
    }
    let traj_lost = traj + SOFT_LOST_MAX;
    for _ in 0..4 {
        let lost = s.step(garbage(&mut r), 0.0);
        assert!(
            lost.status.contains("lost") || lost.status.contains("relocaliz"),
            "expected lost/relocalizing, got: {}",
            lost.status
        );
        assert_eq!(lost.n_points, n_pts, "map corrupted while lost");
        assert_eq!(lost.cameras.len(), traj_lost, "trajectory grew while lost");
    }

    let reloc = s.step(frame(&world, 0.05), 0.05);
    assert!(reloc.status.contains("relocalized"), "did not relocalize: {}", reloc.status);
    assert!(reloc.tracking);
    assert_eq!(reloc.n_points, n_pts, "relocalization corrupted the map");
    assert_eq!(reloc.cameras.len(), traj_lost + 1, "recovered pose not appended");

    let cont = s.step(frame(&world, 0.12), 0.12);
    assert!(cont.tracking, "tracking did not resume: {}", cont.status);
    assert!(cont.cameras.len() > traj);
}

/// Runs until tracking is live.
fn bring_up(s: &mut Session, world: &[([f64; 3], Descriptor)]) -> Option<Out> {
    for i in 0..16 {
        let tx = i as f64 * 0.08;
        let out = s.step(frame(world, tx), tx);
        if out.tracking {
            return Some(out);
        }
    }
    None
}

#[test]
fn unrecoverable_loss_rebootstraps_fresh_session() {
    let world = scene(240);
    let mut s = Session::new();
    assert!(bring_up(&mut s, &world).is_some(), "never initialized");
    assert!(!s.db.is_ready(), "precondition: vocabulary not yet self-trained");

    let mut r = SmallRng::seed_from_u64(0x0BAD_F00D);
    let mut gave_up = false;
    for _ in 0..(RELOC_MAX_FRAMES + 8) {
        let out = s.step(garbage(&mut r), 0.0);
        if out.status.contains("re-initializing") {
            assert!(!out.tracking, "still 'tracking' after give-up");
            assert!(out.cameras.is_empty() && out.n_points == 0);
            gave_up = true;
            break;
        }
    }
    assert!(gave_up, "never re-bootstrapped after an unrecoverable loss");

    let again = bring_up(&mut s, &world).expect("did not re-initialize after re-bootstrap");
    assert!(again.n_points > 20, "thin re-init: {}", again.n_points);
}

#[test]
fn reboot_timer_surfaces_while_lost_and_clears_after_giveup() {
    let world = scene(240);
    let mut s = Session::new();
    let m = bring_up(&mut s, &world).expect("never initialized");
    assert_eq!(m.lost_frames, 0, "timer should be zero while tracking");
    assert_eq!(m.lost_budget_frames, 0);

    let mut r = SmallRng::seed_from_u64(0xCAFEBABE);
    let mut saw_live_timer = false;
    let mut saw_giveup = false;
    for _ in 0..(RELOC_MAX_FRAMES + 8) {
        let out = s.step(garbage(&mut r), 0.0);
        if out.lost_frames > 0 {
            assert!(
                out.lost_budget_frames >= out.lost_frames,
                "budget {} should not be below elapsed {}",
                out.lost_budget_frames,
                out.lost_frames,
            );
            assert_eq!(
                out.lost_budget_frames, RELOC_MAX_FRAMES as u32,
                "no-BoW lost should race the short budget",
            );
            saw_live_timer = true;
        }
        if out.status.contains("re-initializing") {
            assert_eq!(out.lost_frames, 0, "timer should clear after re-bootstrap");
            assert_eq!(out.lost_budget_frames, 0);
            saw_giveup = true;
            break;
        }
    }
    assert!(saw_live_timer, "lost timer never surfaced while lost");
    assert!(saw_giveup, "never re-bootstrapped");
}
