//! Image processing, features and the frontend state machine.
use ginger_rs::camera::mock::gray_to_yuyv;
use ginger_rs::camera::Frame;
use ginger_rs::slam::bind::{bind_features, inlier_points, inlier_ranks};
use ginger_rs::slam::brief::{
    describe, hamming, in_bounds, match_descriptors, moments, Descriptor, BORDER, DESC_BYTES,
};
use ginger_rs::slam::detect::{detect_features, Match, MAX_FEATURES};
use ginger_rs::slam::fast::{detect, non_max_suppress};
use ginger_rs::slam::frontend::{
    overlay_matches, reloc_pairs, track_pairs, BootAction, Features, Frontend, RelocAction, Solve,
    Stage, TrackAction,
};
use ginger_rs::slam::gather::{expand_candidates, gather_points, reloc_points};
use ginger_rs::slam::image::{build_pyramid, GrayImage};
use ginger_rs::slam::mapper::{
    essential_edges, gauge_keyframe, graph_size, loop_candidate, loop_pairs, reference_keyframe,
    skip_loop_candidate, triangulation_neighbours, GraphEdge, KfNode, RawKf, RawStore,
};
use ginger_rs::slam::place::{PlaceAction, PlaceDb};
use ginger_rs::slam::snapshot::{published_from, StreamGate};
use ginger_rs::slam::status::{with_loop_closure, FrameStatus, TwoViewModel, WeakReason};

// ── Images ────────────────────────────────────────────────────────────────────

fn yuyv_frame(w: u32, h: u32, y_fill: u8) -> Frame {
    let mut data = vec![128u8; (w * h * 2) as usize];
    for i in 0..(w * h) as usize {
        data[i * 2] = y_fill;
    }
    Frame { width: w, height: h, id: 0, data }
}

#[test]
fn yuyv_luma_extraction() {
    let f = yuyv_frame(4, 2, 200);
    let g = GrayImage::from_yuyv(&f);
    assert_eq!((g.width, g.height), (4, 2));
    assert!(g.data.iter().all(|&p| p == 200));
}

#[test]
fn box_blur_takes_the_mean_of_what_is_inside() {
    let img = GrayImage { width: 3, height: 2, data: vec![10, 20, 30, 40, 50, 61] };
    let b = img.box_blur(1);
    assert_eq!((b.width, b.height), (3, 2));
    assert_eq!(b.data, vec![30, 35, 40, 30, 35, 40]);
    assert_eq!(img.box_blur(0).data, img.data);
    assert_eq!(img.box_blur(9).data, vec![35; 6]);
}

#[test]
fn pyramid_shrinks_and_stops() {
    let base = GrayImage::new(640, 480);
    let levels = build_pyramid(base, 8, 6, 5);
    assert_eq!(levels.len(), 8);
    assert_eq!((levels[0].image.width, levels[0].image.height), (640, 480));
    let scale: Vec<f32> = levels
        .iter()
        .map(|l| l.scale as f32 / (1u32 << 23) as f32)
        .collect();
    assert!((scale[0] - 1.0).abs() < 1e-6);
    for k in 1..8 {
        assert!(levels[k].image.width < levels[k - 1].image.width);
        assert!((scale[k] / scale[k - 1] - 1.2).abs() < 1e-3);
    }
    assert_eq!(build_pyramid(GrayImage::new(10, 10), 8, 6, 5).len(), 2);
}

#[test]
fn resize_preserves_constant_image() {
    let mut g = GrayImage::new(20, 20);
    g.data.iter_mut().for_each(|p| *p = 123);
    let r = g.resized(7, 9);
    assert_eq!((r.width, r.height), (7, 9));
    assert!(r.data.iter().all(|&p| p == 123));
}

#[test]
fn resize_interpolates_between_pixels() {
    let mut g = GrayImage::new(2, 1);
    g.data[0] = 0;
    g.data[1] = 100;
    assert_eq!(g.resized(1, 1).data, vec![50]);
    assert_eq!(g.at(1, 0), 100);
}

/// Bilinear reduction in the machine's single precision.
fn resized_f32(img: &GrayImage, w: usize, h: usize) -> Vec<u8> {
    let sx = img.width as f32 / w as f32;
    let sy = img.height as f32 / h as f32;
    let mut out = Vec::new();
    for oy in 0..h {
        let fy = ((oy as f32 + 0.5) * sy - 0.5).max(0.0);
        let y0 = fy.floor() as usize;
        let y1 = (y0 + 1).min(img.height - 1);
        let wy = fy - y0 as f32;
        for ox in 0..w {
            let fx = ((ox as f32 + 0.5) * sx - 0.5).max(0.0);
            let x0 = fx.floor() as usize;
            let x1 = (x0 + 1).min(img.width - 1);
            let wx = fx - x0 as f32;
            let (p00, p10) = (img.at(x0, y0) as f32, img.at(x1, y0) as f32);
            let (p01, p11) = (img.at(x0, y1) as f32, img.at(x1, y1) as f32);
            let top = p00 + (p10 - p00) * wx;
            let bot = p01 + (p11 - p01) * wx;
            out.push((top + (bot - top) * wy).round() as u8);
        }
    }
    out
}

#[test]
fn resize_is_single_precision() {
    for (w, h) in [(64, 48), (37, 29), (160, 11), (3, 90)] {
        let img = noise_image(w, h, 11);
        for (ow, oh) in [(53, 40), (44, 33), (7, 9), (1, 1), (100, 61)] {
            assert_eq!(img.resized(ow, oh).data, resized_f32(&img, ow, oh), "{w}x{h} to {ow}x{oh}");
        }
    }
}

#[test]
fn pyramid_sides_are_single_precision() {
    // Half a pixel over, but the factor is a little more than six fifths.
    let levels = build_pyramid(GrayImage::new(15, 15), 2, 6, 5);
    assert_eq!(levels[1].image.width, 12);
    for n in 8..700usize {
        let levels = build_pyramid(GrayImage::new(n, 8 + n % 97), 8, 6, 5);
        let mut scale = 1.0f32;
        let mut lvl = 0;
        while lvl < 8 {
            let w = (n as f32 / scale).round() as usize;
            let h = ((8 + n % 97) as f32 / scale).round() as usize;
            if lvl > 0 && (w < 8 || h < 8) {
                break;
            }
            assert_eq!((levels[lvl].image.width, levels[lvl].image.height), (w, h), "side {n}");
            assert_eq!(levels[lvl].scale as f32 / (1u32 << 23) as f32, scale);
            scale *= 1.2;
            lvl += 1;
        }
        assert_eq!(levels.len(), lvl);
    }
}

#[test]
fn features_map_back_in_single_precision() {
    // Coarse blocks with soft edges, so that the smaller levels show corners too.
    let coarse = noise_image(10, 8, 3);
    let img = coarse.resized(200, 150);
    let (found, _) = detect_features(&img);
    assert!(found.iter().any(|c| c.level > 2));
    for c in &found {
        let mut scale = 1.0f32;
        for _ in 0..c.level {
            scale *= 1.2;
        }
        let back = |v: i32, side: usize| ((v as f32 * scale).round() as usize).min(side - 1);
        assert_eq!(c.x as usize, back(c.lx, 200));
        assert_eq!(c.y as usize, back(c.ly, 150));
    }
}

#[test]
fn grey_frames_keep_their_luma() {
    let luma: Vec<u8> = (0..35u8).map(|i| i * 7).collect();
    let f = gray_to_yuyv(7, 5, &luma);
    let g = GrayImage::from_yuyv(&f);
    assert_eq!((g.width, g.height), (7, 5));
    assert_eq!(g.data, luma);
    assert!(f.data.iter().skip(1).step_by(2).all(|&c| c == 128));
}

// ── Corners ───────────────────────────────────────────────────────────────────

/// A bright filled disc on a dark field.
fn disc(w: usize, h: usize) -> GrayImage {
    let mut img = GrayImage::new(w, h);
    let (cx, cy, r2) = (
        w as f32 / 2.0,
        h as f32 / 2.0,
        (w.min(h) as f32 / 4.0).powi(2),
    );
    for y in 0..h {
        for x in 0..w {
            let d = (x as f32 - cx).powi(2) + (y as f32 - cy).powi(2);
            img.data[y * w + x] = if d < r2 { 240 } else { 15 };
        }
    }
    img
}

#[test]
fn flat_image_has_no_corners() {
    let mut img = GrayImage::new(40, 40);
    img.data.iter_mut().for_each(|p| *p = 100);
    assert!(detect(&img, 20).is_empty());
}

#[test]
fn detects_corners_on_a_disc_rim() {
    let img = disc(60, 60);
    let corners = detect(&img, 30);
    assert!(corners.len() > 8, "expected many rim corners, got {}", corners.len());
    let (cx, cy) = (30.0f32, 30.0f32);
    for c in &corners {
        let d = ((c.x as f32 - cx).powi(2) + (c.y as f32 - cy).powi(2)).sqrt();
        assert!(d > 6.0, "corner too close to flat centre: {c:?}");
    }
}

#[test]
fn nms_thins_clusters() {
    let img = disc(60, 60);
    let raw = detect(&img, 30);
    let kept = non_max_suppress(&raw, img.width, img.height);
    assert!(!kept.is_empty());
    assert!(kept.len() <= raw.len());
    for (i, a) in kept.iter().enumerate() {
        for b in &kept[i + 1..] {
            let near = a.x.abs_diff(b.x) <= 1 && a.y.abs_diff(b.y) <= 1;
            assert!(!near, "{a:?} and {b:?} are neighbours");
        }
    }
}

#[test]
fn higher_threshold_detects_fewer() {
    let img = disc(80, 80);
    let lo = detect(&img, 20).len();
    let hi = detect(&img, 80).len();
    assert!(hi <= lo, "stricter threshold should not add corners");
}

#[test]
fn detects_and_caps_on_a_textured_image() {
    let (w, h) = (160, 120);
    let mut g = GrayImage::new(w, h);
    for y in 0..h {
        for x in 0..w {
            g.data[y * w + x] = if (x / 8 + y / 8) % 2 == 0 { 230 } else { 20 };
        }
    }
    let (pts, n_total) = detect_features(&g);
    assert!(n_total > 0);
    assert!(!pts.is_empty());
    assert!(pts.len() <= MAX_FEATURES);
    for pair in pts.windows(2) {
        assert!(pair[0].score >= pair[1].score);
    }
    assert!(pts.iter().all(|p| (p.x as usize) < w && (p.y as usize) < h));
    // Every kept point can be oriented on its level.
    let levels = build_pyramid(g, 8, 6, 5);
    for p in &pts {
        let img = &levels[p.level as usize].image;
        assert!(in_bounds(img.width, img.height, p.lx, p.ly));
        let (m10, m01) = moments(img, p.lx, p.ly);
        assert!((m01 as f32).atan2(m10 as f32).is_finite());
    }
}

#[test]
fn blank_image_yields_nothing() {
    let g = GrayImage::new(120, 90);
    let (pts, n_total) = detect_features(&g);
    assert_eq!(n_total, 0);
    assert!(pts.is_empty());
}

// ── Descriptors ───────────────────────────────────────────────────────────────

/// Small generator of test bytes.
struct Lcg(u64);

impl Lcg {
    fn next_u8(&mut self) -> u8 {
        self.0 = self.0.wrapping_mul(6364136223846793005).wrapping_add(1442695040888963407);
        (self.0 >> 40) as u8
    }
}

fn noise_image(w: usize, h: usize, seed: u64) -> GrayImage {
    let mut g = GrayImage::new(w, h);
    let mut r = Lcg(seed);
    for p in g.data.iter_mut() {
        *p = r.next_u8();
    }
    g
}

/// Point pairs inside the patch, rotated by an angle.
fn steered(seed: u64, angle: f32) -> [[i32; 4]; 256] {
    let mut r = Lcg(seed);
    let mut pat = [[0i32; 4]; 256];
    let (s, c) = angle.sin_cos();
    for pair in pat.iter_mut() {
        for k in 0..2 {
            let x = (r.next_u8() % 19) as f32 - 9.0;
            let y = (r.next_u8() % 19) as f32 - 9.0;
            pair[2 * k] = (c * x - s * y).round() as i32;
            pair[2 * k + 1] = (s * x + c * y).round() as i32;
        }
    }
    pat
}

#[test]
fn descriptor_is_deterministic_and_hamming_extremes() {
    let g = noise_image(64, 64, 7);
    let pat = steered(1, 0.3);
    let d1 = describe(&g, 32, 32, &pat);
    let d2 = describe(&g, 32, 32, &pat);
    assert_eq!(d1, d2);
    assert_eq!(hamming(&d1, &d2), 0);
    let mut inv = d1;
    for b in inv.iter_mut() {
        *b = !*b;
    }
    assert_eq!(hamming(&d1, &inv), (DESC_BYTES * 8) as u32);
    // Bit i tells whether the first point of pair i is the darker one.
    for i in [0usize, 9, 255] {
        let p = pat[i];
        let at = |x: i32, y: i32| g.data[((32 + y) * 64 + 32 + x) as usize];
        let bit = d1[i / 8] >> (i % 8) & 1 == 1;
        assert_eq!(bit, at(p[0], p[1]) < at(p[2], p[3]));
    }
}

fn orientation(g: &GrayImage, x: i32, y: i32) -> f32 {
    let (m10, m01) = moments(g, x, y);
    (m01 as f32).atan2(m10 as f32)
}

#[test]
fn orientation_points_to_the_bright_side() {
    let mut g = GrayImage::new(64, 64);
    for y in 0..64 {
        for x in 0..64 {
            g.data[y * 64 + x] = if x >= 32 { 255 } else { 0 };
        }
    }
    let a = orientation(&g, 32, 32);
    assert!(a.abs() < 0.4, "expected ~0, got {a}");
    let mut g = GrayImage::new(64, 64);
    for y in 0..64 {
        for x in 0..64 {
            g.data[y * 64 + x] = if y >= 32 { 255 } else { 0 };
        }
    }
    let a = orientation(&g, 32, 32);
    assert!((a - std::f32::consts::FRAC_PI_2).abs() < 0.4, "expected ~pi/2, got {a}");
}

#[test]
fn border_guard() {
    assert!(!in_bounds(64, 64, 0, 0));
    assert!(!in_bounds(64, 64, BORDER - 1, 32));
    assert!(in_bounds(64, 64, BORDER, BORDER));
    assert!(in_bounds(64, 64, 32, 32));
    assert!(!in_bounds(64, 64, 64 - BORDER, 32));
}

fn random_descs(n: usize, seed: u64) -> Vec<Descriptor> {
    let mut rng = Lcg(seed);
    (0..n)
        .map(|_| {
            let mut d = [0u8; DESC_BYTES];
            for b in d.iter_mut() {
                *b = rng.next_u8();
            }
            d
        })
        .collect()
}

#[test]
fn matcher_recovers_noisy_correspondence() {
    let n = 40;
    let a = random_descs(n, 12345);
    let b: Vec<Descriptor> = a
        .iter()
        .map(|d| {
            let mut d = *d;
            d[0] ^= 0b0000_0011;
            d
        })
        .collect();
    let m = match_descriptors(&a, &b);
    assert!(m.len() >= n - 2, "recovered only {} of {n}", m.len());
    assert!(m.iter().all(|&(i, j)| i == j));
}

#[test]
fn empty_inputs_match_nothing() {
    assert!(match_descriptors(&[], &[[0u8; DESC_BYTES]]).is_empty());
    assert!(match_descriptors(&[[0u8; DESC_BYTES]], &[]).is_empty());
}

#[test]
fn ambiguous_and_distant_matches_are_refused() {
    let zero = [0u8; DESC_BYTES];
    let mut near = zero;
    near[0] = 1;
    let mut near2 = zero;
    near2[1] = 1;
    // Two equally good partners.
    assert!(match_descriptors(&[zero], &[near, near2]).is_empty());
    // One partner, 72 bits away.
    let mut far = zero;
    for b in far.iter_mut().take(9) {
        *b = 0xff;
    }
    assert!(match_descriptors(&[zero], &[far]).is_empty());
    far[0] = 0;
    assert_eq!(match_descriptors(&[zero], &[far]), vec![(0, 0)]);
}

// ── Frontend ──────────────────────────────────────────────────────────────────

fn features(n: usize, seed: u64, dx: u16) -> Features {
    Features {
        pts: (0..n).map(|i| (100 + dx + i as u16, 50)).collect(),
        descs: random_descs(n, seed),
    }
}

#[test]
fn bootstrap_waits_for_parallax_then_initializes() {
    let mut fe: Frontend<i32> = Frontend::new();
    assert!(matches!(fe.boot_step(features(100, 1, 0), 640), BootAction::Anchored));
    assert_eq!(fe.hud.boot_anchor_resets, 1);
    // All match, but nothing moved.
    assert!(matches!(fe.boot_step(features(100, 1, 3), 640), BootAction::Parallax));
    assert_eq!((fe.hud.boot_matches, fe.hud.boot_median_sq, fe.hud.boot_anchor_age), (100, 9, 1));
    // 16 pixels are a fortieth of 640.
    match fe.boot_step(features(100, 1, 16), 640) {
        BootAction::Initialize { pairs } => assert_eq!(pairs.len(), 100),
        other => panic!("expected an initialization, got {other:?}"),
    }
    // Another scene altogether replaces the anchor.
    assert!(matches!(fe.boot_step(features(100, 2, 0), 640), BootAction::Anchored));
    assert_eq!(fe.hud.boot_anchor_resets, 2);
    // Sixty common features: neither enough nor stale.
    let mut some = features(100, 2, 0);
    let other = random_descs(40, 99);
    for (i, d) in other.into_iter().enumerate() {
        some.descs[i] = d;
    }
    assert!(matches!(fe.boot_step(some, 640), BootAction::Waiting));
    fe.initialized(0, 1, 1, 77);
    assert!(fe.hud.tracking && fe.hud.n_tracked == 77 && fe.hud.boot_matches == 0);
}

fn tracking() -> Frontend<i32> {
    let mut fe: Frontend<i32> = Frontend::new();
    fe.initialized(0, 1, 1, 50);
    fe
}

#[test]
fn weak_frames_are_ridden_through_then_lost() {
    let mut fe = tracking();
    assert_eq!(
        fe.track_step(9, Solve::Solved { pose: 2, n_inliers: 6 }),
        TrackAction::Healthy
    );
    for k in 0..3 {
        assert_eq!(fe.track_step(10 + k, Solve::FewMatches), TrackAction::Shaky);
    }
    match &fe.stage {
        Stage::Tracking { track } => assert_eq!(track.trajectory, vec![0, 1, 2, 10, 11, 12]),
        _ => panic!("still tracking"),
    }
    assert_eq!(
        fe.track_step(13, Solve::Solved { pose: 3, n_inliers: 5 }),
        TrackAction::Lost
    );
    assert_eq!(fe.n_lost, 1);
    // A recovered pose resumes the kept path at a standstill.
    assert_eq!(fe.reloc_step(Some((42, 20)), false), RelocAction::Recovered);
    match &fe.stage {
        Stage::Tracking { track } => {
            let n = track.trajectory.len();
            assert_eq!(&track.trajectory[n - 2..], &[42, 42]);
        }
        _ => panic!("tracking again"),
    }
    fe.promoted(7);
    match &fe.stage {
        Stage::Tracking { track } => assert_eq!((track.ref_kf, track.frames_since_kf), (7, 0)),
        _ => panic!("tracking"),
    }
}

fn lose(fe: &mut Frontend<i32>) {
    while fe.track_step(0, Solve::Failed) != TrackAction::Lost {}
}

#[test]
fn lost_tracks_give_up_after_their_budget() {
    let mut fe = tracking();
    lose(&mut fe);
    for _ in 0..90 {
        assert_eq!(fe.reloc_step(None, false), RelocAction::Searching);
    }
    fe.end_frame(features(1, 1, 0), 0, false);
    assert_eq!((fe.hud.lost_frames, fe.hud.lost_budget_frames), (90, 90));
    assert_eq!(fe.reloc_step(None, false), RelocAction::GaveUp);
    assert!(matches!(fe.stage, Stage::Bootstrapping { anchor: None }));
    fe.end_frame(features(1, 1, 0), 0, false);
    assert_eq!((fe.hud.lost_frames, fe.hud.lost_budget_frames), (0, 0));

    let mut fe = tracking();
    lose(&mut fe);
    for k in 0..150 {
        let want = if k < 90 { RelocAction::Searching } else { RelocAction::Preserved };
        assert_eq!(fe.reloc_step(None, true), want);
    }
    assert_eq!(fe.reloc_step(None, true), RelocAction::GaveUp);
}

#[test]
fn trajectory_is_trimmed() {
    let mut fe = tracking();
    for k in 0..1_598 {
        fe.track_step(0, Solve::Solved { pose: k, n_inliers: 30 });
    }
    match &fe.stage {
        Stage::Tracking { track } => assert_eq!(track.trajectory.len(), 1_600),
        _ => panic!("tracking"),
    }
    fe.track_step(0, Solve::Solved { pose: -1, n_inliers: 30 });
    match &fe.stage {
        Stage::Tracking { track } => {
            assert_eq!(track.trajectory.len(), 800);
            assert_eq!(track.trajectory[799], -1);
        }
        _ => panic!("tracking"),
    }
    assert_eq!(published_from(1_000), 200);
    assert_eq!(published_from(800), 0);
}

#[test]
fn loop_closures_are_announced_once() {
    let mut fe = tracking();
    assert!(!fe.end_frame(features(2, 1, 0), 0, false));
    assert!(fe.end_frame(features(2, 1, 0), 1, true));
    assert!(!fe.end_frame(features(2, 1, 0), 1, true));
    assert!(fe.hud.bow_ready && fe.hud.loop_closures == 1);
}

#[test]
fn overlay_lines_join_matched_keypoints() {
    let prev = features(3, 5, 0);
    let cur = features(3, 5, 4);
    let lines = overlay_matches(&prev, &cur);
    assert_eq!(lines.len(), 3);
    assert_eq!(lines[1], Match { x0: 101, y0: 50, x1: 105, y1: 50 });
}

#[test]
fn stream_sends_only_what_changed() {
    let mut gate = StreamGate::new();
    assert!(gate.offer(5, 100));
    assert!(!gate.offer(5, 100));
    assert!(gate.offer(6, 100));
}

// ── Mapping ───────────────────────────────────────────────────────────────────

#[test]
fn inliers_bind_features_to_points() {
    let inliers = [true, false, true];
    assert_eq!(inlier_ranks(&inliers), vec![Some(0), None, Some(1)]);
    let pairs = [(0, 2), (1, 1), (2, 0)];
    let pids = inlier_points(&pairs, &inliers, &[70, 71, 72]);
    assert_eq!(pids, vec![Some(70), None, Some(72)]);
    let (bound, n) = bind_features(&pairs, &pids, true, 4);
    assert_eq!((bound, n), (vec![Some(72), None, Some(70), None], 2));
    let (bound, _) = bind_features(&pairs, &pids, false, 3);
    assert_eq!(bound, vec![Some(70), None, Some(72)]);
}

#[test]
fn gathered_points_are_alive_and_distinct() {
    let alive = [true, false, true, true];
    assert_eq!(gather_points(&[2, 1, 2, 0, 3], &alive, 2), vec![2, 0]);
    assert_eq!(gather_points(&[2, 1, 2, 0, 3], &alive, 9), vec![2, 0, 3]);
    // Recovery asks the places that look alike, or else the whole map, cut short.
    assert_eq!(reloc_points(true, &[2, 1, 0], &alive, vec![0, 2, 3]), vec![2, 0]);
    assert_eq!(reloc_points(false, &[], &alive, vec![0, 2, 3]), vec![0, 2, 3]);
    let whole: Vec<u32> = (0..2000).collect();
    assert_eq!(reloc_points(false, &[], &alive, whole), (0..1500).collect::<Vec<u32>>());
    let near = vec![vec![4, 5, 6], vec![]];
    let all = expand_candidates(&[1, 2], &near, 2);
    assert_eq!(all, vec![1, 4, 5, 2]);
}

#[test]
fn place_index_trains_once_enough_keyframes_are_there() {
    let mut db = PlaceDb::new(0);
    for kf in 0..5 {
        assert!(matches!(db.on_keyframe(kf, Vec::new()), PlaceAction::Buffered));
    }
    assert!(matches!(db.on_keyframe(5, Vec::new()), PlaceAction::Train));
    assert!(db.trained(0).is_empty());
    assert!(db.query(&[], 5).is_empty());
    assert!(matches!(db.on_keyframe(6, Vec::new()), PlaceAction::Train));
    let out = db.trained(512);
    assert_eq!(out.len(), 7);
    assert!(db.is_ready() && !db.is_empty());
    assert_eq!((db.len(), db.vocab_words(), db.keyframe_of(6)), (7, 512, 6));
    assert_eq!(db.query(&[6, 0, 3], 2), vec![6, 0]);
    assert!(matches!(db.on_keyframe(9, Vec::new()), PlaceAction::Index { kf: 9, .. }));
    db.reset();
    assert!(db.is_empty() && db.is_ready());
}

fn raw_kf(kf_id: u32, seed: u64) -> RawKf {
    let f = features(4, seed, 0);
    RawKf { kf_id, pts: f.pts, descs: f.descs, assigned: vec![None; 4] }
}

#[test]
fn raw_features_are_kept_for_twelve_keyframes() {
    let mut store = RawStore::new();
    for kf in 0..13 {
        store.ingest(raw_kf(kf, 3));
    }
    assert_eq!(store.find(0), None);
    assert_eq!(store.find(1), Some(0));
    assert_eq!(store.open_pairs(0, 1).len(), 4);
    store.bind(0, 2, 55);
    assert_eq!(store.open_pairs(0, 1), vec![(0, 0), (1, 1), (3, 3)]);
}

#[test]
fn returning_keyframe_id_replaces_features() {
    let mut store = RawStore::new();
    for kf in 0..11 {
        store.ingest(raw_kf(kf, 3));
    }
    store.bind(2, 0, 9);
    store.ingest(raw_kf(2, 4));
    assert_eq!(store.kfs.len(), 11);
    assert_eq!(store.kfs[2].assigned[0], None);
    assert_eq!(store.latest(), Some(2));
    // The oldest arrival drops out, which is the keyframe that came again.
    store.ingest(raw_kf(0, 5));
    assert_eq!(store.find(0), None);
    assert_eq!(store.latest(), None);
    assert_eq!(store.recent, vec![1, 2, 3, 4, 5, 6, 7, 8, 9, 10, 2, 0]);
}

#[test]
fn pose_solves_need_enough_matches() {
    let (few, some, many) = (features(14, 5, 0), features(15, 5, 0), features(20, 5, 0));
    assert_eq!(track_pairs(&few.descs, &few.descs), Err(14));
    assert_eq!(track_pairs(&some.descs, &some.descs).map(|p| p.len()), Ok(15));
    assert_eq!(reloc_pairs(&few.descs, &many.descs), None);
    assert_eq!(reloc_pairs(&some.descs, &many.descs).map(|p| p[3]), Some((3, 3)));
    assert_eq!(loop_pairs(&some.descs, &many.descs), None);
    assert_eq!(loop_pairs(&many.descs, &some.descs), None);
    assert_eq!(loop_pairs(&many.descs, &many.descs).map(|p| p.len()), Some(20));
}

#[test]
fn status_lines() {
    let weak = WeakReason::Inliers { n: 5, of: 37 };
    let cases = [
        (FrameStatus::AnchorSet, "anchor set — drive forward for parallax"),
        (
            FrameStatus::Parallax { median_px: 7, needed_px: 20, matches: 103 },
            "parallax 7/20px · 103 matches",
        ),
        (
            FrameStatus::Initialized { points: 120, model: TwoViewModel::Homography },
            "initialized: 120 pts via homography",
        ),
        (FrameStatus::Tracking { n: 49, of: 57 }, "tracking: 49/57 inliers"),
        (
            FrameStatus::Keyframe { kf: 10, n: 0, of: 1 },
            "keyframe 10 · tracking: 0/1 inliers",
        ),
        (
            FrameStatus::Shaky { reason: weak, skips: 2 },
            "tracking shaky: weak 5/37 inliers (predicting, 2/3 skips)",
        ),
        (
            FrameStatus::Lost { reason: WeakReason::Matches { n: 12 } },
            "tracking lost: only 12 map matches — relocalizing",
        ),
        (
            FrameStatus::Relocalized { n: 33, kf: 4, lost: 8 },
            "relocalized: 33 inliers (kf 4, lost 8 frames)",
        ),
        (FrameStatus::Searching { lost: 1 }, "relocalizing… (lost 1 frames)"),
        (
            FrameStatus::Preserved { lost: 91, keyframes: 24, points: 1900 },
            "lost 91 frames — map preserved (24 kf, 1900 pts); swing camera back to mapped area",
        ),
        (
            FrameStatus::GaveUp { lost: 151 },
            "relocalization gave up after 151 frames — re-initializing",
        ),
    ];
    for (status, want) in cases {
        assert_eq!(status.text(), want);
    }
    assert_eq!(WeakReason::SolveFailed.text(), "solve failed");
    assert_eq!(TwoViewModel::Essential.name(), "essential");
    assert_eq!(with_loop_closure("tracking", 2), "tracking · loop closed (#2)");
}

#[test]
fn loop_candidates_and_graph() {
    assert!(skip_loop_candidate(20, 20, &[]));
    assert!(skip_loop_candidate(20, 3, &[3]));
    assert!(skip_loop_candidate(20, 6, &[]));
    assert!(!skip_loop_candidate(20, 5, &[]));
    assert_eq!(loop_candidate(20, &[20, 3, 7, 2, 1], &[3]), Some(3));
    assert_eq!(loop_candidate(20, &[20, 3, 7], &[3]), None);
    assert_eq!(triangulation_neighbours(&[1, 2], Some(3)), vec![1, 2, 3]);
    assert_eq!(triangulation_neighbours(&[1, 2], Some(2)), vec![1, 2]);
    assert_eq!(gauge_keyframe(&[4]), None);
    assert_eq!(gauge_keyframe(&[4, 2, 9]), Some(2));
    assert_eq!(reference_keyframe(&[], 9), None);
    assert_eq!(reference_keyframe(&[8, 3], 9), Some(3));
    assert_eq!(reference_keyframe(&[8, 3], 3), None);
    let nodes = vec![
        KfNode { id: 0, parent: None, covis: vec![1] },
        KfNode { id: 1, parent: Some(0), covis: vec![0] },
    ];
    let e = essential_edges(&nodes, 1, 0);
    assert_eq!(e.len(), 4);
    assert_eq!(e[3], GraphEdge { i: 1, j: 0, is_loop: true });
    assert_eq!(graph_size(&nodes), 2);
    assert_eq!(graph_size(&[]), 1);
}
