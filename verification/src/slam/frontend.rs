//! The SLAM pipeline state machine: frame-to-frame overlay matching, two-view
//! initialization, live tracking and relocalization.
//!
//! The geometry (pose solving, triangulation) happens outside. A pose is a value
//! of some type `P` that the machine stores and hands back; what it decides is
//! when to solve, what a solution's support means, and which stage follows.
use super::brief::{match_descriptors, matched, matches_of, Descriptor};
use super::detect::Match;
use super::snapshot::shown;
use vstd::prelude::*;

verus! {

/// Matches against the anchor that two-view initialization needs.
pub const INIT_MIN_MATCHES: usize = 80;

/// The median disparity must reach the image width divided by this.
pub const INIT_DISP_DIVISOR: u64 = 40;

/// With fewer matches than this the anchor is stale and replaced.
pub const ANCHOR_RESET_MATCHES: usize = 40;

/// Map-point matches needed to attempt a pose solve.
pub const TRACK_MIN_MATCHES: usize = 15;

/// Reprojection inliers needed to trust a refined pose.
pub const TRACK_MIN_INLIERS: usize = 6;

/// Consecutive weak frames that are ridden through before the track is lost.
pub const SOFT_LOST_MAX: usize = 3;

/// Keyframe candidates asked of the place index.
pub const RELOC_MAX_CAND: usize = 5;

/// Covisible neighbours consulted per candidate.
pub const RELOC_COVIS: usize = 5;

/// Most map points gathered for one relocalization.
pub const RELOC_MAX_PTS: usize = 1500;

/// Inliers (and matches, and points) that relocalization needs.
pub const RELOC_MIN_INLIERS: usize = 15;

/// A lost track gives up after this many frames while no vocabulary exists.
pub const RELOC_MAX_FRAMES: usize = 90;

/// A lost track gives up after this many frames once a vocabulary exists.
pub const RELOC_MAX_FRAMES_BOW: usize = 150;

/// Trajectory length that trimming leaves.
pub const MAX_TRAJECTORY: usize = 800;

/// Detected features of one frame: level-0 keypoints and aligned descriptors.
#[derive(Debug)]
pub struct Features {
    pub pts: Vec<(u16, u16)>,
    pub descs: Vec<Descriptor>,
}

impl Features {
    /// One descriptor per keypoint.
    pub open spec fn aligned(&self) -> bool {
        self.pts@.len() == self.descs@.len() <= u32::MAX
    }
}

// ── Overlay ───────────────────────────────────────────────────────────────────

/// The overlay line of a match.
pub open spec fn match_line(prev: Features, cur: Features, pair: (u32, u32)) -> Match {
    Match {
        x0: prev.pts@[pair.0 as int].0,
        y0: prev.pts@[pair.0 as int].1,
        x1: cur.pts@[pair.1 as int].0,
        y1: cur.pts@[pair.1 as int].1,
    }
}

/// Overlay lines from the previous frame to this one.
pub fn overlay_matches(prev: &Features, cur: &Features) -> (r: Vec<Match>)
    requires
        prev.aligned(),
        cur.aligned(),
    ensures
        r@.len() == matches_of(prev.descs@, cur.descs@).len(),
        forall|k: int|
            0 <= k < r@.len() ==> #[trigger] r@[k] == match_line(
                *prev,
                *cur,
                matches_of(prev.descs@, cur.descs@)[k],
            ),
{
    let pairs: Vec<(u32, u32)> = match_descriptors(prev.descs.as_slice(), cur.descs.as_slice());
    let mut out: Vec<Match> = Vec::new();
    let mut k: usize = 0;
    while k < pairs.len()
        invariant
            k <= pairs@.len(),
            prev.aligned(),
            cur.aligned(),
            pairs@ == matches_of(prev.descs@, cur.descs@),
            forall|m: int|
                0 <= m < pairs@.len() ==> matched(
                    prev.descs@,
                    cur.descs@,
                    (#[trigger] pairs@[m]).0 as int,
                    pairs@[m].1 as int,
                ),
            out@.len() == k,
            forall|m: int|
                0 <= m < k ==> #[trigger] out@[m] == match_line(*prev, *cur, pairs@[m]),
        decreases pairs@.len() - k,
    {
        let (i, j): (u32, u32) = pairs[k];
        assert(matched(prev.descs@, cur.descs@, pairs@[k as int].0 as int, pairs@[k as int].1 as int));
        let a: (u16, u16) = prev.pts[i as usize];
        let b: (u16, u16) = cur.pts[j as usize];
        out.push(Match { x0: a.0, y0: a.1, x1: b.0, y1: b.1 });
        k = k + 1;
    }
    out
}

// ── Matches for a pose solve ──────────────────────────────────────────────────

/// There are enough descriptors on both sides and enough matches between them.
pub open spec fn supported(
    a: Seq<Descriptor>,
    b: Seq<Descriptor>,
    min_a: int,
    min_b: int,
    min_pairs: int,
) -> bool {
    a.len() >= min_a && b.len() >= min_b && matches_of(a, b).len() >= min_pairs
}

/// Matches of map points with the features of a frame, where there are enough
/// for a pose solve; otherwise their number.
pub fn track_pairs(map: &[Descriptor], frame: &[Descriptor]) -> (r: Result<
    Vec<(u32, u32)>,
    usize,
>)
    requires
        map@.len() <= u32::MAX,
        frame@.len() <= u32::MAX,
    ensures
        r is Ok == supported(map@, frame@, 0, 0, TRACK_MIN_MATCHES as int),
        r is Ok ==> r->Ok_0@ == matches_of(map@, frame@),
        r is Err ==> r->Err_0 == matches_of(map@, frame@).len(),
        r is Ok <==> matches_of(map@, frame@).len() >= 15,
{
    let pairs: Vec<(u32, u32)> = match_descriptors(map, frame);
    if pairs.len() >= TRACK_MIN_MATCHES {
        Ok(pairs)
    } else {
        Err(pairs.len())
    }
}

/// Matches of gathered map points with the features of a lost frame, where there
/// are enough points and then enough matches to recover the pose.
pub fn reloc_pairs(points: &[Descriptor], frame: &[Descriptor]) -> (r: Option<Vec<(u32, u32)>>)
    requires
        points@.len() <= u32::MAX,
        frame@.len() <= u32::MAX,
    ensures
        r is Some == supported(
            points@,
            frame@,
            RELOC_MIN_INLIERS as int,
            0,
            RELOC_MIN_INLIERS as int,
        ),
        r is Some ==> r->0@ == matches_of(points@, frame@),
        r is Some <==> points@.len() >= 15 && matches_of(points@, frame@).len() >= 15,
{
    if points.len() < RELOC_MIN_INLIERS {
        return None;
    }
    let pairs: Vec<(u32, u32)> = match_descriptors(points, frame);
    if pairs.len() >= RELOC_MIN_INLIERS {
        Some(pairs)
    } else {
        None
    }
}

// ── Disparity ─────────────────────────────────────────────────────────────────

/// Squared pixel distance.
pub open spec fn dist_sq(a: (u16, u16), b: (u16, u16)) -> int {
    (a.0 - b.0) * (a.0 - b.0) + (a.1 - b.1) * (a.1 - b.1)
}

/// Squared displacements of matched keypoints.
pub open spec fn displacements(a: Features, b: Features, pairs: Seq<(u32, u32)>) -> Seq<u64> {
    Seq::new(
        pairs.len(),
        |k: int| dist_sq(a.pts@[pairs[k].0 as int], b.pts@[pairs[k].1 as int]) as u64,
    )
}

pub open spec fn ascending(s: Seq<u64>) -> bool {
    forall|i: int, j: int| 0 <= i < j < s.len() ==> #[trigger] s[i] <= #[trigger] s[j]
}

/// `m` is the middle element (the upper one of two) of the values in order.
pub open spec fn is_median(values: Seq<u64>, m: u64) -> bool {
    exists|s: Seq<u64>| #[trigger]
        ascending(s) && s.to_multiset() == values.to_multiset() && m == s[values.len() as int / 2]
}

fn displacement(a: (u16, u16), b: (u16, u16)) -> (r: u64)
    ensures
        r == dist_sq(a, b),
{
    let dx: i64 = a.0 as i64 - b.0 as i64;
    let dy: i64 = a.1 as i64 - b.1 as i64;
    assert(0 <= dx * dx <= 65535 * 65535 && 0 <= dy * dy <= 65535 * 65535) by (nonlinear_arith)
        requires
            -65535 <= dx <= 65535,
            -65535 <= dy <= 65535,
    ;
    (dx * dx + dy * dy) as u64
}

/// The values in ascending order.
fn sorted(values: &Vec<u64>) -> (r: Vec<u64>)
    ensures
        ascending(r@),
        r@.to_multiset() == values@.to_multiset(),
        r@.len() == values@.len(),
{
    let mut out: Vec<u64> = Vec::new();
    let mut n: usize = 0;
    assert(values@.take(0) =~= out@);
    while n < values.len()
        invariant
            n <= values@.len(),
            ascending(out@),
            out@.len() == n,
            out@.to_multiset() == values@.take(n as int).to_multiset(),
        decreases values@.len() - n,
    {
        let v: u64 = values[n];
        let mut at: usize = n;
        while at > 0 && out[at - 1] > v
            invariant
                at <= n,
                out@.len() == n,
                ascending(out@),
                forall|i: int| at <= i < n ==> #[trigger] out@[i] > v,
            decreases at,
        {
            at = at - 1;
        }
        let ghost before = out@;
        out.insert(at, v);
        proof {
            vstd::seq_lib::to_multiset_insert(before, at as int, v);
            vstd::seq_lib::to_multiset_build(values@.take(n as int), v);
            assert(values@.take(n + 1) =~= values@.take(n as int).push(v));
            assert forall|i: int, j: int| 0 <= i < j < out@.len() implies #[trigger] out@[i]
                <= #[trigger] out@[j] by {
                let oi = if i < at {
                    before[i]
                } else if i == at {
                    v
                } else {
                    before[i - 1]
                };
                let oj = if j < at {
                    before[j]
                } else if j == at {
                    v
                } else {
                    before[j - 1]
                };
                assert(out@[i] == oi && out@[j] == oj);
            }
        }
        n = n + 1;
    }
    assert(values@.take(n as int) =~= values@);
    out
}

/// Middle element of the values in order.
fn median(values: &Vec<u64>) -> (r: u64)
    requires
        values@.len() > 0,
    ensures
        is_median(values@, r),
{
    let s: Vec<u64> = sorted(values);
    let m: u64 = s[s.len() / 2];
    assert(ascending(s@));
    m
}

/// The median disparity reaches 1/40 of the image width.
pub open spec fn enough_parallax(median_sq: u64, width: usize) -> bool {
    median_sq * (40 * 40) >= width * width
}

fn parallax_reached(median_sq: u64, width: usize) -> (r: bool)
    ensures
        r == enough_parallax(median_sq, width),
{
    assert(width * width <= u64::MAX * u64::MAX) by (nonlinear_arith)
        requires
            0 <= width <= u64::MAX,
    ;
    median_sq as u128 * 1600 >= width as u128 * width as u128
}

// ── State ─────────────────────────────────────────────────────────────────────

/// Bookkeeping of live tracking: the per-frame poses (oldest first), the
/// reference keyframe and the frames since it.
#[derive(Debug)]
pub struct TrackState<P> {
    pub trajectory: Vec<P>,
    pub ref_kf: u32,
    pub frames_since_kf: usize,
}

/// Pipeline stage.
#[derive(Debug)]
pub enum Stage<P> {
    /// Before initialization: accumulating parallax against an anchor frame.
    Bootstrapping { anchor: Option<Features> },
    /// Live tracking against the map.
    Tracking { track: TrackState<P> },
    /// Track lost for `since` frames; the state to resume with is kept.
    Lost { since: usize, track: TrackState<P> },
}

/// What the status display shows of the pipeline.
#[derive(Debug, Clone, Copy, PartialEq, Eq, Structural)]
pub struct Hud {
    /// Tracking is live.
    pub tracking: bool,
    /// Map points matched and confirmed in the latest tracked frame.
    pub n_tracked: u32,
    /// Tracking losses so far.
    pub n_lost: u32,
    /// Loop closures applied so far.
    pub loop_closures: u64,
    pub bow_ready: bool,
    /// Frames spent lost, and the number at which the track is given up; both 0
    /// unless lost.
    pub lost_frames: u32,
    pub lost_budget_frames: u32,
    /// Matches with the anchor. This and the fields below are 0 once tracking
    /// is live.
    pub boot_matches: u32,
    /// Squared median disparity of those matches.
    pub boot_median_sq: u64,
    /// Frames that the anchor has been alive for.
    pub boot_anchor_age: u32,
    /// Anchors set since the start.
    pub boot_anchor_resets: u32,
}

pub open spec fn blank_hud() -> Hud {
    Hud {
        tracking: false,
        n_tracked: 0,
        n_lost: 0,
        loop_closures: 0,
        bow_ready: false,
        lost_frames: 0,
        lost_budget_frames: 0,
        boot_matches: 0,
        boot_median_sq: 0,
        boot_anchor_age: 0,
        boot_anchor_resets: 0,
    }
}

fn initial_hud() -> (r: Hud)
    ensures
        r == blank_hud(),
{
    Hud {
        tracking: false,
        n_tracked: 0,
        n_lost: 0,
        loop_closures: 0,
        bow_ready: false,
        lost_frames: 0,
        lost_budget_frames: 0,
        boot_matches: 0,
        boot_median_sq: 0,
        boot_anchor_age: 0,
        boot_anchor_resets: 0,
    }
}

/// The display after a frame with a pose: tracking, bootstrap figures cleared.
pub open spec fn live_hud(n_tracked: u32) -> Hud {
    Hud { tracking: true, n_tracked, ..blank_hud() }
}

/// The trajectory with one more pose; when it passes twice the limit, the
/// oldest poses go and the limit remains.
pub open spec fn extended<P>(t: Seq<P>, p: P) -> Seq<P> {
    let n = t.push(p);
    if n.len() > 2 * MAX_TRAJECTORY {
        n.subrange(n.len() - MAX_TRAJECTORY, n.len() as int)
    } else {
        n
    }
}

/// The trajectory resumed at a recovered pose: its last two entries are that
/// pose, so that the next prediction assumes no motion.
pub open spec fn resumed<P>(t: Seq<P>, p: P) -> Seq<P> {
    let n = t.push(p);
    let a = if n.len() >= 2 {
        n.update(n.len() - 2, p)
    } else {
        n
    };
    if a.len() > 2 * MAX_TRAJECTORY {
        a.subrange(a.len() - MAX_TRAJECTORY, a.len() as int)
    } else {
        a
    }
}

fn trim<P>(t: &mut Vec<P>)
    ensures
        final(t)@ == (if old(t)@.len() > 2 * MAX_TRAJECTORY {
            old(t)@.subrange(old(t)@.len() - MAX_TRAJECTORY, old(t)@.len() as int)
        } else {
            old(t)@
        }),
{
    if t.len() > 2 * MAX_TRAJECTORY {
        let drop: usize = t.len() - MAX_TRAJECTORY;
        let mut tail: Vec<P> = t.split_off(drop);
        core::mem::swap(t, &mut tail);
    }
}

/// Result of a pose solve for a tracked frame.
#[derive(Debug)]
pub enum Solve<P> {
    /// Too few map matches to try.
    FewMatches,
    /// The solver gave nothing.
    Failed,
    /// A refined pose with its number of inliers.
    Solved { pose: P, n_inliers: usize },
}

/// What a frame did to the bootstrap.
#[derive(Debug)]
pub enum BootAction {
    /// The frame became the anchor.
    Anchored,
    /// Matches between the two limits: wait.
    Waiting,
    /// Enough matches, too little parallax.
    Parallax,
    /// Two-view initialization is to be tried on these pairs (anchor, frame).
    Initialize { pairs: Vec<(u32, u32)> },
}

/// What a frame did to the track.
#[derive(Debug, Clone, Copy, PartialEq, Eq, Structural)]
pub enum TrackAction {
    /// A trusted pose.
    Healthy,
    /// A weak frame; the predicted pose stands in.
    Shaky,
    /// The track is lost.
    Lost,
}

/// What a frame did to a lost track.
#[derive(Debug, Clone, Copy, PartialEq, Eq, Structural)]
pub enum RelocAction {
    /// The pose was recovered; tracking goes on.
    Recovered,
    /// Still within the short budget.
    Searching,
    /// Past the short budget, but the map is worth keeping.
    Preserved,
    /// The map is to be discarded; bootstrapping starts over.
    GaveUp,
}

/// The pipeline state machine.
#[derive(Debug)]
pub struct Frontend<P> {
    pub stage: Stage<P>,
    pub hud: Hud,
    /// Consecutive weak frames.
    pub consecutive_track_fails: usize,
    /// Tracking losses so far.
    pub n_lost: u32,
    /// Anchors set so far.
    pub anchor_resets: u32,
    /// Loop closures already announced.
    pub last_loops: u64,
    /// Features of the previous frame.
    pub prev: Option<Features>,
}

/// Frames after which a lost track is given up.
pub open spec fn give_up_after(bow_ready: bool) -> usize {
    if bow_ready {
        RELOC_MAX_FRAMES_BOW
    } else {
        RELOC_MAX_FRAMES
    }
}

/// The frame gives no pose to trust: too few matches, no solution, or fewer than 6
/// inliers.
pub open spec fn weak<P>(solve: Solve<P>) -> bool {
    !(solve matches Solve::Solved { n_inliers, .. } && n_inliers >= TRACK_MIN_INLIERS)
}

/// Pairs that agree with a solved pose.
pub open spec fn support_of<P>(solve: Solve<P>) -> u32 {
    match solve {
        Solve::Solved { n_inliers, .. } => n_inliers as u32,
        _ => 0u32,
    }
}

/// A tracked frame between two states. A frame with a trusted pose extends the
/// trajectory by it; a weak one extends it by the prediction, up to three in a
/// row, and the next loses the track, with the trajectory kept.
pub open spec fn tracked_frame<P>(
    before: Frontend<P>,
    after: Frontend<P>,
    predict: P,
    solve: Solve<P>,
    r: TrackAction,
) -> bool {
    let was = before.stage->Tracking_track;
    let now = after.stage->Tracking_track;
    &&& after.anchor_resets == before.anchor_resets
    &&& after.last_loops == before.last_loops
    &&& after.prev == before.prev
    &&& if !weak(solve) {
        &&& r == TrackAction::Healthy
        &&& after.stage is Tracking
        &&& now.trajectory@ == extended(was.trajectory@, solve->pose)
        &&& now.ref_kf == was.ref_kf
        &&& now.frames_since_kf == was.frames_since_kf + 1
        &&& after.consecutive_track_fails == 0
        &&& after.n_lost == before.n_lost
        &&& after.hud == live_hud(support_of(solve))
    } else if before.consecutive_track_fails < SOFT_LOST_MAX {
        &&& r == TrackAction::Shaky
        &&& after.stage is Tracking
        &&& now.trajectory@ == extended(was.trajectory@, predict)
        &&& now.ref_kf == was.ref_kf
        &&& now.frames_since_kf == was.frames_since_kf
        &&& after.consecutive_track_fails == before.consecutive_track_fails + 1
        &&& after.n_lost == before.n_lost
        &&& after.hud == live_hud(support_of(solve))
    } else {
        &&& r == TrackAction::Lost
        &&& after.stage == (Stage::Lost { since: 0, track: was })
        &&& after.consecutive_track_fails == 0
        &&& after.n_lost == before.n_lost + 1
        &&& after.hud == (Hud { tracking: false, ..before.hud })
    }
}

/// The end of a frame between two states: the figures that are shown in every
/// stage are refreshed and the features kept; all else stays.
pub open spec fn ended_frame<P>(
    before: Frontend<P>,
    after: Frontend<P>,
    cur: Features,
    loops: u64,
    bow_ready: bool,
) -> bool {
    &&& after.last_loops == loops
    &&& after.prev == Some(cur)
    &&& after.stage == before.stage
    &&& after.anchor_resets == before.anchor_resets
    &&& after.consecutive_track_fails == before.consecutive_track_fails
    &&& after.n_lost == before.n_lost
    &&& after.hud == (Hud {
        loop_closures: loops,
        n_lost: before.n_lost,
        bow_ready,
        lost_frames: match before.stage {
            Stage::Lost { since, .. } => since as u32,
            _ => 0u32,
        },
        lost_budget_frames: match before.stage {
            Stage::Lost { .. } => give_up_after(bow_ready) as u32,
            _ => 0u32,
        },
        ..before.hud
    })
}

impl<P: Copy> TrackState<P> {
    /// The trajectory holds a pose and is bounded.
    pub open spec fn wf(&self) -> bool {
        1 <= self.trajectory@.len() <= 2 * MAX_TRAJECTORY
    }
}

impl<P: Copy> Frontend<P> {
    pub open spec fn wf(&self) -> bool {
        &&& self.consecutive_track_fails <= SOFT_LOST_MAX
        &&& match self.stage {
            Stage::Bootstrapping { anchor } => match anchor {
                Some(a) => a.aligned(),
                None => true,
            },
            Stage::Tracking { track } => track.wf(),
            Stage::Lost { since, track } => track.wf() && since <= RELOC_MAX_FRAMES_BOW,
        }
        &&& match self.prev {
            Some(p) => p.aligned(),
            None => true,
        }
    }

    /// A fresh pipeline, waiting for an anchor frame.
    pub fn new() -> (r: Self)
        ensures
            r.wf(),
            r.stage == (Stage::<P>::Bootstrapping { anchor: None }),
            r.hud == blank_hud(),
            r.consecutive_track_fails == 0,
            r.n_lost == 0,
            r.anchor_resets == 0,
            r.last_loops == 0,
            r.prev is None,
    {
        Frontend {
            stage: Stage::Bootstrapping { anchor: None },
            hud: initial_hud(),
            consecutive_track_fails: 0,
            n_lost: 0,
            anchor_resets: 0,
            last_loops: 0,
            prev: None,
        }
    }

    /// Everything but the stage and the display is as before.
    spec fn rest_kept(&self, o: &Self) -> bool {
        &&& self.consecutive_track_fails == o.consecutive_track_fails
        &&& self.n_lost == o.n_lost
        &&& self.last_loops == o.last_loops
        &&& self.prev == o.prev
    }

    // ── Bootstrapping ─────────────────────────────────────────────────────────

    /// One frame while bootstrapping. Without an anchor, or with fewer than 40
    /// matches to it, the frame becomes the anchor. With at least 80 matches
    /// whose median disparity reaches 1/40 of the image width, initialization
    /// is to be tried; with 80 matches and less, or with 40 to 79 matches, the
    /// anchor stays.
    pub fn boot_step(&mut self, cur: Features, width: usize) -> (r: BootAction)
        requires
            old(self).wf(),
            old(self).stage is Bootstrapping,
            cur.aligned(),
        ensures
            final(self).wf(),
            final(self).stage is Bootstrapping,
            final(self).consecutive_track_fails == old(self).consecutive_track_fails,
            final(self).n_lost == old(self).n_lost,
            final(self).last_loops == old(self).last_loops,
            final(self).prev == old(self).prev,
            ({
                let anchored = r is Anchored;
                &&& final(self).anchor_resets == (if anchored && old(self).anchor_resets < u32::MAX {
                    (old(self).anchor_resets + 1) as u32
                } else {
                    old(self).anchor_resets
                })
                &&& final(self).stage == (Stage::<P>::Bootstrapping {
                    anchor: if anchored {
                        Some(cur)
                    } else {
                        old(self).stage->anchor
                    },
                })
                &&& match old(self).stage->anchor {
                    None => anchored && final(self).hud == (Hud {
                        boot_matches: 0,
                        boot_median_sq: 0,
                        boot_anchor_age: 0,
                        boot_anchor_resets: final(self).anchor_resets,
                        ..old(self).hud
                    }),
                    Some(a) => {
                        let mm = matches_of(a.descs@, cur.descs@);
                        let hud = final(self).hud;
                        &&& hud == (Hud {
                            boot_matches: mm.len() as u32,
                            boot_median_sq: hud.boot_median_sq,
                            boot_anchor_age: if anchored {
                                0u32
                            } else if old(self).hud.boot_anchor_age < u32::MAX {
                                (old(self).hud.boot_anchor_age + 1) as u32
                            } else {
                                u32::MAX
                            },
                            boot_anchor_resets: final(self).anchor_resets,
                            ..old(self).hud
                        })
                        &&& anchored <==> mm.len() < ANCHOR_RESET_MATCHES
                        &&& r is Waiting <==> ANCHOR_RESET_MATCHES <= mm.len() < INIT_MIN_MATCHES
                        &&& anchored <==> mm.len() < 40
                        &&& r is Waiting <==> 40 <= mm.len() < 80
                        &&& mm.len() < INIT_MIN_MATCHES ==> hud.boot_median_sq == 0
                        &&& mm.len() >= INIT_MIN_MATCHES ==> {
                            &&& is_median(displacements(a, cur, mm), hud.boot_median_sq)
                            &&& r is Initialize <==> enough_parallax(hud.boot_median_sq, width)
                            &&& r is Initialize ==> r->pairs@ == mm
                        }
                    },
                }
            }),
    {
        let mut stage: Stage<P> = Stage::Bootstrapping { anchor: None };
        core::mem::swap(&mut stage, &mut self.stage);
        let ghost was = stage;
        let anchor: Option<Features> = match stage {
            Stage::Bootstrapping { anchor } => anchor,
            _ => None,
        };
        self.hud.boot_matches = 0;
        self.hud.boot_median_sq = 0;
        self.hud.boot_anchor_resets = self.anchor_resets;
        match anchor {
            None => {
                self.set_anchor(cur);
                BootAction::Anchored
            },
            Some(a) => {
                if self.hud.boot_anchor_age < u32::MAX {
                    self.hud.boot_anchor_age = self.hud.boot_anchor_age + 1;
                }
                let pairs: Vec<(u32, u32)> = match_descriptors(
                    a.descs.as_slice(),
                    cur.descs.as_slice(),
                );
                self.hud.boot_matches = pairs.len() as u32;
                if pairs.len() >= INIT_MIN_MATCHES {
                    let moves: Vec<u64> = displacement_list(&a, &cur, &pairs);
                    let med: u64 = median(&moves);
                    self.hud.boot_median_sq = med;
                    let go: bool = parallax_reached(med, width);
                    self.stage = Stage::Bootstrapping { anchor: Some(a) };
                    if go {
                        BootAction::Initialize { pairs }
                    } else {
                        BootAction::Parallax
                    }
                } else if pairs.len() < ANCHOR_RESET_MATCHES {
                    self.set_anchor(cur);
                    BootAction::Anchored
                } else {
                    self.stage = Stage::Bootstrapping { anchor: Some(a) };
                    BootAction::Waiting
                }
            },
        }
    }

    fn set_anchor(&mut self, cur: Features)
        requires
            cur.aligned(),
        ensures
            final(self).stage == (Stage::<P>::Bootstrapping { anchor: Some(cur) }),
            final(self).rest_kept(old(self)),
            final(self).anchor_resets == (if old(self).anchor_resets < u32::MAX {
                (old(self).anchor_resets + 1) as u32
            } else {
                u32::MAX
            }),
            final(self).hud == (Hud {
                boot_anchor_age: 0,
                boot_anchor_resets: final(self).anchor_resets,
                ..old(self).hud
            }),
    {
        if self.anchor_resets < u32::MAX {
            self.anchor_resets = self.anchor_resets + 1;
        }
        self.hud.boot_anchor_age = 0;
        self.hud.boot_anchor_resets = self.anchor_resets;
        self.stage = Stage::Bootstrapping { anchor: Some(cur) };
    }

    /// Two-view initialization succeeded with `n_points` map points: tracking
    /// starts from the two poses, with the second view as reference keyframe.
    pub fn initialized(&mut self, origin: P, second: P, ref_kf: u32, n_points: u32)
        requires
            old(self).wf(),
            old(self).stage is Bootstrapping,
        ensures
            final(self).wf(),
            final(self).stage is Tracking,
            final(self).stage->Tracking_track.trajectory@ == seq![origin, second],
            final(self).stage->Tracking_track.ref_kf == ref_kf,
            final(self).stage->Tracking_track.frames_since_kf == 0,
            final(self).hud == live_hud(n_points),
            final(self).anchor_resets == old(self).anchor_resets,
            final(self).consecutive_track_fails == old(self).consecutive_track_fails,
            final(self).n_lost == old(self).n_lost,
            final(self).last_loops == old(self).last_loops,
            final(self).prev == old(self).prev,
    {
        let mut trajectory: Vec<P> = Vec::new();
        trajectory.push(origin);
        trajectory.push(second);
        assert(trajectory@ =~= seq![origin, second]);
        self.stage = Stage::Tracking { track: TrackState { trajectory, ref_kf, frames_since_kf: 0 } };
        self.hud = initial_hud();
        self.hud.tracking = true;
        self.hud.n_tracked = n_points;
    }

    // ── Tracking ──────────────────────────────────────────────────────────────

    /// One frame while tracking: `solve` is the outcome of the pose solve and
    /// `predict` the predicted pose. With at least 6 inliers the solved pose
    /// extends the trajectory. Otherwise the frame is weak: the first three in
    /// a row extend it by the prediction, and the next one loses the track,
    /// which keeps the trajectory for a later recovery.
    pub fn track_step(&mut self, predict: P, solve: Solve<P>) -> (r: TrackAction)
        requires
            old(self).wf(),
            old(self).stage is Tracking,
            old(self).n_lost < u32::MAX,
            old(self).stage->Tracking_track.frames_since_kf < usize::MAX,
        ensures
            final(self).wf(),
            tracked_frame(*old(self), *final(self), predict, solve, r),
    {
        let mut stage: Stage<P> = Stage::Bootstrapping { anchor: None };
        core::mem::swap(&mut stage, &mut self.stage);
        match stage {
            Stage::Tracking { track } => {
                let mut track = track;
                let (solved, support): (Option<P>, usize) = match solve {
                    Solve::Solved { pose, n_inliers } => {
                        if n_inliers >= TRACK_MIN_INLIERS {
                            (Some(pose), n_inliers)
                        } else {
                            (None, n_inliers)
                        }
                    },
                    Solve::FewMatches => (None, 0),
                    Solve::Failed => (None, 0),
                };
                match solved {
                    Some(pose) => {
                        self.consecutive_track_fails = 0;
                        track.trajectory.push(pose);
                        trim(&mut track.trajectory);
                        track.frames_since_kf = track.frames_since_kf + 1;
                        self.go_live(track, support as u32);
                        TrackAction::Healthy
                    },
                    None => {
                        if self.consecutive_track_fails < SOFT_LOST_MAX {
                            self.consecutive_track_fails = self.consecutive_track_fails + 1;
                            track.trajectory.push(predict);
                            trim(&mut track.trajectory);
                            self.go_live(track, support as u32);
                            TrackAction::Shaky
                        } else {
                            self.consecutive_track_fails = 0;
                            self.hud.tracking = false;
                            self.n_lost = self.n_lost + 1;
                            self.stage = Stage::Lost { since: 0, track };
                            TrackAction::Lost
                        }
                    },
                }
            },
            other => {
                self.stage = other;
                TrackAction::Lost
            },
        }
    }

    fn go_live(&mut self, track: TrackState<P>, n_tracked: u32)
        ensures
            final(self).stage == (Stage::Tracking { track }),
            final(self).hud == live_hud(n_tracked),
            final(self).rest_kept(old(self)),
            final(self).anchor_resets == old(self).anchor_resets,
    {
        self.stage = Stage::Tracking { track };
        self.hud = initial_hud();
        self.hud.tracking = true;
        self.hud.n_tracked = n_tracked;
    }

    /// The tracked frame was promoted to keyframe `kf`: it is the new
    /// reference.
    pub fn promoted(&mut self, kf: u32)
        requires
            old(self).wf(),
            old(self).stage is Tracking,
        ensures
            final(self).wf(),
            final(self).stage == (Stage::Tracking {
                track: TrackState {
                    ref_kf: kf,
                    frames_since_kf: 0,
                    ..old(self).stage->Tracking_track
                },
            }),
            final(self).hud == old(self).hud,
            final(self).anchor_resets == old(self).anchor_resets,
            final(self).consecutive_track_fails == old(self).consecutive_track_fails,
            final(self).n_lost == old(self).n_lost,
            final(self).last_loops == old(self).last_loops,
            final(self).prev == old(self).prev,
    {
        let mut stage: Stage<P> = Stage::Bootstrapping { anchor: None };
        core::mem::swap(&mut stage, &mut self.stage);
        match stage {
            Stage::Tracking { track } => {
                let mut track = track;
                track.ref_kf = kf;
                track.frames_since_kf = 0;
                self.stage = Stage::Tracking { track };
            },
            other => {
                self.stage = other;
            },
        }
    }

    // ── Relocalization ────────────────────────────────────────────────────────

    /// One frame while lost: `recovered` is the pose (with its inliers) that
    /// relocalization found, if any. A recovered pose resumes tracking from the
    /// kept trajectory. Otherwise the track stays lost until the number of lost
    /// frames passes the budget, which is longer once a vocabulary exists; then
    /// the map is to be discarded and bootstrapping starts over.
    pub fn reloc_step(&mut self, recovered: Option<(P, usize)>, bow_ready: bool) -> (r: RelocAction)
        requires
            old(self).wf(),
            old(self).stage is Lost,
        ensures
            final(self).wf(),
            final(self).anchor_resets == old(self).anchor_resets,
            final(self).n_lost == old(self).n_lost,
            final(self).last_loops == old(self).last_loops,
            final(self).prev == old(self).prev,
            ({
                let since = old(self).stage->since + 1;
                let track = old(self).stage->Lost_track;
                match recovered {
                    Some((pose, n_inliers)) => {
                        &&& r == RelocAction::Recovered
                        &&& final(self).stage is Tracking
                        &&& final(self).stage->Tracking_track.trajectory@ == resumed(
                            track.trajectory@,
                            pose,
                        )
                        &&& final(self).stage->Tracking_track.ref_kf == track.ref_kf
                        &&& final(self).stage->Tracking_track.frames_since_kf
                            == track.frames_since_kf
                        &&& final(self).consecutive_track_fails == 0
                        &&& final(self).hud == live_hud(n_inliers as u32)
                    },
                    None => if since > give_up_after(bow_ready) {
                        &&& r == RelocAction::GaveUp
                        &&& final(self).stage == (Stage::<P>::Bootstrapping { anchor: None })
                        &&& final(self).consecutive_track_fails == 0
                        &&& final(self).hud == blank_hud()
                    } else {
                        &&& r == (if since > RELOC_MAX_FRAMES {
                            RelocAction::Preserved
                        } else {
                            RelocAction::Searching
                        })
                        &&& final(self).stage == (Stage::Lost { since: since as usize, track })
                        &&& final(self).consecutive_track_fails == old(self).consecutive_track_fails
                        &&& final(self).hud == (Hud { tracking: false, ..old(self).hud })
                    },
                }
            }),
            recovered is None ==> {
                let since = old(self).stage->since + 1;
                &&& r is GaveUp <==> since > 150 || since > 90 && !bow_ready
                &&& r is Preserved <==> 90 < since <= 150 && bow_ready
                &&& r is Searching <==> since <= 90
            },
    {
        let mut stage: Stage<P> = Stage::Bootstrapping { anchor: None };
        core::mem::swap(&mut stage, &mut self.stage);
        match stage {
            Stage::Lost { since, track } => {
                let mut track = track;
                let since: usize = since + 1;
                match recovered {
                    Some((pose, n_inliers)) => {
                        self.consecutive_track_fails = 0;
                        track.trajectory.push(pose);
                        let n: usize = track.trajectory.len();
                        if n >= 2 {
                            track.trajectory.set(n - 2, pose);
                        }
                        trim(&mut track.trajectory);
                        self.go_live(track, n_inliers as u32);
                        RelocAction::Recovered
                    },
                    None => {
                        let budget: usize = if bow_ready {
                            RELOC_MAX_FRAMES_BOW
                        } else {
                            RELOC_MAX_FRAMES
                        };
                        if since > budget {
                            self.consecutive_track_fails = 0;
                            self.hud = initial_hud();
                            RelocAction::GaveUp
                        } else {
                            self.hud.tracking = false;
                            self.stage = Stage::Lost { since, track };
                            if since > RELOC_MAX_FRAMES {
                                RelocAction::Preserved
                            } else {
                                RelocAction::Searching
                            }
                        }
                    },
                }
            },
            other => {
                self.stage = other;
                RelocAction::Searching
            },
        }
    }

    // ── Frame end ─────────────────────────────────────────────────────────────

    /// Closes a frame: refreshes the figures that are shown in every stage,
    /// keeps the features for the next overlay, and tells whether a loop
    /// closure is to be announced.
    pub fn end_frame(&mut self, cur: Features, loops: u64, bow_ready: bool) -> (announce: bool)
        requires
            old(self).wf(),
            cur.aligned(),
        ensures
            final(self).wf(),
            announce == (loops != old(self).last_loops),
            ended_frame(*old(self), *final(self), cur, loops, bow_ready),
    {
        let announce: bool = loops != self.last_loops;
        self.last_loops = loops;
        self.hud.loop_closures = loops;
        self.hud.n_lost = self.n_lost;
        self.hud.bow_ready = bow_ready;
        let (lost, budget): (u32, u32) = match &self.stage {
            Stage::Lost { since, .. } => {
                (
                    *since as u32,
                    if bow_ready {
                        RELOC_MAX_FRAMES_BOW as u32
                    } else {
                        RELOC_MAX_FRAMES as u32
                    },
                )
            },
            _ => (0, 0),
        };
        self.hud.lost_frames = lost;
        self.hud.lost_budget_frames = budget;
        self.prev = Some(cur);
        announce
    }
}

fn displacement_list(a: &Features, b: &Features, pairs: &Vec<(u32, u32)>) -> (r: Vec<u64>)
    requires
        a.aligned(),
        b.aligned(),
        forall|k: int|
            0 <= k < pairs@.len() ==> matched(
                a.descs@,
                b.descs@,
                (#[trigger] pairs@[k]).0 as int,
                pairs@[k].1 as int,
            ),
    ensures
        r@ == displacements(*a, *b, pairs@),
{
    let mut out: Vec<u64> = Vec::new();
    let mut k: usize = 0;
    while k < pairs.len()
        invariant
            k <= pairs@.len(),
            a.aligned(),
            b.aligned(),
            forall|m: int|
                0 <= m < pairs@.len() ==> matched(
                    a.descs@,
                    b.descs@,
                    (#[trigger] pairs@[m]).0 as int,
                    pairs@[m].1 as int,
                ),
            out@.len() == k,
            forall|m: int|
                0 <= m < k ==> #[trigger] out@[m] == displacements(*a, *b, pairs@)[m],
        decreases pairs@.len() - k,
    {
        let (i, j): (u32, u32) = pairs[k];
        assert(matched(a.descs@, b.descs@, pairs@[k as int].0 as int, pairs@[k as int].1 as int));
        out.push(displacement(a.pts[i as usize], b.pts[j as usize]));
        k = k + 1;
    }
    assert(out@ =~= displacements(*a, *b, pairs@));
    out
}

// ── Laws ──────────────────────────────────────────────────────────────────────

/// A track that stays lost has not passed the budget that the display shows,
/// also when a vocabulary comes into being meanwhile.
pub proof fn law_elapsed_within_budget(since: int, bow_then: bool, bow_shown: bool)
    requires
        !(since > give_up_after(bow_then)),
        bow_then ==> bow_shown,
    ensures
        since <= give_up_after(bow_shown),
{
}

/// What goes into one frame while tracking: the predicted pose, the outcome of the
/// solve, and what is shown and kept at its end.
#[derive(Debug)]
pub struct FrameInput<P> {
    pub predict: P,
    pub solve: Solve<P>,
    pub cur: Features,
    pub loops: u64,
    pub bow_ready: bool,
}

/// One whole frame while tracking: the tracking step, and then the end of the
/// frame.
pub open spec fn whole_frame<P>(
    before: Frontend<P>,
    after: Frontend<P>,
    i: FrameInput<P>,
    r: TrackAction,
) -> bool {
    exists|mid: Frontend<P>| #[trigger]
        tracked_frame(before, mid, i.predict, i.solve, r) && ended_frame(
            mid,
            after,
            i.cur,
            i.loops,
            i.bow_ready,
        )
}

/// After a frame with a trusted pose, four weak frames in a row give three shaky
/// frames and then a loss. While shaky, tracking goes on and the path grows by the
/// prediction each time, up to where it is trimmed; the loss keeps the path as it
/// is, and only then the count of losses grows, by one.
pub proof fn law_three_shaky_frames_then_a_loss<P>(
    s: Seq<Frontend<P>>,
    i: Seq<FrameInput<P>>,
    r: Seq<TrackAction>,
)
    requires
        s.len() == 5 && i.len() == 4 && r.len() == 4,
        s[0].stage is Tracking,
        s[0].consecutive_track_fails == 0,
        s[0].n_lost < u32::MAX,
        forall|k: int| 0 <= k < 4 ==> weak((#[trigger] i[k]).solve),
        forall|k: int| 0 <= k < 4 ==> whole_frame(s[k], s[k + 1], i[k], #[trigger] r[k]),
    ensures
        forall|k: int|
            0 <= k < 3 ==> {
                &&& #[trigger] r[k] == TrackAction::Shaky
                &&& s[k + 1].stage is Tracking
                &&& s[k + 1].hud.tracking
                &&& s[k + 1].n_lost == s[0].n_lost
                &&& s[k + 1].stage->Tracking_track.trajectory@ == extended(
                    s[k].stage->Tracking_track.trajectory@,
                    i[k].predict,
                )
            },
        r[3] == TrackAction::Lost,
        !s[4].hud.tracking,
        s[4].stage == (Stage::Lost { since: 0, track: s[3].stage->Tracking_track }),
        s[4].n_lost == s[0].n_lost + 1,
        s[4].hud.n_lost == s[0].n_lost + 1,
        s[0].stage->Tracking_track.trajectory@.len() + 3 <= 2 * MAX_TRAJECTORY
            ==> s[4].stage->Lost_track.trajectory@.len()
            == s[0].stage->Tracking_track.trajectory@.len() + 3,
        shown(s[0].stage->Tracking_track.trajectory@.len() as int) <= MAX_TRAJECTORY - 4 ==> shown(
            s[4].stage->Lost_track.trajectory@.len() as int,
        ) == shown(s[0].stage->Tracking_track.trajectory@.len() as int) + 3,
{
    assert(whole_frame(s[0], s[1], i[0], r[0]));
    assert(whole_frame(s[1], s[2], i[1], r[1]));
    assert(whole_frame(s[2], s[3], i[2], r[2]));
    assert(whole_frame(s[3], s[4], i[3], r[3]));
    assert(weak(i[0].solve) && weak(i[1].solve) && weak(i[2].solve) && weak(i[3].solve));
}

/// However long the drive, the trajectory keeps at most 1600 poses, and the
/// newest pose is always its last.
pub proof fn law_trajectory_bounded<P>(t: Seq<P>, p: P)
    requires
        1 <= t.len() <= 2 * MAX_TRAJECTORY,
    ensures
        1 <= extended(t, p).len() <= 2 * MAX_TRAJECTORY,
        extended(t, p).last() == p,
        1 <= resumed(t, p).len() <= 2 * MAX_TRAJECTORY,
{
}

/// After a recovery the last two poses agree, so a constant-velocity prediction
/// assumes no motion.
pub proof fn law_resume_predicts_no_motion<P>(t: Seq<P>, p: P)
    requires
        1 <= t.len() <= 2 * MAX_TRAJECTORY,
    ensures
        resumed(t, p).len() >= 2,
        resumed(t, p)[resumed(t, p).len() - 1] == p,
        resumed(t, p)[resumed(t, p).len() - 2] == p,
{
}

// ── What the figures mean ─────────────────────────────────────────────────────

/// An overlay line runs from where the feature was to where it is.
pub proof fn law_overlay_line(prev: Features, cur: Features, i: u32, j: u32)
    ensures
        ({
            let l = match_line(prev, cur, (i, j));
            &&& (l.x0, l.y0) == prev.pts@[i as int]
            &&& (l.x1, l.y1) == cur.pts@[j as int]
        }),
{
}

/// The squared distance is the square of the way along an axis, and the two ways of a right
/// angle add up.
pub proof fn law_squared_distance(a: (u16, u16), b: (u16, u16), d: int)
    requires
        d >= 0,
    ensures
        a.1 == b.1 && (a.0 + d == b.0 || b.0 + d == a.0) ==> dist_sq(a, b) == d * d,
        a.0 == b.0 && (a.1 + d == b.1 || b.1 + d == a.1) ==> dist_sq(a, b) == d * d,
        dist_sq(a, b) == dist_sq(a, (b.0, a.1)) + dist_sq((b.0, a.1), b),
{
    assert(0int * 0 == 0);
    let (x, y) = (a.0 - b.0, a.1 - b.1);
    assert((-d) * (-d) == d * d) by (nonlinear_arith);
}

/// A displacement is measured between the two features of a pair.
pub proof fn law_displacements(a: Features, b: Features, pairs: Seq<(u32, u32)>, k: int)
    requires
        0 <= k < pairs.len(),
    ensures
        displacements(a, b, pairs).len() == pairs.len(),
        displacements(a, b, pairs)[k] == dist_sq(
            a.pts@[pairs[k].0 as int],
            b.pts@[pairs[k].1 as int],
        ),
{
    let (p, q) = (a.pts@[pairs[k].0 as int], b.pts@[pairs[k].1 as int]);
    let (x, y) = (p.0 - q.0, p.1 - q.1);
    assert(0 <= x * x + y * y <= 0xffff * 0xffff * 2) by (nonlinear_arith)
        requires
            -0xffff <= x <= 0xffff,
            -0xffff <= y <= 0xffff,
    ;
}

proof fn lemma_filtered(
    whole: vstd::multiset::Multiset<u64>,
    part: vstd::multiset::Multiset<u64>,
    f: spec_fn(u64) -> bool,
)
    requires
        forall|v: u64| f(v) ==> #[trigger] whole.count(v) <= part.count(v),
    ensures
        whole.filter(f).len() <= part.len(),
{
    broadcast use vstd::multiset::group_multiset_axioms;

    let got = whole.filter(f);
    assert forall|v: u64| #[trigger] got.count(v) <= part.count(v) by {
        if f(v) {
            assert(whole.count(v) <= part.count(v));
        }
    }
    assert(got.subset_of(part));
    assert(part.sub(got).len() == part.len() - got.len());
}

/// The median is one of the values. At most half of them are less, and fewer than half are
/// greater: of two in the middle it is the greater one.
pub proof fn law_median_is_in_the_middle(values: Seq<u64>, m: u64)
    requires
        is_median(values, m),
        values.len() > 0,
    ensures
        values.contains(m),
        2 * values.to_multiset().filter(|v: u64| v < m).len() <= values.len(),
        2 * values.to_multiset().filter(|v: u64| v > m).len() < values.len(),
{
    broadcast use vstd::multiset::group_multiset_axioms;
    broadcast use vstd::seq_lib::group_to_multiset_ensures;

    let s = choose|s: Seq<u64>| #[trigger]
        ascending(s) && s.to_multiset() == values.to_multiset() && m == s[values.len() as int / 2];
    let n = values.len() as int;
    let k = n / 2;
    assert(s.len() == s.to_multiset().len());
    assert(values.len() == values.to_multiset().len());
    assert(s.contains(m));
    assert(s.to_multiset().count(m) > 0);
    let whole = values.to_multiset();
    let (low, high) = (s.take(k), s.skip(k));
    assert(low + high =~= s);
    vstd::seq_lib::lemma_multiset_commutative(low, high);
    assert forall|v: u64| v < m implies #[trigger] whole.count(v) <= low.to_multiset().count(v) by {
        if high.to_multiset().count(v) > 0 {
            assert(high.contains(v));
            let i = choose|i: int| 0 <= i < high.len() && high[i] == v;
            assert(s[k + i] == v);
            assert(k < k + i ==> s[k] <= s[k + i]);
        }
    }
    lemma_filtered(whole, low.to_multiset(), |v: u64| v < m);
    assert(low.to_multiset().len() == low.len() == k);
    let (upto, above) = (s.take(k + 1), s.skip(k + 1));
    assert(upto + above =~= s);
    vstd::seq_lib::lemma_multiset_commutative(upto, above);
    assert forall|v: u64| v > m implies #[trigger] whole.count(v) <= above.to_multiset().count(
        v,
    ) by {
        if upto.to_multiset().count(v) > 0 {
            assert(upto.contains(v));
            let i = choose|i: int| 0 <= i < upto.len() && upto[i] == v;
            assert(s[i] == v);
            assert(i < k ==> s[i] <= s[k]);
        }
    }
    lemma_filtered(whole, above.to_multiset(), |v: u64| v > m);
    assert(above.to_multiset().len() == above.len() == n - k - 1);
}

/// A displacement of `px` pixels is enough to start from exactly where it is a fortieth of
/// the image width or more.
pub proof fn law_parallax_of_a_fortieth(px: nat, median_sq: u64, width: usize)
    requires
        median_sq == px * px,
    ensures
        enough_parallax(median_sq, width) <==> 40 * px >= width,
{
    let w = width as int;
    let q = 40 * px;
    assert(q * q == (px * px) * 1600) by (nonlinear_arith)
        requires
            q == 40 * px,
    ;
    assert(q >= w ==> q * q >= w * w) by (nonlinear_arith)
        requires
            w >= 0,
    ;
    assert(q < w ==> q * q < w * w) by (nonlinear_arith)
        requires
            q >= 0,
    ;
}

/// The path grows by one pose at a time up to 1600 poses; the next one trims it to the 800
/// newest.
pub proof fn law_path_is_trimmed_to_the_newest<P>(t: Seq<P>, p: P)
    requires
        1 <= t.len() <= 1600,
    ensures
        t.len() < 1600 ==> extended(t, p) == t.push(p),
        t.len() == 1600 ==> extended(t, p).len() == 800 && extended(t, p).last() == p && forall|
            i: int,
        |
            0 <= i < 799 ==> #[trigger] extended(t, p)[i] == t[801 + i],
        t.len() < 1600 ==> resumed(t, p) == t.drop_last().push(p).push(p),
        t.len() == 1600 ==> resumed(t, p).len() == 800 && forall|i: int|
            0 <= i < 798 ==> #[trigger] resumed(t, p)[i] == t[801 + i],
{
    assert(t.len() < 1600 ==> resumed(t, p) =~= t.drop_last().push(p).push(p));
}

/// A lost track is given up after 90 frames without a vocabulary and after 150 with one. A
/// pose counts from six inliers on. A frame with a pose shows tracking, its support and no
/// other figure.
pub proof fn law_limits_of_tracking<P>(pose: P, n_inliers: usize, n_tracked: u32)
    ensures
        give_up_after(false) == 90,
        give_up_after(true) == 150,
        weak(Solve::Solved { pose, n_inliers }) <==> n_inliers < 6,
        weak(Solve::<P>::Failed),
        n_inliers <= u32::MAX ==> support_of(Solve::Solved { pose, n_inliers }) == n_inliers,
        support_of(Solve::<P>::Failed) == 0,
        ({
            let h = live_hud(n_tracked);
            &&& h.tracking && h.n_tracked == n_tracked
            &&& h.n_lost == 0 && h.loop_closures == 0 && !h.bow_ready && h.lost_frames == 0
            &&& h.lost_budget_frames == 0 && h.boot_matches == 0 && h.boot_median_sq == 0
            &&& h.boot_anchor_age == 0 && h.boot_anchor_resets == 0
        }),
{
}

/// A trusted pose extends the path and clears the count of weak frames. A weak frame is
/// ridden through by the prediction three times in a row, and a fourth one loses the track
/// with the path as it is.
pub proof fn law_what_a_tracked_frame_does<P>(
    before: Frontend<P>,
    after: Frontend<P>,
    predict: P,
    solve: Solve<P>,
    r: TrackAction,
)
    requires
        before.stage is Tracking,
        tracked_frame(before, after, predict, solve, r),
        before.consecutive_track_fails <= 3,
    ensures
        r is Healthy <==> !weak(solve),
        r is Shaky <==> weak(solve) && before.consecutive_track_fails < 3,
        r is Lost <==> weak(solve) && before.consecutive_track_fails == 3,
        r is Healthy ==> after.stage->Tracking_track.trajectory@.last() == solve->pose
            && after.consecutive_track_fails == 0,
        r is Shaky ==> after.stage->Tracking_track.trajectory@.last() == predict
            && after.consecutive_track_fails == before.consecutive_track_fails + 1,
        r is Lost ==> after.stage is Lost && after.stage->Lost_track
            == before.stage->Tracking_track && after.n_lost == before.n_lost + 1
            && !after.hud.tracking,
        !(r is Lost) ==> after.stage is Tracking && after.n_lost == before.n_lost
            && after.hud.tracking && after.hud.n_tracked == support_of(solve),
        r is Healthy ==> after.stage->Tracking_track.frames_since_kf
            == before.stage->Tracking_track.frames_since_kf + 1,
        r is Shaky ==> after.stage->Tracking_track.frames_since_kf
            == before.stage->Tracking_track.frames_since_kf,
        !(r is Lost) ==> after.stage->Tracking_track.ref_kf == before.stage->Tracking_track.ref_kf,
        after.prev == before.prev && after.last_loops == before.last_loops && after.anchor_resets
            == before.anchor_resets,
{
}

/// At the end of a frame a lost track shows for how many frames it has been lost, against 90
/// or 150; any other stage shows neither.
pub proof fn law_what_the_end_of_a_frame_shows<P>(
    before: Frontend<P>,
    after: Frontend<P>,
    cur: Features,
    loops: u64,
    bow_ready: bool,
)
    requires
        ended_frame(before, after, cur, loops, bow_ready),
    ensures
        after.hud.loop_closures == loops,
        after.hud.n_lost == before.n_lost,
        after.hud.bow_ready == bow_ready,
        before.stage is Lost && before.stage->since <= 150 ==> after.hud.lost_frames
            == before.stage->since,
        before.stage is Lost && bow_ready ==> after.hud.lost_budget_frames == 150,
        before.stage is Lost && !bow_ready ==> after.hud.lost_budget_frames == 90,
        !(before.stage is Lost) ==> after.hud.lost_frames == 0 && after.hud.lost_budget_frames == 0,
        after.hud.tracking == before.hud.tracking,
        after.hud.n_tracked == before.hud.n_tracked,
        after.stage == before.stage,
        after.prev == Some(cur),
        after.last_loops == loops,
        after.anchor_resets == before.anchor_resets,
        after.consecutive_track_fails == before.consecutive_track_fails,
        after.n_lost == before.n_lost,
{
}

/// Support goes exactly as far as there are descriptors and matches: asking for one more of
/// any than there are is asking too much, and asking for less never is.
pub proof fn law_support(a: Seq<Descriptor>, b: Seq<Descriptor>, na: int, nb: int, n: int)
    ensures
        ({
            let (p, q, m) = (a.len() as int, b.len() as int, matches_of(a, b).len() as int);
            &&& na <= p && nb <= q && n <= m ==> supported(a, b, na, nb, n)
            &&& !supported(a, b, p + 1, nb, n)
            &&& !supported(a, b, na, q + 1, n)
            &&& !supported(a, b, na, nb, m + 1)
        }),
{
}

} // verus!
