//! Status lines of the pipeline.
use super::frontend::SOFT_LOST_MAX;
use crate::text::{decimal_text, push_decimal};
use vstd::prelude::*;
use vstd::string::*;

verus! {

/// Why a tracked frame was weak.
#[derive(Debug, Clone, Copy, PartialEq, Eq, Structural)]
pub enum WeakReason {
    /// Too few of the observations agree with the pose.
    Inliers { n: usize, of: usize },
    /// The solver gave nothing.
    SolveFailed,
    /// Too few map matches to try.
    Matches { n: usize },
}

/// `n/of`.
pub open spec fn ratio(n: usize, of: usize) -> Seq<char> {
    decimal_text(n as nat) + "/"@ + decimal_text(of as nat)
}

pub open spec fn reason_text(r: WeakReason) -> Seq<char> {
    match r {
        WeakReason::Inliers { n, of } => "weak "@ + ratio(n, of) + " inliers"@,
        WeakReason::SolveFailed => "solve failed"@,
        WeakReason::Matches { n } => "only "@ + decimal_text(n as nat) + " map matches"@,
    }
}

fn push_ratio(s: &mut String, n: usize, of: usize)
    ensures
        final(s)@ == old(s)@ + ratio(n, of),
{
    let ghost before = s@;
    push_decimal(s, n as u64);
    s.append("/");
    push_decimal(s, of as u64);
    assert(s@ =~= before + ratio(n, of));
}

fn push_reason(s: &mut String, r: WeakReason)
    ensures
        final(s)@ == old(s)@ + reason_text(r),
{
    let ghost before = s@;
    match r {
        WeakReason::Inliers { n, of } => {
            s.append("weak ");
            push_ratio(s, n, of);
            s.append(" inliers");
        },
        WeakReason::SolveFailed => {
            s.append("solve failed");
        },
        WeakReason::Matches { n } => {
            s.append("only ");
            push_decimal(s, n as u64);
            s.append(" map matches");
        },
    }
    assert(s@ =~= before + reason_text(r));
}

impl WeakReason {
    /// The reason as a text.
    pub fn text(&self) -> (r: String)
        ensures
            r@ == reason_text(*self),
    {
        let mut s: String = String::from_str("");
        proof {
            reveal_strlit("");
        }
        push_reason(&mut s, *self);
        assert(s@ =~= reason_text(*self));
        s
    }
}

/// Model that two-view initialization chose.
#[derive(Debug, Clone, Copy, PartialEq, Eq, Structural)]
pub enum TwoViewModel {
    Essential,
    Homography,
}

pub open spec fn model_name(m: TwoViewModel) -> Seq<char> {
    match m {
        TwoViewModel::Essential => "essential"@,
        TwoViewModel::Homography => "homography"@,
    }
}

impl TwoViewModel {
    /// The model as a text.
    pub fn name(&self) -> (r: String)
        ensures
            r@ == model_name(*self),
    {
        match self {
            TwoViewModel::Essential => String::from_str("essential"),
            TwoViewModel::Homography => String::from_str("homography"),
        }
    }
}

/// What the status line tells of a frame.
#[derive(Debug, Clone, Copy, PartialEq, Eq, Structural)]
pub enum FrameStatus {
    /// The frame became the anchor.
    AnchorSet,
    /// Median disparity and the one needed, in whole pixels, and the matches.
    Parallax { median_px: usize, needed_px: usize, matches: usize },
    Initialized { points: usize, model: TwoViewModel },
    Tracking { n: usize, of: usize },
    /// Tracking, and the frame became a keyframe.
    Keyframe { kf: u32, n: usize, of: usize },
    /// A weak frame, the `skips`-th in a row.
    Shaky { reason: WeakReason, skips: usize },
    Lost { reason: WeakReason },
    Relocalized { n: usize, kf: u32, lost: usize },
    Searching { lost: usize },
    /// Still lost, with a map worth keeping.
    Preserved { lost: usize, keyframes: usize, points: usize },
    GaveUp { lost: usize },
}

pub open spec fn status_text(st: FrameStatus) -> Seq<char> {
    match st {
        FrameStatus::AnchorSet => "anchor set — drive forward for parallax"@,
        FrameStatus::Parallax { median_px, needed_px, matches } => "parallax "@ + ratio(
            median_px,
            needed_px,
        ) + "px · "@ + decimal_text(matches as nat) + " matches"@,
        FrameStatus::Initialized { points, model } => "initialized: "@ + decimal_text(points as nat)
            + " pts via "@ + model_name(model),
        FrameStatus::Tracking { n, of } => "tracking: "@ + ratio(n, of) + " inliers"@,
        FrameStatus::Keyframe { kf, n, of } => "keyframe "@ + decimal_text(kf as nat)
            + " · tracking: "@ + ratio(n, of) + " inliers"@,
        FrameStatus::Shaky { reason, skips } => "tracking shaky: "@ + reason_text(reason)
            + " (predicting, "@ + ratio(skips, SOFT_LOST_MAX) + " skips)"@,
        FrameStatus::Lost { reason } => "tracking lost: "@ + reason_text(reason)
            + " — relocalizing"@,
        FrameStatus::Relocalized { n, kf, lost } => "relocalized: "@ + decimal_text(n as nat)
            + " inliers (kf "@ + decimal_text(kf as nat) + ", lost "@ + decimal_text(lost as nat)
            + " frames)"@,
        FrameStatus::Searching { lost } => "relocalizing… (lost "@ + decimal_text(lost as nat)
            + " frames)"@,
        FrameStatus::Preserved { lost, keyframes, points } => "lost "@ + decimal_text(lost as nat)
            + " frames — map preserved ("@ + decimal_text(keyframes as nat) + " kf, "@
            + decimal_text(points as nat) + " pts); swing camera back to mapped area"@,
        FrameStatus::GaveUp { lost } => "relocalization gave up after "@ + decimal_text(lost as nat)
            + " frames — re-initializing"@,
    }
}

fn push_status(s: &mut String, st: FrameStatus)
    ensures
        final(s)@ == old(s)@ + status_text(st),
{
    let ghost before = s@;
    match st {
        FrameStatus::AnchorSet => {
            s.append("anchor set — drive forward for parallax");
        },
        FrameStatus::Parallax { median_px, needed_px, matches } => {
            s.append("parallax ");
            push_ratio(s, median_px, needed_px);
            s.append("px · ");
            push_decimal(s, matches as u64);
            s.append(" matches");
        },
        FrameStatus::Initialized { points, model } => {
            s.append("initialized: ");
            push_decimal(s, points as u64);
            s.append(" pts via ");
            s.append(model.name().as_str());
        },
        FrameStatus::Tracking { n, of } => {
            s.append("tracking: ");
            push_ratio(s, n, of);
            s.append(" inliers");
        },
        FrameStatus::Keyframe { kf, n, of } => {
            s.append("keyframe ");
            push_decimal(s, kf as u64);
            s.append(" · tracking: ");
            push_ratio(s, n, of);
            s.append(" inliers");
        },
        FrameStatus::Shaky { reason, skips } => {
            s.append("tracking shaky: ");
            push_reason(s, reason);
            s.append(" (predicting, ");
            push_ratio(s, skips, SOFT_LOST_MAX);
            s.append(" skips)");
        },
        FrameStatus::Lost { reason } => {
            s.append("tracking lost: ");
            push_reason(s, reason);
            s.append(" — relocalizing");
        },
        FrameStatus::Relocalized { n, kf, lost } => {
            s.append("relocalized: ");
            push_decimal(s, n as u64);
            s.append(" inliers (kf ");
            push_decimal(s, kf as u64);
            s.append(", lost ");
            push_decimal(s, lost as u64);
            s.append(" frames)");
        },
        FrameStatus::Searching { lost } => {
            s.append("relocalizing… (lost ");
            push_decimal(s, lost as u64);
            s.append(" frames)");
        },
        FrameStatus::Preserved { lost, keyframes, points } => {
            s.append("lost ");
            push_decimal(s, lost as u64);
            s.append(" frames — map preserved (");
            push_decimal(s, keyframes as u64);
            s.append(" kf, ");
            push_decimal(s, points as u64);
            s.append(" pts); swing camera back to mapped area");
        },
        FrameStatus::GaveUp { lost } => {
            s.append("relocalization gave up after ");
            push_decimal(s, lost as u64);
            s.append(" frames — re-initializing");
        },
    }
    assert(s@ =~= before + status_text(st));
}

impl FrameStatus {
    /// The status line.
    pub fn text(&self) -> (r: String)
        ensures
            r@ == status_text(*self),
    {
        let mut s: String = String::from_str("");
        proof {
            reveal_strlit("");
        }
        push_status(&mut s, *self);
        assert(s@ =~= status_text(*self));
        s
    }
}

/// A status line with the `count`-th loop closure announced behind it.
pub fn with_loop_closure(status: &str, count: u64) -> (r: String)
    ensures
        r@ == status@ + " · loop closed (#"@ + decimal_text(count as nat) + ")"@,
{
    let mut s: String = String::from_str(status);
    s.append(" · loop closed (#");
    push_decimal(&mut s, count);
    s.append(")");
    s
}

} // verus!
