//! Motion stack: drive mapping, motor model bookkeeping, pose, labels,
//! exploration controller.
pub mod arcade;
pub mod explore;
pub mod gate;
pub mod labels;
pub mod model;
pub mod pose;

pub use arcade::arcade_drive;
pub use explore::{ExplorePhase, ExploreStatus, PolarScan, ScanRay};
pub use labels::{LabelStats, RejectionCounts};
pub use model::{LabelledSample, ModelInput};
pub use pose::{MotionTarget, PoseState, TrailPoint};
