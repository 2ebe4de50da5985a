//! Camera frames: pixel formats, exposure rules and frame publication.
pub mod auto_exposure;
pub mod capture;
pub mod frame;
pub mod mock;

pub use frame::Frame;
