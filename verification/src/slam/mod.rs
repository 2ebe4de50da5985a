//! Visual SLAM: image processing, feature detection and matching, and the
//! decisions of the tracking frontend and the mapper.
pub mod bind;
pub mod blur;
pub mod brief;
pub mod detect;
pub mod fast;
pub mod frontend;
pub mod gather;
pub mod image;
pub mod mapper;
pub mod place;
pub mod rotation;
pub mod snapshot;
pub mod status;
