//! Control logic of the Ginger robot car.
pub mod api;
pub mod camera;
pub mod devices;
pub mod error;
pub mod hal;
pub mod imu;
pub mod marker;
pub mod math;
pub mod motion;
pub mod par;
pub mod robot;
pub mod server;
pub mod single;
pub mod slam;
pub mod text;
pub mod video;

pub use error::Error;
