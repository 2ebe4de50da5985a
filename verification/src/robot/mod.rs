//! The robot: safety supervisor, timed driving, mapping and exploration.
pub mod car;
pub mod explore;
pub mod map;
pub mod supervisor;
