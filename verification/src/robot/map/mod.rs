//! 2-D occupancy grid.
//!
//! Coordinate system: x = east (right), y = south (down). Pan servo: 90 degrees
//! is forward, 0 full left, 180 full right.
pub mod grid;
pub mod render;

pub use grid::{CastRay, OccupancyMap, ScanRay, CELL_UM, H, MAX_RANGE_UM, UNKNOWN, W};
