//! Devices built on the PWM driver.
pub mod motors;
pub mod pan_tilt;
