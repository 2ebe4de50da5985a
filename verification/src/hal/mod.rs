//! Drivers for the chips on the car.
pub mod bmi160;
pub mod bno055;
pub mod buzzer;
pub mod i2c;
pub mod led;
pub mod pca9685;
pub mod ultrasonic;
