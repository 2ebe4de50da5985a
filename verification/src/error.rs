//! Errors of the library.
use vstd::prelude::*;

verus! {

/// What went wrong, with a text for the log.
#[derive(Debug)]
pub enum Error {
    /// The bus refused a transfer.
    Bus(String),
    /// The inertial sensor is not usable.
    Imu(String),
    /// The camera is not usable.
    Camera(String),
    /// A motion model could not be read or written.
    Motion(String),
}

impl Error {
    /// The text of the error.
    pub fn message(&self) -> (r: String)
        ensures
            r@ == (match *self {
                Error::Bus(s) => s@,
                Error::Imu(s) => s@,
                Error::Camera(s) => s@,
                Error::Motion(s) => s@,
            }),
    {
        match self {
            Error::Bus(s) => s.clone(),
            Error::Imu(s) => s.clone(),
            Error::Camera(s) => s.clone(),
            Error::Motion(s) => s.clone(),
        }
    }
}

} // verus!
