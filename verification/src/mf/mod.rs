//! One module per ENDF file (MF), each turning a section's records into a
//! typed struct.

pub mod atomic;
pub mod covariance;
pub mod list;
pub mod mf2;
pub mod mf1;
pub mod mf3;
pub mod mf4;
pub mod mf5;
pub mod mf6;
pub mod mf7;
pub mod mf8;
pub mod photon;
