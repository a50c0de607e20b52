//! Frame assembly from several byte sources.

pub mod delivery;
pub mod interval;
pub mod laws;
pub mod model;
pub mod open;
pub mod readiness;
pub mod select;
pub mod source;
pub mod trace;
