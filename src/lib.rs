//! Disease spread among people who share enclosed spaces, driven by a stream
//! of enter / leave events from a mobility simulation.

pub mod units;
pub mod shared_space;
mod random;
pub mod pandemic;
