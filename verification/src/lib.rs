//! Bookkeeping of a gravity particle simulation: object flags, the
//! decisions taken when objects collide during a tick, and the
//! ticks-per-second counter.

pub mod collisions;
pub mod flags;
pub mod tps_tracker;
