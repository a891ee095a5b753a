//! An in-process timer scheduling registry.
//!
//! Callers register timer records tagged with opaque hook / context / owner
//! tokens, an interval, user data, and behavior flags. Records are grouped
//! into integer-keyed channels that can be paused, resumed, swept for due
//! timers, or bulk-evicted, each independently of the others.
//!
//! All operations take the current time as a millisecond timestamp supplied
//! by the caller; the library itself never reads a clock.

pub mod laws;
pub mod registry;
pub mod timer;
