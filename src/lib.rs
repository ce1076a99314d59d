//! Availability schedules: priority-layered rules resolved into a flat,
//! chronologically ordered sequence of on/off frames.
pub mod availability;
pub mod datetime;
pub mod derive;
pub mod util;
pub mod weekdays;
pub mod error;
pub mod frame;
pub mod rule;
pub mod rulebuilder;
pub mod laws;
