//! Per-user CPU usage, smoothed over a short rolling window and ranked.
//!
//! Usage is counted in hundredths of a percent of one core, so `1234` stands
//! for 12.34 %. A user is identified by the numeric id of the account; the
//! display names are handed in by the caller, as a map from id to name.

pub mod mean;
pub mod window;
pub mod table;
pub mod content;
pub mod rank;
pub mod text;
pub mod names;
pub mod laws;
