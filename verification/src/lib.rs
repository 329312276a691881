//! Time-accounting engine for a personal time tracker.
//!
//! The library records closed work intervals ("frames") tagged with a
//! project and labels, and derives summaries from them: elapsed time per
//! project and tag, and a comparison of actual against expected working
//! time over a period, net of configured holidays, vacations and sick days.
//!
//! All instants are Unix timestamps in whole seconds; calendar dates are
//! day numbers relative to the Unix epoch (see [`date::Date`]). Conversions
//! between the two go through an explicit local-time offset, so every
//! computation is a pure function of its arguments.

pub mod balance;
pub mod date;
pub mod daysoff;
pub mod formatting;
pub mod frames;
pub mod period;
pub mod report;
pub mod text;
pub mod tracking;
pub mod types;
