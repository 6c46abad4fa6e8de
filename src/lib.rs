//! Decides, from a day's electricity spot prices, in which time slots each
//! controllable device is on, and drives the day's schedule slot by slot.
//!
//! - `price`: grid rates added to spot prices by Tallinn's local time.
//! - `series`: a day's non-empty, chronological price series.
//! - `device`: a device's constraints and their validation.
//! - `solver`: the threshold and windowed ratio constraints, and what holds of them.
//! - `schedule`: the phases of a day, slot timing and the day's plan.

pub mod device;
pub mod price;
pub mod schedule;
pub mod series;
pub mod solver;
