//! Electricity bills from interval-metered energy readings and time-of-use tariffs.
//!
//! `time` reads wall-clock times, `tariff` holds the ordered rate rules and their first-match
//! lookup, `calendar` turns dates into the day a tariff sees, and `pricing` finds the rate of
//! every reading of an energy table.

pub mod calendar;
pub mod pricing;
pub mod tariff;
pub mod time;
