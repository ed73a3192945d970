//! A verified core for an annual-birthday bot: a calendar-exact birthday
//! value type (parsing, formatting, age and occurrence derivation) and a pure
//! occurrence scheduler (announcement-window membership and ordered upcoming
//! queries), over plain Gregorian dates with fixed UTC offsets.

pub mod birthday;
pub mod calendar;
pub mod error;
pub mod format;
pub mod model;
pub mod parse;
pub mod schedule;
pub mod store;
pub mod text;
