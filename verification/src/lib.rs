//! Activity tracking for a desktop session.
//!
//! The library keeps the live record of which application window has the
//! user's focus, turns the time spent there into usage log rows, and builds
//! the figures that a dashboard shows. Every function carries a contract
//! that Verus proves; clocks, storage and transport are left to the caller,
//! who hands in plain values.

pub mod dashboard;
pub mod flush;
pub mod identity;
pub mod log;
pub mod monitor;
pub mod retention;
pub mod schedule;
pub mod store;
pub mod table;
pub mod url_hint;
