//! Locating a target icon across the kingdoms of a scrollable world: scan
//! patterns, coordinate calibration, candidate filtering, the exchange store
//! and the scanner's phase machine.
pub mod pattern;
pub mod text;
pub mod locations;
pub mod popup;
pub mod calibrate;
pub mod config;
pub mod phase;
pub mod store;
pub mod detect;
pub mod scan;
pub mod browser;
