//! Core of a rolling hardware-temperature monitor.
//!
//! The library keeps a bounded rolling history of sensor samples per metric
//! (the sample store), decides on a millisecond clock when the next sensor
//! poll is due and folds each poll's outcome into the store (the poller), and
//! carries the user-adjustable parameters both loops read (the configuration).
//! Sensor backends and the rendering layer live outside: they hand the poller
//! plain readings and take plain snapshots back.

pub mod config;
pub mod metric;
pub mod poller;
pub mod store;
