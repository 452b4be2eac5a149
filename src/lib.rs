//! Monitoring of the edge location ("colo") that serves a set of HTTP
//! endpoints: change detection with debounced alerts, merging of the
//! last-known state, selection of logged observations, and report
//! statistics over a window of observations.

pub mod time;
pub mod observation;
pub mod stats;
pub mod colo;
pub mod report;
pub mod detect;
pub mod store;
pub mod text;
pub mod log;
pub mod trace;
pub mod alert;
pub mod notify;
pub mod window;
pub mod settings;
pub mod schedule;
