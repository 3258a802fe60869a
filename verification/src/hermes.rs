//! A Hermes Agent gateway: tasks that runs are executed for, and what their runs report.
pub mod classify;
pub mod client;
pub mod config;
pub mod inner;
pub mod task;
