//! A ZeroClaw gateway's webhook: one request is one whole turn of an agent.
pub mod classify;
pub mod client;
pub mod config;
pub mod inner;
pub mod task;
