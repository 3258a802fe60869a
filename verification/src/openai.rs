//! A Chat Completions endpoint: the request it is sent, and the answer it streams.
pub mod chunk;
pub mod client;
pub mod config;
pub mod model;
pub mod stream;
pub mod wire;
