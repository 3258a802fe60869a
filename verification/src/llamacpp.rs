//! A llama.cpp engine: how tools are declared to it and called by it, and how one turn
//! is prepared, decoded and read.
pub mod config;
pub mod dialect;
pub mod intercept;
pub mod worker;
