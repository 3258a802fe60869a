//! A ZeroClaw daemon session as a language model: the RPC protocol, the turns it runs,
//! and the background delegations it reports.
pub mod client;
pub mod config;
pub mod protocol;
pub mod render;
pub mod source;
pub mod turn;
pub mod worker;
