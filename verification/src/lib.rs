//! Protocol logic of the pipeline's model, dispatch and audio adapters.
pub mod audio;
pub mod dispatch;
pub mod hermes;
pub mod http;
pub mod ids;
pub mod json;
pub mod llamacpp;
pub mod lm;
pub mod openai;
pub mod records;
pub mod registry;
pub mod text;
pub mod web_lm;
pub mod zeroclaw;
pub mod zeroclaw_lm;
