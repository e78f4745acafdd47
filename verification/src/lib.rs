//! Runtime core of a quick launcher: independent search providers are
//! re-evaluated against the live query and their contributions are merged
//! into one ranked result list, next to an index of filesystem entries that
//! is kept fresh without blocking query answering.
//!
//! Everything here is verified, but for two calls into outside code whose
//! contracts are taken on trust: pattern matching in the tokenizer and the
//! TOML reader of the settings.
//! Threads, the persistent store and the window shell live with the
//! executable that depends on this crate.

pub mod calculator;
pub mod config;
pub mod filesystem;
pub mod plugin_api;
pub mod sequences;
pub mod text;
