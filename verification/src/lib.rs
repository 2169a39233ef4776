//! An in-memory key-value store driven by a small line-oriented command
//! language: commands are parsed from text, executed against an
//! insertion-ordered store, chained through a pipe operator, and the result is
//! encoded as a plain-text or JSON line.

pub mod command;
pub mod encode;
pub mod engine;
pub mod laws;
pub mod pipe;
pub mod store;
pub mod text;
pub mod wire;
