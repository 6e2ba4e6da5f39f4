//! A small hand-written JSON decoder: a character-level deserializer with
//! parsers for booleans, unsigned integers and strings, a trait wiring them
//! to Rust types (maps and vectors included), and an earlier stub decoder
//! kept alongside it.

pub mod deser;
pub mod desert;
pub mod error;
