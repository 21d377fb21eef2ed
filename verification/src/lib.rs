//! Typed request payloads for a bot HTTP API, with their JSON wire form.

pub mod chars;
pub mod number;
pub mod json;
pub mod parse;
pub mod round_trip;
pub mod types;
pub mod payloads;
pub mod requests;
pub mod laws;
