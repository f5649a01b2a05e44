//! Telemetry sentence parsing: framing envelope with XOR checksum, talker
//! and sentence-type dispatch, and field parsers for the supported
//! sentences.

pub mod error;
pub mod parser;
pub mod rmc;
pub mod txt;
