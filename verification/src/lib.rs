//! Core logic of a GNSS-synchronized clock: streaming extraction of
//! checksummed binary configuration frames and CR/LF-delimited telemetry
//! lines from fixed-capacity byte windows, a sentence parser for the
//! telemetry protocol, the receiver acquisition state machine, and the
//! event dispatch rules that feed the display logic.

pub mod crlf_stream;
pub mod datetime;
pub mod events;
pub mod max_m10s;
pub mod nmea;
pub mod ubx;
