//! Errors a telemetry line can be rejected with.

use vstd::prelude::*;

verus! {

/// Why a line was rejected. Callers log and discard the line; a rejected
/// line never stops the stream.
#[derive(Clone, Copy, Debug, PartialEq, Eq, Structural)]
pub enum Error {
    /// The frame carried a checksum suffix and the body folds to a
    /// different value.
    ChecksumMismatch { expected: u8, actual: u8 },
    /// The `$` ... `\r\n` envelope is missing.
    InvalidFrame,
    /// The envelope is fine but the fields inside do not parse.
    ParseError,
    /// The body holds bytes outside the telemetry character set.
    Utf8Error,
}

} // verus!
