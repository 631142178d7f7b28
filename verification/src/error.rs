//! The failure taxonomy shared by the decoder and the encoder.

use vstd::prelude::*;

verus! {

/// Why a decode or encode call failed.
///
/// Propagation is fail-fast: any failure aborts the current call and no
/// partial value is returned.
#[derive(Clone, Debug, PartialEq)]
pub enum Error {
    /// A consumer-supplied failure, carried through unchanged.
    Message(String),
    /// Bytes meant to be read as text were not valid text.
    FromUtf8(String),
    /// A line did not parse as the expected integer, a framed body's
    /// trailing bytes were not the terminator, or the leading tag byte was
    /// unrecognized.
    Syntax,
    /// The underlying byte source reported a failure other than running out
    /// of input.
    Io(String),
    /// The input ended before a complete frame could be read.
    Eof,
}

} // verus!
