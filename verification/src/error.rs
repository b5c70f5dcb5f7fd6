//! The ways in which a request can fail.

use vstd::prelude::*;

verus! {

/// Why a render or patch request was turned down.
#[derive(Clone, Copy, Debug, PartialEq, Eq, Structural)]
pub enum ErrorKind {
    /// The byte source does not exist.
    SourceNotFound,
    /// Fewer bytes were available than the requested length.
    ShortRead,
    /// The sink is not open for writing, or a write to it failed.
    SinkNotWritable,
    /// The patch offset lies beyond the sink's extent and growth is not allowed.
    OffsetOutOfRange,
    /// A payload token is not a byte in hexadecimal.
    InvalidByteToken,
    /// An offset token is neither `0x` with hexadecimal digits nor decimal.
    InvalidOffsetToken,
    /// A row width of zero.
    InvalidWidth,
}

} // verus!
