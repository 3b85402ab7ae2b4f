//! The error taxonomy of the client core. Every failure of the codec or of
//! the facade is reported as one of these variants; the core never panics on
//! malformed input data.

use vstd::prelude::*;

verus! {

/// Errors raised by the request formatter, the transport boundary and the
/// response parser.
#[derive(Clone, Copy, Debug, PartialEq, Eq, Structural)]
pub enum DockerApiError {
    /// The request formatter was handed a method other than GET or POST.
    RequestUnsupportedMethod,
    /// The transport returned no response bytes for a request.
    TransportIOFailure,
    /// The response holds no CR LF CR LF boundary between headers and body.
    MalformedResponse,
    /// The status line does not split into three tokens whose second token is
    /// a non-negative integer that fits the machine word.
    InvalidStatusLine,
    /// The header block (up to and including the boundary) is not valid UTF-8.
    InvalidHeaderEncoding,
    /// The chunked body is framed wrongly: a size line without CR LF, a size
    /// that is not plain hexadecimal, or a chunk that is truncated.
    ChunkFramingError,
    /// The (possibly chunk-decoded) body is not valid UTF-8.
    InvalidBodyEncoding,
}

} // verus!
