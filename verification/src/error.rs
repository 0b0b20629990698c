use vstd::prelude::*;

verus! {

/// Every failure the codec can report, returned as an explicit value from the
/// operation that detects it; no operation panics or returns a partial result.
#[derive(Clone, Copy, Debug, PartialEq, Eq, Structural)]
pub enum PngError {
    /// The first 8 bytes of a container differ from the fixed magic header.
    InvalidHeader,
    /// The buffer is shorter than the size a chunk declares.
    TruncatedInput,
    /// A chunk-type byte, or a type text, is outside the ASCII letter ranges.
    InvalidType,
    /// The checksum recomputed over type and payload differs from the stored one.
    ChecksumMismatch,
    /// A payload is not valid UTF-8 although its text form was requested.
    Encoding,
    /// No chunk of the requested type is in the container.
    NotFound,
}

} // verus!
