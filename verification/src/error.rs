use vstd::prelude::*;

verus! {

/// The closed set of failures that chunk validation, stream parsing and
/// container operations can report.
#[derive(Debug, Clone, Copy, PartialEq, Eq, Structural)]
pub enum PngError {
    /// A chunk type byte is not an ASCII letter.
    InvalidTypeBytes,
    /// A textual chunk type is not exactly four bytes long once encoded.
    InvalidLength,
    /// A chunk buffer holds fewer bytes than the smallest possible chunk.
    TooShort,
    /// A declared chunk length would read past the end of the stream.
    TruncatedStream,
    /// The recomputed checksum does not equal the stored one.
    ChecksumMismatch,
    /// The stream does not begin with the fixed PNG signature.
    BadSignature,
    /// A chunk payload is not valid UTF-8 text.
    InvalidText,
    /// No chunk of the requested type exists in the container.
    NotFound,
    /// The container holds no terminating chunk to insert before.
    NoTerminator,
}

} // verus!
