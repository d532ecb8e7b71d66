use vstd::prelude::*;

verus! {

/// Every way in which an operation of this crate can fail.
#[derive(Debug, Clone, Copy, PartialEq, Eq, Structural)]
pub enum PngError {
    /// A chunk type given as text is not exactly four bytes long.
    InvalidLength,
    /// A chunk type holds a byte that is not an ASCII letter.
    InvalidTag,
    /// Fewer bytes remain than a field needs.
    Truncated,
    /// The checksum stored with a chunk is not the one its contents give.
    ChecksumMismatch,
    /// The buffer does not begin with the eight signature bytes.
    BadSignature,
    /// After the last whole chunk, too few bytes are left to frame another.
    TrailingBytes,
    /// A chunk's data was asked for as text and is not valid UTF-8.
    NotUtf8,
    /// No chunk has the chunk type that was asked for.
    NotFound,
}

} // verus!
