use vstd::prelude::*;

verus! {

/// Failure conditions reported while decoding.
///
/// Every failure is terminal for the in-flight decode attempt; the
/// encoding side has no failure path.
#[derive(Debug, Clone, Copy, PartialEq, Eq, Structural)]
pub enum Error {
    /// String bytes are not valid UTF-8.
    Utf8Encoding,
    /// A primitive or size read needs more bytes than remain.
    ReadingOutOfBounds,
    /// A whole-buffer decode left unread trailing bytes.
    BufferNotEmpty,
    /// A discriminant or tag lies outside the known range.
    InvalidData,
}

} // verus!
