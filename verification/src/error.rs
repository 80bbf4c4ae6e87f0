//! Error type shared by the parser and the artifact generators.

use vstd::prelude::*;

verus! {

/// Reason why a stream of bytes was rejected as an NRG image.
#[derive(Clone, Copy, Debug, PartialEq, Eq, Structural)]
pub enum NrgFormatCause {
    /// The input is shorter than the 12-byte footer.
    TooSmall,
    /// Neither the version-2 nor the version-1 footer sentinel was found.
    Unknown,
    /// A version-1 footer was found; that legacy layout is detected but
    /// not decoded.
    V1Unsupported,
    /// A chunk declared a size that does not match its record layout.
    ChunkSize,
}

/// Error raised by parsing or by one of the artifact generators.
///
/// Every operation is terminal on its first error: nothing is retried
/// and no partial recovery is attempted.
#[derive(Clone, Copy, Debug, PartialEq, Eq, Structural)]
pub enum NrgError {
    /// The input ended before the requested number of bytes could be read.
    Io,
    /// A fixed-size text field (UPC, ISRC) held bytes that are not
    /// well-formed text.
    InvalidString,
    /// The input does not have the expected NRG structure.
    NrgFormat(NrgFormatCause),
    /// A chunk tag that is neither decoded nor known-and-skipped;
    /// carries the offending tag, packed big-endian into a `u32`.
    NrgChunkId(u32),
    /// Cue-sheet generation was requested but no CUEX chunk was parsed.
    NoNrgCue,
    /// A derived output file name is unusable (it collides with the
    /// input name, for instance).
    FileName,
    /// Fewer audio bytes were available than the track layout promised.
    AudioReadError,
    /// An audio write could not take the full buffer.
    AudioWriteError,
}

} // verus!
