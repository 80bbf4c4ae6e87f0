//! MTYP chunk: the media type, one opaque 32-bit field.

use vstd::prelude::*;

use crate::error::NrgError;
use crate::readers::{read_u32, spec_be32};
use crate::stream::NrgStream;

verus! {

/// The decoded MTYP chunk.
#[derive(Clone, Copy, Debug)]
pub struct NrgMtyp {
    /// Declared chunk size in bytes, excluding the size field itself.
    pub size: u32,
    /// Opaque field; its meaning is unknown and it is never interpreted.
    pub unknown: u32,
}

impl NrgMtyp {
    /// An empty chunk, before anything is decoded into it.
    pub fn new() -> (c: Self)
        ensures
            c.size == 0,
            c.unknown == 0,
    {
        NrgMtyp { size: 0, unknown: 0 }
    }
}

/// What decoding an MTYP chunk body at `pos` yields: the chunk and the
/// position after it, or the error the decoder stops with.
pub open spec fn spec_read_mtyp(data: Seq<u8>, pos: int) -> Result<(NrgMtyp, int), NrgError> {
    if pos + 8 > data.len() {
        Err(NrgError::Io)
    } else {
        Ok(
            (
                NrgMtyp {
                    size: spec_be32(data.subrange(pos, pos + 4)) as u32,
                    unknown: spec_be32(data.subrange(pos + 4, pos + 8)) as u32,
                },
                pos + 8,
            ),
        )
    }
}

/// Reads the MTYP chunk body: a 32-bit declared size and the opaque
/// field.
pub fn read_nrg_mtyp(fd: &mut NrgStream) -> (r: Result<NrgMtyp, NrgError>)
    requires
        old(fd).wf(),
    ensures
        final(fd).wf(),
        final(fd).data@ == old(fd).data@,
        final(fd).pos >= old(fd).pos,
        match r {
            Ok(c) => spec_read_mtyp(old(fd).data@, old(fd).pos as int) == Ok::<_, NrgError>(
                (c, final(fd).pos as int),
            ),
            Err(e) => spec_read_mtyp(old(fd).data@, old(fd).pos as int) == Err::<(NrgMtyp, int),
                _>(e),
        },
{
    let mut chunk = NrgMtyp::new();
    chunk.size = read_u32(fd)?;
    chunk.unknown = read_u32(fd)?;
    Ok(chunk)
}

} // verus!
