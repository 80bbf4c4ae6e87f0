//! SINF chunk: session information, a single track count.

use vstd::prelude::*;

use crate::error::NrgError;
use crate::readers::{read_u32, spec_be32};
use crate::stream::NrgStream;

verus! {

/// The decoded SINF chunk.
#[derive(Clone, Copy, Debug)]
pub struct NrgSinf {
    /// Declared chunk size in bytes, excluding the size field itself.
    pub size: u32,
    /// Number of tracks in the session.
    pub nb_tracks: u32,
}

impl NrgSinf {
    /// An empty chunk, before anything is decoded into it.
    pub fn new() -> (c: Self)
        ensures
            c.size == 0,
            c.nb_tracks == 0,
    {
        NrgSinf { size: 0, nb_tracks: 0 }
    }
}

/// What decoding a SINF chunk body at `pos` yields: the chunk and the
/// position after it, or the error the decoder stops with.
pub open spec fn spec_read_sinf(data: Seq<u8>, pos: int) -> Result<(NrgSinf, int), NrgError> {
    if pos + 8 > data.len() {
        Err(NrgError::Io)
    } else {
        Ok(
            (
                NrgSinf {
                    size: spec_be32(data.subrange(pos, pos + 4)) as u32,
                    nb_tracks: spec_be32(data.subrange(pos + 4, pos + 8)) as u32,
                },
                pos + 8,
            ),
        )
    }
}

/// Reads the SINF chunk body: a 32-bit declared size and the track
/// count of the session.
pub fn read_nrg_sinf(fd: &mut NrgStream) -> (r: Result<NrgSinf, NrgError>)
    requires
        old(fd).wf(),
    ensures
        final(fd).wf(),
        final(fd).data@ == old(fd).data@,
        final(fd).pos >= old(fd).pos,
        match r {
            Ok(c) => spec_read_sinf(old(fd).data@, old(fd).pos as int) == Ok::<_, NrgError>(
                (c, final(fd).pos as int),
            ),
            Err(e) => spec_read_sinf(old(fd).data@, old(fd).pos as int) == Err::<(NrgSinf, int),
                _>(e),
        },
{
    let mut chunk = NrgSinf::new();
    chunk.size = read_u32(fd)?;
    chunk.nb_tracks = read_u32(fd)?;
    Ok(chunk)
}

} // verus!
