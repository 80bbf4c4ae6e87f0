//! The metadata aggregate and the chunk dispatcher.
//!
//! An NRG image ends with a footer naming the offset of a chunk stream:
//! repeated `{4-byte tag}{chunk body}` blocks up to an end tag. The
//! dispatcher walks that stream, decodes the chunks it knows, skips the
//! recognized-but-uninteresting ones, and fails on any other tag.

use vstd::prelude::*;

use crate::afnm::{read_nrg_afnm, spec_read_afnm, AfnmView, NrgAfnm};
use crate::cuex::{read_nrg_cuex, spec_read_cuex, CuexView, NrgCuex};
use crate::daox::{
    read_nrg_daox, spec_read_daox, spec_read_daox_track, spec_read_daox_tracks, DaoxView, NrgDaox,
};
use crate::error::{NrgError, NrgFormatCause};
use crate::mtyp::{read_nrg_mtyp, spec_read_mtyp, NrgMtyp};
use crate::readers::{read_u32, read_u64, spec_be32, spec_be64};
use crate::sinf::{read_nrg_sinf, spec_read_sinf, NrgSinf};
use crate::stream::NrgStream;

verus! {

/// "CUEX", packed big-endian.
pub const TAG_CUEX: u32 = 0x43554558;

/// "DAOX", packed big-endian.
pub const TAG_DAOX: u32 = 0x44414F58;

/// "SINF", packed big-endian.
pub const TAG_SINF: u32 = 0x53494E46;

/// "MTYP", packed big-endian.
pub const TAG_MTYP: u32 = 0x4D545950;

/// "AFNM", packed big-endian.
pub const TAG_AFNM: u32 = 0x41464E4D;

/// "END!", packed big-endian: the chunk-stream terminator.
pub const TAG_END: u32 = 0x454E4421;

/// "NER5", packed big-endian: the version-2 footer sentinel.
pub const TAG_NER5: u32 = 0x4E455235;

/// "NERO", packed big-endian: the version-1 footer sentinel.
pub const TAG_NERO: u32 = 0x4E45524F;

/// "CDTX", packed big-endian.
pub const TAG_CDTX: u32 = 0x43445458;

/// "ETN2", packed big-endian.
pub const TAG_ETN2: u32 = 0x45544E32;

/// "DINF", packed big-endian.
pub const TAG_DINF: u32 = 0x44494E46;

/// "TOCT", packed big-endian.
pub const TAG_TOCT: u32 = 0x544F4354;

/// "RELO", packed big-endian.
pub const TAG_RELO: u32 = 0x52454C4F;

/// "VOLM", packed big-endian.
pub const TAG_VOLM: u32 = 0x564F4C4D;

/// The tags that are recognized but not decoded: their chunks are
/// skipped whole and the tag is recorded.
pub open spec fn spec_is_skip_tag(tag: int) -> bool {
    ||| tag == TAG_CDTX
    ||| tag == TAG_ETN2
    ||| tag == TAG_DINF
    ||| tag == TAG_TOCT
    ||| tag == TAG_RELO
    ||| tag == TAG_VOLM
}

/// The accumulated result of one full parse of an NRG image.
///
/// A chunk kind that occurs more than once keeps only its last
/// occurrence: each decoded chunk overwrites the previous value of the
/// same slot.
#[derive(Clone, Debug)]
pub struct NrgMetadata {
    /// Total size of the image in bytes.
    pub file_size: u64,
    /// Container version: only 2 is fully supported.
    pub nrg_version: u8,
    /// Offset of the first metadata chunk, read from the footer.
    pub chunk_offset: u64,
    /// The last CUEX chunk seen, if any.
    pub cuex_chunk: Option<NrgCuex>,
    /// The last DAOX chunk seen, if any.
    pub daox_chunk: Option<NrgDaox>,
    /// The last SINF chunk seen, if any.
    pub sinf_chunk: Option<NrgSinf>,
    /// The last MTYP chunk seen, if any.
    pub mtyp_chunk: Option<NrgMtyp>,
    /// The last AFNM chunk seen, if any.
    pub afnm_chunk: Option<NrgAfnm>,
    /// The recognized-but-skipped tags, in stream order.
    pub skipped_chunks: Vec<u32>,
}

/// Mathematical model of the metadata aggregate.
pub ghost struct MetadataView {
    pub file_size: u64,
    pub nrg_version: u8,
    pub chunk_offset: u64,
    pub cuex_chunk: Option<CuexView>,
    pub daox_chunk: Option<DaoxView>,
    pub sinf_chunk: Option<NrgSinf>,
    pub mtyp_chunk: Option<NrgMtyp>,
    pub afnm_chunk: Option<AfnmView>,
    pub skipped_chunks: Seq<u32>,
}

impl View for NrgMetadata {
    type V = MetadataView;

    open spec fn view(&self) -> MetadataView {
        MetadataView {
            file_size: self.file_size,
            nrg_version: self.nrg_version,
            chunk_offset: self.chunk_offset,
            cuex_chunk: match self.cuex_chunk {
                Some(c) => Some(c@),
                None => None,
            },
            daox_chunk: match self.daox_chunk {
                Some(c) => Some(c@),
                None => None,
            },
            sinf_chunk: self.sinf_chunk,
            mtyp_chunk: self.mtyp_chunk,
            afnm_chunk: match self.afnm_chunk {
                Some(c) => Some(c@),
                None => None,
            },
            skipped_chunks: self.skipped_chunks@,
        }
    }
}

impl MetadataView {
    /// Byte offset of the first audio byte: the track start of the
    /// first DAOX track, or 0 when there is no DAOX track.
    pub open spec fn spec_first_audio_byte(self) -> u64 {
        match self.daox_chunk {
            Some(d) => if d.tracks.len() > 0 {
                d.tracks[0].index1
            } else {
                0
            },
            None => 0,
        }
    }

    /// Byte offset one past the last audio byte: the end of the last
    /// DAOX track, or the first-chunk offset when there is no DAOX
    /// track.
    pub open spec fn spec_last_audio_byte(self) -> u64 {
        match self.daox_chunk {
            Some(d) => if d.tracks.len() > 0 {
                d.tracks[d.tracks.len() - 1].track_end
            } else {
                self.chunk_offset
            },
            None => self.chunk_offset,
        }
    }

    /// Sector size of the image, taken from the first DAOX track; 0
    /// when there is no DAOX track.
    pub open spec fn spec_sector_size(self) -> u16 {
        match self.daox_chunk {
            Some(d) => if d.tracks.len() > 0 {
                d.tracks[0].sector_size
            } else {
                0
            },
            None => 0,
        }
    }
}

impl NrgMetadata {
    /// An empty aggregate, before anything is parsed into it.
    pub fn new() -> (nm: Self)
        ensures
            nm@.file_size == 0,
            nm@.nrg_version == 0,
            nm@.chunk_offset == 0,
            nm@.cuex_chunk.is_none(),
            nm@.daox_chunk.is_none(),
            nm@.sinf_chunk.is_none(),
            nm@.mtyp_chunk.is_none(),
            nm@.afnm_chunk.is_none(),
            nm@.skipped_chunks.len() == 0,
    {
        NrgMetadata {
            file_size: 0,
            nrg_version: 0,
            chunk_offset: 0,
            cuex_chunk: None,
            daox_chunk: None,
            sinf_chunk: None,
            mtyp_chunk: None,
            afnm_chunk: None,
            skipped_chunks: Vec::new(),
        }
    }

    /// Returns the offset of the first audio byte in the image: the
    /// `index1` of the first DAOX track, or 0 if there are no DAOX
    /// tracks.
    pub fn first_audio_byte(&self) -> (r: u64)
        ensures
            r == self@.spec_first_audio_byte(),
    {
        if let Some(daox_chunk) = self.daox_chunk.as_ref() {
            if daox_chunk.tracks.len() > 0 {
                return daox_chunk.tracks[0].index1;
            }
        }
        0
    }

    /// Returns the number of the byte past the last audio byte in the
    /// image: the `track_end` of the last DAOX track if one is present,
    /// the first-chunk offset otherwise.
    pub fn last_audio_byte(&self) -> (r: u64)
        ensures
            r == self@.spec_last_audio_byte(),
    {
        if let Some(daox_chunk) = self.daox_chunk.as_ref() {
            if daox_chunk.tracks.len() > 0 {
                return daox_chunk.tracks[daox_chunk.tracks.len() - 1].track_end;
            }
        }
        self.chunk_offset
    }

    /// Returns the sector size of the image, from the first DAOX track;
    /// every track is assumed to share it. 0 if there are no DAOX
    /// tracks.
    pub fn sector_size(&self) -> (r: u16)
        ensures
            r == self@.spec_sector_size(),
    {
        if let Some(daox_chunk) = self.daox_chunk.as_ref() {
            if daox_chunk.tracks.len() > 0 {
                return daox_chunk.tracks[0].sector_size;
            }
        }
        0
    }
}

/// What the chunk dispatcher yields from `pos` with the chunks of `m`
/// already gathered: the final aggregate and the position after the end
/// tag, or the first error.
///
/// The two guards on cursor movement can never fire (every chunk
/// consumes at least its tag and stays within the data); they make the
/// recursion visibly terminating.
pub open spec fn spec_read_chunks(data: Seq<u8>, pos: int, m: MetadataView) -> Result<
    (MetadataView, int),
    NrgError,
>
    decreases data.len() - pos,
{
    if pos + 4 > data.len() {
        Err(NrgError::Io)
    } else {
        let tag = spec_be32(data.subrange(pos, pos + 4));
        if tag == TAG_END {
            Ok((m, pos + 4))
        } else if tag == TAG_CUEX {
            match spec_read_cuex(data, pos + 4) {
                Err(e) => Err(e),
                Ok((c, p)) => if p <= pos + 4 || p > data.len() {
                    Err(NrgError::Io)
                } else {
                    spec_read_chunks(data, p, MetadataView { cuex_chunk: Some(c), ..m })
                },
            }
        } else if tag == TAG_DAOX {
            match spec_read_daox(data, pos + 4) {
                Err(e) => Err(e),
                Ok((c, p)) => if p <= pos + 4 || p > data.len() {
                    Err(NrgError::Io)
                } else {
                    spec_read_chunks(data, p, MetadataView { daox_chunk: Some(c), ..m })
                },
            }
        } else if tag == TAG_SINF {
            match spec_read_sinf(data, pos + 4) {
                Err(e) => Err(e),
                Ok((c, p)) => if p <= pos + 4 || p > data.len() {
                    Err(NrgError::Io)
                } else {
                    spec_read_chunks(data, p, MetadataView { sinf_chunk: Some(c), ..m })
                },
            }
        } else if tag == TAG_MTYP {
            match spec_read_mtyp(data, pos + 4) {
                Err(e) => Err(e),
                Ok((c, p)) => if p <= pos + 4 || p > data.len() {
                    Err(NrgError::Io)
                } else {
                    spec_read_chunks(data, p, MetadataView { mtyp_chunk: Some(c), ..m })
                },
            }
        } else if tag == TAG_AFNM {
            match spec_read_afnm(data, pos + 4) {
                Err(e) => Err(e),
                Ok((c, p)) => if p <= pos + 4 || p > data.len() {
                    Err(NrgError::Io)
                } else {
                    spec_read_chunks(data, p, MetadataView { afnm_chunk: Some(c), ..m })
                },
            }
        } else if spec_is_skip_tag(tag) {
            if pos + 8 > data.len() {
                Err(NrgError::Io)
            } else {
                let size = spec_be32(data.subrange(pos + 4, pos + 8));
                let p = if pos + 8 + size <= data.len() {
                    pos + 8 + size
                } else {
                    data.len() as int
                };
                spec_read_chunks(
                    data,
                    p,
                    MetadataView { skipped_chunks: m.skipped_chunks.push(tag as u32), ..m },
                )
            }
        } else {
            Err(NrgError::NrgChunkId(tag as u32))
        }
    }
}

/// Reads a 4-byte chunk tag, packed big-endian.
fn read_nrg_chunk_id(fd: &mut NrgStream) -> (r: Result<u32, NrgError>)
    requires
        old(fd).wf(),
    ensures
        final(fd).wf(),
        final(fd).data@ == old(fd).data@,
        match r {
            Ok(tag) => {
                &&& old(fd).pos + 4 <= old(fd).data@.len()
                &&& tag == spec_be32(old(fd).data@.subrange(old(fd).pos as int, old(fd).pos + 4))
                &&& final(fd).pos == old(fd).pos + 4
            },
            Err(e) => {
                &&& old(fd).pos + 4 > old(fd).data@.len()
                &&& e == NrgError::Io
                &&& final(fd).pos == old(fd).pos
            },
        },
{
    read_u32(fd)
}

/// Skips a chunk: reads its declared size and moves the cursor past its
/// body.
fn skip_chunk(fd: &mut NrgStream) -> (r: Result<(), NrgError>)
    requires
        old(fd).wf(),
    ensures
        final(fd).wf(),
        final(fd).data@ == old(fd).data@,
        final(fd).pos >= old(fd).pos,
        match r {
            Ok(_) => {
                &&& old(fd).pos + 4 <= old(fd).data@.len()
                &&& {
                    let size = spec_be32(
                        old(fd).data@.subrange(old(fd).pos as int, old(fd).pos + 4),
                    );
                    final(fd).pos == if old(fd).pos + 4 + size <= old(fd).data@.len() {
                        old(fd).pos + 4 + size
                    } else {
                        old(fd).data@.len() as int
                    }
                }
            },
            Err(e) => {
                &&& old(fd).pos + 4 > old(fd).data@.len()
                &&& e == NrgError::Io
            },
        },
{
    let chunk_size = read_u32(fd)?;
    fd.seek_forward(chunk_size);
    Ok(())
}

/// One dispatcher step on a CUEX tag: the walk's outcome from `pos` is
/// the decoder's error, or the walk from after the chunk with the CUEX
/// slot filled.
proof fn lemma_chunks_step_cuex(data: Seq<u8>, pos: int, m: MetadataView)
    requires
        pos + 4 <= data.len(),
        spec_be32(data.subrange(pos, pos + 4)) == TAG_CUEX,
    ensures
        spec_read_cuex(data, pos + 4) matches Err(e) ==> spec_read_chunks(data, pos, m) == Err::<
            (MetadataView, int),
            NrgError,
        >(e),
        spec_read_cuex(data, pos + 4) matches Ok((c, p)) ==> (p <= data.len()
            ==> spec_read_chunks(data, pos, m) == spec_read_chunks(
            data,
            p,
            MetadataView { cuex_chunk: Some(c), ..m },
        )),
{
    match spec_read_cuex(data, pos + 4) {
        Ok((c, p)) => {
            assert(p > pos + 4);
        },
        Err(_) => {},
    }
}

/// Every position a successful record walk reaches stays inside the
/// data and past its start.
proof fn lemma_daox_tracks_bounds(data: Seq<u8>, pos: int, k: nat)
    requires
        pos <= data.len(),
    ensures
        spec_read_daox_tracks(data, pos, k) matches Ok((ts, p)) ==> pos <= p <= data.len(),
    decreases k,
{
    if k > 0 {
        match spec_read_daox_track(data, pos) {
            Ok((t, p)) => {
                lemma_daox_tracks_bounds(data, p, (k - 1) as nat);
            },
            Err(_) => {},
        }
    }
}

/// One dispatcher step on a DAOX tag.
proof fn lemma_chunks_step_daox(data: Seq<u8>, pos: int, m: MetadataView)
    requires
        pos + 4 <= data.len(),
        spec_be32(data.subrange(pos, pos + 4)) == TAG_DAOX,
    ensures
        spec_read_daox(data, pos + 4) matches Err(e) ==> spec_read_chunks(data, pos, m) == Err::<
            (MetadataView, int),
            NrgError,
        >(e),
        spec_read_daox(data, pos + 4) matches Ok((c, p)) ==> (p <= data.len()
            ==> spec_read_chunks(data, pos, m) == spec_read_chunks(
            data,
            p,
            MetadataView { daox_chunk: Some(c), ..m },
        )),
{
    match spec_read_daox(data, pos + 4) {
        Ok((c, p)) => {
            let size = spec_be32(data.subrange(pos + 4, pos + 8));
            lemma_daox_tracks_bounds(data, pos + 30, ((size - 22) / 42) as nat);
            assert(p > pos + 4);
        },
        Err(_) => {},
    }
}

/// One dispatcher step on a SINF tag.
proof fn lemma_chunks_step_sinf(data: Seq<u8>, pos: int, m: MetadataView)
    requires
        pos + 4 <= data.len(),
        spec_be32(data.subrange(pos, pos + 4)) == TAG_SINF,
    ensures
        spec_read_sinf(data, pos + 4) matches Err(e) ==> spec_read_chunks(data, pos, m) == Err::<
            (MetadataView, int),
            NrgError,
        >(e),
        spec_read_sinf(data, pos + 4) matches Ok((c, p)) ==> (p <= data.len()
            ==> spec_read_chunks(data, pos, m) == spec_read_chunks(
            data,
            p,
            MetadataView { sinf_chunk: Some(c), ..m },
        )),
{
}

/// One dispatcher step on an MTYP tag.
proof fn lemma_chunks_step_mtyp(data: Seq<u8>, pos: int, m: MetadataView)
    requires
        pos + 4 <= data.len(),
        spec_be32(data.subrange(pos, pos + 4)) == TAG_MTYP,
    ensures
        spec_read_mtyp(data, pos + 4) matches Err(e) ==> spec_read_chunks(data, pos, m) == Err::<
            (MetadataView, int),
            NrgError,
        >(e),
        spec_read_mtyp(data, pos + 4) matches Ok((c, p)) ==> (p <= data.len()
            ==> spec_read_chunks(data, pos, m) == spec_read_chunks(
            data,
            p,
            MetadataView { mtyp_chunk: Some(c), ..m },
        )),
{
}

/// One dispatcher step on an AFNM tag.
proof fn lemma_chunks_step_afnm(data: Seq<u8>, pos: int, m: MetadataView)
    requires
        pos + 4 <= data.len(),
        spec_be32(data.subrange(pos, pos + 4)) == TAG_AFNM,
    ensures
        spec_read_afnm(data, pos + 4) matches Err(e) ==> spec_read_chunks(data, pos, m) == Err::<
            (MetadataView, int),
            NrgError,
        >(e),
        spec_read_afnm(data, pos + 4) matches Ok((c, p)) ==> (p <= data.len()
            ==> spec_read_chunks(data, pos, m) == spec_read_chunks(
            data,
            p,
            MetadataView { afnm_chunk: Some(c), ..m },
        )),
{
    match spec_read_afnm(data, pos + 4) {
        Ok((c, p)) => {
            assert(p > pos + 4);
        },
        Err(_) => {},
    }
}

/// One dispatcher step on a recognized-but-skipped tag.
proof fn lemma_chunks_step_skip(data: Seq<u8>, pos: int, m: MetadataView)
    requires
        pos + 4 <= data.len(),
        spec_is_skip_tag(spec_be32(data.subrange(pos, pos + 4))),
    ensures
        pos + 8 > data.len() ==> spec_read_chunks(data, pos, m) == Err::<
            (MetadataView, int),
            NrgError,
        >(NrgError::Io),
        pos + 8 <= data.len() ==> {
            let tag = spec_be32(data.subrange(pos, pos + 4));
            let size = spec_be32(data.subrange(pos + 4, pos + 8));
            let p = if pos + 8 + size <= data.len() {
                pos + 8 + size
            } else {
                data.len() as int
            };
            spec_read_chunks(data, pos, m) == spec_read_chunks(
                data,
                p,
                MetadataView { skipped_chunks: m.skipped_chunks.push(tag as u32), ..m },
            )
        },
{
}

/// Walks the chunk stream from the current cursor, decoding or skipping
/// each chunk, until the end tag; each decoded chunk lands in its slot
/// of `nm`, overwriting any earlier chunk of the same kind.
fn read_nrg_chunks(fd: &mut NrgStream, nm: &mut NrgMetadata) -> (r: Result<(), NrgError>)
    requires
        old(fd).wf(),
    ensures
        final(fd).wf(),
        final(fd).data@ == old(fd).data@,
        match r {
            Ok(_) => spec_read_chunks(old(fd).data@, old(fd).pos as int, old(nm)@)
                == Ok::<_, NrgError>((final(nm)@, final(fd).pos as int)),
            Err(e) => spec_read_chunks(old(fd).data@, old(fd).pos as int, old(nm)@) == Err::<
                (MetadataView, int),
                _,
            >(e),
        },
{
    let ghost data: Seq<u8> = old(fd).data@;
    loop
        invariant
            fd.wf(),
            data == old(fd).data@,
            fd.data@ == data,
            spec_read_chunks(data, old(fd).pos as int, old(nm)@) == spec_read_chunks(
                data,
                fd.pos as int,
                nm@,
            ),
        decreases data.len() - fd.pos,
    {
        let ghost pos: int = fd.pos as int;
        let ghost m: MetadataView = nm@;
        let chunk_id = match read_nrg_chunk_id(fd) {
            Ok(t) => t,
            Err(e) => {
                return Err(e);
            },
        };
        if chunk_id == TAG_END {
            return Ok(());
        } else if chunk_id == TAG_CUEX {
            proof {
                lemma_chunks_step_cuex(data, pos, m);
            }
            match read_nrg_cuex(fd) {
                Ok(c) => {
                    nm.cuex_chunk = Some(c);
                },
                Err(e) => {
                    return Err(e);
                },
            }
        } else if chunk_id == TAG_DAOX {
            proof {
                lemma_chunks_step_daox(data, pos, m);
            }
            match read_nrg_daox(fd) {
                Ok(c) => {
                    nm.daox_chunk = Some(c);
                },
                Err(e) => {
                    return Err(e);
                },
            }
        } else if chunk_id == TAG_SINF {
            proof {
                lemma_chunks_step_sinf(data, pos, m);
            }
            match read_nrg_sinf(fd) {
                Ok(c) => {
                    nm.sinf_chunk = Some(c);
                },
                Err(e) => {
                    return Err(e);
                },
            }
        } else if chunk_id == TAG_MTYP {
            proof {
                lemma_chunks_step_mtyp(data, pos, m);
            }
            match read_nrg_mtyp(fd) {
                Ok(c) => {
                    nm.mtyp_chunk = Some(c);
                },
                Err(e) => {
                    return Err(e);
                },
            }
        } else if chunk_id == TAG_AFNM {
            proof {
                lemma_chunks_step_afnm(data, pos, m);
            }
            match read_nrg_afnm(fd) {
                Ok(c) => {
                    nm.afnm_chunk = Some(c);
                },
                Err(e) => {
                    return Err(e);
                },
            }
        } else if chunk_id == TAG_CDTX || chunk_id == TAG_ETN2 || chunk_id == TAG_DINF
            || chunk_id == TAG_TOCT || chunk_id == TAG_RELO || chunk_id == TAG_VOLM {
            proof {
                lemma_chunks_step_skip(data, pos, m);
            }
            match skip_chunk(fd) {
                Ok(_) => {
                    nm.skipped_chunks.push(chunk_id);
                },
                Err(e) => {
                    return Err(e);
                },
            }
        } else {
            return Err(NrgError::NrgChunkId(chunk_id));
        }
        proof {
            assert(spec_read_chunks(data, pos, m) == spec_read_chunks(data, fd.pos as int, nm@));
        }
    }
}

/// The container version encoded in the footer: the last 12 bytes hold
/// the version-2 sentinel and a 64-bit chunk offset, or the last 8 the
/// version-1 sentinel and a 32-bit offset.
pub open spec fn spec_nrg_version(data: Seq<u8>, file_size: u64) -> Result<u8, NrgError> {
    if file_size < 12 {
        Err(NrgError::NrgFormat(NrgFormatCause::TooSmall))
    } else if data.len() < 12 {
        Err(NrgError::Io)
    } else if spec_be32(data.subrange(data.len() - 12, data.len() - 8)) == TAG_NER5 {
        Ok(2)
    } else if spec_be32(data.subrange(data.len() - 8, data.len() - 4)) == TAG_NERO {
        Ok(1)
    } else {
        Err(NrgError::NrgFormat(NrgFormatCause::Unknown))
    }
}

/// Determines the NRG format version of the stream, of declared length
/// `file_size`.
///
/// On `Ok` the cursor is left just after the sentinel that matched, so
/// the caller can read the first-chunk offset without seeking: for
/// version 2 that is 8 bytes before the end.
pub fn read_nrg_version(fd: &mut NrgStream, file_size: u64) -> (r: Result<u8, NrgError>)
    requires
        old(fd).wf(),
    ensures
        final(fd).wf(),
        final(fd).data@ == old(fd).data@,
        r == spec_nrg_version(old(fd).data@, file_size),
        r == Ok::<u8, NrgError>(2) ==> final(fd).pos + 8 == old(fd).data@.len(),
        r == Ok::<u8, NrgError>(1) ==> final(fd).pos + 4 == old(fd).data@.len(),
        file_size < 12 || old(fd).data@.len() < 12 ==> final(fd).pos == old(fd).pos,
        r == Err::<u8, NrgError>(NrgError::NrgFormat(NrgFormatCause::Unknown)) ==> final(fd).pos
            + 4 == old(fd).data@.len(),
{
    if file_size < 12 {
        // Input too small to be an NRG image
        return Err(NrgError::NrgFormat(NrgFormatCause::TooSmall));
    }
    let n = fd.len();
    if n < 12 {
        // The declared size admits a footer but the stream does not:
        // the seek below would fall before the start
        return Err(NrgError::Io);
    }
    // In NRG v2, the main footer is on the last 12 bytes
    fd.seek((n - 12) as u64);
    let chunk_id = match read_nrg_chunk_id(fd) {
        Ok(t) => t,
        Err(e) => {
            return Err(e);
        },
    };
    if chunk_id == TAG_NER5 {
        return Ok(2);  // NRG v2
    }
    // In NRG v1, the main footer is on the last 8 bytes; since we just
    // read 4 bytes after seeking 12 bytes before the end, the cursor is
    // already there
    let chunk_id = match read_nrg_chunk_id(fd) {
        Ok(t) => t,
        Err(e) => {
            return Err(e);
        },
    };
    if chunk_id == TAG_NERO {
        return Ok(1);  // NRG v1
    }
    Err(NrgError::NrgFormat(NrgFormatCause::Unknown))
}

/// What one full parse of `data` yields: the metadata aggregate and
/// the cursor position just after the end tag, or the first error.
pub open spec fn spec_read_nrg_metadata(data: Seq<u8>) -> Result<(MetadataView, int), NrgError> {
    let len = data.len() as int;
    match spec_nrg_version(data, data.len() as u64) {
        Err(e) => Err(e),
        Ok(v) => if v != 2 {
            Err(NrgError::NrgFormat(NrgFormatCause::V1Unsupported))
        } else {
            let offset = spec_be64(data.subrange(len - 8, len));
            let start = if offset <= len {
                offset
            } else {
                len
            };
            let init = MetadataView {
                file_size: data.len() as u64,
                nrg_version: 2,
                chunk_offset: offset as u64,
                cuex_chunk: None,
                daox_chunk: None,
                sinf_chunk: None,
                mtyp_chunk: None,
                afnm_chunk: None,
                skipped_chunks: Seq::empty(),
            };
            spec_read_chunks(data, start, init)
        },
    }
}

/// Reads the metadata chunks of the NRG image held in `fd`.
///
/// The cursor can be anywhere when this function is called: it is reset
/// before anything is read; on success it is left just after the end
/// tag of the chunk stream. Only version 2 is decoded; a version-1
/// image is detected and rejected with a distinct legacy-format error.
pub fn read_nrg_metadata(fd: &mut NrgStream) -> (r: Result<NrgMetadata, NrgError>)
    requires
        old(fd).wf(),
    ensures
        final(fd).wf(),
        final(fd).data@ == old(fd).data@,
        match r {
            Ok(nm) => spec_read_nrg_metadata(old(fd).data@) == Ok::<_, NrgError>(
                (nm@, final(fd).pos as int),
            ),
            Err(e) => spec_read_nrg_metadata(old(fd).data@) == Err::<(MetadataView, int), _>(e),
        },
{
    let mut nm = NrgMetadata::new();

    // Get the stream size
    nm.file_size = fd.len() as u64;

    // Get the NRG format from the footer
    nm.nrg_version = match read_nrg_version(fd, nm.file_size) {
        Ok(v) => v,
        Err(e) => {
            return Err(e);
        },
    };
    if nm.nrg_version != 2 {
        // Only NRG v2 is handled
        return Err(NrgError::NrgFormat(NrgFormatCause::V1Unsupported));
    }

    // Read the first chunk offset
    nm.chunk_offset = match read_u64(fd) {
        Ok(v) => v,
        Err(e) => {
            return Err(e);
        },
    };

    // Read all the chunks
    fd.seek(nm.chunk_offset);
    proof {
        assert(nm@.skipped_chunks =~= Seq::<u32>::empty());
    }
    match read_nrg_chunks(fd, &mut nm) {
        Ok(_) => Ok(nm),
        Err(e) => Err(e),
    }
}

/// The dispatcher only fills chunk slots: the footer fields of the
/// aggregate come through a successful walk unchanged.
proof fn lemma_chunks_keep_footer_fields(data: Seq<u8>, pos: int, m: MetadataView)
    ensures
        spec_read_chunks(data, pos, m) matches Ok((m2, p)) ==> {
            &&& m2.file_size == m.file_size
            &&& m2.nrg_version == m.nrg_version
            &&& m2.chunk_offset == m.chunk_offset
        },
    decreases data.len() - pos,
{
    if pos + 4 <= data.len() {
        let tag = spec_be32(data.subrange(pos, pos + 4));
        if tag == TAG_CUEX {
            if let Ok((c, p)) = spec_read_cuex(data, pos + 4) {
                if pos + 4 < p <= data.len() {
                    lemma_chunks_keep_footer_fields(
                        data,
                        p,
                        MetadataView { cuex_chunk: Some(c), ..m },
                    );
                }
            }
        } else if tag == TAG_DAOX {
            if let Ok((c, p)) = spec_read_daox(data, pos + 4) {
                if pos + 4 < p <= data.len() {
                    lemma_chunks_keep_footer_fields(
                        data,
                        p,
                        MetadataView { daox_chunk: Some(c), ..m },
                    );
                }
            }
        } else if tag == TAG_SINF {
            if let Ok((c, p)) = spec_read_sinf(data, pos + 4) {
                if pos + 4 < p <= data.len() {
                    lemma_chunks_keep_footer_fields(
                        data,
                        p,
                        MetadataView { sinf_chunk: Some(c), ..m },
                    );
                }
            }
        } else if tag == TAG_MTYP {
            if let Ok((c, p)) = spec_read_mtyp(data, pos + 4) {
                if pos + 4 < p <= data.len() {
                    lemma_chunks_keep_footer_fields(
                        data,
                        p,
                        MetadataView { mtyp_chunk: Some(c), ..m },
                    );
                }
            }
        } else if tag == TAG_AFNM {
            if let Ok((c, p)) = spec_read_afnm(data, pos + 4) {
                if pos + 4 < p <= data.len() {
                    lemma_chunks_keep_footer_fields(
                        data,
                        p,
                        MetadataView { afnm_chunk: Some(c), ..m },
                    );
                }
            }
        } else if spec_is_skip_tag(tag) {
            if pos + 8 <= data.len() {
                let size = spec_be32(data.subrange(pos + 4, pos + 8));
                let p = if pos + 8 + size <= data.len() {
                    pos + 8 + size
                } else {
                    data.len() as int
                };
                lemma_chunks_keep_footer_fields(
                    data,
                    p,
                    MetadataView { skipped_chunks: m.skipped_chunks.push(tag as u32), ..m },
                );
            }
        }
    }
}

/// Law of the version-2 footer: on any stream whose last 12 bytes open
/// with the version-2 sentinel, version detection answers 2, and the
/// chunk offset that a successful parse records is exactly the 64-bit
/// big-endian integer held in the 8 bytes after the sentinel.
pub proof fn lemma_v2_footer(data: Seq<u8>)
    requires
        12 <= data.len() <= u64::MAX,
        spec_be32(data.subrange(data.len() - 12, data.len() - 8)) == TAG_NER5,
    ensures
        spec_nrg_version(data, data.len() as u64) == Ok::<u8, NrgError>(2),
        spec_read_nrg_metadata(data) matches Ok((m, _p)) ==> m.chunk_offset == spec_be64(
            data.subrange(data.len() - 8, data.len() as int),
        ) as u64,
{
    let len = data.len() as int;
    let offset = spec_be64(data.subrange(len - 8, len));
    let start = if offset <= len {
        offset
    } else {
        len
    };
    let init = MetadataView {
        file_size: data.len() as u64,
        nrg_version: 2,
        chunk_offset: offset as u64,
        cuex_chunk: None,
        daox_chunk: None,
        sinf_chunk: None,
        mtyp_chunk: None,
        afnm_chunk: None,
        skipped_chunks: Seq::empty(),
    };
    lemma_chunks_keep_footer_fields(data, start, init);
}

} // verus!
