//! DAOX chunk: Disc-At-Once session information and the per-track byte
//! boundaries of the image.
//!
//! The chunk body is a 4-byte declared size, a 22-byte fixed header,
//! then one 42-byte record per track; decoding consumes exactly the
//! declared size.

use vstd::prelude::*;

use crate::error::{NrgError, NrgFormatCause};
use vstd::arithmetic::div_mod::lemma_fundamental_div_mod;

use crate::readers::{
    read_sized_string, read_u16, read_u32, read_u64, read_u8, spec_be16, spec_be32, spec_be64,
    spec_is_text, spec_null_trunc,
};
use crate::stream::NrgStream;

verus! {

/// One 42-byte DAOX record: the byte boundaries of a single track.
#[derive(Clone, Debug)]
pub struct NrgDaoxTrack {
    /// ISRC code, a fixed 12-byte field truncated at its first null.
    pub isrc: Vec<u8>,
    /// Size in bytes of one sector of this track in the image.
    pub sector_size: u16,
    /// Mode of the track data in the image.
    pub data_mode: u16,
    /// Unknown field, expected to hold 0x0001.
    pub unknown: u16,
    /// Byte offset of the pre-gap start.
    pub index0: u64,
    /// Byte offset of the track start.
    pub index1: u64,
    /// Byte offset one past the end of the track.
    pub track_end: u64,
}

/// Mathematical model of one DAOX record.
pub ghost struct DaoxTrackView {
    pub isrc: Seq<u8>,
    pub sector_size: u16,
    pub data_mode: u16,
    pub unknown: u16,
    pub index0: u64,
    pub index1: u64,
    pub track_end: u64,
}

impl View for NrgDaoxTrack {
    type V = DaoxTrackView;

    open spec fn view(&self) -> DaoxTrackView {
        DaoxTrackView {
            isrc: self.isrc@,
            sector_size: self.sector_size,
            data_mode: self.data_mode,
            unknown: self.unknown,
            index0: self.index0,
            index1: self.index1,
            track_end: self.track_end,
        }
    }
}

impl NrgDaoxTrack {
    /// An empty record.
    pub fn new() -> (t: Self)
        ensures
            t@.isrc.len() == 0,
            t@.sector_size == 0,
            t@.data_mode == 0,
            t@.unknown == 0,
            t@.index0 == 0,
            t@.index1 == 0,
            t@.track_end == 0,
    {
        NrgDaoxTrack {
            isrc: Vec::new(),
            sector_size: 0,
            data_mode: 0,
            unknown: 0,
            index0: 0,
            index1: 0,
            track_end: 0,
        }
    }
}

/// The decoded DAOX chunk.
#[derive(Clone, Debug)]
pub struct NrgDaox {
    /// Declared chunk size in bytes, excluding the size field itself.
    pub size: u32,
    /// The declared size repeated; its endianness is unreliable and the
    /// field is carried opaquely, never interpreted.
    pub size2: u32,
    /// UPC code, a fixed 13-byte field truncated at its first null.
    pub upc: Vec<u8>,
    /// Padding byte, expected to be zero.
    pub padding: u8,
    /// Type of the table of contents.
    pub toc_type: u16,
    /// First track number of the session.
    pub first_track: u8,
    /// Last track number of the session.
    pub last_track: u8,
    /// The decoded records, in the order they appear in the stream.
    pub tracks: Vec<NrgDaoxTrack>,
}

/// Mathematical model of a DAOX chunk.
pub ghost struct DaoxView {
    pub size: u32,
    pub size2: u32,
    pub upc: Seq<u8>,
    pub padding: u8,
    pub toc_type: u16,
    pub first_track: u8,
    pub last_track: u8,
    pub tracks: Seq<DaoxTrackView>,
}

impl View for NrgDaox {
    type V = DaoxView;

    open spec fn view(&self) -> DaoxView {
        DaoxView {
            size: self.size,
            size2: self.size2,
            upc: self.upc@,
            padding: self.padding,
            toc_type: self.toc_type,
            first_track: self.first_track,
            last_track: self.last_track,
            tracks: self.tracks@.map_values(|t: NrgDaoxTrack| t@),
        }
    }
}

impl NrgDaox {
    /// An empty chunk, before anything is decoded into it.
    pub fn new() -> (c: Self)
        ensures
            c@.size == 0,
            c@.size2 == 0,
            c@.upc.len() == 0,
            c@.padding == 0,
            c@.toc_type == 0,
            c@.first_track == 0,
            c@.last_track == 0,
            c@.tracks.len() == 0,
    {
        NrgDaox {
            size: 0,
            size2: 0,
            upc: Vec::new(),
            padding: 0,
            toc_type: 0,
            first_track: 0,
            last_track: 0,
            tracks: Vec::new(),
        }
    }
}

/// The record encoded in a 42-byte block: null-truncated ISRC, then
/// big-endian sector size, data mode, unknown field, and the three
/// 64-bit byte offsets.
pub open spec fn spec_daox_track(b: Seq<u8>) -> DaoxTrackView
    recommends
        b.len() == 42,
{
    DaoxTrackView {
        isrc: spec_null_trunc(b.subrange(0, 12)),
        sector_size: spec_be16(b.subrange(12, 14)) as u16,
        data_mode: spec_be16(b.subrange(14, 16)) as u16,
        unknown: spec_be16(b.subrange(16, 18)) as u16,
        index0: spec_be64(b.subrange(18, 26)) as u64,
        index1: spec_be64(b.subrange(26, 34)) as u64,
        track_end: spec_be64(b.subrange(34, 42)) as u64,
    }
}

/// What decoding one 42-byte record at `pos` yields: the record and
/// the position after it, or the error the decoder stops with (a
/// truncated record, or an ISRC field that is not well-formed text).
pub open spec fn spec_read_daox_track(data: Seq<u8>, pos: int) -> Result<
    (DaoxTrackView, int),
    NrgError,
> {
    if pos + 12 > data.len() {
        Err(NrgError::Io)
    } else if !spec_is_text(spec_null_trunc(data.subrange(pos, pos + 12))) {
        Err(NrgError::InvalidString)
    } else if pos + 42 > data.len() {
        Err(NrgError::Io)
    } else {
        Ok((spec_daox_track(data.subrange(pos, pos + 42)), pos + 42))
    }
}

/// What decoding `k` consecutive records at `pos` yields: the records
/// and the position after them, or the first error.
pub open spec fn spec_read_daox_tracks(data: Seq<u8>, pos: int, k: nat) -> Result<
    (Seq<DaoxTrackView>, int),
    NrgError,
>
    decreases k,
{
    if k == 0 {
        Ok((Seq::empty(), pos))
    } else {
        match spec_read_daox_track(data, pos) {
            Err(e) => Err(e),
            Ok((t, p)) => match spec_read_daox_tracks(data, p, (k - 1) as nat) {
                Err(e) => Err(e),
                Ok((ts, p2)) => Ok((seq![t] + ts, p2)),
            },
        }
    }
}

/// What decoding a DAOX chunk body at `pos` yields: the chunk and the
/// position after it, or the error the decoder stops with.
pub open spec fn spec_read_daox(data: Seq<u8>, pos: int) -> Result<(DaoxView, int), NrgError> {
    if pos + 4 > data.len() {
        Err(NrgError::Io)
    } else {
        let size = spec_be32(data.subrange(pos, pos + 4));
        if pos + 21 > data.len() {
            Err(NrgError::Io)
        } else if !spec_is_text(spec_null_trunc(data.subrange(pos + 8, pos + 21))) {
            Err(NrgError::InvalidString)
        } else if pos + 26 > data.len() {
            Err(NrgError::Io)
        } else if size < 22 || (size - 22) % 42 != 0 {
            Err(NrgError::NrgFormat(NrgFormatCause::ChunkSize))
        } else {
            match spec_read_daox_tracks(data, pos + 26, ((size - 22) / 42) as nat) {
                Err(e) => Err(e),
                Ok((ts, p)) => Ok(
                    (
                        DaoxView {
                            size: size as u32,
                            size2: spec_be32(data.subrange(pos + 4, pos + 8)) as u32,
                            upc: spec_null_trunc(data.subrange(pos + 8, pos + 21)),
                            padding: data[pos + 21],
                            toc_type: spec_be16(data.subrange(pos + 22, pos + 24)) as u16,
                            first_track: data[pos + 24],
                            last_track: data[pos + 25],
                            tracks: ts,
                        },
                        p,
                    ),
                ),
            }
        }
    }
}

/// Reads one 42-byte record.
fn read_nrg_daox_track(fd: &mut NrgStream) -> (r: Result<NrgDaoxTrack, NrgError>)
    requires
        old(fd).wf(),
    ensures
        final(fd).wf(),
        final(fd).data@ == old(fd).data@,
        final(fd).pos >= old(fd).pos,
        match r {
            Ok(t) => spec_read_daox_track(old(fd).data@, old(fd).pos as int) == Ok::<_, NrgError>(
                (t@, final(fd).pos as int),
            ),
            Err(e) => spec_read_daox_track(old(fd).data@, old(fd).pos as int) == Err::<
                (DaoxTrackView, int),
                _,
            >(e),
        },
{
    let ghost block: Seq<u8> = old(fd).data@.subrange(old(fd).pos as int, old(fd).pos + 42);
    let ghost base: int = old(fd).pos as int;
    let mut track = NrgDaoxTrack::new();
    track.isrc = read_sized_string(fd, 12)?;
    track.sector_size = read_u16(fd)?;
    track.data_mode = read_u16(fd)?;
    track.unknown = read_u16(fd)?;
    track.index0 = read_u64(fd)?;
    track.index1 = read_u64(fd)?;
    track.track_end = read_u64(fd)?;
    proof {
        assert(block.subrange(0, 12) =~= old(fd).data@.subrange(base, base + 12));
        assert(block.subrange(12, 14) =~= old(fd).data@.subrange(base + 12, base + 14));
        assert(block.subrange(14, 16) =~= old(fd).data@.subrange(base + 14, base + 16));
        assert(block.subrange(16, 18) =~= old(fd).data@.subrange(base + 16, base + 18));
        assert(block.subrange(18, 26) =~= old(fd).data@.subrange(base + 18, base + 26));
        assert(block.subrange(26, 34) =~= old(fd).data@.subrange(base + 26, base + 34));
        assert(block.subrange(34, 42) =~= old(fd).data@.subrange(base + 34, base + 42));
    }
    Ok(track)
}

/// Reads the DAOX chunk body: a 32-bit declared size, the fixed header,
/// then one 42-byte record per `(size - 22) / 42`.
///
/// A declared size under the header size, or one that does not leave a
/// whole number of records, cannot be consumed exactly and is rejected
/// as a format error.
pub fn read_nrg_daox(fd: &mut NrgStream) -> (r: Result<NrgDaox, NrgError>)
    requires
        old(fd).wf(),
    ensures
        final(fd).wf(),
        final(fd).data@ == old(fd).data@,
        final(fd).pos >= old(fd).pos,
        match r {
            Ok(c) => {
                &&& spec_read_daox(old(fd).data@, old(fd).pos as int)
                    == Ok::<_, NrgError>((c@, final(fd).pos as int))
            },
            Err(e) => spec_read_daox(old(fd).data@, old(fd).pos as int) == Err::<(DaoxView, int),
                _>(e),
        },
{
    let ghost data: Seq<u8> = old(fd).data@;
    let ghost pos0: int = old(fd).pos as int;
    let mut chunk = NrgDaox::new();
    chunk.size = read_u32(fd)?;
    chunk.size2 = read_u32(fd)?;
    chunk.upc = read_sized_string(fd, 13)?;
    chunk.padding = read_u8(fd)?;
    chunk.toc_type = read_u16(fd)?;
    chunk.first_track = read_u8(fd)?;
    chunk.last_track = read_u8(fd)?;
    if chunk.size < 22 || (chunk.size - 22) % 42 != 0 {
        return Err(NrgError::NrgFormat(NrgFormatCause::ChunkSize));
    }
    let size = chunk.size;
    let ghost nrec: nat = ((size - 22) / 42) as nat;
    proof {
        lemma_fundamental_div_mod(size - 22, 42);
        assert(size == 22 + 42 * nrec);
        assert(chunk.tracks@.map_values(|t: NrgDaoxTrack| t@) =~= Seq::<DaoxTrackView>::empty());
        match spec_read_daox_tracks(data, pos0 + 26, nrec) {
            Ok((ts, p)) => {
                assert(Seq::<DaoxTrackView>::empty() + ts =~= ts);
            },
            Err(_) => {},
        }
    }
    let mut bytes_read: u32 = 22;
    while bytes_read < size
        invariant
            fd.wf(),
            data == old(fd).data@,
            pos0 == old(fd).pos,
            fd.data@ == data,
            22 <= bytes_read <= size,
            bytes_read == 22 + 42 * chunk.tracks@.len(),
            size == 22 + 42 * nrec,
            pos0 + 4 <= data.len(),
            pos0 + 26 <= data.len(),
            size == spec_be32(data.subrange(pos0, pos0 + 4)),
            spec_is_text(spec_null_trunc(data.subrange(pos0 + 8, pos0 + 21))),
            fd.pos == pos0 + 4 + bytes_read,
            chunk.size == size,
            chunk.size2 == spec_be32(data.subrange(pos0 + 4, pos0 + 8)),
            chunk.upc@ == spec_null_trunc(data.subrange(pos0 + 8, pos0 + 21)),
            chunk.padding == data[pos0 + 21],
            chunk.toc_type == spec_be16(data.subrange(pos0 + 22, pos0 + 24)),
            chunk.first_track == data[pos0 + 24],
            chunk.last_track == data[pos0 + 25],
            chunk.tracks@.len() <= nrec,
            spec_read_daox_tracks(data, pos0 + 26, nrec) == (match spec_read_daox_tracks(
                data,
                pos0 + 4 + bytes_read,
                (nrec - chunk.tracks@.len()) as nat,
            ) {
                Err(e) => Err::<(Seq<DaoxTrackView>, int), NrgError>(e),
                Ok((ts, p)) => Ok((chunk.tracks@.map_values(|t: NrgDaoxTrack| t@) + ts, p)),
            }),
        decreases size - bytes_read,
    {
        let ghost tv0: Seq<DaoxTrackView> = chunk.tracks@.map_values(|t: NrgDaoxTrack| t@);
        let ghost rem0: nat = (nrec - chunk.tracks@.len()) as nat;
        let ghost prev: int = fd.pos as int;
        proof {
            assert(rem0 > 0);
        }
        let track = match read_nrg_daox_track(fd) {
            Ok(t) => t,
            Err(e) => {
                proof {
                    assert(spec_read_daox_tracks(data, prev, rem0) == Err::<
                        (Seq<DaoxTrackView>, int),
                        NrgError,
                    >(e));
                }
                return Err(e);
            },
        };
        chunk.tracks.push(track);
        bytes_read = bytes_read + 42;
        proof {
            let tv1 = chunk.tracks@.map_values(|t: NrgDaoxTrack| t@);
            assert(tv1 =~= tv0.push(track@));
            assert(spec_read_daox_tracks(data, prev, rem0) == (match spec_read_daox_tracks(
                data,
                fd.pos as int,
                (rem0 - 1) as nat,
            ) {
                Err(e) => Err::<(Seq<DaoxTrackView>, int), NrgError>(e),
                Ok((ts, p)) => Ok((seq![track@] + ts, p)),
            }));
            match spec_read_daox_tracks(data, fd.pos as int, (rem0 - 1) as nat) {
                Ok((ts, p)) => {
                    assert(tv0 + (seq![track@] + ts) =~= tv1 + ts);
                },
                Err(_) => {},
            }
        }
    }
    proof {
        assert(chunk.tracks@.len() == nrec);
        assert(spec_read_daox_tracks(data, pos0 + 4 + bytes_read, 0) == Ok::<_, NrgError>(
            (Seq::<DaoxTrackView>::empty(), pos0 + 4 + bytes_read),
        ));
        let tv = chunk.tracks@.map_values(|t: NrgDaoxTrack| t@);
        assert(tv + Seq::<DaoxTrackView>::empty() =~= tv);
        assert(spec_read_daox_tracks(data, pos0 + 26, nrec) == Ok::<_, NrgError>(
            (tv, pos0 + 4 + size),
        ));
        assert(spec_read_daox(data, pos0) == Ok::<_, NrgError>((chunk@, pos0 + 4 + size)));
    }
    Ok(chunk)
}

} // verus!
