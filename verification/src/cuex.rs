//! CUEX chunk: the cue-sheet track/index positions of the image.
//!
//! The chunk body is a 4-byte declared size followed by `size / 8`
//! fixed-size records; decoding consumes exactly `size` bytes.

use vstd::prelude::*;

use vstd::arithmetic::div_mod::{
    lemma_fundamental_div_mod_converse_div, lemma_fundamental_div_mod_converse_mod,
};

use crate::error::{NrgError, NrgFormatCause};
use crate::readers::{
    read_u32, read_u8, read_u8_bcd, spec_bcd, spec_be32,
};
use crate::stream::NrgStream;

verus! {

/// One 8-byte CUEX record: a track/index point on the disc.
#[derive(Clone, Copy, Debug)]
pub struct NrgCuexTrack {
    /// Track mode byte (audio, copy-protected audio, data).
    pub mode: u8,
    /// Track number: 0 is the lead-in, 0xAA the lead-out.
    pub track_number: u8,
    /// Index number: 0 marks a pre-gap, 1 the track start.
    pub index_number: u8,
    /// Padding byte, expected to be zero.
    pub padding: u8,
    /// Position in sectors; may be negative only on the first record.
    pub position_sectors: i32,
}

impl NrgCuexTrack {
    /// An all-zero record.
    pub fn new() -> (t: Self)
        ensures
            t.mode == 0,
            t.track_number == 0,
            t.index_number == 0,
            t.padding == 0,
            t.position_sectors == 0,
    {
        NrgCuexTrack { mode: 0, track_number: 0, index_number: 0, padding: 0, position_sectors: 0 }
    }
}

/// The decoded CUEX chunk: declared byte size and the records in
/// stream order.
#[derive(Clone, Debug)]
pub struct NrgCuex {
    /// Declared chunk size in bytes, excluding the size field itself.
    pub size: u32,
    /// The decoded records, in the order they appear in the stream.
    pub tracks: Vec<NrgCuexTrack>,
}

/// Mathematical model of a CUEX chunk.
pub ghost struct CuexView {
    pub size: u32,
    pub tracks: Seq<NrgCuexTrack>,
}

impl View for NrgCuex {
    type V = CuexView;

    open spec fn view(&self) -> CuexView {
        CuexView { size: self.size, tracks: self.tracks@ }
    }
}

impl NrgCuex {
    /// An empty chunk, before anything is decoded into it.
    pub fn new() -> (c: Self)
        ensures
            c.size == 0,
            c.tracks@.len() == 0,
    {
        NrgCuex { size: 0, tracks: Vec::new() }
    }
}

/// The record encoded in an 8-byte block: mode byte, BCD track number,
/// BCD index number, padding byte, and a signed 32-bit big-endian
/// sector position.
pub open spec fn spec_cuex_track(b: Seq<u8>) -> NrgCuexTrack
    recommends
        b.len() == 8,
{
    NrgCuexTrack {
        mode: b[0],
        track_number: spec_bcd(b[1]),
        index_number: spec_bcd(b[2]),
        padding: b[3],
        position_sectors: spec_be32(b.subrange(4, 8)) as u32 as i32,
    }
}

/// What decoding a CUEX chunk body at `pos` yields: the chunk and the
/// position after it, or the error the decoder stops with.
pub open spec fn spec_read_cuex(data: Seq<u8>, pos: int) -> Result<(CuexView, int), NrgError> {
    if pos + 4 > data.len() {
        Err(NrgError::Io)
    } else {
        let size = spec_be32(data.subrange(pos, pos + 4));
        if size % 8 != 0 {
            Err(NrgError::NrgFormat(NrgFormatCause::ChunkSize))
        } else if pos + 4 + size > data.len() {
            Err(NrgError::Io)
        } else {
            Ok(
                (
                    CuexView {
                        size: size as u32,
                        tracks: Seq::new(
                            (size / 8) as nat,
                            |k: int| spec_cuex_track(
                                data.subrange(pos + 4 + 8 * k, pos + 12 + 8 * k),
                            ),
                        ),
                    },
                    pos + 4 + size,
                ),
            )
        }
    }
}

/// A value written back as a binary-coded-decimal byte; a value over 99
/// has no BCD form and is written raw.
pub open spec fn spec_bcd_encode(v: u8) -> u8 {
    if v <= 99 {
        ((v / 10) * 16 + v % 10) as u8
    } else {
        v
    }
}

/// A byte whose BCD decoding loses nothing: either a well-formed BCD
/// byte (low nibble a digit, decoded value under 100), or one whose
/// decoded value would exceed 99 and which is therefore kept raw.
pub open spec fn spec_bcd_canonical(b: u8) -> bool {
    b % 16 <= 9 || (b / 16) * 10 + (b % 16) >= 100
}

/// The 4 big-endian bytes of a 32-bit integer.
pub open spec fn spec_be32_bytes(x: u32) -> Seq<u8> {
    seq![
        (x / 0x100_0000) as u8,
        ((x / 0x1_0000) % 0x100) as u8,
        ((x / 0x100) % 0x100) as u8,
        (x % 0x100) as u8,
    ]
}

/// The 8-byte block that a decoded record came from, rebuilt from its
/// fields alone.
pub open spec fn spec_cuex_track_bytes(t: NrgCuexTrack) -> Seq<u8> {
    seq![t.mode, spec_bcd_encode(t.track_number), spec_bcd_encode(t.index_number), t.padding]
        + spec_be32_bytes(t.position_sectors as u32)
}

/// On a canonical byte, re-encoding the decoded BCD value gives the
/// byte back.
proof fn lemma_bcd_round_trip(b: u8)
    requires
        spec_bcd_canonical(b),
    ensures
        spec_bcd_encode(spec_bcd(b)) == b,
{
    let hi = b / 16;
    let lo = b % 16;
    let v = hi * 10 + lo;
    if lo <= 9 && v < 100 {
        lemma_fundamental_div_mod_converse_div(v as int, 10, hi as int, lo as int);
        lemma_fundamental_div_mod_converse_mod(v as int, 10, hi as int, lo as int);
    }
}

/// Rebuilding the 4 big-endian bytes of a decoded 32-bit integer gives
/// the bytes back.
proof fn lemma_be32_bytes_round_trip(s: Seq<u8>)
    requires
        s.len() == 4,
    ensures
        spec_be32_bytes(spec_be32(s) as u32) =~= s,
{
    let v = spec_be32(s);
    let x = v as u32;
    assert(0 <= v < 0x1_0000_0000);
    lemma_fundamental_div_mod_converse_div(
        v,
        0x100_0000,
        s[0] as int,
        s[1] * 0x1_0000 + s[2] * 0x100 + s[3],
    );
    lemma_fundamental_div_mod_converse_div(
        v,
        0x1_0000,
        s[0] * 0x100 + s[1],
        s[2] * 0x100 + s[3],
    );
    lemma_fundamental_div_mod_converse_mod(
        s[0] * 0x100 + s[1],
        0x100,
        s[0] as int,
        s[1] as int,
    );
    lemma_fundamental_div_mod_converse_div(
        v,
        0x100,
        s[0] * 0x1_0000 + s[1] * 0x100 + s[2],
        s[3] as int,
    );
    lemma_fundamental_div_mod_converse_mod(
        s[0] * 0x1_0000 + s[1] * 0x100 + s[2],
        0x100,
        s[0] * 0x100 + s[1],
        s[2] as int,
    );
    lemma_fundamental_div_mod_converse_mod(
        v,
        0x100,
        s[0] * 0x1_0000 + s[1] * 0x100 + s[2],
        s[3] as int,
    );
}

/// Law of the CUEX record layout: a decoded record is reproducible
/// byte-for-byte from its fields. The two BCD bytes must be canonical:
/// a malformed BCD byte whose low nibble exceeds 9 while its decoded
/// value stays under 100 (0x0C, say) decodes to the same value as the
/// well-formed byte for that value, and the block can then no longer be
/// told apart from the well-formed one.
pub proof fn lemma_cuex_track_round_trip(b: Seq<u8>)
    requires
        b.len() == 8,
        spec_bcd_canonical(b[1]),
        spec_bcd_canonical(b[2]),
    ensures
        spec_cuex_track_bytes(spec_cuex_track(b)) =~= b,
{
    let t = spec_cuex_track(b);
    lemma_bcd_round_trip(b[1]);
    lemma_bcd_round_trip(b[2]);
    lemma_be32_bytes_round_trip(b.subrange(4, 8));
    let x: u32 = spec_be32(b.subrange(4, 8)) as u32;
    assert(x as i32 as u32 == x) by (bit_vector);
}

/// Reads one 8-byte record.
fn read_nrg_cuex_track(fd: &mut NrgStream) -> (r: Result<NrgCuexTrack, NrgError>)
    requires
        old(fd).wf(),
    ensures
        final(fd).wf(),
        final(fd).data@ == old(fd).data@,
        final(fd).pos >= old(fd).pos,
        match r {
            Ok(t) => {
                &&& old(fd).pos + 8 <= old(fd).data@.len()
                &&& t == spec_cuex_track(
                    old(fd).data@.subrange(old(fd).pos as int, old(fd).pos + 8),
                )
                &&& final(fd).pos == old(fd).pos + 8
            },
            Err(e) => {
                &&& old(fd).pos + 8 > old(fd).data@.len()
                &&& e == NrgError::Io
            },
        },
{
    let ghost block: Seq<u8> = old(fd).data@.subrange(old(fd).pos as int, old(fd).pos + 8);
    let mut track = NrgCuexTrack::new();
    track.mode = read_u8(fd)?;
    track.track_number = read_u8_bcd(fd)?;
    track.index_number = read_u8_bcd(fd)?;
    track.padding = read_u8(fd)?;
    let position = read_u32(fd)?;
    track.position_sectors = position as i32;
    proof {
        assert(block[0] == old(fd).data@[old(fd).pos as int]);
        assert(block[1] == old(fd).data@[old(fd).pos + 1]);
        assert(block[2] == old(fd).data@[old(fd).pos + 2]);
        assert(block[3] == old(fd).data@[old(fd).pos + 3]);
        assert(block.subrange(4, 8) =~= old(fd).data@.subrange(old(fd).pos + 4, old(fd).pos + 8));
    }
    Ok(track)
}

/// Reads the CUEX chunk body: a 32-bit declared size, then one 8-byte
/// record per `size / 8`.
///
/// A declared size that is not a multiple of the record size cannot be
/// consumed exactly and is rejected as a format error.
pub fn read_nrg_cuex(fd: &mut NrgStream) -> (r: Result<NrgCuex, NrgError>)
    requires
        old(fd).wf(),
    ensures
        final(fd).wf(),
        final(fd).data@ == old(fd).data@,
        final(fd).pos >= old(fd).pos,
        match r {
            Ok(c) => {
                &&& spec_read_cuex(old(fd).data@, old(fd).pos as int)
                    == Ok::<_, NrgError>((c@, final(fd).pos as int))
            },
            Err(e) => spec_read_cuex(old(fd).data@, old(fd).pos as int) == Err::<(CuexView, int),
                _>(e),
        },
{
    let ghost data: Seq<u8> = old(fd).data@;
    let ghost pos0: int = old(fd).pos as int;
    let mut chunk = NrgCuex::new();
    chunk.size = read_u32(fd)?;
    if chunk.size % 8 != 0 {
        return Err(NrgError::NrgFormat(NrgFormatCause::ChunkSize));
    }
    let size = chunk.size;
    let mut bytes_read: u32 = 0;
    while bytes_read < size
        invariant
            fd.wf(),
            data == old(fd).data@,
            pos0 == old(fd).pos,
            fd.data@ == data,
            size % 8 == 0,
            bytes_read % 8 == 0,
            bytes_read <= size,
            pos0 + 4 <= data.len(),
            size == spec_be32(data.subrange(pos0, pos0 + 4)),
            fd.pos == pos0 + 4 + bytes_read,
            chunk.size == size,
            chunk.tracks@.len() == bytes_read / 8,
            forall|k: int|
                0 <= k < chunk.tracks@.len() ==> chunk.tracks@[k] == spec_cuex_track(
                    data.subrange(pos0 + 4 + 8 * k, pos0 + 12 + 8 * k),
                ),
        decreases size - bytes_read,
    {
        let track = match read_nrg_cuex_track(fd) {
            Ok(t) => t,
            Err(e) => {
                proof {
                    assert(bytes_read + 8 <= size);
                    assert(pos0 + 4 + spec_be32(data.subrange(pos0, pos0 + 4)) > data.len());
                }
                return Err(e);
            },
        };
        chunk.tracks.push(track);
        bytes_read = bytes_read + 8;
    }
    proof {
        let spec_tracks = Seq::new(
            (spec_be32(data.subrange(pos0, pos0 + 4)) / 8) as nat,
            |k: int| spec_cuex_track(data.subrange(pos0 + 4 + 8 * k, pos0 + 12 + 8 * k)),
        );
        assert(chunk.tracks@ =~= spec_tracks);
        assert(spec_read_cuex(data, pos0) == Ok::<_, NrgError>((chunk@, pos0 + 4 + size)));
    }
    Ok(chunk)
}

} // verus!
