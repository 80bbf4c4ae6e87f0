//! Raw audio extraction: the byte range between the track boundaries of
//! the DAOX chunk, with optional sub-channel stripping.
//!
//! A 2448-byte sector interleaves 96 bytes of sub-channel data after
//! 2352 bytes of audio; stripping keeps only the audio prefix of each
//! whole sector.

use vstd::prelude::*;

use crate::error::NrgError;
use crate::metadata::{MetadataView, NrgMetadata};
use crate::stream::NrgStream;

verus! {

/// Bytes of one plain audio sector.
pub const RAW_SEC_SIZE: u16 = 2352;

/// Bytes of one audio sector with interleaved sub-channel data.
pub const RAW96_SEC_SIZE: u16 = 2448;

/// The audio bytes of a run of whole 2448-byte sectors: the first 2352
/// bytes of each sector, in order.
pub open spec fn spec_strip_sectors(src: Seq<u8>) -> Seq<u8>
    recommends
        src.len() % 2448 == 0,
    decreases src.len(),
{
    if src.len() < 2448 {
        Seq::empty()
    } else {
        src.take(2352) + spec_strip_sectors(src.skip(2448))
    }
}

/// Stripping whole sectors keeps exactly 2352 of every 2448 bytes.
pub proof fn lemma_strip_sectors_len(s: Seq<u8>)
    requires
        s.len() % 2448 == 0,
    ensures
        spec_strip_sectors(s).len() == s.len() / 2448 * 2352,
    decreases s.len(),
{
    if s.len() >= 2448 {
        assert(s.skip(2448).len() == s.len() - 2448);
        assert((s.len() - 2448) % 2448 == 0);
        lemma_strip_sectors_len(s.skip(2448));
        assert((s.len() - 2448) / 2448 == s.len() / 2448 - 1);
    }
}

/// What raw-audio extraction yields from a parsed image: the resolved
/// byte range, stripped sector by sector when the image interleaves
/// sub-channel data and the caller did not ask to keep it.
pub open spec fn spec_extract_raw_audio(
    data: Seq<u8>,
    m: MetadataView,
    strip_subchannel: bool,
) -> Result<Seq<u8>, NrgError> {
    let start = m.spec_first_audio_byte() as int;
    let end = m.spec_last_audio_byte() as int;
    if end < start || end > data.len() {
        Err(NrgError::AudioReadError)
    } else if m.spec_sector_size() == RAW96_SEC_SIZE && strip_subchannel {
        if (end - start) % 2448 != 0 {
            Err(NrgError::AudioReadError)
        } else {
            Ok(spec_strip_sectors(data.subrange(start, end)))
        }
    } else if m.spec_sector_size() == 0 {
        Err(NrgError::AudioReadError)
    } else {
        Ok(data.subrange(start, end))
    }
}

/// Copies `count` bytes starting at `start`, byte-exact.
fn copy_raw_audio(fd: &NrgStream, start: usize, count: usize) -> (r: Vec<u8>)
    requires
        start + count <= fd.data@.len(),
    ensures
        r@ == fd.data@.subrange(start as int, start + count),
{
    let n = fd.data.len();
    let mut out: Vec<u8> = Vec::new();
    let mut i: usize = 0;
    while i < count
        invariant
            n == fd.data@.len(),
            start + count <= n,
            0 <= i <= count,
            out@ == fd.data@.subrange(start as int, start + i),
        decreases count - i,
    {
        out.push(fd.data[start + i]);
        proof {
            assert(out@ =~= fd.data@.subrange(start as int, start + i + 1));
        }
        i = i + 1;
    }
    out
}

/// Copies `count` bytes starting at `start` in whole 2448-byte sectors,
/// keeping only the leading 2352 audio bytes of each and leaving out
/// the 96 sub-channel bytes.
fn copy_raw96_audio(fd: &NrgStream, start: usize, count: usize) -> (r: Vec<u8>)
    requires
        start + count <= fd.data@.len(),
        count % 2448 == 0,
    ensures
        r@ == spec_strip_sectors(fd.data@.subrange(start as int, start + count)),
{
    let ghost whole: Seq<u8> = fd.data@.subrange(start as int, start + count);
    let n = fd.data.len();
    let mut out: Vec<u8> = Vec::new();
    let mut bytes_read: usize = 0;
    while bytes_read < count
        invariant
            n == fd.data@.len(),
            start + count <= n,
            count % 2448 == 0,
            bytes_read % 2448 == 0,
            0 <= bytes_read <= count,
            whole == fd.data@.subrange(start as int, start + count),
            spec_strip_sectors(whole) == out@ + spec_strip_sectors(
                fd.data@.subrange(start + bytes_read, start + count),
            ),
        decreases count - bytes_read,
    {
        proof {
            assert(bytes_read + 2448 <= count);
        }
        let ghost rest: Seq<u8> = fd.data@.subrange(start + bytes_read, start + count);
        let ghost out0: Seq<u8> = out@;
        let mut j: usize = 0;
        while j < 2352
            invariant
                n == fd.data@.len(),
                start + count <= n,
                bytes_read + 2448 <= count,
                0 <= j <= 2352,
                out@ == out0 + fd.data@.subrange(start + bytes_read, start + bytes_read + j),
            decreases 2352 - j,
        {
            out.push(fd.data[start + bytes_read + j]);
            proof {
                assert(out@ =~= out0 + fd.data@.subrange(
                    start + bytes_read,
                    start + bytes_read + j + 1,
                ));
            }
            j = j + 1;
        }
        proof {
            assert(rest.take(2352) =~= fd.data@.subrange(
                start + bytes_read,
                start + bytes_read + 2352,
            ));
            assert(rest.skip(2448) =~= fd.data@.subrange(start + bytes_read + 2448, start + count));
            assert(spec_strip_sectors(rest) == rest.take(2352) + spec_strip_sectors(
                rest.skip(2448),
            ));
            assert(out@ + spec_strip_sectors(fd.data@.subrange(
                start + bytes_read + 2448,
                start + count,
            )) =~= out0 + spec_strip_sectors(rest));
        }
        bytes_read = bytes_read + 2448;
    }
    proof {
        assert(fd.data@.subrange(start + count, start + count) =~= Seq::<u8>::empty());
        assert(out@ + Seq::<u8>::empty() =~= out@);
    }
    out
}

/// Extracts the raw audio byte range of a parsed image.
///
/// The boundaries come from the DAOX chunk: the range runs from the
/// track start of the first track to the end of the last one (or, with
/// no DAOX tracks, from byte 0 to the first-chunk offset). When the
/// sector size says sub-channel data is interleaved and
/// `strip_subchannel` asks for it, every whole 2448-byte sector is
/// truncated to its leading 2352 audio bytes; a sector size of 0 cannot
/// determine the framing and is an error, and so is a range that the
/// image cannot cover.
pub fn extract_nrg_raw_audio(fd: &NrgStream, metadata: &NrgMetadata, strip_subchannel: bool) -> (r:
    Result<Vec<u8>, NrgError>)
    ensures
        match r {
            Ok(out) => spec_extract_raw_audio(fd.data@, metadata@, strip_subchannel)
                == Ok::<_, NrgError>(out@),
            Err(e) => spec_extract_raw_audio(fd.data@, metadata@, strip_subchannel) == Err::<
                Seq<u8>,
                _,
            >(e),
        },
{
    let first_audio_byte = metadata.first_audio_byte();
    let last_audio_byte = metadata.last_audio_byte();
    let n = fd.len();
    if last_audio_byte < first_audio_byte || last_audio_byte > n as u64 {
        return Err(NrgError::AudioReadError);
    }
    let start = first_audio_byte as usize;
    let count = (last_audio_byte - first_audio_byte) as usize;

    let sector_size = metadata.sector_size();
    if sector_size == RAW96_SEC_SIZE && strip_subchannel {
        if count % 2448 != 0 {
            return Err(NrgError::AudioReadError);
        }
        Ok(copy_raw96_audio(fd, start, count))
    } else if sector_size == 0 {
        Err(NrgError::AudioReadError)
    } else {
        Ok(copy_raw_audio(fd, start, count))
    }
}

/// Law of the stripped extraction: on an image whose sector size says
/// sub-channel data is interleaved, with a well-formed audio range (a
/// whole number of sectors inside the image), extraction succeeds and
/// its output length is exactly `(end - start) / 2448 * 2352`.
pub proof fn lemma_raw96_extraction_length(data: Seq<u8>, m: MetadataView)
    requires
        m.spec_sector_size() == RAW96_SEC_SIZE,
        m.spec_first_audio_byte() <= m.spec_last_audio_byte(),
        m.spec_last_audio_byte() <= data.len(),
        (m.spec_last_audio_byte() - m.spec_first_audio_byte()) % 2448 == 0,
    ensures
        spec_extract_raw_audio(data, m, true) matches Ok(out) && out.len() == (
        m.spec_last_audio_byte() - m.spec_first_audio_byte()) / 2448 * 2352,
{
    let start = m.spec_first_audio_byte() as int;
    let end = m.spec_last_audio_byte() as int;
    lemma_strip_sectors_len(data.subrange(start, end));
}

} // verus!
