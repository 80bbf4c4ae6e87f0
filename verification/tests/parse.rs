use nrgrip::cuex::read_nrg_cuex;
use nrgrip::daox::read_nrg_daox;
use nrgrip::error::{NrgError, NrgFormatCause};
use nrgrip::metadata::{read_nrg_metadata, read_nrg_version};
use nrgrip::readers::{read_sized_string, read_u16, read_u32, read_u64, read_u8, read_u8_bcd};
use nrgrip::stream::NrgStream;

/// A minimal version-2 image: an empty chunk stream ("END!" alone) and
/// the 12-byte footer pointing at it.
fn minimal_v2_image() -> Vec<u8> {
    let mut data = Vec::new();
    data.extend_from_slice(b"END!");
    data.extend_from_slice(b"NER5");
    data.extend_from_slice(&0u64.to_be_bytes());
    data
}

#[test]
fn read_u8_advances() {
    let mut fd = NrgStream::new(vec![7, 9]);
    assert_eq!(read_u8(&mut fd), Ok(7));
    assert_eq!(read_u8(&mut fd), Ok(9));
    assert_eq!(read_u8(&mut fd), Err(NrgError::Io));
}

#[test]
fn read_integers_are_big_endian() {
    let mut fd = NrgStream::new(vec![0x12, 0x34, 0x56, 0x78, 0x9A, 0xBC, 0xDE, 0xF0]);
    assert_eq!(read_u16(&mut fd), Ok(0x1234));
    fd.seek(0);
    assert_eq!(read_u32(&mut fd), Ok(0x12345678));
    fd.seek(0);
    assert_eq!(read_u64(&mut fd), Ok(0x123456789ABCDEF0));
    assert_eq!(fd.pos, 8);
}

#[test]
fn read_short_integer_fails() {
    let mut fd = NrgStream::new(vec![1, 2, 3]);
    assert_eq!(read_u32(&mut fd), Err(NrgError::Io));
    assert_eq!(fd.pos, 0);
}

#[test]
fn sized_string_truncates_at_null() {
    let mut fd = NrgStream::new(b"AB\0CD".to_vec());
    assert_eq!(read_sized_string(&mut fd, 5), Ok(b"AB".to_vec()));
    assert_eq!(fd.pos, 5);
}

#[test]
fn sized_string_without_null_keeps_everything() {
    let mut fd = NrgStream::new(b"HELLO".to_vec());
    assert_eq!(read_sized_string(&mut fd, 4), Ok(b"HELL".to_vec()));
    assert_eq!(fd.pos, 4);
}

#[test]
fn sized_string_with_non_text_bytes_fails() {
    let mut fd = NrgStream::new(vec![0xFF, 0x41, 0, 0, 0]);
    assert_eq!(read_sized_string(&mut fd, 5), Err(NrgError::InvalidString));
    // the field was still consumed whole
    assert_eq!(fd.pos, 5);
}

#[test]
fn sized_string_ignores_bytes_after_the_null() {
    // only the kept bytes are validated; what follows the terminator is
    // discarded unseen
    let mut fd = NrgStream::new(vec![0x41, 0x42, 0, 0xFF]);
    assert_eq!(read_sized_string(&mut fd, 4), Ok(b"AB".to_vec()));
}

#[test]
fn bcd_decodes_valid_values() {
    let mut fd = NrgStream::new(vec![0x12]);
    assert_eq!(read_u8_bcd(&mut fd), Ok(12));
    let mut fd = NrgStream::new(vec![0x99]);
    assert_eq!(read_u8_bcd(&mut fd), Ok(99));
}

#[test]
fn bcd_keeps_invalid_byte_raw() {
    // 0xFF would decode to 165, over 99, so the raw byte comes back
    let mut fd = NrgStream::new(vec![0xFF]);
    assert_eq!(read_u8_bcd(&mut fd), Ok(0xFF));
}

#[test]
fn v2_footer_detected_and_offset_read() {
    let data = minimal_v2_image();
    let size = data.len() as u64;
    let mut fd = NrgStream::new(data);
    assert_eq!(read_nrg_version(&mut fd, size), Ok(2));
    // the cursor now sits on the 8 bytes after the sentinel
    assert_eq!(fd.pos as u64, size - 8);
    assert_eq!(read_u64(&mut fd), Ok(0));
}

#[test]
fn nrg_format() {
    // A minimal version-1 image: the sentinel sits 8 bytes before the
    // end, followed by a 32-bit offset.
    let mut data = vec![0u8; 4];
    data.extend_from_slice(b"NERO");
    data.extend_from_slice(&0u32.to_be_bytes());
    let size = data.len() as u64;
    let mut fd = NrgStream::new(data);
    let ver = read_nrg_version(&mut fd, size).expect("read_nrg_version()");
    assert_eq!(ver, 1);
}

#[test]
fn v1_image_rejected_by_parser_not_detector() {
    let mut data = vec![0u8; 4];
    data.extend_from_slice(b"NERO");
    data.extend_from_slice(&0u32.to_be_bytes());
    let mut fd = NrgStream::new(data);
    assert_eq!(read_nrg_metadata(&mut fd).unwrap_err(), NrgError::NrgFormat(NrgFormatCause::V1Unsupported));
}

#[test]
fn too_small_input_rejected() {
    let mut fd = NrgStream::new(vec![0u8; 11]);
    assert_eq!(read_nrg_version(&mut fd, 11).unwrap_err(), NrgError::NrgFormat(NrgFormatCause::TooSmall));
}

#[test]
fn unknown_footer_rejected() {
    let mut fd = NrgStream::new(vec![0u8; 16]);
    assert_eq!(read_nrg_metadata(&mut fd).unwrap_err(), NrgError::NrgFormat(NrgFormatCause::Unknown));
}

#[test]
fn minimal_v2_image_parses() {
    let data = minimal_v2_image();
    let len = data.len() as u64;
    let mut fd = NrgStream::new(data);
    let nm = read_nrg_metadata(&mut fd).expect("read_nrg_metadata()");
    assert_eq!(nm.file_size, len);
    assert_eq!(nm.nrg_version, 2);
    assert_eq!(nm.chunk_offset, 0);
    assert!(nm.cuex_chunk.is_none());
    assert!(nm.daox_chunk.is_none());
    assert!(nm.sinf_chunk.is_none());
    assert!(nm.mtyp_chunk.is_none());
    assert!(nm.afnm_chunk.is_none());
    assert!(nm.skipped_chunks.is_empty());
    // the cursor is left just after the end tag of the chunk stream
    assert_eq!(fd.pos, 4);
}

/// One 8-byte CUEX record.
fn cuex_record(mode: u8, track: u8, index: u8, position: i32) -> Vec<u8> {
    let mut r = vec![mode, track, index, 0];
    r.extend_from_slice(&(position as u32).to_be_bytes());
    r
}

#[test]
fn cuex_chunk_decodes_all_records() {
    let mut body = Vec::new();
    body.extend_from_slice(&16u32.to_be_bytes());
    body.extend_from_slice(&cuex_record(0x01, 0x01, 0x01, -150));
    body.extend_from_slice(&cuex_record(0x01, 0xAA, 0x01, 4649));
    let total = body.len();
    let mut fd = NrgStream::new(body.clone());
    let chunk = read_nrg_cuex(&mut fd).expect("read_nrg_cuex()");
    // decoding consumed exactly the declared size
    assert_eq!(fd.pos, total);
    assert_eq!(chunk.size, 16);
    assert_eq!(chunk.tracks.len(), 2);
    assert_eq!(chunk.tracks[0].mode, 0x01);
    assert_eq!(chunk.tracks[0].track_number, 1);
    assert_eq!(chunk.tracks[0].index_number, 1);
    assert_eq!(chunk.tracks[0].padding, 0);
    assert_eq!(chunk.tracks[0].position_sectors, -150);
    // 0xAA (lead-out) would decode to 110, over 99, so it stays raw
    assert_eq!(chunk.tracks[1].track_number, 0xAA);
    assert_eq!(chunk.tracks[1].position_sectors, 4649);

    // each record is reproducible byte-for-byte from its fields
    let mut rebuilt = Vec::new();
    for t in &chunk.tracks {
        let bcd = |v: u8| if v <= 99 { (v / 10) * 16 + v % 10 } else { v };
        rebuilt.push(t.mode);
        rebuilt.push(bcd(t.track_number));
        rebuilt.push(bcd(t.index_number));
        rebuilt.push(t.padding);
        rebuilt.extend_from_slice(&(t.position_sectors as u32).to_be_bytes());
    }
    assert_eq!(rebuilt, body[4..].to_vec());
}

#[test]
fn cuex_chunk_with_ragged_size_rejected() {
    let mut body = Vec::new();
    body.extend_from_slice(&10u32.to_be_bytes());
    body.extend_from_slice(&[0u8; 10]);
    let mut fd = NrgStream::new(body);
    assert_eq!(read_nrg_cuex(&mut fd).unwrap_err(), NrgError::NrgFormat(NrgFormatCause::ChunkSize));
}

/// One 42-byte DAOX track record.
fn daox_record(
    isrc: &[u8; 12],
    sector_size: u16,
    data_mode: u16,
    index0: u64,
    index1: u64,
    track_end: u64,
) -> Vec<u8> {
    let mut r = Vec::new();
    r.extend_from_slice(isrc);
    r.extend_from_slice(&sector_size.to_be_bytes());
    r.extend_from_slice(&data_mode.to_be_bytes());
    r.extend_from_slice(&1u16.to_be_bytes());
    r.extend_from_slice(&index0.to_be_bytes());
    r.extend_from_slice(&index1.to_be_bytes());
    r.extend_from_slice(&track_end.to_be_bytes());
    r
}

#[test]
fn daox_chunk_decodes_header_and_records() {
    let mut body = Vec::new();
    body.extend_from_slice(&64u32.to_be_bytes());  // 22 + 42
    body.extend_from_slice(&64u32.to_be_bytes());  // duplicate size
    body.extend_from_slice(b"1234567890\0AB");  // 13-byte UPC, null-truncated
    body.push(0);  // padding
    body.extend_from_slice(&0x2000u16.to_be_bytes());  // TOC type
    body.push(1);  // first track
    body.push(1);  // last track
    body.extend_from_slice(&daox_record(b"ISRC00000000", 2352, 0x0700, 0, 300, 88200));
    let total = body.len();
    let mut fd = NrgStream::new(body);
    let chunk = read_nrg_daox(&mut fd).expect("read_nrg_daox()");
    assert_eq!(fd.pos, total);
    assert_eq!(chunk.size, 64);
    assert_eq!(chunk.size2, 64);
    assert_eq!(chunk.upc, b"1234567890".to_vec());
    assert_eq!(chunk.padding, 0);
    assert_eq!(chunk.toc_type, 0x2000);
    assert_eq!(chunk.first_track, 1);
    assert_eq!(chunk.last_track, 1);
    assert_eq!(chunk.tracks.len(), 1);
    let t = &chunk.tracks[0];
    assert_eq!(t.isrc, b"ISRC00000000".to_vec());
    assert_eq!(t.sector_size, 2352);
    assert_eq!(t.data_mode, 0x0700);
    assert_eq!(t.unknown, 1);
    assert_eq!(t.index0, 0);
    assert_eq!(t.index1, 300);
    assert_eq!(t.track_end, 88200);
}

#[test]
fn daox_with_non_text_upc_rejected() {
    let mut body = Vec::new();
    body.extend_from_slice(&22u32.to_be_bytes());
    body.extend_from_slice(&22u32.to_be_bytes());
    let mut upc = vec![0xFFu8; 13];
    upc[1] = 0;
    body.extend_from_slice(&upc);
    body.extend_from_slice(&[0u8; 5]);
    let mut fd = NrgStream::new(body);
    assert_eq!(read_nrg_daox(&mut fd).unwrap_err(), NrgError::InvalidString);
}

#[test]
fn daox_with_non_text_isrc_rejected() {
    let mut body = Vec::new();
    body.extend_from_slice(&64u32.to_be_bytes());
    body.extend_from_slice(&64u32.to_be_bytes());
    body.extend_from_slice(&[0u8; 18]);  // null UPC, padding, TOC, tracks
    body.extend_from_slice(&daox_record(b"\xffBADBADBAD00", 2352, 7, 0, 0, 2352));
    let mut fd = NrgStream::new(body);
    assert_eq!(read_nrg_daox(&mut fd).unwrap_err(), NrgError::InvalidString);
}

#[test]
fn daox_chunk_with_ragged_size_rejected() {
    let mut body = Vec::new();
    body.extend_from_slice(&23u32.to_be_bytes());  // not 22 + 42 k
    body.extend_from_slice(&[0u8; 23]);
    let mut fd = NrgStream::new(body);
    assert_eq!(read_nrg_daox(&mut fd).unwrap_err(), NrgError::NrgFormat(NrgFormatCause::ChunkSize));
}

/// A chunk: 4-byte tag, 4-byte size, `size` body bytes.
fn chunk(tag: &[u8; 4], payload: &[u8]) -> Vec<u8> {
    let mut c = Vec::new();
    c.extend_from_slice(tag);
    c.extend_from_slice(&(payload.len() as u32).to_be_bytes());
    c.extend_from_slice(payload);
    c
}

/// An image whose chunk stream starts at offset 0 and holds `chunks`.
fn image_with_chunks(chunks: &[Vec<u8>]) -> Vec<u8> {
    let mut data = Vec::new();
    for c in chunks {
        data.extend_from_slice(c);
    }
    data.extend_from_slice(b"END!");
    data.extend_from_slice(b"NER5");
    data.extend_from_slice(&0u64.to_be_bytes());
    data
}

#[test]
fn full_image_parses_every_chunk_kind() {
    let mut cuex_payload = Vec::new();
    cuex_payload.extend_from_slice(&cuex_record(0x01, 0x01, 0x01, 0));
    let mut daox_payload = Vec::new();
    daox_payload.extend_from_slice(&64u32.to_be_bytes());
    daox_payload.extend_from_slice(&[0u8; 13]);
    daox_payload.push(0);
    daox_payload.extend_from_slice(&0u16.to_be_bytes());
    daox_payload.push(1);
    daox_payload.push(1);
    daox_payload.extend_from_slice(&daox_record(b"\0\0\0\0\0\0\0\0\0\0\0\0", 2352, 7, 0, 0, 2352));
    let chunks = vec![
        chunk(b"CUEX", &cuex_payload),
        chunk(b"DAOX", &daox_payload),
        chunk(b"SINF", &1u32.to_be_bytes()),
        chunk(b"MTYP", &0xABCDu32.to_be_bytes()),
        chunk(b"AFNM", b"one.wav\0two.wav\0"),
        chunk(b"CDTX", &[1, 2, 3]),
        chunk(b"VOLM", &[]),
    ];
    let data = image_with_chunks(&chunks);
    let mut fd = NrgStream::new(data);
    let nm = read_nrg_metadata(&mut fd).expect("read_nrg_metadata()");
    assert_eq!(nm.nrg_version, 2);
    assert_eq!(nm.chunk_offset, 0);
    let cuex = nm.cuex_chunk.expect("cuex");
    assert_eq!(cuex.tracks.len(), 1);
    let daox = nm.daox_chunk.expect("daox");
    assert_eq!(daox.tracks.len(), 1);
    assert_eq!(nm.sinf_chunk.expect("sinf").nb_tracks, 1);
    assert_eq!(nm.mtyp_chunk.expect("mtyp").unknown, 0xABCD);
    let afnm = nm.afnm_chunk.expect("afnm");
    assert_eq!(afnm.tracks.len(), 2);
    assert_eq!(afnm.tracks[0].name, b"one.wav".to_vec());
    assert_eq!(afnm.tracks[1].name, b"two.wav".to_vec());
    // skipped tags are recorded in stream order, packed big-endian
    assert_eq!(
        nm.skipped_chunks,
        vec![u32::from_be_bytes(*b"CDTX"), u32::from_be_bytes(*b"VOLM")]
    );
}

#[test]
fn afnm_trailing_bytes_without_terminator_are_dropped() {
    let chunks = vec![chunk(b"AFNM", b"done\0partial")];
    let data = image_with_chunks(&chunks);
    let mut fd = NrgStream::new(data);
    let nm = read_nrg_metadata(&mut fd).expect("read_nrg_metadata()");
    let afnm = nm.afnm_chunk.expect("afnm");
    assert_eq!(afnm.tracks.len(), 1);
    assert_eq!(afnm.tracks[0].name, b"done".to_vec());
}

#[test]
fn duplicate_chunk_keeps_last_occurrence() {
    let chunks = vec![
        chunk(b"SINF", &7u32.to_be_bytes()),
        chunk(b"SINF", &9u32.to_be_bytes()),
    ];
    let data = image_with_chunks(&chunks);
    let mut fd = NrgStream::new(data);
    let nm = read_nrg_metadata(&mut fd).expect("read_nrg_metadata()");
    assert_eq!(nm.sinf_chunk.expect("sinf").nb_tracks, 9);
}

#[test]
fn unknown_chunk_tag_is_fatal() {
    let chunks = vec![chunk(b"WHAT", &[])];
    let data = image_with_chunks(&chunks);
    let mut fd = NrgStream::new(data);
    assert_eq!(read_nrg_metadata(&mut fd).unwrap_err(), NrgError::NrgChunkId(u32::from_be_bytes(*b"WHAT")));
}

#[test]
fn truncated_chunk_stream_is_io_error() {
    // The footer points past the end tag, so the tag read runs off the end
    let mut data = Vec::new();
    data.extend_from_slice(b"NER5");
    data.extend_from_slice(&12u64.to_be_bytes());
    let mut fd = NrgStream::new(data);
    assert_eq!(read_nrg_metadata(&mut fd).unwrap_err(), NrgError::Io);
}

#[test]
fn metadata_boundary_getters() {
    let mut daox_payload = Vec::new();
    daox_payload.extend_from_slice(&106u32.to_be_bytes());  // 22 + 2 * 42
    daox_payload.extend_from_slice(&[0u8; 13]);
    daox_payload.push(0);
    daox_payload.extend_from_slice(&0u16.to_be_bytes());
    daox_payload.push(1);
    daox_payload.push(2);
    daox_payload.extend_from_slice(&daox_record(b"\0\0\0\0\0\0\0\0\0\0\0\0", 2448, 7, 0, 300, 5000));
    daox_payload.extend_from_slice(&daox_record(b"\0\0\0\0\0\0\0\0\0\0\0\0", 2448, 7, 5000, 5100, 9000));
    let chunks = vec![chunk(b"DAOX", &daox_payload)];
    let data = image_with_chunks(&chunks);
    let mut fd = NrgStream::new(data);
    let nm = read_nrg_metadata(&mut fd).expect("read_nrg_metadata()");
    assert_eq!(nm.first_audio_byte(), 300);
    assert_eq!(nm.last_audio_byte(), 9000);
    assert_eq!(nm.sector_size(), 2448);
}

#[test]
fn metadata_getters_without_daox_fall_back() {
    let data = minimal_v2_image();
    let mut fd = NrgStream::new(data);
    let nm = read_nrg_metadata(&mut fd).expect("read_nrg_metadata()");
    assert_eq!(nm.first_audio_byte(), 0);
    // with no DAOX tracks the chunk offset bounds the audio range
    assert_eq!(nm.last_audio_byte(), nm.chunk_offset);
    assert_eq!(nm.sector_size(), 0);
}
