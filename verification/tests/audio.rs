use nrgrip::daox::{NrgDaox, NrgDaoxTrack};
use nrgrip::error::NrgError;
use nrgrip::metadata::NrgMetadata;
use nrgrip::raw_audio::extract_nrg_raw_audio;
use nrgrip::stream::NrgStream;

fn daox_track(sector_size: u16, index0: u64, index1: u64, track_end: u64) -> NrgDaoxTrack {
    NrgDaoxTrack {
        isrc: Vec::new(),
        sector_size,
        data_mode: 7,
        unknown: 1,
        index0,
        index1,
        track_end,
    }
}

fn metadata_with_daox(tracks: Vec<NrgDaoxTrack>) -> NrgMetadata {
    let mut nm = NrgMetadata::new();
    nm.daox_chunk = Some(NrgDaox {
        size: 22 + 42 * tracks.len() as u32,
        size2: 0,
        upc: Vec::new(),
        padding: 0,
        toc_type: 0,
        first_track: 1,
        last_track: tracks.len() as u8,
        tracks,
    });
    nm
}

/// Two whole 2448-byte sectors: sector 0 filled with 1s, sector 1 with
/// 2s, each with its 96 trailing sub-channel bytes set to 9.
fn two_raw96_sectors() -> Vec<u8> {
    let mut data = Vec::new();
    for fill in [1u8, 2u8] {
        data.extend_from_slice(&vec![fill; 2352]);
        data.extend_from_slice(&vec![9u8; 96]);
    }
    data
}

#[test]
fn raw96_extraction_strips_subchannel() {
    let data = two_raw96_sectors();
    let fd = NrgStream::new(data);
    let nm = metadata_with_daox(vec![daox_track(2448, 0, 0, 4896)]);
    let out = extract_nrg_raw_audio(&fd, &nm, true).expect("extract");
    // output length is (end - start) / 2448 * 2352, exactly
    assert_eq!(out.len(), 4896 / 2448 * 2352);
    assert!(out[..2352].iter().all(|b| *b == 1));
    assert!(out[2352..].iter().all(|b| *b == 2));
}

#[test]
fn raw96_extraction_can_keep_subchannel() {
    let data = two_raw96_sectors();
    let fd = NrgStream::new(data.clone());
    let nm = metadata_with_daox(vec![daox_track(2448, 0, 0, 4896)]);
    let out = extract_nrg_raw_audio(&fd, &nm, false).expect("extract");
    assert_eq!(out, data);
}

#[test]
fn plain_extraction_is_byte_exact() {
    let data: Vec<u8> = (0..=255u8).cycle().take(4704).collect();
    let fd = NrgStream::new(data.clone());
    let nm = metadata_with_daox(vec![daox_track(2352, 0, 0, 4704)]);
    let out = extract_nrg_raw_audio(&fd, &nm, true).expect("extract");
    assert_eq!(out, data);
}

#[test]
fn extraction_respects_track_boundaries() {
    let data: Vec<u8> = (0..100u8).collect();
    let fd = NrgStream::new(data);
    let nm = metadata_with_daox(vec![daox_track(10, 0, 20, 60)]);
    let out = extract_nrg_raw_audio(&fd, &nm, true).expect("extract");
    // from the first track's start (index1) to the last track's end
    assert_eq!(out, (20..60u8).collect::<Vec<u8>>());
}

#[test]
fn zero_sector_size_is_an_error() {
    let fd = NrgStream::new(vec![0u8; 100]);
    let nm = metadata_with_daox(vec![daox_track(0, 0, 0, 100)]);
    assert_eq!(
        extract_nrg_raw_audio(&fd, &nm, true),
        Err(NrgError::AudioReadError)
    );
}

#[test]
fn range_beyond_image_is_an_error() {
    let fd = NrgStream::new(vec![0u8; 100]);
    let nm = metadata_with_daox(vec![daox_track(2352, 0, 0, 200)]);
    assert_eq!(
        extract_nrg_raw_audio(&fd, &nm, true),
        Err(NrgError::AudioReadError)
    );
}

#[test]
fn reversed_range_is_an_error() {
    let fd = NrgStream::new(vec![0u8; 100]);
    let nm = metadata_with_daox(vec![daox_track(2352, 0, 90, 10)]);
    assert_eq!(
        extract_nrg_raw_audio(&fd, &nm, true),
        Err(NrgError::AudioReadError)
    );
}

#[test]
fn ragged_raw96_range_is_an_error() {
    let fd = NrgStream::new(vec![0u8; 3000]);
    let nm = metadata_with_daox(vec![daox_track(2448, 0, 0, 3000)]);
    assert_eq!(
        extract_nrg_raw_audio(&fd, &nm, true),
        Err(NrgError::AudioReadError)
    );
}

#[test]
fn extraction_without_daox_cannot_frame_the_data() {
    // with no DAOX tracks the range would run from 0 to the chunk
    // offset, but the sector size is 0 and extraction must fail
    let mut nm = NrgMetadata::new();
    nm.chunk_offset = 10;
    let fd = NrgStream::new(vec![3u8; 20]);
    assert_eq!(
        extract_nrg_raw_audio(&fd, &nm, true),
        Err(NrgError::AudioReadError)
    );
}
