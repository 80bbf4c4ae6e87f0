use nrgrip::afnm::{NrgAfnm, NrgAfnmTrack};
use nrgrip::cue_sheet::{make_cue_sheet_name, write_cue_index, write_cue_sheet};
use nrgrip::cuex::{NrgCuex, NrgCuexTrack};
use nrgrip::error::NrgError;
use nrgrip::metadata::NrgMetadata;

fn track(track_number: u8, index_number: u8, position_sectors: i32) -> NrgCuexTrack {
    NrgCuexTrack { mode: 0x01, track_number, index_number, padding: 0, position_sectors }
}

fn metadata_with_tracks(tracks: Vec<NrgCuexTrack>) -> NrgMetadata {
    let mut nm = NrgMetadata::new();
    let size = (tracks.len() * 8) as u32;
    nm.cuex_chunk = Some(NrgCuex { size, tracks });
    nm
}

fn sheet_text(metadata: &NrgMetadata) -> String {
    let out = write_cue_sheet(&b"out.raw".to_vec(), metadata).expect("write_cue_sheet()");
    String::from_utf8(out).expect("cue sheet is ASCII text")
}

#[test]
fn missing_cuex_fails_before_any_output() {
    let nm = NrgMetadata::new();
    assert_eq!(
        write_cue_sheet(&b"out.raw".to_vec(), &nm),
        Err(NrgError::NoNrgCue)
    );
}

#[test]
fn time_code_zero() {
    let mut out = Vec::new();
    write_cue_index(&mut out, 1, 0);
    assert_eq!(String::from_utf8(out).unwrap(), "    INDEX 01 00:00:00\n");
}

#[test]
fn time_code_one_second() {
    let mut out = Vec::new();
    write_cue_index(&mut out, 1, 75);
    assert_eq!(String::from_utf8(out).unwrap(), "    INDEX 01 00:01:00\n");
}

#[test]
fn time_code_4649() {
    // 4649 = 61 * 75 + 74
    let mut out = Vec::new();
    write_cue_index(&mut out, 1, 4649);
    assert_eq!(String::from_utf8(out).unwrap(), "    INDEX 01 01:01:74\n");
}

#[test]
fn lead_in_lead_out_and_negative_positions_skipped() {
    let nm = metadata_with_tracks(vec![
        track(0x00, 0, -150),  // lead-in
        track(1, 1, 0),
        track(0xAA, 1, 4500),  // lead-out
    ]);
    let text = sheet_text(&nm);
    assert_eq!(
        text,
        "FILE \"out.raw\" BINARY\n  TRACK 01 AUDIO\n    INDEX 01 00:00:00\n"
    );
}

#[test]
fn pre_gap_emitted_when_it_precedes_track_start() {
    let nm = metadata_with_tracks(vec![
        track(1, 1, 0),
        track(2, 0, 100),  // pre-gap of track 2
        track(2, 1, 150),
    ]);
    let text = sheet_text(&nm);
    assert_eq!(
        text,
        "FILE \"out.raw\" BINARY\n\
         \x20 TRACK 01 AUDIO\n\
         \x20   INDEX 01 00:00:00\n\
         \x20 TRACK 02 AUDIO\n\
         \x20   INDEX 00 00:01:25\n\
         \x20   INDEX 01 00:02:00\n"
    );
}

#[test]
fn pre_gap_dropped_when_not_before_track_start() {
    let nm = metadata_with_tracks(vec![
        track(1, 0, 150),  // stored, but not before the next start
        track(1, 1, 150),
    ]);
    let text = sheet_text(&nm);
    assert!(!text.contains("INDEX 00"));
    assert!(text.contains("    INDEX 01 00:02:00\n"));
}

#[test]
fn pre_gap_cleared_after_each_track() {
    // the pre-gap of track 1 must not leak into track 2
    let nm = metadata_with_tracks(vec![
        track(1, 0, 0),
        track(1, 1, 100),
        track(2, 1, 300),
    ]);
    let text = sheet_text(&nm);
    assert_eq!(text.matches("INDEX 00").count(), 1);
}

#[test]
fn titles_come_from_afnm_names_without_wav_suffix() {
    let mut nm = metadata_with_tracks(vec![track(1, 1, 0), track(2, 1, 4500)]);
    nm.afnm_chunk = Some(NrgAfnm {
        size: 16,
        tracks: vec![
            NrgAfnmTrack { name: b"one.wav".to_vec() },
            NrgAfnmTrack { name: b"two.wav".to_vec() },
        ],
    });
    let text = sheet_text(&nm);
    assert_eq!(
        text,
        "FILE \"out.raw\" BINARY\n\
         \x20 TRACK 01 AUDIO\n\
         \x20   TITLE \"one\"\n\
         \x20   INDEX 01 00:00:00\n\
         \x20 TRACK 02 AUDIO\n\
         \x20   TITLE \"two\"\n\
         \x20   INDEX 01 01:00:00\n"
    );
}

#[test]
fn missing_name_leaves_title_out() {
    let mut nm = metadata_with_tracks(vec![track(1, 1, 0), track(2, 1, 75)]);
    nm.afnm_chunk = Some(NrgAfnm {
        size: 8,
        tracks: vec![NrgAfnmTrack { name: b"one.wav".to_vec() }],
    });
    let text = sheet_text(&nm);
    assert!(text.contains("TITLE \"one\""));
    assert_eq!(text.matches("TITLE").count(), 1);
}

/// Parses an `mm:ss:ff` time code back to a sector count.
fn sectors_of_time_code(code: &str) -> i64 {
    let parts: Vec<&str> = code.split(':').collect();
    assert_eq!(parts.len(), 3);
    let m: i64 = parts[0].parse().unwrap();
    let s: i64 = parts[1].parse().unwrap();
    let f: i64 = parts[2].parse().unwrap();
    (m * 60 + s) * 75 + f
}

#[test]
fn time_codes_round_trip_through_text() {
    let positions = vec![0i32, 1, 74, 75, 4500, 4649, 123_456, i32::MAX];
    let mut tracks = Vec::new();
    for (i, p) in positions.iter().enumerate() {
        tracks.push(track((i + 1) as u8, 1, *p));
    }
    let nm = metadata_with_tracks(tracks);
    let text = sheet_text(&nm);
    let mut recovered = Vec::new();
    for line in text.lines() {
        let line = line.trim_start();
        if let Some(rest) = line.strip_prefix("INDEX ") {
            let code = rest.split(' ').nth(1).unwrap();
            recovered.push(sectors_of_time_code(code) as i32);
        }
    }
    assert_eq!(recovered, positions);
}

#[test]
fn cue_sheet_name_replaces_nrg_extension() {
    assert_eq!(make_cue_sheet_name(&b"image.nrg".to_vec()), b"image.cue".to_vec());
    assert_eq!(make_cue_sheet_name(&b"IMAGE.NRG".to_vec()), b"IMAGE.cue".to_vec());
}

#[test]
fn cue_sheet_name_appends_cue_otherwise() {
    assert_eq!(make_cue_sheet_name(&b"image.iso".to_vec()), b"image.iso.cue".to_vec());
    assert_eq!(make_cue_sheet_name(&b"abc".to_vec()), b"abc.cue".to_vec());
}
