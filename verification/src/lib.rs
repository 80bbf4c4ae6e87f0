//! Reader for the NRG optical-disc image container: parses the metadata
//! chunk stream found at the end of an image, reconstructs the track
//! layout, and derives a textual cue sheet and the raw audio byte range.

pub mod error;
pub mod stream;
pub mod readers;
pub mod cuex;
pub mod daox;
pub mod sinf;
pub mod mtyp;
pub mod afnm;
pub mod metadata;
pub mod cue_sheet;
pub mod raw_audio;
