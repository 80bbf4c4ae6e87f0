//! Cue-sheet generation from the parsed metadata.
//!
//! One forward pass over the CUEX records, carrying a single piece of
//! state: the pending pre-gap position. Lead-in, lead-out and
//! negative-position records are skipped; an index-0 record stores the
//! pending position; any other record emits a `TRACK` block, with an
//! `INDEX 00` line only when the pending position precedes the track
//! start. Time codes are exact integer arithmetic at 75 sectors per
//! second, rendered as two-digit zero-padded fields.

use vstd::prelude::*;

use vstd::arithmetic::div_mod::{lemma_div_denominator, lemma_fundamental_div_mod};

use crate::afnm::NrgAfnmTrack;
use crate::cuex::NrgCuexTrack;
use crate::error::NrgError;
use crate::metadata::{MetadataView, NrgMetadata};

verus! {

/// The ASCII decimal digits of `n`, most significant first.
pub open spec fn spec_dec(n: nat) -> Seq<u8>
    decreases n,
{
    if n < 10 {
        seq![(48 + n) as u8]
    } else {
        spec_dec(n / 10).push((48 + n % 10) as u8)
    }
}

/// The digits of `n`, left-padded with zeros to at least two digits, as
/// the cue-sheet fields ask.
pub open spec fn spec_pad2(n: nat) -> Seq<u8> {
    if n < 10 {
        seq![48u8] + spec_dec(n)
    } else {
        spec_dec(n)
    }
}

/// The integer a sequence of ASCII digits denotes.
pub open spec fn spec_dec_val(s: Seq<u8>) -> int
    decreases s.len(),
{
    if s.len() == 0 {
        0
    } else {
        spec_dec_val(s.drop_last()) * 10 + (s.last() - 48)
    }
}

/// Every byte of `s` is an ASCII digit.
pub open spec fn spec_all_digits(s: Seq<u8>) -> bool {
    forall|j: int| 0 <= j < s.len() ==> 48 <= #[trigger] s[j] <= 57
}

/// The decimal rendering of `n` is made of digits, denotes `n`, and is
/// as short as `n` allows.
pub proof fn lemma_dec_digits(n: nat)
    ensures
        spec_dec(n).len() >= 1,
        n < 10 ==> spec_dec(n).len() == 1,
        n >= 10 ==> spec_dec(n).len() >= 2,
        n < 100 ==> spec_dec(n).len() <= 2,
        spec_all_digits(spec_dec(n)),
        spec_dec_val(spec_dec(n)) == n,
    decreases n,
{
    if n < 10 {
        let s = spec_dec(n);
        assert(s.last() == (48 + n) as u8);
        assert(s.drop_last().len() == 0);
        assert(spec_dec_val(s.drop_last()) == 0);
        assert(spec_dec_val(s) == 0 * 10 + ((48 + n) as u8 - 48));
    } else {
        lemma_dec_digits(n / 10);
        assert(spec_dec(n).drop_last() =~= spec_dec(n / 10));
        assert(spec_dec(n).last() == (48 + n % 10) as u8);
        lemma_fundamental_div_mod(n as int, 10);
        assert(spec_dec_val(spec_dec(n)) == spec_dec_val(spec_dec(n / 10)) * 10 + ((48 + n % 10)
            as u8 - 48));
    }
}

/// A leading zero does not change the value a digit string denotes.
proof fn lemma_dec_val_leading_zero(s: Seq<u8>)
    ensures
        spec_dec_val(seq![48u8] + s) == spec_dec_val(s),
    decreases s.len(),
{
    if s.len() == 0 {
        assert((seq![48u8] + s) =~= seq![48u8]);
        let z = seq![48u8];
        assert(z.drop_last().len() == 0);
        assert(spec_dec_val(z.drop_last()) == 0);
        assert(spec_dec_val(z) == 0 * 10 + (z.last() - 48));
    } else {
        assert((seq![48u8] + s).drop_last() =~= seq![48u8] + s.drop_last());
        lemma_dec_val_leading_zero(s.drop_last());
    }
}

/// The zero-padded rendering is made of digits, denotes `n`, and has
/// exactly two digits whenever `n` fits in two.
pub proof fn lemma_pad2_digits(n: nat)
    ensures
        spec_pad2(n).len() >= 2,
        spec_all_digits(spec_pad2(n)),
        spec_dec_val(spec_pad2(n)) == n,
        n < 100 ==> spec_pad2(n).len() == 2,
{
    lemma_dec_digits(n);
    if n < 10 {
        lemma_dec_val_leading_zero(spec_dec(n));
    }
}

/// The `mm:ss:ff` time code of a sector position: minutes, seconds and
/// frames at 75 sectors per second, each two-digit zero-padded.
pub open spec fn spec_time_code(p: int) -> Seq<u8>
    recommends
        p >= 0,
{
    spec_pad2((p / 4500) as nat) + seq![58u8] + spec_pad2(((p / 75) % 60) as nat) + seq![58u8]
        + spec_pad2((p % 75) as nat)
}

/// One `INDEX nn mm:ss:ff` line.
pub open spec fn spec_cue_index_line(index: u8, p: int) -> Seq<u8>
    recommends
        p >= 0,
{
    seq![32u8, 32u8, 32u8, 32u8, 73u8, 78u8, 68u8, 69u8, 88u8, 32u8] + spec_pad2(index as nat)
        + seq![32u8] + spec_time_code(p) + seq![10u8]
}

/// One `TRACK nn AUDIO` line.
pub open spec fn spec_track_line(track_number: u8) -> Seq<u8> {
    seq![32u8, 32u8, 84u8, 82u8, 65u8, 67u8, 75u8, 32u8] + spec_pad2(track_number as nat)
        + seq![32u8, 65u8, 85u8, 68u8, 73u8, 79u8, 10u8]
}

/// One `TITLE "<name>"` line.
pub open spec fn spec_title_line(name: Seq<u8>) -> Seq<u8> {
    seq![32u8, 32u8, 32u8, 32u8, 84u8, 73u8, 84u8, 76u8, 69u8, 32u8, 34u8] + name
        + seq![34u8, 10u8]
}

/// The `FILE "<name>" BINARY` header line.
pub open spec fn spec_file_line(file_name: Seq<u8>) -> Seq<u8> {
    seq![70u8, 73u8, 76u8, 69u8, 32u8, 34u8] + file_name
        + seq![34u8, 32u8, 66u8, 73u8, 78u8, 65u8, 82u8, 89u8, 10u8]
}

/// The lowercase audio-file suffix that track names carry in the image
/// and the cue sheet drops.
pub open spec fn spec_wav() -> Seq<u8> {
    seq![46u8, 119u8, 97u8, 118u8]
}

/// `s` with every occurrence of the audio-file suffix removed, leftmost
/// first, without overlap.
pub open spec fn spec_strip_wav(s: Seq<u8>) -> Seq<u8>
    decreases s.len(),
{
    if s.len() < 4 {
        s
    } else if s.subrange(0, 4) == spec_wav() {
        spec_strip_wav(s.skip(4))
    } else {
        seq![s[0]] + spec_strip_wav(s.skip(1))
    }
}

/// The track names available to the generator, if an AFNM chunk was
/// decoded: one name per track number, in order.
pub open spec fn spec_names_of(afnm_tracks: Option<&Vec<NrgAfnmTrack>>) -> Option<Seq<Seq<u8>>> {
    match afnm_tracks {
        Some(v) => Some(v@.map_values(|t: NrgAfnmTrack| t@)),
        None => None,
    }
}

/// The `TITLE` line of a track: present only when a name list is at
/// hand and holds a name for this track number.
pub open spec fn spec_title_for(track_number: u8, names: Option<Seq<Seq<u8>>>) -> Seq<u8> {
    match names {
        Some(ns) => if 1 <= track_number && track_number - 1 < ns.len() {
            spec_title_line(spec_strip_wav(ns[track_number - 1]))
        } else {
            Seq::empty()
        },
        None => Seq::empty(),
    }
}

/// The head of a track block: the `TRACK` line and the optional
/// `TITLE` line.
pub open spec fn spec_cue_track_head(t: NrgCuexTrack, names: Option<Seq<Seq<u8>>>) -> Seq<u8> {
    spec_track_line(t.track_number) + spec_title_for(t.track_number, names)
}

/// The text one CUEX record contributes, given the pending pre-gap
/// position: nothing for lead-in, lead-out, negative positions and
/// index-0 records; otherwise the track block, with an `INDEX 00` line
/// exactly when the pending position is non-negative and precedes the
/// track start.
pub open spec fn spec_cue_track_output(
    t: NrgCuexTrack,
    pending: i32,
    names: Option<Seq<Seq<u8>>>,
) -> Seq<u8> {
    if t.track_number == 0 || t.track_number == 0xAA {
        Seq::empty()
    } else if t.position_sectors < 0 {
        Seq::empty()
    } else if t.index_number == 0 {
        Seq::empty()
    } else {
        spec_cue_track_head(t, names) + (if 0 <= pending && pending < t.position_sectors {
            spec_cue_index_line(0, pending as int)
        } else {
            Seq::empty()
        }) + spec_cue_index_line(t.index_number, t.position_sectors as int)
    }
}

/// The pending pre-gap position after one record: an index-0 record
/// with a usable position stores it; a track start clears it whether or
/// not it was emitted; skipped records leave it alone.
pub open spec fn spec_next_pending(t: NrgCuexTrack, pending: i32) -> i32 {
    if t.track_number == 0 || t.track_number == 0xAA {
        pending
    } else if t.position_sectors < 0 {
        pending
    } else if t.index_number == 0 {
        t.position_sectors
    } else {
        -1i32
    }
}

/// The text a list of CUEX records contributes, in stream order.
pub open spec fn spec_cue_tracks(
    tracks: Seq<NrgCuexTrack>,
    names: Option<Seq<Seq<u8>>>,
    pending: i32,
) -> Seq<u8>
    decreases tracks.len(),
{
    if tracks.len() == 0 {
        Seq::empty()
    } else {
        spec_cue_track_output(tracks[0], pending, names) + spec_cue_tracks(
            tracks.skip(1),
            names,
            spec_next_pending(tracks[0], pending),
        )
    }
}

/// The AFNM name list of a parsed image, if any.
pub open spec fn spec_afnm_names_opt(m: MetadataView) -> Option<Seq<Seq<u8>>> {
    match m.afnm_chunk {
        Some(a) => Some(a.tracks),
        None => None,
    }
}

/// The whole cue sheet of a parsed image, naming `file_name` as the
/// companion raw-audio file; an image without a CUEX chunk has no cue
/// data to offer.
pub open spec fn spec_cue_sheet(file_name: Seq<u8>, m: MetadataView) -> Result<Seq<u8>, NrgError> {
    match m.cuex_chunk {
        None => Err(NrgError::NoNrgCue),
        Some(c) => Ok(
            spec_file_line(file_name) + spec_cue_tracks(c.tracks, spec_afnm_names_opt(m), -1i32),
        ),
    }
}

/// An ASCII upper-case letter folded to lower case; any other byte is
/// left alone.
pub open spec fn spec_ascii_lower(b: u8) -> u8 {
    if 65 <= b <= 90 {
        (b + 32) as u8
    } else {
        b
    }
}

/// The cue sheet's name derived from the image's name: an `.nrg`
/// extension (in any letter case) is replaced by `.cue`; any other name
/// just gains `.cue`.
pub open spec fn spec_make_cue_sheet_name(name: Seq<u8>) -> Seq<u8> {
    let cue = seq![46u8, 99u8, 117u8, 101u8];
    if name.len() >= 4 && name.skip(name.len() - 4).map_values(|b: u8| spec_ascii_lower(b))
        == seq![46u8, 110u8, 114u8, 103u8] {
        name.take(name.len() - 4) + cue
    } else {
        name + cue
    }
}

/// Folds one byte to ASCII lower case.
fn ascii_lower(b: u8) -> (r: u8)
    ensures
        r == spec_ascii_lower(b),
{
    if 65 <= b && b <= 90 {
        b + 32
    } else {
        b
    }
}

/// Generates the cue sheet's name from the NRG image's name.
///
/// If `image_name`'s extension is `.nrg` (case-insensitive), the cue
/// sheet's name is the same name with a `.cue` extension instead of
/// `.nrg`. Otherwise, it is `image_name` with `.cue` appended.
pub fn make_cue_sheet_name(image_name: &Vec<u8>) -> (r: Vec<u8>)
    ensures
        r@ == spec_make_cue_sheet_name(image_name@),
{
    let n = image_name.len();
    let mut name: Vec<u8> = Vec::new();
    let nrg_suffix = n >= 4 && ascii_lower(image_name[n - 4]) == 46 && ascii_lower(
        image_name[n - 3],
    ) == 110 && ascii_lower(image_name[n - 2]) == 114 && ascii_lower(image_name[n - 1]) == 103;
    let keep = if nrg_suffix {
        n - 4
    } else {
        n
    };
    let mut i: usize = 0;
    while i < keep
        invariant
            keep <= image_name@.len(),
            0 <= i <= keep,
            name@ == image_name@.take(keep as int).take(i as int),
        decreases keep - i,
    {
        name.push(image_name[i]);
        proof {
            assert(name@ =~= image_name@.take(keep as int).take(i + 1));
        }
        i = i + 1;
    }
    name.push(46);
    name.push(99);
    name.push(117);
    name.push(101);
    proof {
        let full = image_name@;
        assert(full.take(keep as int).take(keep as int) =~= full.take(keep as int));
        if nrg_suffix {
            assert(full.skip(n - 4).map_values(|b: u8| spec_ascii_lower(b)) =~= seq![
                46u8,
                110u8,
                114u8,
                103u8,
            ]);
        } else if n >= 4 {
            let folded = full.skip(n - 4).map_values(|b: u8| spec_ascii_lower(b));
            assert(folded[0] == spec_ascii_lower(full[n - 4]));
            assert(folded[1] == spec_ascii_lower(full[n - 3]));
            assert(folded[2] == spec_ascii_lower(full[n - 2]));
            assert(folded[3] == spec_ascii_lower(full[n - 1]));
            assert(folded != seq![46u8, 110u8, 114u8, 103u8]);
            assert(full.take(n as int) =~= full);
        } else {
            assert(full.take(n as int) =~= full);
        }
        assert(name@ =~= spec_make_cue_sheet_name(full));
    }
    name
}

/// Appends the decimal rendering of `n`.
fn push_decimal(out: &mut Vec<u8>, n: u32)
    ensures
        final(out)@ == old(out)@ + spec_dec(n as nat),
    decreases n,
{
    if n >= 10 {
        push_decimal(out, n / 10);
    }
    out.push(48 + (n % 10) as u8);
    proof {
        assert(final(out)@ =~= old(out)@ + spec_dec(n as nat));
    }
}

/// Appends the two-digit zero-padded rendering of `n`.
fn push_pad2(out: &mut Vec<u8>, n: u32)
    ensures
        final(out)@ == old(out)@ + spec_pad2(n as nat),
{
    if n < 10 {
        out.push(48);
    }
    push_decimal(out, n);
    proof {
        assert(final(out)@ =~= old(out)@ + spec_pad2(n as nat));
    }
}

/// Appends one cue index line for a sector position.
///
/// Minutes, seconds and frames come from exact integer division: a
/// position is a count of 1/75-second frames.
pub fn write_cue_index(out: &mut Vec<u8>, index: u8, position_sectors: i32)
    requires
        position_sectors >= 0,
    ensures
        final(out)@ == old(out)@ + spec_cue_index_line(index, position_sectors as int),
{
    out.push(32u8);
    out.push(32u8);
    out.push(32u8);
    out.push(32u8);
    out.push(73u8);
    out.push(78u8);
    out.push(68u8);
    out.push(69u8);
    out.push(88u8);
    out.push(32u8);
    push_pad2(out, index as u32);
    out.push(32u8);

    // Audio CDs are played at a 75 sectors per second rate
    let position = position_sectors as u32;
    let mut seconds: u32 = position / 75;
    let remaining_sectors: u32 = position % 75;
    let minutes: u32 = seconds / 60;
    seconds = seconds % 60;

    push_pad2(out, minutes);
    out.push(58);
    push_pad2(out, seconds);
    out.push(58);
    push_pad2(out, remaining_sectors);
    out.push(10u8);
    proof {
        lemma_div_denominator(position_sectors as int, 75, 60);
        assert(final(out)@ =~= old(out)@ + spec_cue_index_line(index, position_sectors as int));
    }
}

/// Removes every occurrence of the audio-file suffix from a track name.
fn strip_wav(name: &Vec<u8>) -> (r: Vec<u8>)
    ensures
        r@ == spec_strip_wav(name@),
{
    let n = name.len();
    let mut out: Vec<u8> = Vec::new();
    let mut i: usize = 0;
    proof {
        assert(name@.skip(0) =~= name@);
        assert(Seq::<u8>::empty() + spec_strip_wav(name@) =~= spec_strip_wav(name@));
    }
    while i < n
        invariant
            n == name@.len(),
            0 <= i <= n,
            spec_strip_wav(name@) == out@ + spec_strip_wav(name@.skip(i as int)),
        decreases n - i,
    {
        let ghost s: Seq<u8> = name@.skip(i as int);
        if n - i >= 4 && name[i] == 46u8 && name[i + 1] == 119u8 && name[i + 2] == 97u8 && name[i
            + 3] == 118u8 {
            proof {
                assert(s.subrange(0, 4) =~= spec_wav());
                assert(s.skip(4) =~= name@.skip(i + 4));
            }
            i = i + 4;
        } else {
            out.push(name[i]);
            proof {
                if s.len() >= 4 {
                    assert(s.subrange(0, 4)[0] == name@[i as int]);
                    assert(s.subrange(0, 4)[1] == name@[i + 1]);
                    assert(s.subrange(0, 4)[2] == name@[i + 2]);
                    assert(s.subrange(0, 4)[3] == name@[i + 3]);
                    assert(s.subrange(0, 4) != spec_wav());
                }
                assert(s =~= seq![s[0]] + s.skip(1));
                assert(spec_strip_wav(s) == seq![s[0]] + spec_strip_wav(s.skip(1)));
                assert(s.skip(1) =~= name@.skip(i + 1));
                assert(out@ + spec_strip_wav(name@.skip(i + 1)) =~= (out@.drop_last()
                    + spec_strip_wav(s)));
            }
            i = i + 1;
        }
    }
    proof {
        assert(name@.skip(n as int) =~= Seq::<u8>::empty());
        assert(out@ + Seq::<u8>::empty() =~= out@);
    }
    out
}

/// Appends the text of one CUEX record and updates the pending pre-gap
/// position.
///
/// `index0_pos` should be negative when this function is first called.
#[verifier::rlimit(60)]
pub fn write_cue_track(
    out: &mut Vec<u8>,
    track: &NrgCuexTrack,
    index0_pos: &mut i32,
    afnm_tracks: Option<&Vec<NrgAfnmTrack>>,
)
    ensures
        final(out)@ == old(out)@ + spec_cue_track_output(
            *track,
            *old(index0_pos),
            spec_names_of(afnm_tracks),
        ),
        *final(index0_pos) == spec_next_pending(*track, *old(index0_pos)),
{
    // Ignore lead-in and lead-out areas
    if track.track_number == 0 || track.track_number == 0xAA {
        proof {
            assert(final(out)@ =~= old(out)@ + Seq::<u8>::empty());
        }
        return ;
    }

    // Ignore negative positions
    if track.position_sectors < 0 {
        proof {
            assert(final(out)@ =~= old(out)@ + Seq::<u8>::empty());
        }
        return ;
    }

    // Store/skip index0
    if track.index_number == 0 {
        *index0_pos = track.position_sectors;
        proof {
            assert(final(out)@ =~= old(out)@ + Seq::<u8>::empty());
        }
        return ;
    }

    // Write track info
    out.push(32u8);
    out.push(32u8);
    out.push(84u8);
    out.push(82u8);
    out.push(65u8);
    out.push(67u8);
    out.push(75u8);
    out.push(32u8);
    push_pad2(out, track.track_number as u32);
    out.push(32u8);
    out.push(65u8);
    out.push(85u8);
    out.push(68u8);
    out.push(73u8);
    out.push(79u8);
    out.push(10u8);
    let ghost after_track: Seq<u8> = out@;
    proof {
        assert(after_track =~= old(out)@ + spec_track_line(track.track_number));
    }

    // Write the optional title from the matching name, if one is at hand
    if let Some(names) = afnm_tracks {
        let idx = (track.track_number - 1) as usize;
        if idx < names.len() {
            let stripped = strip_wav(&names[idx].name);
            out.push(32u8);
            out.push(32u8);
            out.push(32u8);
            out.push(32u8);
            out.push(84u8);
            out.push(73u8);
            out.push(84u8);
            out.push(76u8);
            out.push(69u8);
            out.push(32u8);
            out.push(34u8);
            out.extend_from_slice(stripped.as_slice());
            out.push(34u8);
            out.push(10u8);
            proof {
                let ns = names@.map_values(|t: NrgAfnmTrack| t@);
                assert(ns[idx as int] == names@[idx as int]@);
                assert(out@ =~= after_track + spec_title_line(
                    spec_strip_wav(names@[idx as int]@),
                ));
            }
        } else {
            proof {
                assert(out@ =~= after_track + Seq::<u8>::empty());
            }
        }
    } else {
        proof {
            assert(out@ =~= after_track + Seq::<u8>::empty());
        }
    }
    let ghost after_head: Seq<u8> = out@;
    proof {
        assert(after_head =~= old(out)@ + spec_cue_track_head(
            *track,
            spec_names_of(afnm_tracks),
        ));
    }

    // Write index0 if we stored it and it's before the current index's
    // position (i.e., it indicates a pre-gap)
    let ghost pending: i32 = *index0_pos;
    if *index0_pos >= 0 && *index0_pos < track.position_sectors {
        write_cue_index(out, 0, *index0_pos);
    }
    let ghost gap: Seq<u8> = (if 0 <= pending && pending < track.position_sectors {
        spec_cue_index_line(0, pending as int)
    } else {
        Seq::<u8>::empty()
    });
    proof {
        assert(out@ =~= after_head + gap);
    }

    // Reset index0 (even if we didn't write it, because it only applies
    // to the current track)
    *index0_pos = -1;

    // Write current index
    write_cue_index(out, track.index_number, track.position_sectors);
    proof {
        assert(pending == *old(index0_pos));
        assert(final(out)@ =~= after_head + gap + spec_cue_index_line(
            track.index_number,
            track.position_sectors as int,
        ));
        assert(final(out)@ =~= old(out)@ + spec_cue_track_output(
            *track,
            *old(index0_pos),
            spec_names_of(afnm_tracks),
        ));
    }
}

/// Appends the text of a whole CUEX record list.
pub fn write_cue_tracks(
    out: &mut Vec<u8>,
    cuex_tracks: &Vec<NrgCuexTrack>,
    afnm_tracks: Option<&Vec<NrgAfnmTrack>>,
)
    ensures
        final(out)@ == old(out)@ + spec_cue_tracks(cuex_tracks@, spec_names_of(afnm_tracks), -1i32),
{
    let mut index0_pos: i32 = -1;  // position of the last index #0 encountered
    let ghost mut emitted: Seq<u8> = Seq::empty();
    let mut i: usize = 0;
    proof {
        assert(cuex_tracks@.skip(0) =~= cuex_tracks@);
        assert(out@ =~= old(out)@ + emitted);
        assert(emitted + spec_cue_tracks(cuex_tracks@, spec_names_of(afnm_tracks), -1i32)
            =~= spec_cue_tracks(cuex_tracks@, spec_names_of(afnm_tracks), -1i32));
    }
    while i < cuex_tracks.len()
        invariant
            0 <= i <= cuex_tracks@.len(),
            out@ == old(out)@ + emitted,
            spec_cue_tracks(cuex_tracks@, spec_names_of(afnm_tracks), -1i32) == emitted
                + spec_cue_tracks(
                cuex_tracks@.skip(i as int),
                spec_names_of(afnm_tracks),
                index0_pos,
            ),
        decreases cuex_tracks@.len() - i,
    {
        let ghost pending0: i32 = index0_pos;
        let ghost rest: Seq<NrgCuexTrack> = cuex_tracks@.skip(i as int);
        write_cue_track(out, &cuex_tracks[i], &mut index0_pos, afnm_tracks);
        proof {
            assert(rest[0] == cuex_tracks@[i as int]);
            assert(rest.skip(1) =~= cuex_tracks@.skip(i + 1));
            emitted = emitted + spec_cue_track_output(
                cuex_tracks@[i as int],
                pending0,
                spec_names_of(afnm_tracks),
            );
            assert(out@ =~= old(out)@ + emitted);
        }
        i = i + 1;
    }
    proof {
        assert(cuex_tracks@.skip(cuex_tracks@.len() as int) =~= Seq::<NrgCuexTrack>::empty());
        assert(emitted + Seq::<u8>::empty() =~= emitted);
    }
}

/// Generates the cue sheet of a parsed image as text, naming
/// `file_name` as the companion raw-audio file on the `FILE` line.
///
/// An image without a CUEX chunk fails with the missing-cue-data error
/// before any output is produced.
pub fn write_cue_sheet(file_name: &Vec<u8>, metadata: &NrgMetadata) -> (r: Result<
    Vec<u8>,
    NrgError,
>)
    ensures
        match r {
            Ok(out) => spec_cue_sheet(file_name@, metadata@) == Ok::<_, NrgError>(out@),
            Err(e) => spec_cue_sheet(file_name@, metadata@) == Err::<Seq<u8>, _>(e),
        },
{
    // Make sure we have a cue sheet in the metadata
    let cuex_tracks = match &metadata.cuex_chunk {
        None => {
            return Err(NrgError::NoNrgCue);
        },
        Some(chunk) => &chunk.tracks,
    };

    let mut out: Vec<u8> = Vec::new();
    out.push(70u8);
    out.push(73u8);
    out.push(76u8);
    out.push(69u8);
    out.push(32u8);
    out.push(34u8);
    out.extend_from_slice(file_name.as_slice());
    out.push(34u8);
    out.push(32u8);
    out.push(66u8);
    out.push(73u8);
    out.push(78u8);
    out.push(65u8);
    out.push(82u8);
    out.push(89u8);
    out.push(10u8);
    proof {
        assert(out@ =~= spec_file_line(file_name@));
    }

    match &metadata.afnm_chunk {
        Some(afnm) => write_cue_tracks(&mut out, cuex_tracks, Some(&afnm.tracks)),
        None => write_cue_tracks(&mut out, cuex_tracks, None),
    }

    Ok(out)
}

/// Law of pre-gap emission: a real track record (a track start with a
/// usable position) emits exactly one `INDEX 00` line when the stored
/// pre-gap position is non-negative and strictly before the track's own
/// position, and none otherwise; the pending position is cleared either
/// way, win or lose.
pub proof fn lemma_pre_gap_emission(t: NrgCuexTrack, pending: i32, names: Option<Seq<Seq<u8>>>)
    requires
        t.track_number != 0,
        t.track_number != 0xAA,
        t.position_sectors >= 0,
        t.index_number >= 1,
    ensures
        spec_next_pending(t, pending) == -1i32,
        0 <= pending && pending < t.position_sectors ==> spec_cue_track_output(t, pending, names)
            == spec_cue_track_head(t, names) + spec_cue_index_line(0, pending as int)
            + spec_cue_index_line(t.index_number, t.position_sectors as int),
        !(0 <= pending && pending < t.position_sectors) ==> spec_cue_track_output(t, pending, names)
            == spec_cue_track_head(t, names) + spec_cue_index_line(
            t.index_number,
            t.position_sectors as int,
        ),
{
    if !(0 <= pending && pending < t.position_sectors) {
        assert(spec_cue_track_head(t, names) + Seq::<u8>::empty() =~= spec_cue_track_head(
            t,
            names,
        ));
    }
}

/// What a textual time code denotes: the two trailing two-digit fields
/// are frames and seconds, the leading digits minutes, with colons
/// between them; anything else denotes nothing.
pub open spec fn spec_parse_time_code(t: Seq<u8>) -> Option<int> {
    let k = t.len() as int;
    if k < 8 {
        None
    } else {
        let mfield = t.subrange(0, k - 6);
        let sfield = t.subrange(k - 5, k - 3);
        let ffield = t.subrange(k - 2, k);
        if t[k - 6] == 58 && t[k - 3] == 58 && spec_all_digits(mfield) && spec_all_digits(sfield)
            && spec_all_digits(ffield) {
            Some((spec_dec_val(mfield) * 60 + spec_dec_val(sfield)) * 75 + spec_dec_val(ffield))
        } else {
            None
        }
    }
}

/// Law of the time-code round trip: re-parsing the rendered time code
/// of any non-negative sector position, and re-converting minutes,
/// seconds and frames back to sectors, recovers the position exactly.
pub proof fn lemma_time_code_round_trip(p: int)
    requires
        p >= 0,
    ensures
        spec_parse_time_code(spec_time_code(p)) == Some(p),
{
    let m = (p / 4500) as nat;
    let s = ((p / 75) % 60) as nat;
    let f = (p % 75) as nat;
    lemma_pad2_digits(m);
    lemma_pad2_digits(s);
    lemma_pad2_digits(f);
    let t = spec_time_code(p);
    let k = t.len() as int;
    assert(t.subrange(0, k - 6) =~= spec_pad2(m));
    assert(t[k - 6] == 58);
    assert(t.subrange(k - 5, k - 3) =~= spec_pad2(s));
    assert(t[k - 3] == 58);
    assert(t.subrange(k - 2, k) =~= spec_pad2(f));
    lemma_div_denominator(p, 75, 60);
    lemma_fundamental_div_mod(p, 75);
    lemma_fundamental_div_mod(p / 75, 60);
}

} // verus!
