//! Primitive readers: fixed-width big-endian integers, null-truncated
//! text strings, and binary-coded-decimal bytes.
//!
//! Each reader either consumes exactly the bytes it asked for, or fails
//! with `NrgError::Io` and leaves the stream untouched; the string
//! reader additionally validates what it kept and fails with
//! `NrgError::InvalidString` on bytes that are not well-formed text.

use vstd::prelude::*;

use crate::error::NrgError;
use crate::stream::NrgStream;

verus! {

/// The 16-bit big-endian integer held in a 2-byte sequence.
pub open spec fn spec_be16(s: Seq<u8>) -> int
    recommends
        s.len() == 2,
{
    s[0] * 0x100 + s[1]
}

/// The 32-bit big-endian integer held in a 4-byte sequence.
pub open spec fn spec_be32(s: Seq<u8>) -> int
    recommends
        s.len() == 4,
{
    s[0] * 0x100_0000 + s[1] * 0x1_0000 + s[2] * 0x100 + s[3]
}

/// The 64-bit big-endian integer held in an 8-byte sequence.
pub open spec fn spec_be64(s: Seq<u8>) -> int
    recommends
        s.len() == 8,
{
    s[0] * 0x100_0000_0000_0000
        + s[1] * 0x1_0000_0000_0000
        + s[2] * 0x100_0000_0000
        + s[3] * 0x1_0000_0000
        + s[4] * 0x100_0000
        + s[5] * 0x1_0000
        + s[6] * 0x100
        + s[7]
}

/// Index of the first null byte in `s`, or `s.len()` if there is none.
pub open spec fn spec_first_null(s: Seq<u8>) -> int
    decreases s.len(),
{
    if s.len() == 0 {
        0
    } else if s[0] == 0 {
        0
    } else {
        1 + spec_first_null(s.skip(1))
    }
}

/// `s` truncated at its first null byte (the null and everything after
/// it are discarded).
pub open spec fn spec_null_trunc(s: Seq<u8>) -> Seq<u8> {
    s.take(spec_first_null(s))
}

/// `s` is well-formed text: the fixed-size string fields of the format
/// hold plain ASCII, so every byte must be one.
pub open spec fn spec_is_text(s: Seq<u8>) -> bool {
    forall|j: int| 0 <= j < s.len() ==> #[trigger] s[j] < 0x80
}

/// The value of a binary-coded-decimal byte: high nibble times ten plus
/// low nibble; when that exceeds 99 (not a valid BCD value) the raw byte
/// is returned unchanged.
pub open spec fn spec_bcd(b: u8) -> u8 {
    if (b / 16) * 10 + (b % 16) < 100 {
        ((b / 16) * 10 + (b % 16)) as u8
    } else {
        b
    }
}

/// `spec_first_null` is the unique cut point: no null before it, and a
/// null (or the end of the sequence) at it.
pub proof fn lemma_first_null_at(s: Seq<u8>, k: int)
    requires
        0 <= k <= s.len(),
        forall|j: int| 0 <= j < k ==> s[j] != 0,
        k == s.len() || s[k] == 0,
    ensures
        spec_first_null(s) == k,
    decreases s.len(),
{
    if s.len() != 0 && s[0] != 0 {
        lemma_first_null_at(s.skip(1), k - 1);
    }
}

/// The first-null index lies within the sequence, and a null byte
/// stands at it unless there is none at all.
pub proof fn lemma_first_null_bounds(s: Seq<u8>)
    ensures
        0 <= spec_first_null(s) <= s.len(),
        spec_first_null(s) < s.len() ==> s[spec_first_null(s)] == 0,
    decreases s.len(),
{
    if s.len() != 0 && s[0] != 0 {
        lemma_first_null_bounds(s.skip(1));
    }
}

/// Reads one unsigned byte.
pub fn read_u8(fd: &mut NrgStream) -> (r: Result<u8, NrgError>)
    requires
        old(fd).wf(),
    ensures
        final(fd).wf(),
        final(fd).data@ == old(fd).data@,
        match r {
            Ok(b) => {
                &&& old(fd).pos + 1 <= old(fd).data@.len()
                &&& b == old(fd).data@[old(fd).pos as int]
                &&& final(fd).pos == old(fd).pos + 1
            },
            Err(e) => {
                &&& old(fd).pos + 1 > old(fd).data@.len()
                &&& e == NrgError::Io
                &&& final(fd).pos == old(fd).pos
            },
        },
{
    if fd.pos < fd.data.len() {
        let b = fd.data[fd.pos];
        fd.pos = fd.pos + 1;
        Ok(b)
    } else {
        Err(NrgError::Io)
    }
}

/// Reads a 16-bit unsigned integer, big-endian whatever the host order.
pub fn read_u16(fd: &mut NrgStream) -> (r: Result<u16, NrgError>)
    requires
        old(fd).wf(),
    ensures
        final(fd).wf(),
        final(fd).data@ == old(fd).data@,
        match r {
            Ok(v) => {
                &&& old(fd).pos + 2 <= old(fd).data@.len()
                &&& v == spec_be16(old(fd).data@.subrange(old(fd).pos as int, old(fd).pos + 2))
                &&& final(fd).pos == old(fd).pos + 2
            },
            Err(e) => {
                &&& old(fd).pos + 2 > old(fd).data@.len()
                &&& e == NrgError::Io
                &&& final(fd).pos == old(fd).pos
            },
        },
{
    if fd.data.len() - fd.pos >= 2 {
        let b0 = fd.data[fd.pos];
        let b1 = fd.data[fd.pos + 1];
        fd.pos = fd.pos + 2;
        Ok((b0 as u16) * 0x100 + (b1 as u16))
    } else {
        Err(NrgError::Io)
    }
}

/// Reads a 32-bit unsigned integer, big-endian whatever the host order.
pub fn read_u32(fd: &mut NrgStream) -> (r: Result<u32, NrgError>)
    requires
        old(fd).wf(),
    ensures
        final(fd).wf(),
        final(fd).data@ == old(fd).data@,
        match r {
            Ok(v) => {
                &&& old(fd).pos + 4 <= old(fd).data@.len()
                &&& v == spec_be32(old(fd).data@.subrange(old(fd).pos as int, old(fd).pos + 4))
                &&& final(fd).pos == old(fd).pos + 4
            },
            Err(e) => {
                &&& old(fd).pos + 4 > old(fd).data@.len()
                &&& e == NrgError::Io
                &&& final(fd).pos == old(fd).pos
            },
        },
{
    if fd.data.len() - fd.pos >= 4 {
        let b0 = fd.data[fd.pos];
        let b1 = fd.data[fd.pos + 1];
        let b2 = fd.data[fd.pos + 2];
        let b3 = fd.data[fd.pos + 3];
        fd.pos = fd.pos + 4;
        Ok((b0 as u32) * 0x100_0000 + (b1 as u32) * 0x1_0000 + (b2 as u32) * 0x100
            + (b3 as u32))
    } else {
        Err(NrgError::Io)
    }
}

/// Reads a 64-bit unsigned integer, big-endian whatever the host order.
pub fn read_u64(fd: &mut NrgStream) -> (r: Result<u64, NrgError>)
    requires
        old(fd).wf(),
    ensures
        final(fd).wf(),
        final(fd).data@ == old(fd).data@,
        match r {
            Ok(v) => {
                &&& old(fd).pos + 8 <= old(fd).data@.len()
                &&& v == spec_be64(old(fd).data@.subrange(old(fd).pos as int, old(fd).pos + 8))
                &&& final(fd).pos == old(fd).pos + 8
            },
            Err(e) => {
                &&& old(fd).pos + 8 > old(fd).data@.len()
                &&& e == NrgError::Io
                &&& final(fd).pos == old(fd).pos
            },
        },
{
    if fd.data.len() - fd.pos >= 8 {
        let b0 = fd.data[fd.pos];
        let b1 = fd.data[fd.pos + 1];
        let b2 = fd.data[fd.pos + 2];
        let b3 = fd.data[fd.pos + 3];
        let b4 = fd.data[fd.pos + 4];
        let b5 = fd.data[fd.pos + 5];
        let b6 = fd.data[fd.pos + 6];
        let b7 = fd.data[fd.pos + 7];
        fd.pos = fd.pos + 8;
        Ok((b0 as u64) * 0x100_0000_0000_0000 + (b1 as u64) * 0x1_0000_0000_0000
            + (b2 as u64) * 0x100_0000_0000 + (b3 as u64) * 0x1_0000_0000
            + (b4 as u64) * 0x100_0000 + (b5 as u64) * 0x1_0000 + (b6 as u64) * 0x100
            + (b7 as u64))
    } else {
        Err(NrgError::Io)
    }
}

/// Reads a binary-coded-decimal byte; a byte whose decoded value would
/// exceed 99 is returned raw, a defined quirk of the source format.
pub fn read_u8_bcd(fd: &mut NrgStream) -> (r: Result<u8, NrgError>)
    requires
        old(fd).wf(),
    ensures
        final(fd).wf(),
        final(fd).data@ == old(fd).data@,
        match r {
            Ok(v) => {
                &&& old(fd).pos + 1 <= old(fd).data@.len()
                &&& v == spec_bcd(old(fd).data@[old(fd).pos as int])
                &&& final(fd).pos == old(fd).pos + 1
            },
            Err(e) => {
                &&& old(fd).pos + 1 > old(fd).data@.len()
                &&& e == NrgError::Io
                &&& final(fd).pos == old(fd).pos
            },
        },
{
    let byte = match read_u8(fd) {
        Ok(b) => b,
        Err(e) => {
            return Err(e);
        },
    };
    let value = (byte / 16) * 10 + byte % 16;
    if value < 100 {
        Ok(value)
    } else {
        Ok(byte)
    }
}

/// Reads exactly `size` bytes and truncates the result at the first
/// null byte; the remaining bytes are discarded, not retained.
pub fn read_sized_string(fd: &mut NrgStream, size: usize) -> (r: Result<Vec<u8>, NrgError>)
    requires
        old(fd).wf(),
    ensures
        final(fd).wf(),
        final(fd).data@ == old(fd).data@,
        match r {
            Ok(v) => {
                &&& old(fd).pos + size <= old(fd).data@.len()
                &&& v@ == spec_null_trunc(
                    old(fd).data@.subrange(old(fd).pos as int, old(fd).pos + size),
                )
                &&& spec_is_text(v@)
                &&& final(fd).pos == old(fd).pos + size
            },
            Err(e) => {
                ||| {
                    &&& old(fd).pos + size > old(fd).data@.len()
                    &&& e == NrgError::Io
                    &&& final(fd).pos == old(fd).pos
                }
                ||| {
                    &&& old(fd).pos + size <= old(fd).data@.len()
                    &&& !spec_is_text(
                        spec_null_trunc(
                            old(fd).data@.subrange(old(fd).pos as int, old(fd).pos + size),
                        ),
                    )
                    &&& e == NrgError::InvalidString
                    &&& final(fd).pos == old(fd).pos + size
                }
            },
        },
{
    if fd.data.len() - fd.pos < size {
        return Err(NrgError::Io);
    }
    let ghost all: Seq<u8> = fd.data@.subrange(fd.pos as int, fd.pos + size);
    let start = fd.pos;
    let n = fd.data.len();
    let mut bytes: Vec<u8> = Vec::new();
    let mut i: usize = 0;
    while i < size && fd.data[start + i] != 0
        invariant
            fd.wf(),
            fd.data@ == old(fd).data@,
            fd.pos == start,
            n == fd.data@.len(),
            start + size <= n,
            0 <= i <= size,
            all == fd.data@.subrange(start as int, start + size),
            bytes@ == all.take(i as int),
            forall|j: int| 0 <= j < i ==> all[j] != 0,
        decreases size - i,
    {
        bytes.push(fd.data[start + i]);
        assert(bytes@ == all.take(i + 1));
        i = i + 1;
    }
    proof {
        lemma_first_null_at(all, i as int);
    }
    fd.pos = start + size;
    // The kept bytes must be well-formed text
    let kept = bytes.len();
    let mut j: usize = 0;
    while j < kept
        invariant
            fd.wf(),
            fd.data@ == old(fd).data@,
            start == old(fd).pos,
            start + size <= fd.data@.len(),
            fd.pos == start + size,
            all == fd.data@.subrange(start as int, start + size),
            kept == bytes@.len(),
            0 <= j <= kept,
            bytes@ == spec_null_trunc(all),
            forall|k: int| 0 <= k < j ==> #[trigger] bytes@[k] < 0x80,
        decreases kept - j,
    {
        if bytes[j] >= 0x80 {
            proof {
                assert(bytes@[j as int] >= 0x80);
                assert(!spec_is_text(bytes@));
            }
            return Err(NrgError::InvalidString);
        }
        j = j + 1;
    }
    proof {
        assert(spec_is_text(bytes@));
    }
    Ok(bytes)
}

} // verus!
