//! In-memory byte stream with a read cursor.
//!
//! The parser works on the whole image held in memory: every read is a
//! function of the byte sequence and the cursor, so the contracts below
//! pin the results down exactly.

use vstd::prelude::*;

verus! {

/// The NRG image bytes together with a read cursor.
///
/// Seeking past the end of the data parks the cursor at the end, as a
/// file seek past end-of-file would; any later read then fails.
pub struct NrgStream {
    /// The image bytes.
    pub data: Vec<u8>,
    /// Index of the next byte to be read.
    pub pos: usize,
}

impl NrgStream {
    /// The cursor never points past the end of the data.
    pub open spec fn wf(&self) -> bool {
        self.pos <= self.data@.len()
    }

    /// Wraps `data` in a stream with the cursor at the start.
    pub fn new(data: Vec<u8>) -> (s: Self)
        ensures
            s.wf(),
            s.data@ == data@,
            s.pos == 0,
    {
        NrgStream { data, pos: 0 }
    }

    /// Number of bytes in the stream.
    pub fn len(&self) -> (n: usize)
        ensures
            n == self.data@.len(),
    {
        self.data.len()
    }

    /// Moves the cursor to absolute position `offset`, or to the end of
    /// the data when `offset` lies beyond it.
    pub fn seek(&mut self, offset: u64)
        ensures
            final(self).wf(),
            final(self).data@ == old(self).data@,
            offset <= old(self).data@.len() ==> final(self).pos == offset,
            offset > old(self).data@.len() ==> final(self).pos == old(self).data@.len(),
    {
        let n = self.data.len();
        if offset <= n as u64 {
            self.pos = offset as usize;
        } else {
            self.pos = n;
        }
    }

    /// Moves the cursor `count` bytes forward, stopping at the end of
    /// the data.
    pub fn seek_forward(&mut self, count: u32)
        requires
            old(self).wf(),
        ensures
            final(self).wf(),
            final(self).data@ == old(self).data@,
            old(self).pos + count <= old(self).data@.len() ==> final(self).pos == old(self).pos
                + count,
            old(self).pos + count > old(self).data@.len() ==> final(self).pos == old(
                self,
            ).data@.len(),
    {
        let n = self.data.len();
        if count as u64 <= (n - self.pos) as u64 {
            self.pos = self.pos + count as usize;
        } else {
            self.pos = n;
        }
    }
}

} // verus!
