//! AFNM chunk: the track-name strings of the image.
//!
//! The chunk body is a 4-byte declared size followed by null-terminated
//! names whose total length is exactly the declared size.

use vstd::prelude::*;

use crate::error::NrgError;
use crate::readers::{
    lemma_first_null_at, lemma_first_null_bounds, read_u32, read_u8, spec_be32, spec_first_null,
};
use crate::stream::NrgStream;

verus! {

/// One track name (the bytes before its null terminator).
#[derive(Clone, Debug)]
pub struct NrgAfnmTrack {
    /// The name bytes, without the terminator.
    pub name: Vec<u8>,
}

impl View for NrgAfnmTrack {
    type V = Seq<u8>;

    open spec fn view(&self) -> Seq<u8> {
        self.name@
    }
}

impl NrgAfnmTrack {
    /// An empty name.
    pub fn new() -> (t: Self)
        ensures
            t@.len() == 0,
    {
        NrgAfnmTrack { name: Vec::new() }
    }
}

/// The decoded AFNM chunk.
#[derive(Clone, Debug)]
pub struct NrgAfnm {
    /// Declared chunk size in bytes, excluding the size field itself.
    pub size: u32,
    /// The decoded names, in the order they appear in the stream.
    pub tracks: Vec<NrgAfnmTrack>,
}

/// Mathematical model of an AFNM chunk.
pub ghost struct AfnmView {
    pub size: u32,
    pub tracks: Seq<Seq<u8>>,
}

impl View for NrgAfnm {
    type V = AfnmView;

    open spec fn view(&self) -> AfnmView {
        AfnmView { size: self.size, tracks: self.tracks@.map_values(|t: NrgAfnmTrack| t@) }
    }
}

impl NrgAfnm {
    /// An empty chunk, before anything is decoded into it.
    pub fn new() -> (c: Self)
        ensures
            c@.size == 0,
            c@.tracks.len() == 0,
    {
        NrgAfnm { size: 0, tracks: Vec::new() }
    }
}

/// The null-terminated names held in a byte sequence: each name is the
/// run of bytes before the next null; trailing bytes without a
/// terminator are discarded.
pub open spec fn spec_afnm_names(s: Seq<u8>) -> Seq<Seq<u8>>
    decreases s.len(),
    via spec_afnm_names_decreases
{
    let k = spec_first_null(s);
    if k >= s.len() {
        Seq::empty()
    } else {
        seq![s.take(k)] + spec_afnm_names(s.skip(k + 1))
    }
}

#[via_fn]
proof fn spec_afnm_names_decreases(s: Seq<u8>) {
    lemma_first_null_bounds(s);
}

/// A null-free sequence holds no terminated name.
proof fn lemma_afnm_names_no_null(u: Seq<u8>)
    requires
        forall|j: int| 0 <= j < u.len() ==> u[j] != 0,
    ensures
        spec_afnm_names(u) == Seq::<Seq<u8>>::empty(),
{
    lemma_first_null_at(u, u.len() as int);
}

/// Splitting at a null: the null-free run before it is the first name.
proof fn lemma_afnm_names_cut(u: Seq<u8>, z: Seq<u8>)
    requires
        forall|j: int| 0 <= j < u.len() ==> u[j] != 0,
    ensures
        spec_afnm_names(u + seq![0u8] + z) == seq![u] + spec_afnm_names(z),
{
    let w = u + seq![0u8] + z;
    assert(w[u.len() as int] == 0);
    assert(forall|j: int| 0 <= j < u.len() ==> w[j] == u[j]);
    lemma_first_null_at(w, u.len() as int);
    assert(w.take(u.len() as int) =~= u);
    assert(w.skip(u.len() as int + 1) =~= z);
}

/// What decoding an AFNM chunk body at `pos` yields: the chunk and the
/// position after it, or the error the decoder stops with.
pub open spec fn spec_read_afnm(data: Seq<u8>, pos: int) -> Result<(AfnmView, int), NrgError> {
    if pos + 4 > data.len() {
        Err(NrgError::Io)
    } else {
        let size = spec_be32(data.subrange(pos, pos + 4));
        if pos + 4 + size > data.len() {
            Err(NrgError::Io)
        } else {
            Ok(
                (
                    AfnmView {
                        size: size as u32,
                        tracks: spec_afnm_names(data.subrange(pos + 4, pos + 4 + size)),
                    },
                    pos + 4 + size,
                ),
            )
        }
    }
}

/// Reads the AFNM chunk body: a 32-bit declared size, then that many
/// bytes of null-terminated names.
pub fn read_nrg_afnm(fd: &mut NrgStream) -> (r: Result<NrgAfnm, NrgError>)
    requires
        old(fd).wf(),
    ensures
        final(fd).wf(),
        final(fd).data@ == old(fd).data@,
        final(fd).pos >= old(fd).pos,
        match r {
            Ok(c) => spec_read_afnm(old(fd).data@, old(fd).pos as int) == Ok::<_, NrgError>(
                (c@, final(fd).pos as int),
            ),
            Err(e) => spec_read_afnm(old(fd).data@, old(fd).pos as int) == Err::<(AfnmView, int),
                _>(e),
        },
{
    let ghost data: Seq<u8> = old(fd).data@;
    let ghost pos0: int = old(fd).pos as int;
    let mut chunk = NrgAfnm::new();
    chunk.size = read_u32(fd)?;
    let size = chunk.size;
    let mut name: Vec<u8> = Vec::new();
    let mut bytes_read: u32 = 0;
    while bytes_read < size
        invariant
            fd.wf(),
            data == old(fd).data@,
            pos0 == old(fd).pos,
            fd.data@ == data,
            0 <= bytes_read <= size,
            pos0 + 4 <= data.len(),
            size == spec_be32(data.subrange(pos0, pos0 + 4)),
            fd.pos == pos0 + 4 + bytes_read,
            chunk.size == size,
            forall|j: int| 0 <= j < name@.len() ==> name@[j] != 0,
            forall|z: Seq<u8>|
                spec_afnm_names(data.subrange(pos0 + 4, pos0 + 4 + bytes_read) + z)
                    == chunk.tracks@.map_values(|t: NrgAfnmTrack| t@) + spec_afnm_names(
                    name@ + z,
                ),
        decreases size - bytes_read,
    {
        let ghost proc: Seq<u8> = data.subrange(pos0 + 4, pos0 + 4 + bytes_read);
        let ghost tv: Seq<Seq<u8>> = chunk.tracks@.map_values(|t: NrgAfnmTrack| t@);
        let ghost name0: Seq<u8> = name@;
        let b = match read_u8(fd) {
            Ok(b) => b,
            Err(e) => {
                proof {
                    assert(pos0 + 4 + spec_be32(data.subrange(pos0, pos0 + 4)) > data.len());
                }
                return Err(e);
            },
        };
        if b == 0 {
            chunk.tracks.push(NrgAfnmTrack { name });
            name = Vec::new();
        } else {
            name.push(b);
        }
        bytes_read = bytes_read + 1;
        proof {
            let proc2 = data.subrange(pos0 + 4, pos0 + 4 + bytes_read);
            let tv2 = chunk.tracks@.map_values(|t: NrgAfnmTrack| t@);
            if b == 0 {
                assert(tv2 =~= tv.push(name0));
                assert forall|z: Seq<u8>| spec_afnm_names(proc2 + z) == tv2 + spec_afnm_names(
                    name@ + z,
                ) by {
                    let zz = seq![b] + z;
                    assert(proc2 + z =~= proc + zz);
                    assert(spec_afnm_names(proc + zz) == tv + spec_afnm_names(name0 + zz));
                    assert(name0 + zz =~= name0 + seq![0u8] + z);
                    lemma_afnm_names_cut(name0, z);
                    assert(name@ + z =~= z);
                    assert(tv2 + spec_afnm_names(z) =~= tv + (seq![name0] + spec_afnm_names(z)));
                }
            } else {
                assert forall|z: Seq<u8>| spec_afnm_names(proc2 + z) == tv2 + spec_afnm_names(
                    name@ + z,
                ) by {
                    let zz = seq![b] + z;
                    assert(proc2 + z =~= proc + zz);
                    assert(spec_afnm_names(proc + zz) == tv + spec_afnm_names(name0 + zz));
                    assert(name@ + z =~= name0 + zz);
                }
            }
        }
    }
    proof {
        let body = data.subrange(pos0 + 4, pos0 + 4 + size);
        let tv = chunk.tracks@.map_values(|t: NrgAfnmTrack| t@);
        assert(body + Seq::<u8>::empty() =~= body);
        assert(spec_afnm_names(body + Seq::<u8>::empty()) == tv + spec_afnm_names(
            name@ + Seq::<u8>::empty(),
        ));
        assert(name@ + Seq::<u8>::empty() =~= name@);
        lemma_afnm_names_no_null(name@);
        assert(tv + Seq::<Seq<u8>>::empty() =~= tv);
        assert(spec_read_afnm(data, pos0) == Ok::<_, NrgError>((chunk@, pos0 + 4 + size)));
    }
    Ok(chunk)
}

} // verus!
