//! The ordered chunk sequence of one PNG file: signature checking, stream
//! parsing, lookup and removal by type, insertion before the terminator, and
//! serialization back to bytes.

use crate::chunk::{
    lemma_chunk_parse_prefix, lemma_spec_parse_chunk_wf, spec_chunk_bytes, spec_chunk_wf,
    spec_lenient, spec_parse_chunk, Chunk, ChunkModel,
};
use crate::chunk_type::ChunkType;
use crate::codec::spec_u32_from_be_bytes;
use crate::error::PngError;
use vstd::prelude::*;
use vstd::slice::slice_subrange;

verus! {

/// The fixed eight-byte PNG file signature.
pub open spec fn spec_signature() -> Seq<u8> {
    seq![137u8, 80u8, 78u8, 71u8, 13u8, 10u8, 26u8, 10u8]
}

/// The four type bytes of the terminating chunk, `IEND`.
pub open spec fn spec_terminator_type() -> Seq<u8> {
    seq![73u8, 69u8, 78u8, 68u8]
}

/// The models of a sequence of chunks, in order.
pub open spec fn spec_models(chunks: Seq<Chunk>) -> Seq<ChunkModel> {
    chunks.map_values(|c: Chunk| c@)
}

/// The serialization of a sequence of chunk models, in order.
pub open spec fn spec_chunks_bytes(cs: Seq<ChunkModel>) -> Seq<u8>
    decreases cs.len(),
{
    if cs.len() == 0 {
        Seq::empty()
    } else {
        spec_chunk_bytes(cs[0]) + spec_chunks_bytes(cs.drop_first())
    }
}

/// The serialization of a whole container: the signature, then every chunk.
pub open spec fn spec_png_bytes(cs: Seq<ChunkModel>) -> Seq<u8> {
    spec_signature() + spec_chunks_bytes(cs)
}

/// What parsing a chunk stream (the bytes after the signature) yields:
/// chunks parsed one after the other until the stream is consumed, each
/// window sized by the length field just read.
pub open spec fn spec_parse_chunk_stream(b: Seq<u8>, lenient: bool) -> Result<
    Seq<ChunkModel>,
    PngError,
>
    decreases b.len(),
{
    if b.len() == 0 {
        Ok(Seq::empty())
    } else if b.len() < 12 {
        Err(PngError::TooShort)
    } else {
        let n = spec_u32_from_be_bytes(b.subrange(0, 4)) as int;
        if b.len() < 12 + n {
            Err(PngError::TruncatedStream)
        } else {
            match spec_parse_chunk(b, lenient) {
                Err(e) => Err(e),
                Ok(c) => match spec_parse_chunk_stream(b.skip(12 + n), lenient) {
                    Err(e) => Err(e),
                    Ok(rest) => Ok(seq![c] + rest),
                },
            }
        }
    }
}

/// What parsing a whole file yields: the signature is checked first, then
/// the chunk stream.
pub open spec fn spec_parse_png(b: Seq<u8>, lenient: bool) -> Result<Seq<ChunkModel>, PngError> {
    if b.len() < 8 || b.subrange(0, 8) != spec_signature() {
        Err(PngError::BadSignature)
    } else {
        spec_parse_chunk_stream(b.skip(8), lenient)
    }
}

/// The ordered chunk sequence of one PNG file.
#[derive(Debug)]
pub struct Png {
    chunks: Vec<Chunk>,
}

impl View for Png {
    type V = Seq<ChunkModel>;

    closed spec fn view(&self) -> Seq<ChunkModel> {
        spec_models(self.chunks@)
    }
}

impl Png {
    /// Wraps an explicit ordered chunk list; always succeeds and validates
    /// nothing, as each chunk carries its own invariant.
    pub fn from_chunks(chunks: Vec<Chunk>) -> (r: Png)
        ensures
            r@ == spec_models(chunks@),
    {
        Png { chunks }
    }

    /// Parses a whole file as `spec_parse_png` describes; `lenient` as
    /// `Some(true)` selects the normalizing type-byte policy for every chunk.
    pub fn try_from_bytes(bytes: &[u8], lenient: Option<bool>) -> (r: Result<Png, PngError>)
        ensures
            r is Ok <==> spec_parse_png(bytes@, spec_lenient(lenient)) is Ok,
            r is Ok ==> r->Ok_0@ == spec_parse_png(bytes@, spec_lenient(lenient))->Ok_0,
            r is Err ==> r->Err_0 == spec_parse_png(bytes@, spec_lenient(lenient))->Err_0,
    {
        let ghost l = spec_lenient(lenient);
        if bytes.len() < 8 {
            return Err(PngError::BadSignature);
        }
        if !has_signature(bytes) {
            return Err(PngError::BadSignature);
        }
        let mut chunks: Vec<Chunk> = Vec::new();
        let mut i: usize = 8;
        while i < bytes.len()
            invariant
                8 <= i <= bytes@.len(),
                l == spec_lenient(lenient),
                bytes@.subrange(0, 8) == spec_signature(),
                match spec_parse_chunk_stream(bytes@.skip(i as int), l) {
                    Ok(rest) => spec_parse_chunk_stream(bytes@.skip(8), l) == Ok::<
                        Seq<ChunkModel>,
                        PngError,
                    >(spec_models(chunks@) + rest),
                    Err(e) => spec_parse_chunk_stream(bytes@.skip(8), l) == Err::<
                        Seq<ChunkModel>,
                        PngError,
                    >(e),
                },
            decreases bytes@.len() - i,
        {
            let ghost bs = bytes@.skip(i as int);
            let rest: &[u8] = slice_subrange(bytes, i, bytes.len());
            match Chunk::try_from_bytes(rest, lenient) {
                Err(e) => {
                    proof {
                        assert(spec_parse_chunk_stream(bs, l) == Err::<Seq<ChunkModel>, PngError>(
                            e,
                        ));
                        assert(spec_parse_png(bytes@, l) == spec_parse_chunk_stream(
                            bytes@.skip(8),
                            l,
                        ));
                    }
                    return Err(e);
                },
                Ok(c) => {
                    let ghost n = spec_u32_from_be_bytes(bs.subrange(0, 4)) as int;
                    let ghost prev = chunks@;
                    proof {
                        assert(bs.len() > 0);
                        assert(c@ == spec_parse_chunk(bs, l)->Ok_0);
                        assert(c@.data.len() == n);
                        assert(bs.len() >= 12 + n);
                    }
                    let step: usize = 12 + (c.length() as usize);
                    chunks.push(c);
                    proof {
                        assert(chunks@ == prev.push(c));
                        assert(spec_models(chunks@) =~= spec_models(prev) + seq![c@]);
                        assert(bs.skip(12 + n) =~= bytes@.skip(i as int + 12 + n));
                    }
                    i = i + step;
                    proof {
                        assert(bytes@.skip(i as int) == bs.skip(12 + n));
                        match spec_parse_chunk_stream(bytes@.skip(i as int), l) {
                            Ok(r2) => {
                                assert(spec_parse_chunk_stream(bs, l) == Ok::<
                                    Seq<ChunkModel>,
                                    PngError,
                                >(seq![c@] + r2));
                                assert(spec_parse_chunk_stream(bytes@.skip(8), l) == Ok::<
                                    Seq<ChunkModel>,
                                    PngError,
                                >(spec_models(prev) + (seq![c@] + r2)));
                                assert(spec_models(chunks@) + r2 =~= spec_models(prev) + (seq![c@]
                                    + r2));
                            },
                            Err(e2) => {
                                assert(spec_parse_chunk_stream(bs, l) == Err::<
                                    Seq<ChunkModel>,
                                    PngError,
                                >(e2));
                            },
                        }
                    }
                },
            }
        }
        proof {
            assert(bytes@.skip(i as int).len() == 0);
            assert(spec_parse_chunk_stream(bytes@.skip(i as int), l) == Ok::<
                Seq<ChunkModel>,
                PngError,
            >(Seq::empty()));
            assert(spec_models(chunks@) + Seq::<ChunkModel>::empty() =~= spec_models(chunks@));
            assert(bytes@.subrange(0, 8) == spec_signature());
        }
        Ok(Png { chunks })
    }

    /// The ordered chunks, read-only.
    pub fn chunks(&self) -> (r: &Vec<Chunk>)
        ensures
            spec_models(r@) == self@,
    {
        &self.chunks
    }

    /// The first chunk whose type equals `t`, if any; a linear scan in
    /// sequence order that mutates nothing.
    pub fn find_first_by_type(&self, t: &ChunkType) -> (r: Option<&Chunk>)
        ensures
            r is None ==> forall|j: int| 0 <= j < self@.len() ==> self@[j].type_bytes != t@,
            r is Some ==> exists|i: int|
                {
                    &&& 0 <= i < self@.len()
                    &&& self@[i].type_bytes == t@
                    &&& r->0@ == self@[i]
                    &&& forall|j: int| 0 <= j < i ==> self@[j].type_bytes != t@
                },
    {
        let mut idx: usize = 0;
        while idx < self.chunks.len()
            invariant
                idx <= self.chunks@.len(),
                self@ == spec_models(self.chunks@),
                forall|j: int| 0 <= j < idx ==> self@[j].type_bytes != t@,
            decreases self.chunks@.len() - idx,
        {
            let c: &Chunk = &self.chunks[idx];
            if c.chunk_type().same_as(t) {
                proof {
                    assert(self@[idx as int].type_bytes == t@);
                }
                return Some(c);
            }
            idx += 1;
        }
        None
    }

    /// Removes and returns the first chunk whose type equals `t`, closing
    /// the gap and leaving the order of the rest unchanged; the container is
    /// untouched when no such chunk exists.
    pub fn remove_first_by_type(&mut self, t: &ChunkType) -> (r: Result<Chunk, PngError>)
        ensures
            r is Err ==> {
                &&& r->Err_0 == PngError::NotFound
                &&& final(self)@ == old(self)@
                &&& forall|j: int| 0 <= j < old(self)@.len() ==> old(self)@[j].type_bytes != t@
            },
            r is Ok ==> exists|i: int|
                {
                    &&& 0 <= i < old(self)@.len()
                    &&& old(self)@[i].type_bytes == t@
                    &&& forall|j: int| 0 <= j < i ==> old(self)@[j].type_bytes != t@
                    &&& r->Ok_0@ == old(self)@[i]
                    &&& final(self)@ == old(self)@.remove(i)
                },
    {
        let mut idx: usize = 0;
        while idx < self.chunks.len()
            invariant
                idx <= self.chunks@.len(),
                *self == *old(self),
                forall|j: int| 0 <= j < idx ==> old(self)@[j].type_bytes != t@,
            decreases self.chunks@.len() - idx,
        {
            if self.chunks[idx].chunk_type().same_as(t) {
                let c: Chunk = self.chunks.remove(idx);
                proof {
                    assert(old(self)@[idx as int].type_bytes == t@);
                    assert(spec_models(self.chunks@) =~= spec_models(old(self).chunks@).remove(
                        idx as int,
                    ));
                }
                return Ok(c);
            }
            idx += 1;
        }
        Err(PngError::NotFound)
    }

    /// Inserts `chunk` immediately before the first terminating chunk, so
    /// the terminator stays last; the container is unchanged and the call
    /// fails when no terminator exists.
    pub fn insert_message_chunk(&mut self, chunk: Chunk) -> (r: Result<(), PngError>)
        ensures
            r is Err ==> {
                &&& r->Err_0 == PngError::NoTerminator
                &&& final(self)@ == old(self)@
                &&& forall|j: int|
                    0 <= j < old(self)@.len() ==> old(self)@[j].type_bytes
                        != spec_terminator_type()
            },
            r is Ok ==> exists|i: int|
                {
                    &&& 0 <= i < old(self)@.len()
                    &&& old(self)@[i].type_bytes == spec_terminator_type()
                    &&& forall|j: int|
                        0 <= j < i ==> old(self)@[j].type_bytes != spec_terminator_type()
                    &&& final(self)@ == old(self)@.insert(i, chunk@)
                },
    {
        let mut idx: usize = 0;
        while idx < self.chunks.len()
            invariant
                idx <= self.chunks@.len(),
                *self == *old(self),
                forall|j: int|
                    0 <= j < idx ==> old(self)@[j].type_bytes != spec_terminator_type(),
            decreases self.chunks@.len() - idx,
        {
            if is_terminator(&self.chunks[idx]) {
                proof {
                    assert(old(self)@[idx as int].type_bytes == spec_terminator_type());
                }
                self.chunks.insert(idx, chunk);
                proof {
                    assert(spec_models(self.chunks@) =~= spec_models(old(self).chunks@).insert(
                        idx as int,
                        chunk@,
                    ));
                }
                return Ok(());
            }
            idx += 1;
        }
        Err(PngError::NoTerminator)
    }

    /// Serializes the container: the signature, then every chunk's wire
    /// bytes in sequence order.
    pub fn as_bytes(&self) -> (r: Vec<u8>)
        ensures
            r@ == spec_png_bytes(self@),
    {
        let mut out: Vec<u8> = Vec::new();
        out.push(137);
        out.push(80);
        out.push(78);
        out.push(71);
        out.push(13);
        out.push(10);
        out.push(26);
        out.push(10);
        proof {
            assert(out@ =~= spec_signature());
        }
        let mut i: usize = 0;
        while i < self.chunks.len()
            invariant
                i <= self.chunks@.len(),
                self@ == spec_models(self.chunks@),
                out@ == spec_signature() + spec_chunks_bytes(self@.take(i as int)),
            decreases self.chunks@.len() - i,
        {
            let mut cb: Vec<u8> = self.chunks[i].as_bytes();
            proof {
                assert(cb@ == spec_chunk_bytes(self@[i as int]));
            }
            out.append(&mut cb);
            i += 1;
            proof {
                assert(self@.take(i as int) =~= self@.take(i as int - 1) + seq![
                    self@[i as int - 1],
                ]);
                lemma_chunks_bytes_concat(self@.take(i as int - 1), seq![self@[i as int - 1]]);
                lemma_chunks_bytes_singleton(self@[i as int - 1]);
                assert(out@ =~= spec_signature() + spec_chunks_bytes(self@.take(i as int)));
            }
        }
        proof {
            assert(self@.take(i as int) =~= self@);
        }
        out
    }
}

/// True exactly when the first eight bytes are the PNG signature.
fn has_signature(bytes: &[u8]) -> (r: bool)
    requires
        bytes@.len() >= 8,
    ensures
        r == (bytes@.subrange(0, 8) == spec_signature()),
{
    let r = bytes[0] == 137 && bytes[1] == 80 && bytes[2] == 78 && bytes[3] == 71 && bytes[4] == 13
        && bytes[5] == 10 && bytes[6] == 26 && bytes[7] == 10;
    proof {
        let s = bytes@.subrange(0, 8);
        if r {
            assert(s =~= spec_signature());
        } else {
            if s == spec_signature() {
                assert(bytes@[0] == s[0] && bytes@[1] == s[1] && bytes@[2] == s[2] && bytes@[3]
                    == s[3] && bytes@[4] == s[4] && bytes@[5] == s[5] && bytes@[6] == s[6]
                    && bytes@[7] == s[7]);
                assert(false);
            }
        }
    }
    r
}

/// True exactly when the chunk's type is the terminator type.
fn is_terminator(c: &Chunk) -> (r: bool)
    ensures
        r == (c@.type_bytes == spec_terminator_type()),
{
    let tb: [u8; 4] = c.chunk_type().bytes();
    let r = tb[0] == 73 && tb[1] == 69 && tb[2] == 78 && tb[3] == 68;
    proof {
        if r {
            assert(c@.type_bytes =~= spec_terminator_type());
        } else {
            if c@.type_bytes == spec_terminator_type() {
                assert(tb@[0] == 73 && tb@[1] == 69 && tb@[2] == 78 && tb@[3] == 68);
                assert(false);
            }
        }
    }
    r
}

/// Serialization distributes over concatenation of chunk sequences.
pub proof fn lemma_chunks_bytes_concat(a: Seq<ChunkModel>, b: Seq<ChunkModel>)
    ensures
        spec_chunks_bytes(a + b) == spec_chunks_bytes(a) + spec_chunks_bytes(b),
    decreases a.len(),
{
    if a.len() == 0 {
        assert(a + b =~= b);
        assert(spec_chunks_bytes(a) + spec_chunks_bytes(b) =~= spec_chunks_bytes(b));
    } else {
        assert((a + b).drop_first() =~= a.drop_first() + b);
        lemma_chunks_bytes_concat(a.drop_first(), b);
        assert((a + b).len() != 0);
        assert((a + b)[0] == a[0]);
        assert(spec_chunks_bytes(a + b) =~= spec_chunks_bytes(a) + spec_chunks_bytes(b));
    }
}

/// The serialization of a single chunk model is that chunk's wire bytes.
pub proof fn lemma_chunks_bytes_singleton(c: ChunkModel)
    ensures
        spec_chunks_bytes(seq![c]) == spec_chunk_bytes(c),
{
    assert(seq![c].drop_first() =~= Seq::<ChunkModel>::empty());
    assert(spec_chunks_bytes(Seq::<ChunkModel>::empty()) == Seq::<u8>::empty());
    assert(spec_chunk_bytes(c) + Seq::<u8>::empty() =~= spec_chunk_bytes(c));
}

/// Every model that stream parsing yields satisfies the chunk invariant.
proof fn lemma_parse_chunk_stream_wf(b: Seq<u8>, lenient: bool)
    requires
        spec_parse_chunk_stream(b, lenient) is Ok,
    ensures
        forall|i: int|
            0 <= i < spec_parse_chunk_stream(b, lenient)->Ok_0.len() ==> spec_chunk_wf(
                #[trigger] spec_parse_chunk_stream(b, lenient)->Ok_0[i],
            ),
    decreases b.len(),
{
    if b.len() == 0 {
    } else {
        let n = spec_u32_from_be_bytes(b.subrange(0, 4)) as int;
        lemma_spec_parse_chunk_wf(b, lenient);
        lemma_parse_chunk_stream_wf(b.skip(12 + n), lenient);
    }
}

/// One step of stream parsing: a well-formed chunk's bytes followed by a
/// stream that parses to `tail` parse to that chunk followed by `tail`.
#[verifier::rlimit(60)]
proof fn lemma_chunk_stream_step(c0: ChunkModel, tail_bytes: Seq<u8>, tail: Seq<ChunkModel>, lenient: bool)
    requires
        spec_chunk_wf(c0),
        spec_parse_chunk_stream(tail_bytes, lenient) == Ok::<Seq<ChunkModel>, PngError>(tail),
    ensures
        spec_parse_chunk_stream(spec_chunk_bytes(c0) + tail_bytes, lenient) == Ok::<
            Seq<ChunkModel>,
            PngError,
        >(seq![c0] + tail),
{
    let w0 = spec_chunk_bytes(c0);
    let b = w0 + tail_bytes;
    lemma_chunk_parse_prefix(c0, tail_bytes, lenient);
    let n = c0.data.len() as int;
    assert(w0.len() == 12 + n) by {
        assert(c0.type_bytes.len() == 4);
    }
    assert(b.skip(12 + n) == tail_bytes) by {
        assert(b.skip(w0.len() as int) =~= tail_bytes);
    }
    assert(spec_parse_chunk(b, lenient) == Ok::<ChunkModel, PngError>(c0));
    assert(spec_parse_chunk_stream(b, lenient) == Ok::<Seq<ChunkModel>, PngError>(
        seq![c0] + tail,
    ));
}

/// Round trip for a chunk stream: serializing well-formed chunk models and
/// parsing the result gives the same models back, under either policy.
#[verifier::rlimit(60)]
proof fn lemma_chunk_stream_round_trip(cs: Seq<ChunkModel>, lenient: bool)
    requires
        forall|i: int| 0 <= i < cs.len() ==> spec_chunk_wf(#[trigger] cs[i]),
    ensures
        spec_parse_chunk_stream(spec_chunks_bytes(cs), lenient) == Ok::<Seq<ChunkModel>, PngError>(
            cs,
        ),
    decreases cs.len(),
{
    if cs.len() == 0 {
        assert(spec_chunks_bytes(cs).len() == 0);
        assert(cs =~= Seq::<ChunkModel>::empty());
    } else {
        let c0 = cs[0];
        let tail = cs.drop_first();
        assert forall|i: int| 0 <= i < tail.len() implies spec_chunk_wf(#[trigger] tail[i]) by {
            assert(tail[i] == cs[i + 1]);
        }
        lemma_chunk_stream_round_trip(tail, lenient);
        lemma_chunk_stream_step(c0, spec_chunks_bytes(tail), tail, lenient);
        assert(spec_chunks_bytes(cs) == spec_chunk_bytes(c0) + spec_chunks_bytes(tail));
        assert(seq![c0] + tail =~= cs);
    }
}

/// Idempotent re-parse: when a byte stream parses to a container, the
/// container's serialization parses back to that same container.
pub proof fn lemma_png_round_trip(b: Seq<u8>, lenient: bool)
    requires
        spec_parse_png(b, lenient) is Ok,
    ensures
        spec_parse_png(spec_png_bytes(spec_parse_png(b, lenient)->Ok_0), lenient) == spec_parse_png(
            b,
            lenient,
        ),
{
    let cs = spec_parse_png(b, lenient)->Ok_0;
    lemma_parse_chunk_stream_wf(b.skip(8), lenient);
    lemma_chunk_stream_round_trip(cs, lenient);
    let b2 = spec_png_bytes(cs);
    assert(b2.subrange(0, 8) =~= spec_signature());
    assert(b2.skip(8) =~= spec_chunks_bytes(cs));
}

} // verus!
