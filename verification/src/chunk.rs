//! A single PNG chunk: a validated type tag, an opaque payload, and a CRC-32
//! checksum over type-then-payload, together with its wire codec.

use crate::chunk_type::{spec_all_alphabetic, spec_is_alphabetic, ChunkType};
use crate::codec::{
    push_u32_be, read_u32_be, spec_u32_from_be_bytes, spec_u32_to_be_bytes,
    lemma_u32_be_bytes_round_trip,
};
use crate::error::PngError;
use vstd::prelude::*;
use vstd::slice::{slice_subrange, slice_to_vec};
use vstd::utf8::{decode_utf8, valid_utf8};

verus! {

/// The CRC-32/ISO-HDLC checksum of a byte sequence; a function of the bytes
/// alone.
pub uninterp spec fn crc32_of(bytes: Seq<u8>) -> u32;

/// Relies on `crc::Crc::<u32>::new(&crc::CRC_32_ISO_HDLC).checksum`: a pure,
/// table-driven computation whose result depends on the input bytes alone.
#[verifier::external_body]
fn crc32_checksum(bytes: &[u8]) -> (r: u32)
    ensures
        r == crc32_of(bytes@),
{
    crc::Crc::<u32>::new(&crc::CRC_32_ISO_HDLC).checksum(bytes)
}

/// The mathematical content of a chunk: its four type bytes, its payload, and
/// its checksum. The wire length field is derived from the payload.
#[verifier::ext_equal]
pub ghost struct ChunkModel {
    pub type_bytes: Seq<u8>,
    pub data: Seq<u8>,
    pub crc: u32,
}

/// The invariant of every chunk accepted into the system: four alphabetic
/// type bytes, a payload whose length fits the 32-bit wire field, and a
/// checksum that equals the CRC-32 of type-then-payload.
pub open spec fn spec_chunk_wf(c: ChunkModel) -> bool {
    &&& c.type_bytes.len() == 4
    &&& spec_all_alphabetic(c.type_bytes)
    &&& c.data.len() <= u32::MAX
    &&& c.crc == crc32_of(c.type_bytes + c.data)
}

/// The wire layout of a chunk: payload length (4 bytes, big-endian), type
/// (4 bytes), payload, checksum (4 bytes, big-endian).
pub open spec fn spec_chunk_bytes(c: ChunkModel) -> Seq<u8> {
    spec_u32_to_be_bytes(c.data.len() as u32) + c.type_bytes + c.data + spec_u32_to_be_bytes(c.crc)
}

/// The lenient policy's placeholder for one type byte: a byte that is not an
/// ASCII letter becomes the canonical letter of its case class.
pub open spec fn spec_normalize_byte(b: u8) -> u8 {
    if spec_is_alphabetic(b) {
        b
    } else if b >= 97 {
        122
    } else {
        90
    }
}

/// The lenient policy applied to a whole type field.
pub open spec fn spec_normalize_type(t: Seq<u8>) -> Seq<u8> {
    t.map_values(|b: u8| spec_normalize_byte(b))
}

/// True when the parse policy is lenient normalization rather than strict
/// rejection of non-alphabetic type bytes.
pub open spec fn spec_lenient(policy: Option<bool>) -> bool {
    policy == Some(true)
}

/// What parsing a chunk from the front of `w` yields: the length field is
/// read first, the checksum is verified over the stored type and payload
/// bytes, and the type field is then either validated strictly or normalized
/// leniently. Bytes past the chunk's own window are ignored.
pub open spec fn spec_parse_chunk(w: Seq<u8>, lenient: bool) -> Result<ChunkModel, PngError> {
    if w.len() < 12 {
        Err(PngError::TooShort)
    } else {
        let n = spec_u32_from_be_bytes(w.subrange(0, 4)) as int;
        if w.len() < 12 + n {
            Err(PngError::TruncatedStream)
        } else {
            let t = w.subrange(4, 8);
            let d = w.subrange(8, 8 + n);
            let stored = spec_u32_from_be_bytes(w.subrange(8 + n, 12 + n));
            if crc32_of(t + d) != stored {
                Err(PngError::ChecksumMismatch)
            } else if lenient {
                Ok(
                    ChunkModel {
                        type_bytes: spec_normalize_type(t),
                        data: d,
                        crc: crc32_of(spec_normalize_type(t) + d),
                    },
                )
            } else if spec_all_alphabetic(t) {
                Ok(ChunkModel { type_bytes: t, data: d, crc: stored })
            } else {
                Err(PngError::InvalidTypeBytes)
            }
        }
    }
}

/// A single chunk. Immutable once constructed; the invariant ties the stored
/// length and checksum to the payload and type.
#[derive(Debug)]
pub struct Chunk {
    length: u32,
    chunk_type: ChunkType,
    data: Vec<u8>,
    crc: u32,
}

impl View for Chunk {
    type V = ChunkModel;

    closed spec fn view(&self) -> ChunkModel {
        ChunkModel { type_bytes: self.chunk_type@, data: self.data@, crc: self.crc }
    }
}

impl Clone for Chunk {
    /// A clone carries the same type, payload and checksum.
    fn clone(&self) -> (r: Chunk)
        ensures
            r@ == self@,
    {
        proof {
            use_type_invariant(self);
        }
        Chunk {
            length: self.length,
            chunk_type: self.chunk_type,
            data: slice_to_vec(self.data.as_slice()),
            crc: self.crc,
        }
    }
}

impl Chunk {
    /// Every constructed chunk satisfies the model invariant, and its stored
    /// length equals its payload length.
    #[verifier::type_invariant]
    closed spec fn inv(self) -> bool {
        self.length == self.data@.len() && self.chunk_type.wf() && spec_chunk_wf(self@)
    }

    /// Builds a fresh chunk from a validated type and a payload; the checksum
    /// is computed here, so the invariant holds by construction.
    pub fn new(chunk_type: ChunkType, data: Vec<u8>) -> (r: Chunk)
        requires
            data@.len() <= u32::MAX,
        ensures
            r@ == (ChunkModel {
                type_bytes: chunk_type@,
                data: data@,
                crc: crc32_of(chunk_type@ + data@),
            }),
            spec_chunk_wf(r@),
    {
        proof {
            use_type_invariant(&chunk_type);
        }
        let tb: [u8; 4] = chunk_type.bytes();
        let mut buf: Vec<u8> = Vec::new();
        buf.push(tb[0]);
        buf.push(tb[1]);
        buf.push(tb[2]);
        buf.push(tb[3]);
        proof {
            assert(buf@ =~= chunk_type@);
        }
        let mut i: usize = 0;
        while i < data.len()
            invariant
                i <= data@.len(),
                buf@ == chunk_type@ + data@.take(i as int),
            decreases data@.len() - i,
        {
            buf.push(data[i]);
            i += 1;
            proof {
                assert(buf@ =~= chunk_type@ + data@.take(i as int));
            }
        }
        proof {
            assert(buf@ =~= chunk_type@ + data@);
        }
        let crc: u32 = crc32_checksum(buf.as_slice());
        let length: u32 = data.len() as u32;
        Chunk { length, chunk_type, data, crc }
    }

    /// Builds a chunk from four raw type bytes and a payload; fails exactly
    /// when a type byte is not an ASCII letter.
    pub fn try_from_type_data(chunk_type: [u8; 4], data: Vec<u8>) -> (r: Result<Chunk, PngError>)
        requires
            data@.len() <= u32::MAX,
        ensures
            r is Ok <==> spec_all_alphabetic(chunk_type@),
            r is Ok ==> r->Ok_0@ == (ChunkModel {
                type_bytes: chunk_type@,
                data: data@,
                crc: crc32_of(chunk_type@ + data@),
            }),
            r is Err ==> r->Err_0 == PngError::InvalidTypeBytes,
    {
        match ChunkType::from_bytes(chunk_type) {
            Ok(ct) => Ok(Self::new(ct, data)),
            Err(e) => Err(e),
        }
    }

    /// Parses one chunk from the front of `bytes` as `spec_parse_chunk`
    /// describes; `lenient` as `Some(true)` selects the normalizing policy,
    /// anything else selects strict rejection.
    pub fn try_from_bytes(bytes: &[u8], lenient: Option<bool>) -> (r: Result<Chunk, PngError>)
        ensures
            r is Ok <==> spec_parse_chunk(bytes@, spec_lenient(lenient)) is Ok,
            r is Ok ==> r->Ok_0@ == spec_parse_chunk(bytes@, spec_lenient(lenient))->Ok_0,
            r is Err ==> r->Err_0 == spec_parse_chunk(bytes@, spec_lenient(lenient))->Err_0,
    {
        let ghost l = spec_lenient(lenient);
        if bytes.len() < 12 {
            return Err(PngError::TooShort);
        }
        let n32: u32 = read_u32_be(bytes, 0);
        let n: usize = n32 as usize;
        let ghost gn = spec_u32_from_be_bytes(bytes@.subrange(0, 4)) as int;
        if n > bytes.len() - 12 {
            return Err(PngError::TruncatedStream);
        }
        let checked: &[u8] = slice_subrange(bytes, 4, 8 + n);
        let computed: u32 = crc32_checksum(checked);
        let stored: u32 = read_u32_be(bytes, 8 + n);
        proof {
            assert(bytes@.subrange(4, 8 + gn) =~= bytes@.subrange(4, 8) + bytes@.subrange(
                8,
                8 + gn,
            ));
        }
        if computed != stored {
            return Err(PngError::ChecksumMismatch);
        }
        let given: [u8; 4] = [bytes[4], bytes[5], bytes[6], bytes[7]];
        proof {
            assert(given@ =~= bytes@.subrange(4, 8));
        }
        let data: Vec<u8> = slice_to_vec(slice_subrange(bytes, 8, 8 + n));
        match lenient {
            Some(true) => {
                let nt: [u8; 4] = [
                    normalize_byte(given[0]),
                    normalize_byte(given[1]),
                    normalize_byte(given[2]),
                    normalize_byte(given[3]),
                ];
                proof {
                    assert(nt@ =~= spec_normalize_type(bytes@.subrange(4, 8)));
                    assert(spec_all_alphabetic(nt@));
                }
                match ChunkType::from_bytes(nt) {
                    Ok(ct) => Ok(Self::new(ct, data)),
                    Err(_) => {
                        proof {
                            assert(false);
                        }
                        Err(PngError::InvalidTypeBytes)
                    },
                }
            },
            _ => {
                match ChunkType::from_bytes(given) {
                    Ok(ct) => {
                        let chunk = Chunk { length: n32, chunk_type: ct, data, crc: stored };
                        Ok(chunk)
                    },
                    Err(e) => Err(e),
                }
            },
        }
    }

    /// The length of the payload.
    pub fn length(&self) -> (r: u32)
        ensures
            r as nat == self@.data.len(),
    {
        proof {
            use_type_invariant(self);
        }
        self.length
    }

    /// The chunk's type tag.
    pub fn chunk_type(&self) -> (r: &ChunkType)
        ensures
            r@ == self@.type_bytes,
    {
        &self.chunk_type
    }

    /// The raw payload bytes.
    pub fn data(&self) -> (r: &[u8])
        ensures
            r@ == self@.data,
    {
        self.data.as_slice()
    }

    /// The stored CRC-32 checksum.
    pub fn crc(&self) -> (r: u32)
        ensures
            r == self@.crc,
    {
        self.crc
    }

    /// Renders the payload as text; fails exactly when the payload is not
    /// valid UTF-8, and otherwise loses nothing.
    pub fn data_as_string(&self) -> (r: Result<String, PngError>)
        ensures
            r is Ok <==> valid_utf8(self@.data),
            r is Ok ==> r->Ok_0@ == decode_utf8(self@.data),
            r is Err ==> r->Err_0 == PngError::InvalidText,
    {
        let copy: Vec<u8> = slice_to_vec(self.data.as_slice());
        match crate::codec::bytes_to_string(copy) {
            Some(s) => Ok(s),
            None => Err(PngError::InvalidText),
        }
    }

    /// Serializes the chunk into its wire layout; the exact inverse of
    /// parsing for every chunk the system accepts.
    pub fn as_bytes(&self) -> (r: Vec<u8>)
        ensures
            r@ == spec_chunk_bytes(self@),
    {
        proof {
            use_type_invariant(self);
        }
        let mut out: Vec<u8> = Vec::new();
        push_u32_be(&mut out, self.length);
        let tb: [u8; 4] = self.chunk_type.bytes();
        out.push(tb[0]);
        out.push(tb[1]);
        out.push(tb[2]);
        out.push(tb[3]);
        proof {
            assert(out@ =~= spec_u32_to_be_bytes(self.length) + self@.type_bytes);
        }
        let mut i: usize = 0;
        while i < self.data.len()
            invariant
                i <= self.data@.len(),
                out@ == spec_u32_to_be_bytes(self.length) + self@.type_bytes + self@.data.take(
                    i as int,
                ),
                self@.data == self.data@,
            decreases self.data@.len() - i,
        {
            out.push(self.data[i]);
            i += 1;
            proof {
                assert(out@ =~= spec_u32_to_be_bytes(self.length) + self@.type_bytes
                    + self@.data.take(i as int));
            }
        }
        push_u32_be(&mut out, self.crc);
        proof {
            assert(out@ =~= spec_chunk_bytes(self@));
        }
        out
    }
}

/// The lenient placeholder for one type byte, executably.
fn normalize_byte(b: u8) -> (r: u8)
    ensures
        r == spec_normalize_byte(b),
{
    if (65 <= b && b <= 90) || (97 <= b && b <= 122) {
        b
    } else if b >= 97 {
        122
    } else {
        90
    }
}

/// A successfully parsed chunk model satisfies the chunk invariant.
pub proof fn lemma_spec_parse_chunk_wf(w: Seq<u8>, lenient: bool)
    requires
        spec_parse_chunk(w, lenient) is Ok,
    ensures
        spec_chunk_wf(spec_parse_chunk(w, lenient)->Ok_0),
{
    let n = spec_u32_from_be_bytes(w.subrange(0, 4)) as int;
    let t = w.subrange(4, 8);
    if lenient {
        assert forall|i: int|
            0 <= i < spec_normalize_type(t).len() implies spec_is_alphabetic(
            spec_normalize_type(t)[i],
        ) by {
            assert(spec_normalize_type(t)[i] == spec_normalize_byte(t[i]));
        }
    }
}

/// Parsing a stream that begins with the serialization of a well-formed
/// chunk yields that chunk under either policy, whatever bytes follow.
pub proof fn lemma_chunk_parse_prefix(c: ChunkModel, rest: Seq<u8>, lenient: bool)
    requires
        spec_chunk_wf(c),
    ensures
        ({
            let b = spec_chunk_bytes(c) + rest;
            &&& spec_parse_chunk(b, lenient) == Ok::<ChunkModel, PngError>(c)
            &&& spec_u32_from_be_bytes(b.subrange(0, 4)) == c.data.len()
        }),
{
    let b = spec_chunk_bytes(c) + rest;
    let t = c.type_bytes;
    let d = c.data;
    let dl = d.len() as int;
    lemma_u32_be_bytes_round_trip(d.len() as u32);
    lemma_u32_be_bytes_round_trip(c.crc);
    assert(b.len() == 12 + dl + rest.len());
    assert(b.subrange(0, 4) =~= spec_u32_to_be_bytes(d.len() as u32));
    assert(b.subrange(4, 8) =~= t);
    assert(b.subrange(8, 8 + dl) =~= d);
    assert(b.subrange(8 + dl, 12 + dl) =~= spec_u32_to_be_bytes(c.crc));
    if lenient {
        assert(spec_normalize_type(t) =~= t);
    }
    assert(spec_parse_chunk(b, lenient)->Ok_0 =~= c);
}

/// Round trip: a chunk built from a valid type and any payload, once
/// serialized, parses back under either policy to the same chunk.
pub proof fn lemma_chunk_round_trip(t: Seq<u8>, d: Seq<u8>, lenient: bool)
    requires
        t.len() == 4,
        spec_all_alphabetic(t),
        d.len() <= u32::MAX,
    ensures
        ({
            let c = ChunkModel { type_bytes: t, data: d, crc: crc32_of(t + d) };
            spec_parse_chunk(spec_chunk_bytes(c), lenient) == Ok::<ChunkModel, PngError>(c)
        }),
{
    let c = ChunkModel { type_bytes: t, data: d, crc: crc32_of(t + d) };
    lemma_chunk_parse_prefix(c, Seq::<u8>::empty(), lenient);
    assert(spec_chunk_bytes(c) + Seq::<u8>::empty() =~= spec_chunk_bytes(c));
}

/// Corruption is detected: when the type or payload region of a well-formed
/// chunk's serialization changes while the length and checksum fields stand,
/// and the changed region's CRC-32 differs from the chunk's own checksum,
/// parsing fails with a checksum mismatch under either policy.
pub proof fn lemma_corrupt_chunk_rejected(c: ChunkModel, w2: Seq<u8>, lenient: bool)
    requires
        spec_chunk_wf(c),
        w2.len() == spec_chunk_bytes(c).len(),
        w2.subrange(0, 4) == spec_chunk_bytes(c).subrange(0, 4),
        w2.subrange(w2.len() - 4, w2.len() as int) == spec_chunk_bytes(c).subrange(
            spec_chunk_bytes(c).len() - 4,
            spec_chunk_bytes(c).len() as int,
        ),
        crc32_of(w2.subrange(4, w2.len() - 4)) != c.crc,
    ensures
        spec_parse_chunk(w2, lenient) == Err::<ChunkModel, PngError>(PngError::ChecksumMismatch),
{
    let w = spec_chunk_bytes(c);
    let dl = c.data.len() as int;
    lemma_u32_be_bytes_round_trip(c.data.len() as u32);
    lemma_u32_be_bytes_round_trip(c.crc);
    assert(w.len() == 12 + dl);
    assert(w.subrange(0, 4) =~= spec_u32_to_be_bytes(c.data.len() as u32));
    assert(w.subrange(8 + dl, 12 + dl) =~= spec_u32_to_be_bytes(c.crc));
    let n = spec_u32_from_be_bytes(w2.subrange(0, 4)) as int;
    assert(n == dl);
    let stored = spec_u32_from_be_bytes(w2.subrange(8 + n, 12 + n));
    assert(stored == c.crc);
    assert(w2.subrange(4, 8 + n) =~= w2.subrange(4, 8) + w2.subrange(8, 8 + n));
    assert(w2.subrange(4, 8 + n) == w2.subrange(4, w2.len() - 4));
}

} // verus!
