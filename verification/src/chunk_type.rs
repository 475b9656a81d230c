//! The validated four-byte chunk type tag and its PNG property-bit semantics.

use crate::codec::{bytes_to_string, lemma_ascii_bytes_utf8};
use crate::error::PngError;
use vstd::prelude::*;
use vstd::string::StringSliceAdditionalSpecFns;

verus! {

/// True when `b` is an ASCII letter, `A`-`Z` or `a`-`z`.
pub open spec fn spec_is_alphabetic(b: u8) -> bool {
    spec_is_uppercase(b) || spec_is_lowercase(b)
}

/// True when `b` is an ASCII uppercase letter.
pub open spec fn spec_is_uppercase(b: u8) -> bool {
    65 <= b && b <= 90
}

/// True when `b` is an ASCII lowercase letter.
pub open spec fn spec_is_lowercase(b: u8) -> bool {
    97 <= b && b <= 122
}

/// True when every byte of `s` is an ASCII letter.
pub open spec fn spec_all_alphabetic(s: Seq<u8>) -> bool {
    forall|i: int| 0 <= i < s.len() ==> spec_is_alphabetic(s[i])
}

/// A validated PNG chunk type: exactly four bytes, each an ASCII letter.
/// The case of each byte carries the PNG property bits.
#[derive(Debug, Clone, Copy, PartialEq, Eq, Hash)]
pub struct ChunkType {
    bytes: [u8; 4],
}

impl View for ChunkType {
    type V = Seq<u8>;

    closed spec fn view(&self) -> Seq<u8> {
        self.bytes@
    }
}

impl ChunkType {
    /// Every constructed chunk type holds four ASCII letters.
    #[verifier::type_invariant]
    pub open spec fn wf(self) -> bool {
        self@.len() == 4 && spec_all_alphabetic(self@)
    }

    /// Builds a chunk type from four raw bytes; rejects any byte that is not
    /// an ASCII letter.
    pub fn from_bytes(bytes: [u8; 4]) -> (r: Result<ChunkType, PngError>)
        ensures
            r is Ok <==> spec_all_alphabetic(bytes@),
            r is Ok ==> r->Ok_0@ == bytes@,
            r is Err ==> r->Err_0 == PngError::InvalidTypeBytes,
    {
        if byte_is_alphabetic(bytes[0]) && byte_is_alphabetic(bytes[1]) && byte_is_alphabetic(
            bytes[2],
        ) && byte_is_alphabetic(bytes[3]) {
            proof {
                assert forall|i: int| 0 <= i < bytes@.len() implies spec_is_alphabetic(
                    bytes@[i],
                ) by {
                    assert(i == 0 || i == 1 || i == 2 || i == 3);
                }
            }
            Ok(ChunkType { bytes })
        } else {
            assert(!spec_all_alphabetic(bytes@));
            Err(PngError::InvalidTypeBytes)
        }
    }

    /// Builds a chunk type from text; rejects text that is not exactly four
    /// bytes once encoded, then validates the bytes.
    pub fn from_text(s: &str) -> (r: Result<ChunkType, PngError>)
        ensures
            s.spec_bytes().len() != 4 ==> r == Err::<ChunkType, PngError>(PngError::InvalidLength),
            s.spec_bytes().len() == 4 ==> {
                &&& r is Ok <==> spec_all_alphabetic(s.spec_bytes())
                &&& r is Ok ==> r->Ok_0@ == s.spec_bytes()
                &&& r is Err ==> r->Err_0 == PngError::InvalidTypeBytes
            },
    {
        let b: &[u8] = s.as_bytes();
        if b.len() != 4 {
            return Err(PngError::InvalidLength);
        }
        let arr: [u8; 4] = [b[0], b[1], b[2], b[3]];
        proof {
            assert(arr@ =~= s.spec_bytes());
        }
        Self::from_bytes(arr)
    }

    /// The raw bytes of this chunk type.
    pub fn bytes(&self) -> (r: [u8; 4])
        ensures
            r@ == self@,
    {
        self.bytes
    }

    /// A chunk is critical when the first type byte is uppercase.
    pub fn is_critical(&self) -> (r: bool)
        ensures
            r == spec_is_uppercase(self@[0]),
    {
        byte_is_uppercase(self.bytes[0])
    }

    /// A chunk is public when the second type byte is uppercase.
    pub fn is_public(&self) -> (r: bool)
        ensures
            r == spec_is_uppercase(self@[1]),
    {
        byte_is_uppercase(self.bytes[1])
    }

    /// The reserved bit is valid when the third type byte is uppercase.
    pub fn is_reserved_bit_valid(&self) -> (r: bool)
        ensures
            r == spec_is_uppercase(self@[2]),
    {
        byte_is_uppercase(self.bytes[2])
    }

    /// A chunk is safe to copy when the fourth type byte is lowercase.
    pub fn is_safe_to_copy(&self) -> (r: bool)
        ensures
            r == spec_is_lowercase(self@[3]),
    {
        97 <= self.bytes[3] && self.bytes[3] <= 122
    }

    /// True when the reserved bit is valid and all four bytes are ASCII
    /// letters; the second half always holds for a constructed value.
    pub fn is_valid(&self) -> (r: bool)
        ensures
            r == (spec_is_uppercase(self@[2]) && spec_all_alphabetic(self@)),
    {
        self.is_reserved_bit_valid() && byte_is_alphabetic(self.bytes[0]) && byte_is_alphabetic(
            self.bytes[1],
        ) && byte_is_alphabetic(self.bytes[2]) && byte_is_alphabetic(self.bytes[3])
    }

    /// Renders the four type bytes as text, byte for byte.
    pub fn to_text(&self) -> (r: String)
        ensures
            r@ == self@.map_values(|b: u8| b as char),
    {
        proof {
            use_type_invariant(self);
        }
        let mut v: Vec<u8> = Vec::new();
        v.push(self.bytes[0]);
        v.push(self.bytes[1]);
        v.push(self.bytes[2]);
        v.push(self.bytes[3]);
        proof {
            assert(v@ =~= self@);
            lemma_ascii_bytes_utf8(v@);
        }
        match bytes_to_string(v) {
            Some(s) => s,
            None => {
                proof {
                    assert(false);
                }
                String::new()
            },
        }
    }

    /// True when two chunk types hold the same four bytes.
    pub fn same_as(&self, other: &ChunkType) -> (r: bool)
        ensures
            r == (self@ == other@),
    {
        let r = self.bytes[0] == other.bytes[0] && self.bytes[1] == other.bytes[1] && self.bytes[2]
            == other.bytes[2] && self.bytes[3] == other.bytes[3];
        proof {
            if r {
                assert(self@ =~= other@);
            }
        }
        r
    }
}

/// True exactly when `b` is an ASCII letter.
fn byte_is_alphabetic(b: u8) -> (r: bool)
    ensures
        r == spec_is_alphabetic(b),
{
    (65 <= b && b <= 90) || (97 <= b && b <= 122)
}

/// True exactly when `b` is an ASCII uppercase letter.
fn byte_is_uppercase(b: u8) -> (r: bool)
    ensures
        r == spec_is_uppercase(b),
{
    65 <= b && b <= 90
}

} // verus!
