use vstd::prelude::*;

use crate::error::PngError;
use crate::text::{lemma_ascii_bytes_decode, utf8_to_string};
use vstd::string::StringSliceAdditionalSpecFns;

verus! {

/// True of a byte in the ASCII letter ranges `A`..`Z` or `a`..`z`.
pub open spec fn is_letter(b: u8) -> bool {
    (65 <= b && b <= 90) || (97 <= b && b <= 122)
}

/// The byte sequences a chunk type may hold: exactly four bytes, each an
/// ASCII letter.
pub open spec fn chunk_type_wf(s: Seq<u8>) -> bool {
    s.len() == 4 && (forall|i: int| 0 <= i < 4 ==> is_letter(#[trigger] s[i]))
}

/// A chunk is critical unless bit 5 of byte 0 is set.
pub open spec fn spec_is_critical(s: Seq<u8>) -> bool {
    s[0] & 0x20 == 0
}

/// A chunk is public unless bit 5 of byte 1 is set.
pub open spec fn spec_is_public(s: Seq<u8>) -> bool {
    s[1] & 0x20 == 0
}

/// The reserved bit is valid unless bit 5 of byte 2 is set.
pub open spec fn spec_is_reserved_bit_valid(s: Seq<u8>) -> bool {
    s[2] & 0x20 == 0
}

/// A chunk is safe to copy only if bit 5 of byte 3 is set.
pub open spec fn spec_is_safe_to_copy(s: Seq<u8>) -> bool {
    s[3] & 0x20 == 0x20
}

/// A 4-byte chunk-type tag, each byte an ASCII letter. Constructible only
/// from inputs satisfying that constraint, so an existing instance is always
/// valid; the four classifier predicates are pure bit tests that do not gate
/// construction. Immutable after construction; equality is exact
/// byte-sequence equality.
#[derive(Debug)]
pub struct ChunkType {
    bytes: [u8; 4],
}

impl View for ChunkType {
    type V = Seq<u8>;

    closed spec fn view(&self) -> Seq<u8> {
        self.bytes@
    }
}

impl PartialEq for ChunkType {
    fn eq(&self, other: &Self) -> (r: bool) {
        let r = self.bytes[0] == other.bytes[0] && self.bytes[1] == other.bytes[1]
            && self.bytes[2] == other.bytes[2] && self.bytes[3] == other.bytes[3];
        proof {
            if r {
                assert(self@ =~= other@);
            }
        }
        r
    }
}

impl vstd::std_specs::cmp::PartialEqSpecImpl for ChunkType {
    open spec fn obeys_eq_spec() -> bool {
        true
    }

    open spec fn eq_spec(&self, other: &Self) -> bool {
        self@ == other@
    }
}

/// Checks one byte against the ASCII letter ranges.
fn letter(b: u8) -> (r: bool)
    ensures
        r == is_letter(b),
{
    (65 <= b && b <= 90) || (97 <= b && b <= 122)
}

impl ChunkType {
    /// An existing instance is always valid: its bytes are four ASCII
    /// letters. Holds of every `ChunkType` by construction; obtain it with
    /// `use_type_invariant`.
    #[verifier::type_invariant]
    pub open spec fn wf(self) -> bool {
        chunk_type_wf(self@)
    }

    /// Validates 4 raw bytes as a chunk type: fails with `InvalidType` if and
    /// only if some byte is outside the ASCII letter ranges.
    pub fn try_from(bytes: [u8; 4]) -> (r: Result<ChunkType, PngError>)
        ensures
            r is Ok <==> chunk_type_wf(bytes@),
            r matches Ok(t) ==> t@ == bytes@,
            r is Err ==> r == Err::<ChunkType, PngError>(PngError::InvalidType),
    {
        if letter(bytes[0]) && letter(bytes[1]) && letter(bytes[2]) && letter(bytes[3]) {
            proof {
                assert forall|i: int| 0 <= i < 4 implies is_letter(#[trigger] bytes@[i]) by {
                    assert(i == 0 || i == 1 || i == 2 || i == 3);
                }
            }
            Ok(ChunkType { bytes })
        } else {
            Err(PngError::InvalidType)
        }
    }

    /// Parses a type from text: fails with `InvalidType` unless the text is
    /// exactly 4 bytes, each an ASCII letter; otherwise equivalent to
    /// `try_from` on those bytes.
    pub fn from_str(s: &str) -> (r: Result<ChunkType, PngError>)
        ensures
            r is Ok <==> chunk_type_wf(s.spec_bytes()),
            r matches Ok(t) ==> t@ == s.spec_bytes(),
            r is Err ==> r == Err::<ChunkType, PngError>(PngError::InvalidType),
    {
        let b = s.as_bytes();
        if b.len() != 4 {
            return Err(PngError::InvalidType);
        }
        let arr = [b[0], b[1], b[2], b[3]];
        proof {
            assert(arr@ =~= s.spec_bytes());
        }
        ChunkType::try_from(arr)
    }

    /// The four raw bytes of the tag.
    pub fn bytes(&self) -> (r: [u8; 4])
        ensures
            r@ == self@,
    {
        self.bytes
    }

    /// True unless bit 5 of byte 0 is set.
    pub fn is_critical(&self) -> (r: bool)
        ensures
            r == spec_is_critical(self@),
    {
        let b = self.bytes[0];
        proof {
            assert((((b >> 5) & 1) != 1) == (b & 0x20 == 0)) by (bit_vector);
        }
        ((b >> 5) & 1) != 1
    }

    /// True unless bit 5 of byte 1 is set.
    pub fn is_public(&self) -> (r: bool)
        ensures
            r == spec_is_public(self@),
    {
        let b = self.bytes[1];
        proof {
            assert((((b >> 5) & 1) != 1) == (b & 0x20 == 0)) by (bit_vector);
        }
        ((b >> 5) & 1) != 1
    }

    /// True unless bit 5 of byte 2 is set; a type with that bit set is
    /// non-standard, though still structurally decodable.
    pub fn is_reserved_bit_valid(&self) -> (r: bool)
        ensures
            r == spec_is_reserved_bit_valid(self@),
    {
        let b = self.bytes[2];
        proof {
            assert((((b >> 5) & 1) != 1) == (b & 0x20 == 0)) by (bit_vector);
        }
        ((b >> 5) & 1) != 1
    }

    /// True only if bit 5 of byte 3 is set.
    pub fn is_safe_to_copy(&self) -> (r: bool)
        ensures
            r == spec_is_safe_to_copy(self@),
    {
        let b = self.bytes[3];
        proof {
            assert((((b >> 5) & 1) == 1) == (b & 0x20 == 0x20)) by (bit_vector);
        }
        ((b >> 5) & 1) == 1
    }

    /// True when the reserved bit is valid.
    pub fn is_valid(&self) -> (r: bool)
        ensures
            r == spec_is_reserved_bit_valid(self@),
    {
        self.is_reserved_bit_valid()
    }

    /// True when the reserved bit is not valid.
    pub fn is_err(&self) -> (r: bool)
        ensures
            r == !spec_is_reserved_bit_valid(self@),
    {
        !self.is_reserved_bit_valid()
    }

    /// The tag as text: the four letter bytes read as characters.
    pub fn to_string(&self) -> (r: String)
        ensures
            r@.len() == 4,
            forall|i: int| 0 <= i < 4 ==> r@[i] == (self@[i] as char),
    {
        let mut v: Vec<u8> = Vec::new();
        v.push(self.bytes[0]);
        v.push(self.bytes[1]);
        v.push(self.bytes[2]);
        v.push(self.bytes[3]);
        proof {
            use_type_invariant(self);
            assert(v@ =~= self@);
            lemma_ascii_bytes_decode(v@);
        }
        match utf8_to_string(&v) {
            Some(s) => s,
            None => {
                proof {
                    assert(false);
                }
                String::new()
            },
        }
    }
}

} // verus!
