use crate::error::FormatError;
use crate::text::{all_ascii, ascii_chars, ascii_string};
use vstd::prelude::*;
use vstd::string::StringSliceAdditionalSpecFns;

verus! {

/// Bit 5 of an ASCII letter: clear for upper case, set for lower case.
pub open spec fn case_bit_clear(b: u8) -> bool {
    b & 32u8 == 0
}

/// `b` is an ASCII letter, `A`-`Z` or `a`-`z`.
pub open spec fn is_letter(b: u8) -> bool {
    (65 <= b && b <= 90) || (97 <= b && b <= 122)
}

/// `t` is a well-formed chunk type tag: four ASCII letters.
pub open spec fn is_tag(t: Seq<u8>) -> bool {
    &&& t.len() == 4
    &&& forall|i: int| 0 <= i < 4 ==> is_letter(#[trigger] t[i])
}

/// A four-byte chunk type tag, each byte an ASCII letter.
#[derive(PartialEq, Eq, Debug, Clone, Copy)]
pub struct ChunkType {
    tag: [u8; 4],
}

impl View for ChunkType {
    type V = Seq<u8>;

    /// The four tag bytes.
    closed spec fn view(&self) -> Seq<u8> {
        self.tag@
    }
}

impl ChunkType {
    /// The tag of every chunk type is four ASCII letters.
    #[verifier::type_invariant]
    pub open spec fn well_formed(&self) -> bool {
        is_tag(self@)
    }

    /// Builds a chunk type from its four bytes; fails unless all are letters.
    pub fn try_from(bytes: [u8; 4]) -> (r: Result<ChunkType, FormatError>)
        ensures
            is_tag(bytes@) ==> (r matches Ok(t) && t@ == bytes@),
            !is_tag(bytes@) ==> r == Err::<ChunkType, FormatError>(FormatError::InvalidChunkType),
    {
        let mut i: usize = 0;
        while i < 4
            invariant
                i <= 4,
                bytes@.len() == 4,
                forall|j: int| 0 <= j < i ==> is_letter(#[trigger] bytes@[j]),
            decreases 4 - i,
        {
            if !is_alpha(bytes[i]) {
                return Err(FormatError::InvalidChunkType);
            }
            i = i + 1;
        }
        Ok(ChunkType { tag: bytes })
    }

    /// Parses a chunk type from a string of exactly four ASCII letters.
    pub fn from_str(s: &str) -> (r: Result<ChunkType, FormatError>)
        ensures
            s.spec_bytes().len() != 4 ==> r == Err::<ChunkType, FormatError>(FormatError::InvalidLength),
            s.spec_bytes().len() == 4 && is_tag(s.spec_bytes()) ==> (r matches Ok(t) && t@ == s.spec_bytes()),
            s.spec_bytes().len() == 4 && !is_tag(s.spec_bytes()) ==> r == Err::<ChunkType, FormatError>(FormatError::InvalidChunkType),
    {
        let b = s.as_bytes();
        if b.len() != 4 {
            return Err(FormatError::InvalidLength);
        }
        let bytes: [u8; 4] = [b[0], b[1], b[2], b[3]];
        assert(bytes@ =~= s.spec_bytes());
        ChunkType::try_from(bytes)
    }

    /// The four tag bytes.
    pub fn bytes(&self) -> (r: [u8; 4])
        ensures
            r@ == self@,
    {
        self.tag
    }

    /// Critical chunks have an upper-case first letter.
    pub fn is_critical(&self) -> (r: bool)
        ensures
            r == case_bit_clear(self@[0]),
    {
        proof { use_type_invariant(self); }
        is_upper(self.tag[0])
    }

    /// Public chunks have an upper-case second letter.
    pub fn is_public(&self) -> (r: bool)
        ensures
            r == case_bit_clear(self@[1]),
    {
        proof { use_type_invariant(self); }
        is_upper(self.tag[1])
    }

    /// The reserved third letter must be upper case.
    pub fn is_reserved_bit_valid(&self) -> (r: bool)
        ensures
            r == case_bit_clear(self@[2]),
    {
        proof { use_type_invariant(self); }
        is_upper(self.tag[2])
    }

    /// Chunks whose fourth letter is lower case are safe to copy.
    pub fn is_safe_to_copy(&self) -> (r: bool)
        ensures
            r == !case_bit_clear(self@[3]),
    {
        proof { use_type_invariant(self); }
        !is_upper(self.tag[3])
    }

    /// A chunk type is valid when its reserved bit is.
    pub fn is_valid(&self) -> (r: bool)
        ensures
            r == case_bit_clear(self@[2]),
    {
        self.is_reserved_bit_valid()
    }

    /// The tag as a four-character string.
    pub fn to_string(&self) -> (r: String)
        ensures
            r@ == ascii_chars(self@),
    {
        proof { use_type_invariant(self); }
        let v: Vec<u8> = vec![self.tag[0], self.tag[1], self.tag[2], self.tag[3]];
        assert(v@ =~= self@);
        assert(all_ascii(v@)) by {
            assert forall|i: int| 0 <= i < v@.len() implies #[trigger] v@[i] < 128 by {
                assert(is_letter(self.tag@[i]));
            }
        }
        ascii_string(v)
    }
}

/// True when bit 5 of `byte` is clear (upper case for a letter).
pub fn is_upper(byte: u8) -> (r: bool)
    ensures
        r == case_bit_clear(byte),
{
    byte & 32u8 == 0
}

/// True when `byte` is an ASCII letter.
pub fn is_alpha(byte: u8) -> (r: bool)
    ensures
        r == is_letter(byte),
{
    (65 <= byte && byte <= 90) || (97 <= byte && byte <= 122)
}

} // verus!
