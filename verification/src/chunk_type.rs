//! Chunk-type tags: 4 ASCII letters whose per-byte letter casing encodes
//! the chunk's semantic bits (critical, public, reserved-valid, safe-to-copy).

use vstd::prelude::*;

verus! {

use vstd::string::StringSliceAdditionalSpecFns;

/// True for the ASCII codes of `A`-`Z`.
pub open spec fn is_upper(b: u8) -> bool {
    65 <= b && b <= 90
}

/// True for the ASCII codes of `a`-`z`.
pub open spec fn is_lower(b: u8) -> bool {
    97 <= b && b <= 122
}

/// True for the ASCII codes of letters, upper or lower case.
pub open spec fn is_letter(b: u8) -> bool {
    is_upper(b) || is_lower(b)
}

/// True when every byte of `s` is an ASCII letter.
pub open spec fn all_letters(s: Seq<u8>) -> bool {
    forall|i: int| 0 <= i < s.len() ==> is_letter(s[i])
}

/// Critical chunk (a decoder should not skip it): byte 0 is upper case.
pub open spec fn spec_is_critical(t: Seq<u8>) -> bool {
    is_upper(t[0])
}

/// Public, registered chunk meaning: byte 1 is upper case.
pub open spec fn spec_is_public(t: Seq<u8>) -> bool {
    is_upper(t[1])
}

/// Reserved bit valid per the container's convention: byte 2 is upper case.
pub open spec fn spec_is_reserved_bit_valid(t: Seq<u8>) -> bool {
    is_upper(t[2])
}

/// Safe to copy across unaware transformations: byte 3 is lower case.
pub open spec fn spec_is_safe_to_copy(t: Seq<u8>) -> bool {
    is_lower(t[3])
}

/// Overall validity: all 4 bytes are letters and the reserved bit holds.
pub open spec fn spec_is_valid(t: Seq<u8>) -> bool {
    all_letters(t) && spec_is_reserved_bit_valid(t)
}

/// Each classification predicate depends only on the case of its own
/// designated byte: two tags that agree on that byte are classified the
/// same way, whatever their other three bytes hold.
pub proof fn lemma_casing_bits_independent(a: Seq<u8>, b: Seq<u8>)
    requires
        a.len() == 4,
        b.len() == 4,
    ensures
        a[0] == b[0] ==> spec_is_critical(a) == spec_is_critical(b),
        a[1] == b[1] ==> spec_is_public(a) == spec_is_public(b),
        a[2] == b[2] ==> spec_is_reserved_bit_valid(a) == spec_is_reserved_bit_valid(b),
        a[3] == b[3] ==> spec_is_safe_to_copy(a) == spec_is_safe_to_copy(b),
{
}

/// Why constructing a [`ChunkType`] failed: the input was malformed.
#[derive(Clone, Copy, PartialEq, Eq, Structural, Debug)]
pub enum TagError {
    /// The text input was not exactly 4 characters long.
    WrongLength,
    /// Some input byte was outside `A`-`Z` / `a`-`z`.
    NotAlphabetic,
}

/// A chunk-type tag: exactly 4 bytes, each an ASCII letter. The case of
/// each byte carries one semantic bit, queried by the `is_*` methods.
#[derive(Debug, PartialEq, Eq)]
pub struct ChunkType {
    bytes: [u8; 4],
}

impl View for ChunkType {
    type V = Seq<u8>;

    closed spec fn view(&self) -> Seq<u8> {
        self.bytes@
    }
}

/// Checks one byte for ASCII-letter-hood.
fn byte_is_letter(b: u8) -> (r: bool)
    ensures
        r == is_letter(b),
{
    (65 <= b && b <= 90) || (97 <= b && b <= 122)
}

impl ChunkType {
    /// Builds a tag from 4 raw bytes; fails unless every byte is an
    /// ASCII letter.
    pub fn try_from_bytes(bytes: [u8; 4]) -> (r: Result<ChunkType, TagError>)
        ensures
            r is Ok <==> all_letters(bytes@),
            r matches Ok(t) ==> t@ == bytes@,
            r matches Err(e) ==> e == TagError::NotAlphabetic,
    {
        let mut i: usize = 0;
        while i < 4
            invariant
                i <= 4,
                forall|j: int| 0 <= j < i ==> is_letter(bytes@[j]),
            decreases 4 - i,
        {
            if !byte_is_letter(bytes[i]) {
                return Err(TagError::NotAlphabetic);
            }
            i += 1;
        }
        Ok(ChunkType { bytes })
    }

    /// Builds a tag from text; fails unless the text is exactly 4 bytes
    /// long and every byte is an ASCII letter.
    pub fn from_str(s: &str) -> (r: Result<ChunkType, TagError>)
        ensures
            r is Ok <==> s.spec_bytes().len() == 4 && all_letters(s.spec_bytes()),
            r matches Ok(t) ==> t@ == s.spec_bytes(),
            s.spec_bytes().len() != 4 ==> r == Err::<ChunkType, TagError>(TagError::WrongLength),
            s.spec_bytes().len() == 4 && !all_letters(s.spec_bytes()) ==> r == Err::<
                ChunkType,
                TagError,
            >(TagError::NotAlphabetic),
    {
        let b = s.as_bytes();
        if b.len() != 4 {
            return Err(TagError::WrongLength);
        }
        let bytes: [u8; 4] = [b[0], b[1], b[2], b[3]];
        assert(bytes@ =~= s.spec_bytes());
        match Self::try_from_bytes(bytes) {
            Ok(t) => Ok(t),
            Err(e) => Err(e),
        }
    }

    /// The tag's 4 raw bytes, in order.
    pub fn bytes(&self) -> (r: [u8; 4])
        ensures
            r@ == self@,
    {
        self.bytes
    }

    /// Renders the tag's 4 characters in their original case.
    pub fn to_text(&self) -> (r: String)
        ensures
            r@ == crate::text::chars_of(self@),
    {
        let mut s = String::new();
        let b = self.bytes;
        crate::text::push_chars_of(&mut s, b.as_slice(), 0);
        proof {
            assert(b@.skip(0) =~= self@);
            assert(s@ =~= crate::text::chars_of(self@));
        }
        s
    }

    /// Every stored byte is an ASCII letter; the constructors establish
    /// this and nothing ever mutates a tag.
    #[verifier::type_invariant]
    pub closed spec fn wf(self) -> bool {
        all_letters(self@)
    }

    /// A tag is valid when all 4 bytes are letters and the reserved bit
    /// holds, i.e. byte 2 is upper case.
    pub fn is_valid(&self) -> (r: bool)
        ensures
            r == spec_is_valid(self@),
    {
        let bs = &self.bytes;
        (byte_is_letter(bs[0]) && byte_is_letter(bs[1]) && byte_is_letter(bs[2])
            && byte_is_letter(bs[3])) && self.is_reserved_bit_valid()
    }

    /// Critical chunk: byte 0 is upper case; ancillary otherwise.
    pub fn is_critical(&self) -> (r: bool)
        ensures
            r == spec_is_critical(self@),
    {
        65 <= self.bytes[0] && self.bytes[0] <= 90
    }

    /// Public (registered) chunk meaning: byte 1 is upper case.
    pub fn is_public(&self) -> (r: bool)
        ensures
            r == spec_is_public(self@),
    {
        65 <= self.bytes[1] && self.bytes[1] <= 90
    }

    /// Reserved bit valid: byte 2 is upper case.
    pub fn is_reserved_bit_valid(&self) -> (r: bool)
        ensures
            r == spec_is_reserved_bit_valid(self@),
    {
        65 <= self.bytes[2] && self.bytes[2] <= 90
    }

    /// Safe to copy across unaware transformations: byte 3 is lower case.
    pub fn is_safe_to_copy(&self) -> (r: bool)
        ensures
            r == spec_is_safe_to_copy(self@),
    {
        97 <= self.bytes[3] && self.bytes[3] <= 122
    }
}

} // verus!
