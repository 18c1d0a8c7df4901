use vstd::prelude::*;
use crate::endian::{be_bytes, be_read, lemma_be_bytes_value, lemma_be_value_bytes, u32_to_be};
use crate::error::PngError;
use crate::text::string_from_utf8;
use vstd::utf8::{
    encode_utf8, encode_utf8_decode_utf8, encode_utf8_valid_utf8, is_ascii_chars,
    is_ascii_chars_encode_utf8,
};
use vstd::string::StringSliceAdditionalSpecFns;


verus! {

/// An ASCII letter, upper or lower case.
pub open spec fn is_ascii_letter(b: u8) -> bool {
    (65 <= b <= 90) || (97 <= b <= 122)
}

/// Four bytes, each an ASCII letter: what a chunk type is made of.
pub open spec fn is_type_tag(t: Seq<u8>) -> bool {
    t.len() == 4 && forall|i: int| 0 <= i < 4 ==> is_ascii_letter(#[trigger] t[i])
}

/// The flag bit of a tag byte: set for a lower-case letter.
pub open spec fn flag_bit(b: u8) -> bool {
    b & 0x20u8 != 0
}

/// A critical chunk has an upper-case first letter.
pub open spec fn tag_is_critical(t: Seq<u8>) -> bool {
    !flag_bit(t[0])
}

/// A public chunk has an upper-case second letter.
pub open spec fn tag_is_public(t: Seq<u8>) -> bool {
    !flag_bit(t[1])
}

/// The reserved third letter must be upper case.
pub open spec fn tag_is_reserved_bit_valid(t: Seq<u8>) -> bool {
    !flag_bit(t[2])
}

/// A safe-to-copy chunk has a lower-case fourth letter.
pub open spec fn tag_is_safe_to_copy(t: Seq<u8>) -> bool {
    flag_bit(t[3])
}

/// The characters of an ASCII byte sequence.
pub open spec fn ascii_chars(t: Seq<u8>) -> Seq<char> {
    t.map_values(|b: u8| b as char)
}

/// A validated four-letter chunk type. Its view is the four bytes of the tag.
#[derive(Clone, Copy, Debug, PartialEq, Eq, Structural)]
pub struct ChunkType {
    type_code: u32,
}

impl View for ChunkType {
    type V = Seq<u8>;

    closed spec fn view(&self) -> Seq<u8> {
        be_bytes(self.type_code)
    }
}

/// What building a chunk type from four bytes gives.
pub open spec fn chunk_type_from_bytes_spec(t: Seq<u8>) -> Result<Seq<u8>, PngError> {
    if is_type_tag(t) {
        Ok(t)
    } else {
        Err(PngError::InvalidTypeBytes)
    }
}

/// What building a chunk type from the UTF-8 bytes of a text gives.
pub open spec fn chunk_type_from_text_spec(t: Seq<u8>) -> Result<Seq<u8>, PngError> {
    if t.len() != 4 {
        Err(PngError::InvalidLength)
    } else {
        chunk_type_from_bytes_spec(t)
    }
}

/// The text of a sequence of ASCII bytes.
fn ascii_string(v: Vec<u8>) -> (r: String)
    requires
        forall|i: int| 0 <= i < v@.len() ==> #[trigger] v@[i] < 128,
    ensures
        r@ == ascii_chars(v@),
{
    proof {
        let chars = ascii_chars(v@);
        assert(is_ascii_chars(chars));
        is_ascii_chars_encode_utf8(chars);
        assert(encode_utf8(chars) =~= v@);
        encode_utf8_valid_utf8(chars);
        encode_utf8_decode_utf8(chars);
    }
    match string_from_utf8(v) {
        Some(s) => s,
        None => String::new(),
    }
}

fn is_ascii_letter_exec(b: u8) -> (r: bool)
    ensures
        r == is_ascii_letter(b),
{
    (65 <= b && b <= 90) || (97 <= b && b <= 122)
}

impl ChunkType {
    /// Every chunk type is made of four ASCII letters.
    #[verifier::type_invariant]
    closed spec fn inv(self) -> bool {
        is_type_tag(be_bytes(self.type_code))
    }

    /// A chunk type is built only from letters.
    pub open spec fn wf(&self) -> bool {
        is_type_tag(self@)
    }

    /// Two chunk types are equal exactly when their tag bytes are.
    pub proof fn lemma_eq_iff_bytes(a: ChunkType, b: ChunkType)
        ensures
            (a == b) <==> (a@ == b@),
    {
        if a@ == b@ {
            lemma_be_bytes_value(a.type_code);
            lemma_be_bytes_value(b.type_code);
        }
    }

    /// The chunk type whose tag is `value`, when all four bytes are ASCII letters.
    pub fn try_from(value: [u8; 4]) -> (r: Result<ChunkType, PngError>)
        ensures
            match r {
                Ok(t) => chunk_type_from_bytes_spec(value@) == Ok::<Seq<u8>, PngError>(t@)
                    && t.wf(),
                Err(e) => chunk_type_from_bytes_spec(value@) == Err::<Seq<u8>, PngError>(e),
            },
    {
        let ok = is_ascii_letter_exec(value[0]) && is_ascii_letter_exec(value[1])
            && is_ascii_letter_exec(value[2]) && is_ascii_letter_exec(value[3]);
        if !ok {
            proof {
                if is_type_tag(value@) {
                    assert(is_ascii_letter(value@[0]) && is_ascii_letter(value@[1]));
                    assert(is_ascii_letter(value@[2]) && is_ascii_letter(value@[3]));
                }
            }
            return Err(PngError::InvalidTypeBytes);
        }
        let type_code = ((value[0] as u32) << 24u32) | ((value[1] as u32) << 16u32)
            | ((value[2] as u32) << 8u32) | (value[3] as u32);
        proof {
            lemma_be_value_bytes(value[0], value[1], value[2], value[3]);
            assert(value@ =~= seq![value[0], value[1], value[2], value[3]]);
            assert(is_type_tag(value@)) by {
                assert forall|i: int| 0 <= i < 4 implies is_ascii_letter(#[trigger] value@[i]) by {
                    if i == 0 {} else if i == 1 {} else if i == 2 {} else {}
                }
            }
        }
        Ok(ChunkType { type_code })
    }

    /// The chunk type written as the four-letter text `s`.
    pub fn from_str(s: &str) -> (r: Result<ChunkType, PngError>)
        ensures
            match r {
                Ok(t) => chunk_type_from_text_spec(s.spec_bytes()) == Ok::<Seq<u8>, PngError>(t@)
                    && t.wf(),
                Err(e) => chunk_type_from_text_spec(s.spec_bytes()) == Err::<Seq<u8>, PngError>(e),
            },
    {
        let b = s.as_bytes();
        if b.len() != 4 {
            return Err(PngError::InvalidLength);
        }
        let value = [b[0], b[1], b[2], b[3]];
        assert(value@ =~= b@);
        Self::try_from(value)
    }

    /// The four bytes of the tag, each an ASCII letter.
    pub fn bytes(&self) -> (r: [u8; 4])
        ensures
            r@ == self@,
            is_type_tag(r@),
    {
        proof {
            use_type_invariant(self);
        }
        u32_to_be(self.type_code)
    }

    /// The tag as text, one character per letter.
    pub fn to_string(&self) -> (r: String)
        ensures
            r@ == ascii_chars(self@),
    {
        proof {
            use_type_invariant(self);
        }
        let b = self.bytes();
        let mut v: Vec<u8> = Vec::new();
        v.push(b[0]);
        v.push(b[1]);
        v.push(b[2]);
        v.push(b[3]);
        assert(v@ =~= self@);
        ascii_string(v)
    }

    /// The tag rendered for display: its four letters in double quotes.
    pub fn to_quoted_string(&self) -> (r: String)
        ensures
            r@ == seq!['"'] + ascii_chars(self@) + seq!['"'],
    {
        proof {
            use_type_invariant(self);
        }
        let b = self.bytes();
        let mut v: Vec<u8> = Vec::new();
        v.push(34u8);
        v.push(b[0]);
        v.push(b[1]);
        v.push(b[2]);
        v.push(b[3]);
        v.push(34u8);
        assert(v@ =~= seq![34u8] + self@ + seq![34u8]);
        let r = ascii_string(v);
        assert(r@ =~= seq!['"'] + ascii_chars(self@) + seq!['"']);
        r
    }

    /// Whether the type is valid: its reserved bit is clear.
    pub fn is_valid(&self) -> (r: bool)
        ensures
            r == tag_is_reserved_bit_valid(self@),
    {
        self.is_reserved_bit_valid()
    }

    /// Whether the chunk is critical (upper-case first letter).
    pub fn is_critical(&self) -> (r: bool)
        ensures
            r == tag_is_critical(self@),
    {
        let x = self.type_code;
        assert(((x & 0x2000_0000u32) == 0) == (((x >> 24u32) as u8) & 0x20u8 == 0)) by (bit_vector);
        (self.type_code & 0x2000_0000u32) == 0
    }

    /// Whether the chunk is public (upper-case second letter).
    pub fn is_public(&self) -> (r: bool)
        ensures
            r == tag_is_public(self@),
    {
        let x = self.type_code;
        assert(((x & 0x0020_0000u32) == 0) == (((x >> 16u32) as u8) & 0x20u8 == 0)) by (bit_vector);
        (self.type_code & 0x0020_0000u32) == 0
    }

    /// Whether the reserved bit (third letter) is clear.
    pub fn is_reserved_bit_valid(&self) -> (r: bool)
        ensures
            r == tag_is_reserved_bit_valid(self@),
    {
        let x = self.type_code;
        assert(((x & 0x0000_2000u32) == 0) == (((x >> 8u32) as u8) & 0x20u8 == 0)) by (bit_vector);
        (self.type_code & 0x0000_2000u32) == 0
    }

    /// Whether the chunk is safe to copy (lower-case fourth letter).
    pub fn is_safe_to_copy(&self) -> (r: bool)
        ensures
            r == tag_is_safe_to_copy(self@),
    {
        let x = self.type_code;
        assert(((x & 0x0000_0020u32) != 0) == ((x as u8) & 0x20u8 != 0)) by (bit_vector);
        (self.type_code & 0x0000_0020u32) != 0
    }
}

} // verus!

verus! {

impl core::convert::TryFrom<[u8; 4]> for ChunkType {
    type Error = PngError;

    fn try_from(value: [u8; 4]) -> Result<ChunkType, PngError> {
        let r = ChunkType::try_from(value);
        proof {
            if let Ok(t) = r {
                lemma_be_bytes_value(t.type_code);
            }
        }
        r
    }
}

impl vstd::std_specs::convert::TryFromSpecImpl<[u8; 4]> for ChunkType {
    open spec fn obeys_try_from_spec() -> bool {
        true
    }

    closed spec fn try_from_spec(value: [u8; 4]) -> Result<ChunkType, PngError> {
        if is_type_tag(value@) {
            Ok(ChunkType { type_code: be_read(value@) })
        } else {
            Err(PngError::InvalidTypeBytes)
        }
    }
}

impl core::str::FromStr for ChunkType {
    type Err = PngError;

    fn from_str(s: &str) -> Result<ChunkType, PngError> {
        ChunkType::from_str(s)
    }
}

} // verus!
