//! The four-letter type tag of a chunk and the properties encoded in the case
//! of its letters.

use crate::error::PngError;
use crate::text::{ascii_string, ascii_text, is_ascii_bytes, lemma_ascii_text};
use std::str::FromStr;
use vstd::prelude::*;
use vstd::std_specs::convert::TryFromSpecImpl;
use vstd::string::*;
use vstd::utf8::*;

verus! {

/// Whether `b` is an upper-case ASCII letter, `A`..=`Z`.
pub open spec fn is_upper_case(b: u8) -> bool {
    0x41 <= b <= 0x5a
}

/// Whether `b` is a lower-case ASCII letter, `a`..=`z`.
pub open spec fn is_lower_case(b: u8) -> bool {
    0x61 <= b <= 0x7a
}

/// Whether `b` is an ASCII letter of either case.
pub open spec fn is_ascii_letter(b: u8) -> bool {
    is_upper_case(b) || is_lower_case(b)
}

/// Whether `bytes` form a chunk type tag: exactly four bytes, each of them an
/// ASCII letter.
pub open spec fn is_type_tag(bytes: Seq<u8>) -> bool {
    &&& bytes.len() == 4
    &&& is_ascii_letter(bytes[0])
    &&& is_ascii_letter(bytes[1])
    &&& is_ascii_letter(bytes[2])
    &&& is_ascii_letter(bytes[3])
}

/// Whether the property bit of a tag byte, the bit of value `0x20`, is set.
pub open spec fn property_bit(b: u8) -> bool {
    b & 0x20 != 0
}

/// A chunk is critical, rather than ancillary, when the property bit of the
/// first tag byte is clear.
pub open spec fn tag_is_critical(tag: Seq<u8>) -> bool {
    !property_bit(tag[0])
}

/// A chunk is public, rather than private, when the property bit of the
/// second tag byte is clear.
pub open spec fn tag_is_public(tag: Seq<u8>) -> bool {
    !property_bit(tag[1])
}

/// The reserved bit is valid when the property bit of the third tag byte is
/// clear.
pub open spec fn tag_reserved_bit_valid(tag: Seq<u8>) -> bool {
    !property_bit(tag[2])
}

/// A chunk is safe to copy when the property bit of the fourth tag byte is
/// set.
pub open spec fn tag_is_safe_to_copy(tag: Seq<u8>) -> bool {
    property_bit(tag[3])
}

/// The tag written as text, one character per byte.
pub open spec fn tag_text(tag: Seq<u8>) -> Seq<char> {
    ascii_text(tag)
}

/// In an ASCII letter the property bit tells the case: it is set in the
/// lower-case letters and clear in the upper-case ones.
pub proof fn lemma_property_bit_is_case(b: u8)
    requires
        is_ascii_letter(b),
    ensures
        property_bit(b) <==> is_lower_case(b),
        !property_bit(b) <==> is_upper_case(b),
{
    assert((0x41 <= b <= 0x5a) || (0x61 <= b <= 0x7a) ==> (b & 0x20 != 0 <==> 0x61 <= b <= 0x7a))
        by (bit_vector);
}

/// A type tag consists of ASCII codes.
pub proof fn lemma_type_tag_is_ascii(tag: Seq<u8>)
    requires
        is_type_tag(tag),
    ensures
        is_ascii_bytes(tag),
{
}

/// A text is the written form of a tag exactly if the tag is the UTF-8
/// encoding of the text.
pub proof fn lemma_tag_text_matches(tag: Seq<u8>, text: Seq<char>)
    requires
        is_type_tag(tag),
    ensures
        tag_text(tag) == text <==> encode_utf8(text) == tag,
{
    lemma_type_tag_is_ascii(tag);
    lemma_ascii_text(tag);
}

/// Whether `c` is an ASCII letter.
pub open spec fn is_ascii_letter_char(c: char) -> bool {
    ('A' <= c <= 'Z') || ('a' <= c <= 'z')
}

/// Whether `text` is a chunk type written out: exactly four characters, each
/// of them an ASCII letter.
pub open spec fn is_tag_text(text: Seq<char>) -> bool {
    &&& text.len() == 4
    &&& is_ascii_letter_char(text[0])
    &&& is_ascii_letter_char(text[1])
    &&& is_ascii_letter_char(text[2])
    &&& is_ascii_letter_char(text[3])
}

/// The strings whose bytes are a type tag are the strings of four ASCII
/// letters: a string that holds anything else, or is shorter or longer, has
/// bytes that are no type tag.
pub proof fn lemma_type_tag_of_text(text: Seq<char>)
    ensures
        is_type_tag(encode_utf8(text)) <==> is_tag_text(text),
{
    let bytes = encode_utf8(text);
    if is_tag_text(text) {
        assert(is_ascii_chars(text));
        is_ascii_chars_encode_utf8(text);
    }
    if is_type_tag(bytes) {
        lemma_type_tag_is_ascii(bytes);
        lemma_ascii_text(bytes);
        assert(text == ascii_text(bytes));
    }
}

/// A tag made from a string of four ASCII letters spells that string again:
/// the string makes a tag, the bytes of the tag are the bytes of the string,
/// and the written form of the tag is the string.
pub proof fn lemma_tag_of_string_round_trip(s: Seq<char>)
    requires
        is_tag_text(s),
    ensures
        is_type_tag(encode_utf8(s)),
        tag_text(encode_utf8(s)) == s,
{
    lemma_type_tag_of_text(s);
    lemma_tag_text_matches(encode_utf8(s), s);
}

/// The type tag of a chunk.
#[derive(Debug, PartialEq, Eq, Structural)]
pub struct ChunkType {
    ancillary: u8,
    private: u8,
    reserved: u8,
    safe_to_copy: u8,
}

impl View for ChunkType {
    type V = Seq<u8>;

    /// The four bytes of the tag, in order.
    closed spec fn view(&self) -> Seq<u8> {
        seq![self.ancillary, self.private, self.reserved, self.safe_to_copy]
    }
}

impl ChunkType {
    /// Every tag consists of four ASCII letters.
    #[verifier::type_invariant]
    pub closed spec fn wf(self) -> bool {
        &&& is_ascii_letter(self.ancillary)
        &&& is_ascii_letter(self.private)
        &&& is_ascii_letter(self.reserved)
        &&& is_ascii_letter(self.safe_to_copy)
    }

    /// A tag is well formed exactly if its bytes are a type tag in the sense
    /// of [`is_type_tag`].
    pub proof fn lemma_wf_is_type_tag(self)
        ensures
            self.wf() <==> is_type_tag(self@),
    {
    }

    /// Two tags with the same bytes are the same tag.
    pub proof fn lemma_view_injective(self, other: ChunkType)
        ensures
            self@ == other@ <==> self == other,
    {
        if self@ == other@ {
            assert(self@[0] == other@[0]);
            assert(self@[1] == other@[1]);
            assert(self@[2] == other@[2]);
            assert(self@[3] == other@[3]);
        }
    }

    /// Builds a tag from four bytes, which must all be ASCII letters.
    pub fn from_bytes(bytes: [u8; 4]) -> (r: Result<ChunkType, PngError>)
        ensures
            is_type_tag(bytes@) ==> r is Ok && r->Ok_0@ == bytes@,
            !is_type_tag(bytes@) ==> r == Err::<ChunkType, PngError>(PngError::InvalidChunkType),
    {
        if is_letter(bytes[0]) && is_letter(bytes[1]) && is_letter(bytes[2]) && is_letter(
            bytes[3],
        ) {
            let t = ChunkType {
                ancillary: bytes[0],
                private: bytes[1],
                reserved: bytes[2],
                safe_to_copy: bytes[3],
            };
            assert(t@ =~= bytes@);
            Ok(t)
        } else {
            Err(PngError::InvalidChunkType)
        }
    }

    /// Builds a tag from a string, which must be four bytes long, all of them
    /// ASCII letters; these are the strings of four ASCII letters. The tag
    /// has the bytes of the string, and is written as the string.
    pub fn from_string(s: &str) -> (r: Result<ChunkType, PngError>)
        ensures
            is_type_tag(s.spec_bytes()) <==> is_tag_text(s@),
            is_type_tag(s.spec_bytes()) ==> r is Ok && r->Ok_0@ == s.spec_bytes() && tag_text(
                r->Ok_0@,
            ) == s@,
            !is_type_tag(s.spec_bytes()) ==> r == Err::<ChunkType, PngError>(
                PngError::InvalidChunkType,
            ),
    {
        proof {
            lemma_type_tag_of_text(s@);
            if is_tag_text(s@) {
                lemma_tag_of_string_round_trip(s@);
            }
        }
        let b = s.as_bytes();
        if b.len() != 4 {
            return Err(PngError::InvalidChunkType);
        }
        let bytes: [u8; 4] = [b[0], b[1], b[2], b[3]];
        assert(bytes@ =~= b@);
        ChunkType::from_bytes(bytes)
    }

    /// The four bytes of the tag, each of them an ASCII letter.
    pub fn bytes(&self) -> (r: [u8; 4])
        ensures
            r@ == self@,
            is_type_tag(self@),
    {
        proof {
            use_type_invariant(self);
            self.lemma_wf_is_type_tag();
        }
        let r = [self.ancillary, self.private, self.reserved, self.safe_to_copy];
        assert(r@ =~= self@);
        r
    }

    /// Whether the tag is valid by the PNG rules, which is the case when its
    /// reserved bit is: the third letter is upper case.
    pub fn is_valid(&self) -> (r: bool)
        ensures
            r == tag_reserved_bit_valid(self@),
            r == is_upper_case(self@[2]),
    {
        proof {
            use_type_invariant(self);
            lemma_property_bit_is_case(self.reserved);
        }
        self.reserved & 0x20 == 0
    }

    /// Whether the chunk is critical rather than ancillary: the first letter
    /// is upper case.
    pub fn is_critical(&self) -> (r: bool)
        ensures
            r == tag_is_critical(self@),
            r == is_upper_case(self@[0]),
    {
        proof {
            use_type_invariant(self);
            lemma_property_bit_is_case(self.ancillary);
        }
        self.ancillary & 0x20 == 0
    }

    /// Whether the chunk is public rather than private: the second letter is
    /// upper case.
    pub fn is_public(&self) -> (r: bool)
        ensures
            r == tag_is_public(self@),
            r == is_upper_case(self@[1]),
    {
        proof {
            use_type_invariant(self);
            lemma_property_bit_is_case(self.private);
        }
        self.private & 0x20 == 0
    }

    /// Whether the reserved bit of the tag is valid: the third letter is
    /// upper case.
    pub fn is_reserved_bit_valid(&self) -> (r: bool)
        ensures
            r == tag_reserved_bit_valid(self@),
            r == is_upper_case(self@[2]),
    {
        self.is_valid()
    }

    /// Whether the chunk is safe to copy: the fourth letter is lower case.
    pub fn is_safe_to_copy(&self) -> (r: bool)
        ensures
            r == tag_is_safe_to_copy(self@),
            r == is_lower_case(self@[3]),
    {
        proof {
            use_type_invariant(self);
            lemma_property_bit_is_case(self.safe_to_copy);
        }
        self.safe_to_copy & 0x20 != 0
    }

    /// The tag written as a string of four letters.
    pub fn to_string(&self) -> (r: String)
        ensures
            r@ == tag_text(self@),
    {
        let b = self.bytes();
        let mut v: Vec<u8> = Vec::new();
        v.push(b[0]);
        v.push(b[1]);
        v.push(b[2]);
        v.push(b[3]);
        proof {
            assert(v@ =~= self@);
            lemma_type_tag_is_ascii(self@);
        }
        ascii_string(v)
    }
}

impl TryFrom<[u8; 4]> for ChunkType {
    type Error = PngError;

    /// The same as [`ChunkType::from_bytes`].
    fn try_from(bytes: [u8; 4]) -> (r: Result<ChunkType, PngError>)
        ensures
            is_type_tag(bytes@) ==> r is Ok && r->Ok_0@ == bytes@,
            !is_type_tag(bytes@) ==> r == Err::<ChunkType, PngError>(PngError::InvalidChunkType),
    {
        ChunkType::from_bytes(bytes)
    }
}

impl TryFromSpecImpl<[u8; 4]> for ChunkType {
    open spec fn obeys_try_from_spec() -> bool {
        true
    }

    closed spec fn try_from_spec(bytes: [u8; 4]) -> Result<ChunkType, PngError> {
        if is_type_tag(bytes@) {
            Ok(
                ChunkType {
                    ancillary: bytes[0],
                    private: bytes[1],
                    reserved: bytes[2],
                    safe_to_copy: bytes[3],
                },
            )
        } else {
            Err(PngError::InvalidChunkType)
        }
    }
}

impl FromStr for ChunkType {
    type Err = PngError;

    /// The same as [`ChunkType::from_string`].
    fn from_str(s: &str) -> (r: Result<ChunkType, PngError>)
        ensures
            is_type_tag(s.spec_bytes()) <==> is_tag_text(s@),
            is_type_tag(s.spec_bytes()) ==> r is Ok && r->Ok_0@ == s.spec_bytes() && tag_text(
                r->Ok_0@,
            ) == s@,
            !is_type_tag(s.spec_bytes()) ==> r == Err::<ChunkType, PngError>(
                PngError::InvalidChunkType,
            ),
    {
        ChunkType::from_string(s)
    }
}

/// Tests whether a byte is an ASCII letter.
fn is_letter(b: u8) -> (r: bool)
    ensures
        r == is_ascii_letter(b),
{
    (0x41 <= b && b <= 0x5a) || (0x61 <= b && b <= 0x7a)
}

} // verus!
