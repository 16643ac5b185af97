//! The four-byte type code of a chunk and the flags its letters carry.

use vstd::prelude::*;
use vstd::std_specs::cmp::PartialEqSpecImpl;
use vstd::std_specs::convert::TryFromSpecImpl;
use vstd::utf8::{decode_utf8, encode_utf8, is_ascii_chars, valid_utf8};
use crate::error::Error;
use crate::text::{string_from_utf8, utf8_error_text};

verus! {

/// A chunk's four-byte type code.
#[derive(Debug, Clone, Copy, Eq)]
pub struct ChunkType([u8; 4]);

/// Whether `byte` is an ASCII letter.
pub open spec fn is_letter(byte: u8) -> bool {
    (0x41 <= byte <= 0x5a) || (0x61 <= byte <= 0x7a)
}

/// Whether `c` is an ASCII letter.
pub open spec fn is_letter_char(c: char) -> bool {
    ('A' <= c <= 'Z') || ('a' <= c <= 'z')
}

/// Whether `code` is made of four ASCII letters.
pub open spec fn is_alphabetic(code: Seq<u8>) -> bool {
    &&& code.len() == 4
    &&& forall|i: int| 0 <= i < 4 ==> is_letter(#[trigger] code[i])
}

/// Whether the bit of value `0x20` is set in `byte`.
pub open spec fn bit5(byte: u8) -> bool {
    byte & 0x20 != 0
}

/// What a type given as text stands for: its four bytes, or why it is refused.
pub open spec fn parse_type(text: Seq<char>) -> Result<Seq<u8>, Error> {
    if text.len() != 4 {
        Err(Error::InvalidLength)
    } else if exists|i: int| 0 <= i < 4 && !is_letter_char(#[trigger] text[i]) {
        Err(Error::InvalidCharacter)
    } else {
        Ok(Seq::new(4, |i: int| text[i] as u8))
    }
}

/// The text that a type code is rendered as: the characters that its bytes
/// encode, or, where they encode none, the description of the decoding error.
pub open spec fn type_text(code: Seq<u8>) -> Seq<char> {
    if valid_utf8(code) {
        decode_utf8(code)
    } else {
        utf8_error_text(code)
    }
}

/// A code of four letters is rendered as those four letters.
pub proof fn lemma_text_of_letters(code: Seq<u8>)
    requires
        is_alphabetic(code),
    ensures
        valid_utf8(code),
        type_text(code) == Seq::new(4, |i: int| code[i] as char),
        parse_type(type_text(code)) == Ok::<Seq<u8>, Error>(code),
{
    let chars = Seq::new(4, |i: int| code[i] as char);
    assert forall|i: int| 0 <= i < 4 implies is_letter_char(#[trigger] chars[i]) && chars[i] as u8
        == code[i] by {
        assert(is_letter(code[i]));
    }
    assert(is_ascii_chars(chars));
    vstd::utf8::is_ascii_chars_encode_utf8(chars);
    assert(encode_utf8(chars) =~= code);
    vstd::utf8::encode_utf8_valid_utf8(chars);
    vstd::utf8::encode_utf8_decode_utf8(chars);
    assert(Seq::new(4, |i: int| chars[i] as u8) =~= code);
}

/// A text that stands for a type is what that type is rendered as.
pub proof fn lemma_text_of_parsed(text: Seq<char>)
    requires
        parse_type(text) is Ok,
    ensures
        is_alphabetic(parse_type(text)->Ok_0),
        type_text(parse_type(text)->Ok_0) == text,
{
    let code = parse_type(text)->Ok_0;
    assert forall|i: int| 0 <= i < 4 implies is_letter(#[trigger] code[i]) && code[i] as char
        == text[i] by {
        assert(is_letter_char(text[i]));
    }
    lemma_text_of_letters(code);
    assert(Seq::new(4, |i: int| code[i] as char) =~= text);
}

impl PartialEq for ChunkType {
    fn eq(&self, other: &Self) -> (equal: bool) {
        let equal = self.0[0] == other.0[0] && self.0[1] == other.0[1] && self.0[2] == other.0[2]
            && self.0[3] == other.0[3];
        proof {
            if equal {
                assert(self@ =~= other@);
            }
        }
        equal
    }
}

impl PartialEqSpecImpl for ChunkType {
    open spec fn obeys_eq_spec() -> bool {
        true
    }

    open spec fn eq_spec(&self, other: &Self) -> bool {
        self@ == other@
    }
}

impl View for ChunkType {
    type V = Seq<u8>;

    closed spec fn view(&self) -> Seq<u8> {
        self.0@
    }
}

impl TryFrom<[u8; 4]> for ChunkType {
    type Error = Error;

    /// Takes four bytes as a type code, whatever they are.
    fn try_from(value: [u8; 4]) -> (made: Result<ChunkType, Error>)
        ensures
            made is Ok,
            made->Ok_0@ == value@,
    {
        Ok(ChunkType(value))
    }
}

impl TryFromSpecImpl<[u8; 4]> for ChunkType {
    open spec fn obeys_try_from_spec() -> bool {
        true
    }

    open spec fn try_from_spec(value: [u8; 4]) -> Result<Self, Error> {
        Ok(ChunkType::of(value))
    }
}

impl std::str::FromStr for ChunkType {
    type Err = Error;

    /// The same as [`ChunkType::from_str`].
    fn from_str(s: &str) -> (made: Result<ChunkType, Error>)
        ensures
            made is Ok ==> parse_type(s@) == Ok::<Seq<u8>, Error>(made->Ok_0@),
            made is Err ==> parse_type(s@) == Err::<Seq<u8>, Error>(made->Err_0),
    {
        ChunkType::from_str(s)
    }
}

impl ChunkType {
    /// The type code that holds exactly the bytes of `code`.
    pub closed spec fn of(code: [u8; 4]) -> ChunkType {
        ChunkType(code)
    }

    /// A type code is always four bytes long.
    pub broadcast proof fn lemma_len(self)
        ensures
            #[trigger] self@.len() == 4,
    {
    }

    /// The code made of given bytes holds those bytes.
    pub broadcast proof fn lemma_of(code: [u8; 4])
        ensures
            #[trigger] ChunkType::of(code)@ == code@,
    {
    }

    /// Reads a type from text: four characters, each an ASCII letter.
    pub fn from_str(s: &str) -> (made: Result<ChunkType, Error>)
        ensures
            made is Ok ==> parse_type(s@) == Ok::<Seq<u8>, Error>(made->Ok_0@),
            made is Err ==> parse_type(s@) == Err::<Seq<u8>, Error>(made->Err_0),
    {
        if s.unicode_len() != 4 {
            return Err(Error::InvalidLength);
        }
        let mut code: [u8; 4] = [0, 0, 0, 0];
        let mut i: usize = 0;
        while i < 4
            invariant
                i <= 4,
                s@.len() == 4,
                forall|j: int| 0 <= j < i ==> is_letter_char(#[trigger] s@[j]) && code@[j] == s@[j] as u8,
            decreases 4 - i,
        {
            let c = s.get_char(i);
            if !(('A' <= c && c <= 'Z') || ('a' <= c && c <= 'z')) {
                return Err(Error::InvalidCharacter);
            }
            code[i] = c as u8;
            i += 1;
        }
        assert(code@ =~= Seq::new(4, |i: int| s@[i] as u8));
        Ok(ChunkType(code))
    }

    /// The four bytes of the code.
    pub fn bytes(&self) -> (code: [u8; 4])
        ensures
            code@ == self@,
    {
        self.0
    }

    /// The type as text.
    pub fn to_string(&self) -> (text: String)
        ensures
            text@ == type_text(self@),
    {
        let mut code: Vec<u8> = Vec::new();
        code.push(self.0[0]);
        code.push(self.0[1]);
        code.push(self.0[2]);
        code.push(self.0[3]);
        assert(code@ =~= self@);
        match string_from_utf8(code) {
            Ok(text) => text,
            Err(why) => why,
        }
    }

    /// Whether the type is valid: the reserved bit is as it must be.
    pub fn is_valid(&self) -> (flag: bool)
        ensures
            flag == !bit5(self@[2]),
    {
        self.is_reserved_bit_valid()
    }

    /// Whether the chunk is critical: bit `0x20` of the first byte is unset.
    pub fn is_critical(&self) -> (flag: bool)
        ensures
            flag == !bit5(self@[0]),
    {
        self.0[0] & 0b00100000 == 0
    }

    /// Whether the chunk is public: bit `0x20` of the second byte is unset.
    pub fn is_public(&self) -> (flag: bool)
        ensures
            flag == !bit5(self@[1]),
    {
        self.0[1] & 0b00100000 == 0
    }

    /// Whether the reserved bit, bit `0x20` of the third byte, is unset.
    pub fn is_reserved_bit_valid(&self) -> (flag: bool)
        ensures
            flag == !bit5(self@[2]),
    {
        self.0[2] & 0b00100000 == 0
    }

    /// Whether the chunk is safe to copy: bit `0x20` of the fourth byte is set.
    pub fn is_safe_to_copy(&self) -> (flag: bool)
        ensures
            flag == bit5(self@[3]),
    {
        self.0[3] & 0b00100000 != 0
    }
}

/// In a letter, bit `0x20` is set exactly when the letter is lower case: a
/// flag of a type made of letters can be read off the case of its letter.
pub proof fn law_flag_is_letter_case(byte: u8)
    requires
        is_letter(byte),
    ensures
        bit5(byte) <==> 0x61 <= byte <= 0x7a,
{
    assert(((0x41 <= byte && byte <= 0x5a) || (0x61 <= byte && byte <= 0x7a)) ==> ((byte & 0x20
        != 0) <==> (0x61 <= byte && byte <= 0x7a))) by (bit_vector);
}

} // verus!
