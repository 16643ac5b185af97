//! One chunk of a container: its frame on the wire, and the checksum that
//! seals it.

use vstd::prelude::*;
use vstd::slice::{slice_subrange, slice_to_vec};
use vstd::std_specs::convert::TryFromSpecImpl;
use vstd::string::StringExecFns;
use vstd::utf8::{decode_utf8, valid_utf8};
use crate::checksum::{checksum_ieee, crc32_ieee};
use crate::chunk_type::{
    is_alphabetic, lemma_text_of_letters, lemma_text_of_parsed, type_text, ChunkType,
};
use crate::endian::{
    be_u32, lemma_be_u32_injective, lemma_be_u32_of_u32_be, lemma_u32_be_of_be_u32, push_be_u32,
    read_be_u32, u32_be,
};
use crate::error::Error;
use crate::text::{
    decimal, decimal_string, string_from_utf8, string_from_utf8_lossy, utf8_lossy_text,
};

verus! {

/// A chunk: a payload, the type that tags it, its length and its checksum.
#[derive(Debug)]
pub struct Chunk {
    length: u32,
    chunk_type: ChunkType,
    chunk_data: Vec<u8>,
    crc: u32,
}

/// What a chunk holds, as plain values.
pub struct ChunkView {
    /// The declared length of the payload.
    pub length: u32,
    /// The four bytes of the type.
    pub type_code: Seq<u8>,
    /// The payload.
    pub data: Seq<u8>,
    /// The stored checksum.
    pub crc: u32,
}

impl ChunkView {
    /// The chunk that is built from a type and a payload: the length is that
    /// of the payload, the checksum that of type and payload.
    pub open spec fn fresh(type_code: Seq<u8>, data: Seq<u8>) -> ChunkView {
        ChunkView {
            length: data.len() as u32,
            type_code,
            data,
            crc: crc32_ieee(type_code + data),
        }
    }

    /// What holds of a chunk that was built from type and payload or read from
    /// a frame: a four-byte type, the length of the payload, and the checksum
    /// of type and payload.
    pub open spec fn well_formed(self) -> bool {
        &&& self.type_code.len() == 4
        &&& self.length == self.data.len()
        &&& self.crc == crc32_ieee(self.type_code + self.data)
    }

    /// Whether the chunk can stand in a container file: it is well formed and
    /// its type is made of letters.
    pub open spec fn valid(self) -> bool {
        self.well_formed() && is_alphabetic(self.type_code)
    }

    /// The frame of the chunk on the wire: length, type, payload, checksum.
    pub open spec fn bytes(self) -> Seq<u8> {
        u32_be(self.length) + self.type_code + self.data + u32_be(self.crc)
    }
}

/// The fields of the frame that `bytes` are, before its checksum is verified,
/// or why they are no frame.
pub open spec fn parse_frame(bytes: Seq<u8>) -> Result<ChunkView, Error> {
    let n = bytes.len() as int;
    if n < 12 {
        Err(Error::TooShort)
    } else if be_u32(bytes.subrange(0, 4)) + 12 != n {
        Err(Error::LengthMismatch)
    } else if !is_alphabetic(bytes.subrange(4, 8)) {
        Err(Error::InvalidType)
    } else {
        Ok(
            ChunkView {
                length: be_u32(bytes.subrange(0, 4)),
                type_code: bytes.subrange(4, 8),
                data: bytes.subrange(8, n - 4),
                crc: be_u32(bytes.subrange(n - 4, n)),
            },
        )
    }
}

/// A frame is accepted when the checksum it declares is the computed one.
pub open spec fn check_frame(frame: ChunkView, computed: u32) -> Result<ChunkView, Error> {
    if frame.crc == computed {
        Ok(frame)
    } else {
        Err(Error::ChecksumMismatch)
    }
}

/// The chunk that `bytes` are the frame of, or why they are none.
pub open spec fn parse_chunk(bytes: Seq<u8>) -> Result<ChunkView, Error> {
    match parse_frame(bytes) {
        Ok(frame) => check_frame(frame, crc32_ieee(frame.type_code + frame.data)),
        Err(error) => Err(error),
    }
}

/// The line that describes a chunk.
pub open spec fn summary(chunk: ChunkView) -> Seq<char> {
    "length: "@ + decimal(chunk.length as nat) + ",type "@ + type_text(chunk.type_code)
        + ", message:"@ + utf8_lossy_text(chunk.data) + ", crc: "@ + decimal(chunk.crc as nat)
}

/// `bytes` with one bit turned over: bit number `bit` of the byte at `at`.
pub open spec fn flip_bit(bytes: Seq<u8>, at: int, bit: u8) -> Seq<u8>
    recommends
        0 <= at < bytes.len(),
        bit < 8,
{
    bytes.update(at, bytes[at] ^ (1u8 << bit))
}

/// Turning a bit over changes the byte.
pub proof fn lemma_flip_changes(byte: u8, bit: u8)
    requires
        bit < 8,
    ensures
        byte ^ (1u8 << bit) != byte,
{
    assert(bit < 8 ==> byte ^ (1u8 << bit) != byte) by (bit_vector);
}

/// The frame of a valid chunk is read back as that chunk.
pub proof fn lemma_parse_of_bytes(chunk: ChunkView)
    requires
        chunk.valid(),
    ensures
        chunk.bytes().len() == chunk.data.len() + 12,
        parse_chunk(chunk.bytes()) == Ok::<ChunkView, Error>(chunk),
{
    let bytes = chunk.bytes();
    let n = bytes.len() as int;
    lemma_be_u32_of_u32_be(chunk.length);
    lemma_be_u32_of_u32_be(chunk.crc);
    assert(bytes.subrange(0, 4) =~= u32_be(chunk.length));
    assert(bytes.subrange(4, 8) =~= chunk.type_code);
    assert(bytes.subrange(8, n - 4) =~= chunk.data);
    assert(bytes.subrange(n - 4, n) =~= u32_be(chunk.crc));
}

/// What is read from a frame is a valid chunk, and its frame is the bytes
/// it was read from.
pub proof fn lemma_bytes_of_parse(bytes: Seq<u8>)
    requires
        parse_chunk(bytes) is Ok,
    ensures
        parse_chunk(bytes)->Ok_0.valid(),
        parse_chunk(bytes)->Ok_0.bytes() == bytes,
{
    let n = bytes.len() as int;
    let chunk = parse_chunk(bytes)->Ok_0;
    lemma_u32_be_of_be_u32(bytes.subrange(0, 4));
    lemma_u32_be_of_be_u32(bytes.subrange(n - 4, n));
    assert(chunk.bytes() =~= bytes);
}

/// A chunk built from a type of four letters and a payload is read back from
/// its frame, and its checksum is that of the type bytes followed by the
/// payload.
pub proof fn law_fresh_chunk_round_trip(type_code: Seq<u8>, data: Seq<u8>)
    requires
        is_alphabetic(type_code),
        data.len() <= u32::MAX,
    ensures
        parse_chunk(ChunkView::fresh(type_code, data).bytes()) == Ok::<ChunkView, Error>(
            ChunkView::fresh(type_code, data),
        ),
        ChunkView::fresh(type_code, data).crc == crc32_ieee(type_code + data),
{
    lemma_parse_of_bytes(ChunkView::fresh(type_code, data));
}

/// A frame of twelve bytes, with no payload, is read as a chunk whose
/// checksum covers the four type bytes alone.
pub proof fn law_empty_payload(type_code: Seq<u8>)
    requires
        is_alphabetic(type_code),
    ensures
        (u32_be(0) + type_code + u32_be(crc32_ieee(type_code))).len() == 12,
        parse_chunk(u32_be(0) + type_code + u32_be(crc32_ieee(type_code))) == Ok::<
            ChunkView,
            Error,
        >(ChunkView { length: 0, type_code, data: Seq::empty(), crc: crc32_ieee(type_code) }),
{
    let chunk = ChunkView::fresh(type_code, Seq::empty());
    assert(type_code + Seq::<u8>::empty() =~= type_code);
    lemma_parse_of_bytes(chunk);
    assert(chunk.bytes() =~= u32_be(0) + type_code + u32_be(crc32_ieee(type_code)));
}

/// Changing anything in the checksum field of a frame that was accepted, and
/// nothing else, makes it fail with a checksum mismatch.
pub proof fn law_checksum_tamper(bytes: Seq<u8>, tampered: Seq<u8>)
    requires
        parse_chunk(bytes) is Ok,
        tampered.len() == bytes.len(),
        tampered.subrange(0, bytes.len() - 4) == bytes.subrange(0, bytes.len() - 4),
        tampered != bytes,
    ensures
        parse_chunk(tampered) == Err::<ChunkView, Error>(Error::ChecksumMismatch),
{
    let n = bytes.len() as int;
    let head = bytes.subrange(0, n - 4);
    let t_head = tampered.subrange(0, n - 4);
    assert(bytes.subrange(0, 4) =~= head.subrange(0, 4));
    assert(tampered.subrange(0, 4) =~= t_head.subrange(0, 4));
    assert(bytes.subrange(4, 8) =~= head.subrange(4, 8));
    assert(tampered.subrange(4, 8) =~= t_head.subrange(4, 8));
    assert(bytes.subrange(8, n - 4) =~= head.subrange(8, n - 4));
    assert(tampered.subrange(8, n - 4) =~= t_head.subrange(8, n - 4));
    if tampered.subrange(n - 4, n) == bytes.subrange(n - 4, n) {
        assert(tampered =~= t_head + tampered.subrange(n - 4, n));
        assert(bytes =~= head + bytes.subrange(n - 4, n));
    }
    lemma_be_u32_injective(tampered.subrange(n - 4, n), bytes.subrange(n - 4, n));
}

/// Turning over one bit of the checksum field of a frame that was accepted
/// makes it fail with a checksum mismatch.
pub proof fn law_checksum_bit_flip(bytes: Seq<u8>, at: int, bit: u8)
    requires
        parse_chunk(bytes) is Ok,
        bytes.len() - 4 <= at < bytes.len(),
        bit < 8,
    ensures
        parse_chunk(flip_bit(bytes, at, bit)) == Err::<ChunkView, Error>(Error::ChecksumMismatch),
{
    let tampered = flip_bit(bytes, at, bit);
    lemma_flip_changes(bytes[at], bit);
    assert(tampered[at] != bytes[at]);
    assert(tampered.subrange(0, bytes.len() - 4) =~= bytes.subrange(0, bytes.len() - 4));
    law_checksum_tamper(bytes, tampered);
}

/// Turning over one bit of the length field of a frame that was accepted,
/// with the frame as long as before, makes it fail with a length mismatch.
pub proof fn law_length_bit_flip(bytes: Seq<u8>, at: int, bit: u8)
    requires
        parse_chunk(bytes) is Ok,
        0 <= at < 4,
        bit < 8,
    ensures
        parse_chunk(flip_bit(bytes, at, bit)) == Err::<ChunkView, Error>(Error::LengthMismatch),
{
    let tampered = flip_bit(bytes, at, bit);
    lemma_flip_changes(bytes[at], bit);
    assert(tampered.subrange(0, 4)[at] != bytes.subrange(0, 4)[at]);
    lemma_be_u32_injective(tampered.subrange(0, 4), bytes.subrange(0, 4));
}

/// The checksum of a chunk: that of its type bytes followed by its payload.
pub fn crc_checksum(chunk_type: &ChunkType, chunk_data: &Vec<u8>) -> (sum: u32)
    ensures
        sum == crc32_ieee(chunk_type@ + chunk_data@),
{
    let code = chunk_type.bytes();
    let mut data: Vec<u8> = Vec::new();
    data.push(code[0]);
    data.push(code[1]);
    data.push(code[2]);
    data.push(code[3]);
    let mut payload = slice_to_vec(chunk_data.as_slice());
    data.append(&mut payload);
    assert(data@ =~= chunk_type@ + chunk_data@);
    checksum_ieee(data.as_slice())
}

impl View for Chunk {
    type V = ChunkView;

    closed spec fn view(&self) -> ChunkView {
        ChunkView {
            length: self.length,
            type_code: self.chunk_type@,
            data: self.chunk_data@,
            crc: self.crc,
        }
    }
}

impl Clone for Chunk {
    fn clone(&self) -> (copy: Chunk)
        ensures
            copy@ == self@,
    {
        proof {
            use_type_invariant(self);
        }
        Chunk {
            length: self.length,
            chunk_type: self.chunk_type,
            chunk_data: slice_to_vec(self.chunk_data.as_slice()),
            crc: self.crc,
        }
    }
}

impl TryFrom<&Vec<u8>> for Chunk {
    type Error = Error;

    /// Reads a chunk from the bytes of its frame.
    fn try_from(value: &Vec<u8>) -> (made: Result<Chunk, Error>)
        ensures
            made is Ok ==> parse_chunk(value@) == Ok::<ChunkView, Error>(made->Ok_0@),
            made is Err ==> parse_chunk(value@) == Err::<ChunkView, Error>(made->Err_0),
    {
        Chunk::from_bytes(value.as_slice())
    }
}

impl TryFromSpecImpl<&Vec<u8>> for Chunk {
    /// The contract of `try_from` speaks of the chunk's view, not of the
    /// chunk itself, so equality with a chunk chosen here is not claimed.
    open spec fn obeys_try_from_spec() -> bool {
        false
    }

    open spec fn try_from_spec(value: &Vec<u8>) -> Result<Self, Error> {
        match parse_chunk(value@) {
            Ok(view) => Ok(choose|chunk: Chunk| chunk@ == view),
            Err(error) => Err(error),
        }
    }
}

impl Chunk {
    /// Every chunk declares the length that its payload has.
    #[verifier::type_invariant]
    spec fn length_is_that_of_the_payload(self) -> bool {
        self.length == self.chunk_data@.len()
    }

    /// Builds a chunk from its type and payload; the checksum is computed.
    pub fn new(chunk_type: ChunkType, data: Vec<u8>) -> (chunk: Chunk)
        requires
            data@.len() <= u32::MAX,
        ensures
            chunk@ == ChunkView::fresh(chunk_type@, data@),
            chunk@.well_formed(),
    {
        proof {
            chunk_type.lemma_len();
        }
        let crc_result = crc_checksum(&chunk_type, &data);
        Chunk { length: data.len() as u32, chunk_type, chunk_data: data, crc: crc_result }
    }

    /// Accepts the fields of a frame as a chunk when the checksum that the
    /// frame declares is `computed`, the one computed over type and payload.
    pub fn checked(chunk_type: ChunkType, data: Vec<u8>, declared: u32, computed: u32) -> (made:
        Result<Chunk, Error>)
        requires
            data@.len() <= u32::MAX,
        ensures
            made is Ok <==> declared == computed,
            made is Ok ==> made->Ok_0@ == (ChunkView {
                length: data@.len() as u32,
                type_code: chunk_type@,
                data: data@,
                crc: declared,
            }),
            made is Err ==> made->Err_0 == Error::ChecksumMismatch,
    {
        if computed != declared {
            return Err(Error::ChecksumMismatch);
        }
        Ok(Chunk { length: data.len() as u32, chunk_type, chunk_data: data, crc: declared })
    }

    /// Reads the type of a frame from its four type bytes.
    fn type_from_bytes(code: &[u8]) -> (made: Result<ChunkType, Error>)
        requires
            code@.len() == 4,
        ensures
            made is Ok <==> is_alphabetic(code@),
            made is Ok ==> made->Ok_0@ == code@,
            made is Err ==> made->Err_0 == Error::InvalidType,
    {
        proof {
            if is_alphabetic(code@) {
                lemma_text_of_letters(code@);
            }
        }
        let chunk_type_str = match string_from_utf8(slice_to_vec(code)) {
            Ok(text) => text,
            Err(_) => {
                return Err(Error::InvalidType);
            },
        };
        match ChunkType::from_str(chunk_type_str.as_str()) {
            Ok(chunk_type) => {
                proof {
                    lemma_text_of_parsed(chunk_type_str@);
                    lemma_text_of_letters(chunk_type@);
                    vstd::utf8::decode_utf8_encode_utf8(code@);
                    vstd::utf8::decode_utf8_encode_utf8(chunk_type@);
                }
                Ok(chunk_type)
            },
            Err(_) => Err(Error::InvalidType),
        }
    }

    /// Reads a chunk from the bytes of its frame: the length must account for
    /// every byte, the type must be four letters, and the checksum must be
    /// that of type and payload.
    pub fn from_bytes(value: &[u8]) -> (made: Result<Chunk, Error>)
        ensures
            made is Ok ==> parse_chunk(value@) == Ok::<ChunkView, Error>(made->Ok_0@),
            made is Err ==> parse_chunk(value@) == Err::<ChunkView, Error>(made->Err_0),
    {
        let n: usize = value.len();
        if n < 12 {
            return Err(Error::TooShort);
        }
        let length: u32 = read_be_u32(value, 0);
        if length as usize != n - 12 {
            return Err(Error::LengthMismatch);
        }
        let chunk_type = match Chunk::type_from_bytes(slice_subrange(value, 4, 8)) {
            Ok(chunk_type) => chunk_type,
            Err(error) => {
                return Err(error);
            },
        };
        let message: Vec<u8> = slice_to_vec(slice_subrange(value, 8, n - 4));
        let in_crc_checksum: u32 = read_be_u32(value, n - 4);
        let checksum: u32 = crc_checksum(&chunk_type, &message);
        Chunk::checked(chunk_type, message, in_crc_checksum, checksum)
    }

    /// The declared length of the payload, which is the length it has.
    pub fn length(&self) -> (length: u32)
        ensures
            length == self@.length,
            length == self@.data.len(),
    {
        proof {
            use_type_invariant(self);
        }
        self.length
    }

    /// The type of the chunk.
    pub fn chunk_type(&self) -> (chunk_type: &ChunkType)
        ensures
            chunk_type@ == self@.type_code,
    {
        &self.chunk_type
    }

    /// The payload.
    pub fn data(&self) -> (data: &[u8])
        ensures
            data@ == self@.data,
    {
        self.chunk_data.as_slice()
    }

    /// The stored checksum.
    pub fn crc(&self) -> (crc: u32)
        ensures
            crc == self@.crc,
    {
        self.crc
    }

    /// The payload as text, where it is valid UTF-8.
    pub fn data_as_string(&self) -> (text: Result<String, Error>)
        ensures
            text is Ok <==> valid_utf8(self@.data),
            text is Ok ==> text->Ok_0@ == decode_utf8(self@.data),
            text is Err ==> text->Err_0 == Error::NotUtf8,
    {
        match string_from_utf8(slice_to_vec(self.chunk_data.as_slice())) {
            Ok(v) => Ok(v),
            Err(_) => Err(Error::NotUtf8),
        }
    }

    /// A line that describes the chunk: its length, its type, its payload as
    /// text (what is not valid UTF-8 replaced) and its checksum.
    pub fn to_string(&self) -> (text: String)
        ensures
            text@ == summary(self@),
    {
        let mut text: String = String::new();
        text.append("length: ");
        text.append(decimal_string(self.length).as_str());
        text.append(",type ");
        text.append(self.chunk_type.to_string().as_str());
        text.append(", message:");
        text.append(string_from_utf8_lossy(self.chunk_data.as_slice()).as_str());
        text.append(", crc: ");
        text.append(decimal_string(self.crc).as_str());
        assert(text@ =~= summary(self@));
        text
    }

    /// The frame of the chunk on the wire: length, type, payload and
    /// checksum, the two numbers big-endian.
    pub fn as_bytes(&self) -> (bytes: Vec<u8>)
        ensures
            bytes@ == self@.bytes(),
            bytes@.len() == self@.length + 12,
    {
        proof {
            use_type_invariant(self);
            self.chunk_type.lemma_len();
            lemma_be_u32_of_u32_be(self.length);
            lemma_be_u32_of_u32_be(self.crc);
        }
        let code = self.chunk_type.bytes();
        let mut bytes: Vec<u8> = Vec::new();
        push_be_u32(&mut bytes, self.length);
        bytes.push(code[0]);
        bytes.push(code[1]);
        bytes.push(code[2]);
        bytes.push(code[3]);
        let mut payload = slice_to_vec(self.chunk_data.as_slice());
        bytes.append(&mut payload);
        push_be_u32(&mut bytes, self.crc);
        assert(bytes@ =~= self@.bytes());
        bytes
    }
}

} // verus!
