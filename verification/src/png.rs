//! The container: the signature, then chunks in order.

use vstd::prelude::*;
use vstd::slice::slice_subrange;
use vstd::std_specs::convert::TryFromSpecImpl;
use crate::chunk::{
    flip_bit, law_checksum_bit_flip, lemma_bytes_of_parse, lemma_parse_of_bytes, parse_chunk, Chunk,
    ChunkView,
};
use crate::chunk_type::type_text;
use crate::endian::{be_u32, lemma_be_u32_of_u32_be, read_be_u32, u32_be};
use crate::error::Error;

verus! {

/// A container: an ordered sequence of chunks behind the fixed signature.
#[derive(Debug)]
pub struct Png {
    chunks: Vec<Chunk>,
}

/// The eight bytes that every container begins with.
pub open spec fn signature() -> Seq<u8> {
    seq![137u8, 80u8, 78u8, 71u8, 13u8, 10u8, 26u8, 10u8]
}

/// The frames of `chunks`, one after the other.
pub open spec fn chunks_bytes(chunks: Seq<ChunkView>) -> Seq<u8>
    decreases chunks.len(),
{
    if chunks.len() == 0 {
        Seq::empty()
    } else {
        chunks[0].bytes() + chunks_bytes(chunks.drop_first())
    }
}

/// The container on the wire: the signature, then the frames in order.
pub open spec fn png_bytes(chunks: Seq<ChunkView>) -> Seq<u8> {
    signature() + chunks_bytes(chunks)
}

/// How many of `bytes` the frame at their start takes: as many as its length
/// field declares, or all of them where it declares more than there are.
pub open spec fn first_frame_len(bytes: Seq<u8>) -> int
    recommends
        bytes.len() >= 12,
{
    let declared = be_u32(bytes.subrange(0, 4)) + 12;
    if declared <= bytes.len() {
        declared
    } else {
        bytes.len() as int
    }
}

/// The chunks that `bytes` are the frames of, or the error of the first frame
/// that is none.
pub open spec fn parse_chunks(bytes: Seq<u8>) -> Result<Seq<ChunkView>, Error>
    decreases bytes.len(),
{
    if bytes.len() == 0 {
        Ok(Seq::empty())
    } else if bytes.len() < 12 {
        Err(Error::TooShort)
    } else {
        let taken = first_frame_len(bytes);
        match parse_chunk(bytes.subrange(0, taken)) {
            Err(error) => Err(error),
            Ok(first) => match parse_chunks(bytes.subrange(taken, bytes.len() as int)) {
                Err(error) => Err(error),
                Ok(rest) => Ok(seq![first] + rest),
            },
        }
    }
}

/// The chunks of the container that `bytes` are, or why they are none.
pub open spec fn parse_png(bytes: Seq<u8>) -> Result<Seq<ChunkView>, Error> {
    if bytes.len() < 8 || bytes.subrange(0, 8) != signature() {
        Err(Error::BadSignature)
    } else {
        parse_chunks(bytes.subrange(8, bytes.len() as int))
    }
}

/// The chunks `done`, followed by what the rest of the input gives.
pub open spec fn followed_by(done: Seq<ChunkView>, rest: Result<Seq<ChunkView>, Error>) -> Result<
    Seq<ChunkView>,
    Error,
> {
    match rest {
        Ok(chunks) => Ok(done + chunks),
        Err(error) => Err(error),
    }
}

/// Whether `chunk` is of the type that is written `text`.
pub open spec fn has_type(chunk: ChunkView, text: Seq<char>) -> bool {
    type_text(chunk.type_code) == text
}

/// The place of the first chunk of the type written `text`, if there is one.
pub open spec fn position_of(chunks: Seq<ChunkView>, text: Seq<char>) -> Option<int>
    decreases chunks.len(),
{
    if chunks.len() == 0 {
        None
    } else if has_type(chunks[0], text) {
        Some(0)
    } else {
        match position_of(chunks.drop_first(), text) {
            Some(at) => Some(at + 1),
            None => None,
        }
    }
}

/// The views of a sequence of chunks.
pub open spec fn views(chunks: Seq<Chunk>) -> Seq<ChunkView> {
    chunks.map_values(|chunk: Chunk| chunk@)
}

/// `position_of` gives the least place at which a chunk of the type stands,
/// and nothing exactly when none does.
pub proof fn lemma_position_of(chunks: Seq<ChunkView>, text: Seq<char>)
    ensures
        match position_of(chunks, text) {
            Some(at) => {
                &&& 0 <= at < chunks.len()
                &&& has_type(chunks[at], text)
                &&& forall|j: int| 0 <= j < at ==> !has_type(#[trigger] chunks[j], text)
            },
            None => forall|j: int| 0 <= j < chunks.len() ==> !has_type(#[trigger] chunks[j], text),
        },
    decreases chunks.len(),
{
    if chunks.len() > 0 && !has_type(chunks[0], text) {
        let rest = chunks.drop_first();
        lemma_position_of(rest, text);
        match position_of(rest, text) {
            Some(at) => {
                assert forall|j: int| 0 <= j < at + 1 implies !has_type(
                    #[trigger] chunks[j],
                    text,
                ) by {
                    if j > 0 {
                        assert(chunks[j] == rest[j - 1]);
                    }
                }
            },
            None => {
                assert forall|j: int| 0 <= j < chunks.len() implies !has_type(
                    #[trigger] chunks[j],
                    text,
                ) by {
                    if j > 0 {
                        assert(chunks[j] == rest[j - 1]);
                    }
                }
            },
        }
    }
}

/// A place at which a chunk of the type stands, with none before it, is the
/// place that `position_of` gives.
pub proof fn lemma_position_is(chunks: Seq<ChunkView>, text: Seq<char>, at: int)
    requires
        0 <= at < chunks.len(),
        has_type(chunks[at], text),
        forall|j: int| 0 <= j < at ==> !has_type(#[trigger] chunks[j], text),
    ensures
        position_of(chunks, text) == Some(at),
{
    lemma_position_of(chunks, text);
}

/// Where no chunk is of the type, `position_of` gives nothing.
pub proof fn lemma_position_none(chunks: Seq<ChunkView>, text: Seq<char>)
    requires
        forall|j: int| 0 <= j < chunks.len() ==> !has_type(#[trigger] chunks[j], text),
    ensures
        position_of(chunks, text) is None,
{
    lemma_position_of(chunks, text);
}

/// The frames of a sequence with one more chunk at its end.
pub proof fn lemma_chunks_bytes_push(chunks: Seq<ChunkView>, last: ChunkView)
    ensures
        chunks_bytes(chunks.push(last)) == chunks_bytes(chunks) + last.bytes(),
    decreases chunks.len(),
{
    let longer = chunks.push(last);
    if chunks.len() == 0 {
        assert(longer.drop_first() =~= Seq::<ChunkView>::empty());
        assert(chunks_bytes(longer.drop_first()) =~= Seq::<u8>::empty());
        assert(chunks_bytes(longer) =~= last.bytes());
        assert(chunks_bytes(chunks) + last.bytes() =~= last.bytes());
    } else {
        assert(longer.drop_first() =~= chunks.drop_first().push(last));
        lemma_chunks_bytes_push(chunks.drop_first(), last);
        assert(chunks_bytes(longer) =~= chunks_bytes(chunks) + last.bytes());
    }
}

/// The chunks of `chunks` that are not of the type written `text`, in their
/// order.
pub open spec fn without_type(chunks: Seq<ChunkView>, text: Seq<char>) -> Seq<ChunkView> {
    chunks.filter(|chunk: ChunkView| !has_type(chunk, text))
}

/// Taking out the first chunk of a type leaves the chunks of other types as
/// they were.
pub proof fn lemma_without_type_after_remove(chunks: Seq<ChunkView>, text: Seq<char>)
    requires
        position_of(chunks, text) is Some,
    ensures
        without_type(chunks.remove(position_of(chunks, text)->Some_0), text) == without_type(
            chunks,
            text,
        ),
{
    let at = position_of(chunks, text)->Some_0;
    let keep = |chunk: ChunkView| !has_type(chunk, text);
    lemma_position_of(chunks, text);
    let before = chunks.take(at);
    let one = seq![chunks[at]];
    let after = chunks.skip(at + 1);
    assert(chunks =~= before + one + after);
    assert(chunks.remove(at) =~= before + after);
    Seq::filter_distributes_over_add(before + one, after, keep);
    Seq::filter_distributes_over_add(before, one, keep);
    Seq::filter_distributes_over_add(before, after, keep);
    assert(one.filter(keep) =~= Seq::<ChunkView>::empty()) by {
        reveal_with_fuel(Seq::filter, 2);
        assert(one.drop_last() =~= Seq::<ChunkView>::empty());
        assert(!keep(one.last()));
    }
    assert(before.filter(keep) + one.filter(keep) =~= before.filter(keep));
}

/// Where no chunk is of a type, all chunks are of other types.
pub proof fn lemma_without_type_of_none(chunks: Seq<ChunkView>, text: Seq<char>)
    requires
        position_of(chunks, text) is None,
    ensures
        without_type(chunks, text) == chunks,
    decreases chunks.len(),
{
    let keep = |chunk: ChunkView| !has_type(chunk, text);
    lemma_position_of(chunks, text);
    reveal(Seq::filter);
    if chunks.len() > 0 {
        let shorter = chunks.drop_last();
        assert forall|j: int| 0 <= j < shorter.len() implies !has_type(
            #[trigger] shorter[j],
            text,
        ) by {
            assert(shorter[j] == chunks[j]);
        }
        lemma_position_none(shorter, text);
        lemma_without_type_of_none(shorter, text);
        assert(keep(chunks.last()));
        assert(shorter.push(chunks.last()) =~= chunks);
    }
}

/// Whether every chunk of `chunks` can stand in a container file.
pub open spec fn all_valid(chunks: Seq<ChunkView>) -> bool {
    forall|i: int| 0 <= i < chunks.len() ==> (#[trigger] chunks[i]).valid()
}

/// The frames of valid chunks are read back as those chunks.
pub proof fn lemma_parse_of_chunks_bytes(chunks: Seq<ChunkView>)
    requires
        all_valid(chunks),
    ensures
        parse_chunks(chunks_bytes(chunks)) == Ok::<Seq<ChunkView>, Error>(chunks),
    decreases chunks.len(),
{
    if chunks.len() > 0 {
        let first = chunks[0];
        let rest = chunks.drop_first();
        let bytes = chunks_bytes(chunks);
        let taken = first.bytes().len() as int;
        assert(first.valid());
        lemma_parse_of_bytes(first);
        lemma_be_u32_of_u32_be(first.length);
        assert(bytes.subrange(0, 4) =~= u32_be(first.length));
        assert(first_frame_len(bytes) == taken);
        assert(bytes.subrange(0, taken) =~= first.bytes());
        assert(bytes.subrange(taken, bytes.len() as int) =~= chunks_bytes(rest));
        assert(all_valid(rest)) by {
            assert forall|i: int| 0 <= i < rest.len() implies (#[trigger] rest[i]).valid() by {
                assert(rest[i] == chunks[i + 1]);
            }
        }
        lemma_parse_of_chunks_bytes(rest);
        assert(seq![first] + rest =~= chunks);
    } else {
        assert(chunks =~= Seq::<ChunkView>::empty());
    }
}

/// What is read from a run of frames are valid chunks, and their frames are
/// the bytes they were read from.
pub proof fn lemma_chunks_bytes_of_parse(bytes: Seq<u8>)
    requires
        parse_chunks(bytes) is Ok,
    ensures
        all_valid(parse_chunks(bytes)->Ok_0),
        chunks_bytes(parse_chunks(bytes)->Ok_0) == bytes,
    decreases bytes.len(),
{
    let chunks = parse_chunks(bytes)->Ok_0;
    if bytes.len() == 0 {
        assert(chunks_bytes(chunks) =~= bytes);
    } else {
        let taken = first_frame_len(bytes);
        let head = bytes.subrange(0, taken);
        let tail = bytes.subrange(taken, bytes.len() as int);
        let first = parse_chunk(head)->Ok_0;
        let rest = parse_chunks(tail)->Ok_0;
        lemma_bytes_of_parse(head);
        lemma_chunks_bytes_of_parse(tail);
        assert(chunks == seq![first] + rest);
        assert(chunks[0] == first);
        assert(chunks.drop_first() =~= rest);
        assert(chunks_bytes(chunks) =~= bytes);
        assert forall|i: int| 0 <= i < chunks.len() implies (#[trigger] chunks[i]).valid() by {
            if i > 0 {
                assert(chunks[i] == rest[i - 1]);
            }
        }
    }
}

/// Writing a container of valid chunks and reading the bytes gives the same
/// chunks, in the same order.
pub proof fn law_round_trip(chunks: Seq<ChunkView>)
    requires
        all_valid(chunks),
    ensures
        parse_png(png_bytes(chunks)) == Ok::<Seq<ChunkView>, Error>(chunks),
{
    let bytes = png_bytes(chunks);
    assert(bytes.subrange(0, 8) =~= signature());
    assert(bytes.subrange(8, bytes.len() as int) =~= chunks_bytes(chunks));
    lemma_parse_of_chunks_bytes(chunks);
}

/// Reading a container and writing it gives the bytes that were read, and
/// every chunk that was read is valid.
pub proof fn law_bytes_of_parsed(bytes: Seq<u8>)
    requires
        parse_png(bytes) is Ok,
    ensures
        all_valid(parse_png(bytes)->Ok_0),
        png_bytes(parse_png(bytes)->Ok_0) == bytes,
{
    lemma_chunks_bytes_of_parse(bytes.subrange(8, bytes.len() as int));
    assert(png_bytes(parse_png(bytes)->Ok_0) =~= bytes);
}

/// Turning over one bit in the checksum field of chunk number `which`, in a
/// run of frames of valid chunks, makes reading fail with a checksum
/// mismatch. `at` counts from the start of the first frame.
pub proof fn lemma_chunks_checksum_bit_flip(chunks: Seq<ChunkView>, which: int, at: int, bit: u8)
    requires
        all_valid(chunks),
        0 <= which < chunks.len(),
        chunks_bytes(chunks.take(which + 1)).len() - 4 <= at < chunks_bytes(
            chunks.take(which + 1),
        ).len(),
        bit < 8,
    ensures
        0 <= at < chunks_bytes(chunks).len(),
        parse_chunks(flip_bit(chunks_bytes(chunks), at, bit)) == Err::<Seq<ChunkView>, Error>(
            Error::ChecksumMismatch,
        ),
    decreases which,
{
    let first = chunks[0];
    let rest = chunks.drop_first();
    let bytes = chunks_bytes(chunks);
    let taken = first.bytes().len() as int;
    let tampered = flip_bit(bytes, at, bit);
    assert(first.valid());
    lemma_parse_of_bytes(first);
    lemma_be_u32_of_u32_be(first.length);
    assert(bytes.subrange(0, 4) =~= u32_be(first.length));
    let upto = chunks.take(which + 1);
    assert(upto[0] == first);
    assert(upto.drop_first() =~= rest.take(which));
    if which == 0 {
        assert(chunks_bytes(rest.take(0)) =~= Seq::<u8>::empty());
        assert(chunks_bytes(upto) =~= first.bytes());
        assert(tampered.subrange(0, 4) =~= bytes.subrange(0, 4));
        assert(first_frame_len(tampered) == taken);
        assert(tampered.subrange(0, taken) =~= flip_bit(first.bytes(), at, bit));
        law_checksum_bit_flip(first.bytes(), at, bit);
    } else {
        assert(all_valid(rest)) by {
            assert forall|i: int| 0 <= i < rest.len() implies (#[trigger] rest[i]).valid() by {
                assert(rest[i] == chunks[i + 1]);
            }
        }
        let second = rest.take(which)[0];
        assert(second == rest[0] && second.valid());
        lemma_parse_of_bytes(second);
        assert(chunks_bytes(rest.take(which)).len() >= 12);
        lemma_chunks_checksum_bit_flip(rest, which - 1, at - taken, bit);
        assert(tampered.subrange(0, 4) =~= bytes.subrange(0, 4));
        assert(first_frame_len(tampered) == taken);
        assert(tampered.subrange(0, taken) =~= first.bytes());
        assert(tampered.subrange(taken, tampered.len() as int) =~= flip_bit(
            chunks_bytes(rest),
            at - taken,
            bit,
        ));
    }
}

/// Turning over one bit in the checksum field of any chunk of a container of
/// valid chunks makes reading the container fail with a checksum mismatch.
/// `at` counts from the start of the container; the checksum field of chunk
/// number `which` is the last four bytes of the container cut after it.
pub proof fn law_checksum_bit_flip_in_container(
    chunks: Seq<ChunkView>,
    which: int,
    at: int,
    bit: u8,
)
    requires
        all_valid(chunks),
        0 <= which < chunks.len(),
        png_bytes(chunks.take(which + 1)).len() - 4 <= at < png_bytes(
            chunks.take(which + 1),
        ).len(),
        bit < 8,
    ensures
        parse_png(flip_bit(png_bytes(chunks), at, bit)) == Err::<Seq<ChunkView>, Error>(
            Error::ChecksumMismatch,
        ),
{
    let bytes = png_bytes(chunks);
    let tampered = flip_bit(bytes, at, bit);
    let first = chunks.take(which + 1)[0];
    assert(first == chunks[0] && first.valid());
    lemma_parse_of_bytes(first);
    lemma_chunks_checksum_bit_flip(chunks, which, at - 8, bit);
    assert(tampered.subrange(0, 8) =~= signature());
    assert(tampered.subrange(8, tampered.len() as int) =~= flip_bit(
        chunks_bytes(chunks),
        at - 8,
        bit,
    ));
}

/// After a chunk is appended, a chunk of its type is found; where the
/// container held none of that type before, it is the appended chunk, at the
/// end.
pub proof fn law_find_after_append(chunks: Seq<ChunkView>, chunk: ChunkView)
    ensures
        position_of(chunks.push(chunk), type_text(chunk.type_code)) is Some,
        position_of(chunks, type_text(chunk.type_code)) is None ==> {
            &&& position_of(chunks.push(chunk), type_text(chunk.type_code)) == Some(
                chunks.len() as int,
            )
            &&& chunks.push(chunk)[chunks.len() as int] == chunk
        },
        position_of(chunks, type_text(chunk.type_code)) is Some ==> position_of(
            chunks.push(chunk),
            type_text(chunk.type_code),
        ) == position_of(chunks, type_text(chunk.type_code)),
{
    let text = type_text(chunk.type_code);
    let longer = chunks.push(chunk);
    lemma_position_of(chunks, text);
    match position_of(chunks, text) {
        Some(at) => {
            assert(longer[at] == chunks[at]);
            assert forall|j: int| 0 <= j < at implies !has_type(#[trigger] longer[j], text) by {
                assert(longer[j] == chunks[j]);
            }
            lemma_position_is(longer, text, at);
        },
        None => {
            assert forall|j: int| 0 <= j < chunks.len() implies !has_type(
                #[trigger] longer[j],
                text,
            ) by {
                assert(longer[j] == chunks[j]);
            }
            lemma_position_is(longer, text, chunks.len() as int);
        },
    }
}

/// Where a container holds no chunk of a type, appending one and removing it
/// gives the container back, and a second removal finds nothing.
pub proof fn law_remove_after_append(chunks: Seq<ChunkView>, chunk: ChunkView)
    requires
        position_of(chunks, type_text(chunk.type_code)) is None,
    ensures
        position_of(chunks.push(chunk), type_text(chunk.type_code)) == Some(chunks.len() as int),
        chunks.push(chunk).remove(chunks.len() as int) == chunks,
        position_of(
            chunks.push(chunk).remove(chunks.len() as int),
            type_text(chunk.type_code),
        ) is None,
{
    law_find_after_append(chunks, chunk);
    assert(chunks.push(chunk).remove(chunks.len() as int) =~= chunks);
}

/// Where exactly one chunk of a container is of a type, nothing of that type
/// is found once it is removed.
pub proof fn law_remove_once(chunks: Seq<ChunkView>, text: Seq<char>)
    requires
        position_of(chunks, text) is Some,
        forall|j: int|
            0 <= j < chunks.len() && j != position_of(chunks, text)->Some_0 ==> !has_type(
                #[trigger] chunks[j],
                text,
            ),
    ensures
        position_of(chunks.remove(position_of(chunks, text)->Some_0), text) is None,
{
    let at = position_of(chunks, text)->Some_0;
    lemma_position_of(chunks, text);
    let fewer = chunks.remove(at);
    assert forall|j: int| 0 <= j < fewer.len() implies !has_type(#[trigger] fewer[j], text) by {
        if j < at {
            assert(fewer[j] == chunks[j]);
        } else {
            assert(fewer[j] == chunks[j + 1]);
        }
    }
    lemma_position_none(fewer, text);
}

/// Nothing is found in a container without chunks, whatever the type.
pub proof fn law_nothing_in_empty(text: Seq<char>)
    ensures
        position_of(Seq::<ChunkView>::empty(), text) is None,
{
}

impl View for Png {
    type V = Seq<ChunkView>;

    closed spec fn view(&self) -> Seq<ChunkView> {
        views(self.chunks@)
    }
}

impl TryFrom<&[u8]> for Png {
    type Error = Error;

    /// Reads a container from its bytes.
    fn try_from(bytes: &[u8]) -> (made: Result<Png, Error>)
        ensures
            made is Ok ==> parse_png(bytes@) == Ok::<Seq<ChunkView>, Error>(made->Ok_0@),
            made is Err ==> parse_png(bytes@) == Err::<Seq<ChunkView>, Error>(made->Err_0),
    {
        Png::from_bytes(bytes)
    }
}

impl TryFromSpecImpl<&[u8]> for Png {
    /// The contract of `try_from` speaks of the container's view, not of the
    /// container itself, so equality with one chosen here is not claimed.
    open spec fn obeys_try_from_spec() -> bool {
        false
    }

    open spec fn try_from_spec(bytes: &[u8]) -> Result<Self, Error> {
        match parse_png(bytes@) {
            Ok(chunks) => Ok(choose|png: Png| png@ == chunks),
            Err(error) => Err(error),
        }
    }
}

impl Png {
    /// The container that holds `chunks`, in their order.
    pub fn from_chunks(chunks: Vec<Chunk>) -> (png: Png)
        ensures
            png@ == views(chunks@),
    {
        Png { chunks }
    }

    /// Whether `bytes` begin with the signature.
    pub fn starts_with_signature(bytes: &[u8]) -> (found: bool)
        ensures
            found == (bytes@.len() >= 8 && bytes@.subrange(0, 8) == signature()),
    {
        if bytes.len() < 8 {
            return false;
        }
        let found = bytes[0] == 137 && bytes[1] == 80 && bytes[2] == 78 && bytes[3] == 71
            && bytes[4] == 13 && bytes[5] == 10 && bytes[6] == 26 && bytes[7] == 10;
        proof {
            let head = bytes@.subrange(0, 8);
            if found {
                assert(head =~= signature());
            } else {
                assert(head[0] == bytes@[0] && head[1] == bytes@[1] && head[2] == bytes@[2]
                    && head[3] == bytes@[3] && head[4] == bytes@[4] && head[5] == bytes@[5]
                    && head[6] == bytes@[6] && head[7] == bytes@[7]);
            }
        }
        found
    }

    /// Reads a container: the signature, then frame after frame until the
    /// input ends. The first frame that is no chunk fails the whole.
    pub fn from_bytes(bytes: &[u8]) -> (made: Result<Png, Error>)
        ensures
            made is Ok ==> parse_png(bytes@) == Ok::<Seq<ChunkView>, Error>(made->Ok_0@),
            made is Err ==> parse_png(bytes@) == Err::<Seq<ChunkView>, Error>(made->Err_0),
    {
        if !Png::starts_with_signature(bytes) {
            return Err(Error::BadSignature);
        }
        let n: usize = bytes.len();
        let mut chunks: Vec<Chunk> = Vec::new();
        let mut cursor: usize = 8;
        assert(views(chunks@) + parse_chunks(bytes@.subrange(8, n as int))->Ok_0
            =~= parse_chunks(bytes@.subrange(8, n as int))->Ok_0);
        while cursor < n
            invariant
                n == bytes@.len(),
                8 <= cursor <= n,
                parse_png(bytes@) == followed_by(
                    views(chunks@),
                    parse_chunks(bytes@.subrange(cursor as int, n as int)),
                ),
            decreases n - cursor,
        {
            let ghost rest = bytes@.subrange(cursor as int, n as int);
            let left: usize = n - cursor;
            let mut taken: usize = left;
            if left >= 12 {
                let declared: u32 = read_be_u32(bytes, cursor);
                assert(bytes@.subrange(cursor as int, cursor + 4) =~= rest.subrange(0, 4));
                if declared as usize <= left - 12 {
                    taken = declared as usize + 12;
                }
            }
            let frame = slice_subrange(bytes, cursor, cursor + taken);
            assert(frame@ =~= rest.subrange(0, taken as int));
            assert(bytes@.subrange(cursor + taken, n as int) =~= rest.subrange(
                taken as int,
                rest.len() as int,
            ));
            match Chunk::from_bytes(frame) {
                Err(error) => {
                    return Err(error);
                },
                Ok(chunk) => {
                    proof {
                        let after = parse_chunks(rest.subrange(taken as int, rest.len() as int));
                        if after is Ok {
                            assert(views(chunks@.push(chunk)) + after->Ok_0 =~= views(chunks@)
                                + (seq![chunk@] + after->Ok_0));
                        }
                    }
                    chunks.push(chunk);
                    cursor = cursor + taken;
                },
            }
        }
        assert(views(chunks@) + Seq::<ChunkView>::empty() =~= views(chunks@));
        Ok(Png { chunks })
    }

    /// Puts `chunk` at the end of the container.
    pub fn append_chunk(&mut self, chunk: Chunk)
        ensures
            final(self)@ == old(self)@.push(chunk@),
    {
        self.chunks.push(chunk);
        assert(views(self.chunks@) =~= views(old(self).chunks@).push(chunk@));
    }

    /// The place of the first chunk of the type written `chunk_type`.
    fn find(&self, chunk_type: &str) -> (found: Option<usize>)
        ensures
            found is Some <==> position_of(self@, chunk_type@) is Some,
            found is Some ==> position_of(self@, chunk_type@) == Some(found->Some_0 as int),
            found is Some ==> found->Some_0 < self.chunks@.len(),
    {
        let wanted: String = chunk_type.to_owned();
        let mut at: usize = 0;
        while at < self.chunks.len()
            invariant
                at <= self.chunks@.len(),
                wanted@ == chunk_type@,
                forall|j: int| 0 <= j < at ==> !has_type(#[trigger] self@[j], chunk_type@),
            decreases self.chunks@.len() - at,
        {
            let text: String = self.chunks[at].chunk_type().to_string();
            if text == wanted {
                proof {
                    lemma_position_is(self@, chunk_type@, at as int);
                }
                return Some(at);
            }
            at = at + 1;
        }
        proof {
            lemma_position_none(self@, chunk_type@);
        }
        None
    }

    /// The first chunk, in the container's order, whose type is written
    /// `chunk_type`.
    pub fn chunk_by_type(&self, chunk_type: &str) -> (found: Option<&Chunk>)
        ensures
            found is Some <==> position_of(self@, chunk_type@) is Some,
            found is Some ==> found->Some_0@ == self@[position_of(self@, chunk_type@)->Some_0],
    {
        match self.find(chunk_type) {
            Some(at) => Some(&self.chunks[at]),
            None => None,
        }
    }

    /// Takes out the first chunk whose type is written `chunk_type`, and
    /// hands it back; the others keep their order.
    pub fn remove_chunk(&mut self, chunk_type: &str) -> (removed: Result<Chunk, Error>)
        ensures
            removed is Ok <==> position_of(old(self)@, chunk_type@) is Some,
            removed is Ok ==> removed->Ok_0@ == old(self)@[position_of(
                old(self)@,
                chunk_type@,
            )->Some_0],
            removed is Ok ==> final(self)@ == old(self)@.remove(
                position_of(old(self)@, chunk_type@)->Some_0,
            ),
            removed is Err ==> removed->Err_0 == Error::NotFound,
            removed is Err ==> final(self)@ == old(self)@,
    {
        match self.find(chunk_type) {
            Some(at) => {
                let chunk = self.chunks.remove(at);
                assert(views(self.chunks@) =~= views(old(self).chunks@).remove(at as int));
                Ok(chunk)
            },
            None => Err(Error::NotFound),
        }
    }

    /// Takes out every chunk whose type is written `chunk_type`, one after
    /// the other from the first, and says how many there were.
    pub fn remove_all(&mut self, chunk_type: &str) -> (removed: usize)
        ensures
            final(self)@ == without_type(old(self)@, chunk_type@),
            removed == old(self)@.len() - final(self)@.len(),
    {
        let mut removed: usize = 0;
        assert(old(self)@.len() == old(self).chunks.len());
        loop
            invariant
                without_type(self@, chunk_type@) == without_type(old(self)@, chunk_type@),
                removed + self@.len() == old(self)@.len(),
                old(self)@.len() <= usize::MAX,
            ensures
                self@ == without_type(old(self)@, chunk_type@),
                removed + self@.len() == old(self)@.len(),
            decreases self@.len(),
        {
            let ghost before = self@;
            match self.remove_chunk(chunk_type) {
                Ok(_) => {
                    proof {
                        lemma_position_of(before, chunk_type@);
                        lemma_without_type_after_remove(before, chunk_type@);
                    }
                    removed = removed + 1;
                },
                Err(_) => {
                    proof {
                        lemma_without_type_of_none(before, chunk_type@);
                    }
                    break ;
                },
            }
        }
        removed
    }

    /// The signature.
    pub fn header(&self) -> (header: [u8; 8])
        ensures
            header@ == signature(),
    {
        let header: [u8; 8] = [137, 80, 78, 71, 13, 10, 26, 10];
        assert(header@ =~= signature());
        header
    }

    /// The chunks, in order.
    pub fn chunks(&self) -> (chunks: &[Chunk])
        ensures
            views(chunks@) == self@,
    {
        self.chunks.as_slice()
    }

    /// The container on the wire: the signature, then the frame of each
    /// chunk, in order.
    pub fn as_bytes(&self) -> (bytes: Vec<u8>)
        ensures
            bytes@ == png_bytes(self@),
    {
        let mut bytes: Vec<u8> = Vec::new();
        bytes.push(137);
        bytes.push(80);
        bytes.push(78);
        bytes.push(71);
        bytes.push(13);
        bytes.push(10);
        bytes.push(26);
        bytes.push(10);
        assert(bytes@ =~= signature() + chunks_bytes(self@.take(0)));
        let mut at: usize = 0;
        while at < self.chunks.len()
            invariant
                at <= self.chunks@.len(),
                bytes@ == signature() + chunks_bytes(self@.take(at as int)),
            decreases self.chunks@.len() - at,
        {
            let mut frame = self.chunks[at].as_bytes();
            proof {
                lemma_chunks_bytes_push(self@.take(at as int), self@[at as int]);
                assert(self@.take(at + 1) =~= self@.take(at as int).push(self@[at as int]));
            }
            bytes.append(&mut frame);
            at = at + 1;
            assert(bytes@ =~= signature() + chunks_bytes(self@.take(at as int)));
        }
        assert(self@.take(at as int) =~= self@);
        bytes
    }
}

} // verus!
