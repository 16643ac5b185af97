//! The four things a user does with a container: hide a message in it, read
//! one, take messages out, and list what it holds.

use vstd::prelude::*;
use vstd::slice::slice_to_vec;
use vstd::utf8::encode_utf8;
use crate::chunk::{summary, Chunk, ChunkView};
use crate::chunk_type::{parse_type, ChunkType};
use crate::error::Error;
use crate::png::{position_of, without_type, Png};

verus! {

/// Appends a chunk of the type written `chunk_type` that holds `message`.
/// Where `chunk_type` is no type, the container stays as it is.
pub fn encode(png: &mut Png, chunk_type: &str, message: &str) -> (done: Result<(), Error>)
    requires
        encode_utf8(message@).len() <= u32::MAX,
    ensures
        done is Ok <==> parse_type(chunk_type@) is Ok,
        done is Ok ==> final(png)@ == old(png)@.push(
            ChunkView::fresh(parse_type(chunk_type@)->Ok_0, encode_utf8(message@)),
        ),
        done is Err ==> parse_type(chunk_type@) == Err::<Seq<u8>, Error>(done->Err_0),
        done is Err ==> final(png)@ == old(png)@,
{
    match ChunkType::from_str(chunk_type) {
        Ok(code) => {
            let chunk = Chunk::new(code, slice_to_vec(message.as_bytes()));
            png.append_chunk(chunk);
            Ok(())
        },
        Err(error) => Err(error),
    }
}

/// The line that describes the first chunk of the type written `chunk_type`,
/// if there is one.
pub fn decode(png: &Png, chunk_type: &str) -> (found: Option<String>)
    ensures
        found is Some <==> position_of(png@, chunk_type@) is Some,
        found is Some ==> found->Some_0@ == summary(
            png@[position_of(png@, chunk_type@)->Some_0],
        ),
{
    match png.chunk_by_type(chunk_type) {
        Some(chunk) => Some(chunk.to_string()),
        None => None,
    }
}

/// Takes out every chunk of the type written `chunk_type`, and says how many
/// there were.
pub fn remove(png: &mut Png, chunk_type: &str) -> (removed: usize)
    ensures
        final(png)@ == without_type(old(png)@, chunk_type@),
        removed == old(png)@.len() - final(png)@.len(),
{
    png.remove_all(chunk_type)
}

/// The lines that describe the chunks, in order.
pub fn print(png: &Png) -> (lines: Vec<String>)
    ensures
        lines@.len() == png@.len(),
        forall|i: int| 0 <= i < png@.len() ==> (#[trigger] lines@[i])@ == summary(png@[i]),
{
    let chunks = png.chunks();
    let mut lines: Vec<String> = Vec::new();
    let mut at: usize = 0;
    while at < chunks.len()
        invariant
            at <= chunks@.len(),
            crate::png::views(chunks@) == png@,
            lines@.len() == at,
            forall|i: int| 0 <= i < at ==> (#[trigger] lines@[i])@ == summary(png@[i]),
        decreases chunks@.len() - at,
    {
        lines.push(chunks[at].to_string());
        at = at + 1;
    }
    lines
}

} // verus!
