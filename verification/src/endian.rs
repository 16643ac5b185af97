//! Big-endian encoding of the 32-bit fields of a chunk frame.

use vstd::prelude::*;

verus! {

/// The number that four bytes spell, most significant byte first. Opaque, to
/// keep the arithmetic out of proofs that do not need it: `reveal(be_u32)`
/// where a value is wanted.
#[verifier::opaque]
pub open spec fn be_u32(bytes: Seq<u8>) -> u32
    recommends
        bytes.len() == 4,
{
    (bytes[0] * 0x100_0000 + bytes[1] * 0x1_0000 + bytes[2] * 0x100 + bytes[3]) as u32
}

/// The four bytes that spell `value`, most significant byte first. Opaque, as
/// `be_u32` is: `reveal(u32_be)` where the bytes are wanted.
#[verifier::opaque]
pub open spec fn u32_be(value: u32) -> Seq<u8> {
    seq![
        (value / 0x100_0000) as u8,
        (value / 0x1_0000 % 0x100) as u8,
        (value / 0x100 % 0x100) as u8,
        (value % 0x100) as u8,
    ]
}

/// Decoding undoes encoding.
pub proof fn lemma_be_u32_of_u32_be(value: u32)
    ensures
        u32_be(value).len() == 4,
        be_u32(u32_be(value)) == value,
{
    reveal(be_u32);
    reveal(u32_be);
}

/// Encoding undoes decoding.
pub proof fn lemma_u32_be_of_be_u32(bytes: Seq<u8>)
    requires
        bytes.len() == 4,
    ensures
        u32_be(be_u32(bytes)) == bytes,
{
    reveal(be_u32);
    reveal(u32_be);
    let b0: int = bytes[0] as int;
    let b1: int = bytes[1] as int;
    let b2: int = bytes[2] as int;
    let b3: int = bytes[3] as int;
    let low: int = b1 * 0x1_0000 + b2 * 0x100 + b3;
    let value: int = b0 * 0x100_0000 + low;
    assert(value == be_u32(bytes));
    assert(value / 0x100_0000 == b0 && value % 0x100_0000 == low);
    assert(value / 0x1_0000 == b0 * 0x100 + b1);
    assert(value / 0x100 == b0 * 0x1_0000 + b1 * 0x100 + b2);
    assert(u32_be(be_u32(bytes))[0] == bytes[0]);
    assert(u32_be(be_u32(bytes))[1] == bytes[1]);
    assert(u32_be(be_u32(bytes))[2] == bytes[2]);
    assert(u32_be(be_u32(bytes))[3] == bytes[3]);
    assert(u32_be(be_u32(bytes)) =~= bytes);
}

/// Two four-byte fields that differ in some byte spell different numbers.
pub proof fn lemma_be_u32_injective(a: Seq<u8>, b: Seq<u8>)
    requires
        a.len() == 4,
        b.len() == 4,
        a != b,
    ensures
        be_u32(a) != be_u32(b),
{
    if be_u32(a) == be_u32(b) {
        lemma_u32_be_of_be_u32(a);
        lemma_u32_be_of_be_u32(b);
    }
}

/// Reads the big-endian number stored in the four bytes that start at `at`.
pub fn read_be_u32(bytes: &[u8], at: usize) -> (value: u32)
    requires
        at + 4 <= bytes@.len(),
    ensures
        value == be_u32(bytes@.subrange(at as int, at + 4)),
{
    proof {
        reveal(be_u32);
    }
    let b0: u32 = bytes[at] as u32;
    let b1: u32 = bytes[at + 1] as u32;
    let b2: u32 = bytes[at + 2] as u32;
    let b3: u32 = bytes[at + 3] as u32;
    b0 * 0x100_0000 + b1 * 0x1_0000 + b2 * 0x100 + b3
}

/// Appends the four bytes of `value`, most significant byte first.
pub fn push_be_u32(out: &mut Vec<u8>, value: u32)
    ensures
        final(out)@ == old(out)@ + u32_be(value),
{
    proof {
        reveal(u32_be);
    }
    out.push((value / 0x100_0000) as u8);
    out.push((value / 0x1_0000 % 0x100) as u8);
    out.push((value / 0x100 % 0x100) as u8);
    out.push((value % 0x100) as u8);
    assert(out@ =~= old(out)@ + u32_be(value));
}

} // verus!
