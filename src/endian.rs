use vstd::prelude::*;

verus! {

/// The four bytes of `x`, most significant first.
pub open spec fn be_bytes(x: u32) -> Seq<u8> {
    seq![(x >> 24u32) as u8, (x >> 16u32) as u8, (x >> 8u32) as u8, x as u8]
}

/// The integer whose big-endian bytes are `b0 b1 b2 b3`.
pub open spec fn be_value(b0: u8, b1: u8, b2: u8, b3: u8) -> u32 {
    ((b0 as u32) << 24u32) | ((b1 as u32) << 16u32) | ((b2 as u32) << 8u32) | (b3 as u32)
}

/// The integer that the first four bytes of `b` encode, big-endian.
pub open spec fn be_read(b: Seq<u8>) -> u32 {
    be_value(b[0], b[1], b[2], b[3])
}

pub proof fn lemma_be_value_bytes(b0: u8, b1: u8, b2: u8, b3: u8)
    ensures
        be_bytes(be_value(b0, b1, b2, b3)) == seq![b0, b1, b2, b3],
{
    let x = be_value(b0, b1, b2, b3);
    assert((x >> 24u32) as u8 == b0 && (x >> 16u32) as u8 == b1 && (x >> 8u32) as u8 == b2
        && x as u8 == b3) by (bit_vector)
        requires
            x == ((b0 as u32) << 24u32) | ((b1 as u32) << 16u32) | ((b2 as u32) << 8u32) | (
            b3 as u32),
    ;
    assert(be_bytes(x) =~= seq![b0, b1, b2, b3]);
}

pub proof fn lemma_be_bytes_value(x: u32)
    ensures
        be_read(be_bytes(x)) == x,
        be_bytes(x).len() == 4,
{
    let b = be_bytes(x);
    assert(be_value((x >> 24u32) as u8, (x >> 16u32) as u8, (x >> 8u32) as u8, x as u8) == x)
        by (bit_vector);
}

/// Big-endian encoding of `x`.
pub fn u32_to_be(x: u32) -> (r: [u8; 4])
    ensures
        r@ == be_bytes(x),
{
    let r = [(x >> 24u32) as u8, (x >> 16u32) as u8, (x >> 8u32) as u8, x as u8];
    assert(r@ =~= be_bytes(x));
    r
}

/// The integer stored big-endian in `b[at..at + 4]`.
pub fn u32_from_be(b: &[u8], at: usize) -> (r: u32)
    requires
        at + 4 <= b@.len(),
    ensures
        r == be_read(b@.subrange(at as int, at + 4)),
        be_bytes(r) == b@.subrange(at as int, at + 4),
{
    let r = ((b[at] as u32) << 24u32) | ((b[at + 1] as u32) << 16u32) | ((b[at + 2] as u32) << 8u32)
        | (b[at + 3] as u32);
    proof {
        lemma_be_value_bytes(b[at as int], b[at + 1], b[at + 2], b[at + 3]);
        assert(b@.subrange(at as int, at + 4) =~= seq![b[at as int], b[at + 1], b[at + 2], b[at + 3]]);
    }
    r
}

} // verus!
