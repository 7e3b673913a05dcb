//! Big-endian views of 32-bit and 64-bit words as byte sequences, with the
//! round-trip lemmas the state codec and the padding trailer rely on.

use vstd::prelude::*;

verus! {

/// The four big-endian bytes of a 32-bit word, most significant first.
pub open spec fn u32_be_bytes(w: u32) -> Seq<u8> {
    seq![(w >> 24) as u8, (w >> 16) as u8, (w >> 8) as u8, w as u8]
}

/// The 32-bit word denoted by four bytes in big-endian order.
pub open spec fn u32_from_be(b0: u8, b1: u8, b2: u8, b3: u8) -> u32 {
    ((b0 as u32) << 24) | ((b1 as u32) << 16) | ((b2 as u32) << 8) | (b3 as u32)
}

/// The eight big-endian bytes of a 64-bit word, most significant first.
pub open spec fn u64_be_bytes(v: u64) -> Seq<u8> {
    seq![
        (v >> 56) as u8,
        (v >> 48) as u8,
        (v >> 40) as u8,
        (v >> 32) as u8,
        (v >> 24) as u8,
        (v >> 16) as u8,
        (v >> 8) as u8,
        v as u8,
    ]
}

/// The unsigned integer a byte sequence denotes in big-endian order.
pub open spec fn be_val(s: Seq<u8>) -> nat
    decreases s.len(),
{
    if s.len() == 0 {
        0
    } else {
        (256 * be_val(s.drop_last()) + s.last()) as nat
    }
}

/// Reading a word's big-endian bytes back in order yields the word.
pub proof fn lemma_u32_encode_decode(w: u32)
    ensures
        u32_from_be((w >> 24) as u8, (w >> 16) as u8, (w >> 8) as u8, w as u8) == w,
{
    assert((((((w >> 24) as u8) as u32) << 24) | ((((w >> 16) as u8) as u32) << 16) | ((((w >> 8)
        as u8) as u32) << 8) | ((w as u8) as u32)) == w) by (bit_vector);
}

/// The word built from four bytes yields those bytes back, in order.
pub proof fn lemma_u32_decode_encode(b0: u8, b1: u8, b2: u8, b3: u8)
    ensures
        (u32_from_be(b0, b1, b2, b3) >> 24) as u8 == b0,
        (u32_from_be(b0, b1, b2, b3) >> 16) as u8 == b1,
        (u32_from_be(b0, b1, b2, b3) >> 8) as u8 == b2,
        u32_from_be(b0, b1, b2, b3) as u8 == b3,
{
    let w = u32_from_be(b0, b1, b2, b3);
    assert((w >> 24) as u8 == b0 && (w >> 16) as u8 == b1 && (w >> 8) as u8 == b2 && w as u8 == b3)
        by (bit_vector)
        requires
            w == ((b0 as u32) << 24) | ((b1 as u32) << 16) | ((b2 as u32) << 8) | (b3 as u32),
    ;
}

/// A 64-bit word's big-endian bytes decode, big-endian, to the word itself.
pub proof fn lemma_u64_be_bytes_val(v: u64)
    ensures
        be_val(u64_be_bytes(v)) == v,
{
    let b0 = (v >> 56) as u8;
    let b1 = (v >> 48) as u8;
    let b2 = (v >> 40) as u8;
    let b3 = (v >> 32) as u8;
    let b4 = (v >> 24) as u8;
    let b5 = (v >> 16) as u8;
    let b6 = (v >> 8) as u8;
    let b7 = v as u8;
    let s8 = u64_be_bytes(v);
    let s7 = s8.drop_last();
    let s6 = s7.drop_last();
    let s5 = s6.drop_last();
    let s4 = s5.drop_last();
    let s3 = s4.drop_last();
    let s2 = s3.drop_last();
    let s1 = s2.drop_last();
    let s0 = s1.drop_last();
    assert(s7 =~= seq![b0, b1, b2, b3, b4, b5, b6]);
    assert(s6 =~= seq![b0, b1, b2, b3, b4, b5]);
    assert(s5 =~= seq![b0, b1, b2, b3, b4]);
    assert(s4 =~= seq![b0, b1, b2, b3]);
    assert(s3 =~= seq![b0, b1, b2]);
    assert(s2 =~= seq![b0, b1]);
    assert(s1 =~= seq![b0]);
    assert(s0 =~= Seq::<u8>::empty());
    assert(be_val(s0) == 0);
    assert(be_val(s1) == b0);
    assert(be_val(s2) == 256 * be_val(s1) + b1);
    assert(be_val(s3) == 256 * be_val(s2) + b2);
    assert(be_val(s4) == 256 * be_val(s3) + b3);
    assert(be_val(s5) == 256 * be_val(s4) + b4);
    assert(be_val(s6) == 256 * be_val(s5) + b5);
    assert(be_val(s7) == 256 * be_val(s6) + b6);
    assert(be_val(s8) == 256 * be_val(s7) + b7);
    assert(be_val(s8) == 256 * (256 * (256 * (256 * (256 * (256 * (256 * (b0 as nat) + b1) + b2)
        + b3) + b4) + b5) + b6) + b7);
    assert(256 * (256 * (256 * (256 * (256 * (256 * (256 * (b0 as int) + b1) + b2) + b3) + b4)
        + b5) + b6) + b7 == v) by (bit_vector)
        requires
            b0 == (v >> 56) as u8,
            b1 == (v >> 48) as u8,
            b2 == (v >> 40) as u8,
            b3 == (v >> 32) as u8,
            b4 == (v >> 24) as u8,
            b5 == (v >> 16) as u8,
            b6 == (v >> 8) as u8,
            b7 == v as u8,
    ;
}

} // verus!
