//! The padding calculator: a single `0x80` marker byte, zero fill up to 56
//! mod 64, and an 8-byte big-endian bit-length trailer, so that a message of
//! the given length followed by its padding fills whole 64-byte blocks.

use crate::bytes::{be_val, lemma_u64_be_bytes_val, u64_be_bytes};
use vstd::arithmetic::div_mod::{
    lemma_add_mod_noop, lemma_fundamental_div_mod, lemma_mod_multiples_basic,
};
use vstd::prelude::*;

verus! {

/// The count of zero filler bytes that follow the marker byte, for a content
/// length of `n` bytes.
pub open spec fn zero_fill_len(n: nat) -> nat {
    let m = (n + 1) % 64;
    if m > 56 {
        ((64 - m) + 56) as nat
    } else {
        (56 - m) as nat
    }
}

/// The padding that terminates a Merkle–Damgård computation over `n` content
/// bytes: marker, zero fill, bit-length trailer.
pub open spec fn padding_spec(n: nat) -> Seq<u8> {
    seq![0x80u8] + Seq::new(zero_fill_len(n), |i: int| 0u8) + u64_be_bytes((8 * n) as u64)
}

/// Computes the Merkle–Damgård padding for a message of `message_len` bytes.
pub fn compute_padding(message_len: usize) -> (padding: Vec<u8>)
    requires
        8 * message_len <= u64::MAX,
    ensures
        padding@ == padding_spec(message_len as nat),
{
    let mut padding: Vec<u8> = Vec::new();
    padding.push(0x80);

    let mod_len: u64 = ((message_len as u64) + 1) % 64;
    let pad_len: u64 = if mod_len > 56 {
        (64 - mod_len) + 56
    } else {
        56 - mod_len
    };
    assert(pad_len == zero_fill_len(message_len as nat));

    let mut i: u64 = 0;
    while i < pad_len
        invariant
            i <= pad_len,
            padding@ == seq![0x80u8] + Seq::new(i as nat, |j: int| 0u8),
        decreases pad_len - i,
    {
        padding.push(0);
        i = i + 1;
        proof {
            assert(padding@ =~= seq![0x80u8] + Seq::new(i as nat, |j: int| 0u8));
        }
    }

    let bit_len: u64 = (message_len as u64) * 8;
    padding.push((bit_len >> 56) as u8);
    padding.push((bit_len >> 48) as u8);
    padding.push((bit_len >> 40) as u8);
    padding.push((bit_len >> 32) as u8);
    padding.push((bit_len >> 24) as u8);
    padding.push((bit_len >> 16) as u8);
    padding.push((bit_len >> 8) as u8);
    padding.push(bit_len as u8);
    proof {
        assert(padding@ =~= padding_spec(message_len as nat));
    }
    padding
}

/// The padding completes its message to a whole number of 64-byte blocks, it
/// begins with the `0x80` marker, and its final eight bytes decode,
/// big-endian, to the message's length in bits.
pub proof fn lemma_padding_correct(n: nat)
    requires
        8 * n <= u64::MAX,
    ensures
        (n + padding_spec(n).len()) % 64 == 0,
        padding_spec(n)[0] == 0x80,
        9 <= padding_spec(n).len() <= 72,
        be_val(padding_spec(n).skip(padding_spec(n).len() - 8)) == 8 * n,
{
    let p = padding_spec(n);
    let m = (n + 1) % 64;
    let z = zero_fill_len(n);
    assert(p.len() == 9 + z);
    lemma_fundamental_div_mod((n + 1) as int, 64);
    let q = (n + 1) as int / 64;
    if m > 56 {
        assert(n + p.len() == 64 * (q + 2));
        lemma_mod_multiples_basic(q + 2, 64);
    } else {
        assert(n + p.len() == 64 * (q + 1));
        lemma_mod_multiples_basic(q + 1, 64);
    }
    assert(p.skip(p.len() - 8) =~= u64_be_bytes((8 * n) as u64));
    lemma_u64_be_bytes_val((8 * n) as u64);
}

/// The padding's length depends on the message length only through its
/// residue modulo the 64-byte block size.
pub proof fn lemma_padding_len_periodic(a: nat, b: nat)
    requires
        a % 64 == b % 64,
    ensures
        padding_spec(a).len() == padding_spec(b).len(),
{
    lemma_add_mod_noop(a as int, 1, 64);
    lemma_add_mod_noop(b as int, 1, 64);
    assert((a + 1) % 64 == (b + 1) % 64);
    assert(zero_fill_len(a) == zero_fill_len(b));
}

} // verus!
