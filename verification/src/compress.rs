//! The compression driver: resumes the hash from a given internal state,
//! feeding a data buffer to the block-compression primitive one 64-byte block
//! at a time, in order.

use crate::codec::InternalState;
use vstd::arithmetic::div_mod::{lemma_mod_sub_multiples_vanish, lemma_small_mod};
use vstd::prelude::*;
use vstd::slice::slice_index_get;

verus! {

/// The state the block-compression primitive produces from a state of eight
/// words and one 64-byte block. The primitive's result depends on these two
/// arguments alone.
pub uninterp spec fn compress_spec(state: Seq<u32>, block: Seq<u8>) -> Seq<u32>;

/// Relies on sha2::compress256: one application of the SHA-256 compression
/// function, a pure function of the eight state words and the 64-byte block,
/// leaving behind a state of eight words again.
#[verifier::external_body]
fn compress_block(state: &mut Vec<u32>, block: &Vec<u8>)
    requires
        old(state)@.len() == 8,
        block@.len() == 64,
    ensures
        final(state)@ == compress_spec(old(state)@, block@),
        final(state)@.len() == 8,
{
    let mut words = [0u32; 8];
    words.copy_from_slice(&state[..]);
    let bytes = sha2::digest::generic_array::GenericArray::clone_from_slice(&block[..]);
    sha2::compress256(&mut words, &[bytes]);
    state.clear();
    state.extend_from_slice(&words);
}

/// The given data, zero-filled at the end up to one whole 64-byte block.
pub open spec fn zero_padded_block(data: Seq<u8>) -> Seq<u8>
    recommends
        data.len() <= 64,
{
    data + Seq::new((64 - data.len()) as nat, |i: int| 0u8)
}

/// The state after folding the compression primitive, in order, over the
/// consecutive 64-byte blocks of `data`; a short final block is zero-filled.
pub open spec fn extend_spec(state: Seq<u32>, data: Seq<u8>) -> Seq<u32>
    decreases data.len(),
{
    if data.len() == 0 {
        state
    } else if data.len() <= 64 {
        compress_spec(state, zero_padded_block(data))
    } else {
        extend_spec(compress_spec(state, data.take(64)), data.skip(64))
    }
}

/// Folding over data that splits at a block boundary is folding over the
/// first part and then over the rest: the Merkle–Damgård extension property
/// the forgery exploits.
pub proof fn lemma_extend_split(state: Seq<u32>, a: Seq<u8>, b: Seq<u8>)
    requires
        a.len() % 64 == 0,
    ensures
        extend_spec(state, a + b) == extend_spec(extend_spec(state, a), b),
    decreases a.len(),
{
    if a.len() == 0 {
        assert(a + b =~= b);
    } else {
        if a.len() < 64 {
            lemma_small_mod(a.len(), 64);
        }
        let head = a.take(64);
        let tail = a.skip(64);
        if a.len() == 64 && b.len() == 0 {
            assert(a + b =~= a);
        } else {
            assert((a + b).take(64) =~= head);
            assert((a + b).skip(64) =~= tail + b);
            lemma_mod_sub_multiples_vanish(a.len() as int, 64);
            lemma_extend_split(compress_spec(state, head), tail, b);
            if a.len() == 64 {
                assert(zero_padded_block(a) =~= a);
                assert(head =~= a);
                assert(tail =~= Seq::<u8>::empty());
                assert(tail + b =~= b);
            }
        }
    }
}

/// Resumes compression from `state` over `data`. Callers must already have
/// appended Merkle–Damgård padding to `data` for the result to be a digest
/// state: a length that is no multiple of 64 is silently zero-filled.
pub fn extend(state: InternalState, data: &[u8]) -> (r: InternalState)
    requires
        state.wf(),
    ensures
        r.wf(),
        r@ == extend_spec(state@, data@),
{
    let ghost orig = state@;
    let mut words = state.words;
    let data_len: usize = data.len();
    let mut offset: usize = 0;
    proof {
        assert(data@.skip(0) =~= data@);
    }
    while offset < data_len
        invariant
            words@.len() == 8,
            data_len == data@.len(),
            offset <= data@.len(),
            extend_spec(words@, data@.skip(offset as int)) == extend_spec(orig, data@),
        decreases data@.len() - offset,
    {
        let remaining: usize = data_len - offset;
        let mut block: Vec<u8> = Vec::new();
        let mut i: usize = 0;
        while i < 64
            invariant
                i <= 64,
                data_len == data@.len(),
                offset < data@.len(),
                remaining == data@.len() - offset,
                block@.len() == i,
                forall|k: int|
                    0 <= k < i ==> block@[k] == (if k < remaining {
                        data@[offset + k]
                    } else {
                        0u8
                    }),
            decreases 64 - i,
        {
            if i < remaining {
                block.push(*slice_index_get(data, offset + i));
            } else {
                block.push(0);
            }
            i = i + 1;
        }
        let ghost rest = data@.skip(offset as int);
        let ghost pre = words@;
        proof {
            if remaining <= 64 {
                assert(block@ =~= zero_padded_block(rest));
            } else {
                assert(block@ =~= rest.take(64));
            }
        }
        compress_block(&mut words, &block);
        let step: usize = if remaining < 64 {
            remaining
        } else {
            64
        };
        offset = offset + step;
        proof {
            if remaining <= 64 {
                assert(data@.skip(offset as int) =~= Seq::<u8>::empty());
                assert(extend_spec(words@, data@.skip(offset as int)) == words@);
                assert(words@ == extend_spec(pre, rest));
            } else {
                assert(data@.skip(offset as int) =~= rest.skip(64));
                assert(extend_spec(pre, rest) == extend_spec(words@, rest.skip(64)));
            }
        }
    }
    proof {
        assert(data@.skip(data@.len() as int) =~= Seq::<u8>::empty());
    }
    InternalState { words }
}

} // verus!
