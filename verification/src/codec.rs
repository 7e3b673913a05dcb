//! The state codec: a 32-byte digest is the hash's internal compression
//! state — eight 32-bit words — serialized big-endian, word by word.

use crate::bytes::{lemma_u32_decode_encode, lemma_u32_encode_decode, u32_be_bytes, u32_from_be};
use vstd::arithmetic::div_mod::{
    lemma_fundamental_div_mod, lemma_fundamental_div_mod_converse,
    lemma_mod_division_less_than_divisor,
};
use vstd::prelude::*;
use vstd::slice::slice_index_get;

verus! {

/// The error a malformed digest input raises.
#[derive(Clone, Copy, Debug, PartialEq, Eq, Structural)]
pub enum ForgeError {
    /// The digest is not exactly 32 bytes wide.
    MalformedDigest,
}

/// The hash's internal compression state: eight 32-bit words.
pub struct InternalState {
    /// The state words, in the order the digest serializes them.
    pub words: Vec<u32>,
}

impl View for InternalState {
    type V = Seq<u32>;

    open spec fn view(&self) -> Seq<u32> {
        self.words@
    }
}

impl InternalState {
    /// A well-formed state holds exactly eight words.
    pub open spec fn wf(&self) -> bool {
        self@.len() == 8
    }
}

/// The eight words a 32-byte digest denotes, big-endian.
pub open spec fn words_of_digest(d: Seq<u8>) -> Seq<u32> {
    Seq::new(8, |i: int| u32_from_be(d[4 * i], d[4 * i + 1], d[4 * i + 2], d[4 * i + 3]))
}

/// The digest that serializes a sequence of words, big-endian, in order.
pub open spec fn digest_of_words(w: Seq<u32>) -> Seq<u8> {
    Seq::new(4 * w.len(), |i: int| u32_be_bytes(w[i / 4])[i % 4])
}

/// Reads the internal state out of a digest. Fails with
/// [`ForgeError::MalformedDigest`] exactly when the digest is not 32 bytes.
pub fn decode_state(digest: &[u8]) -> (r: Result<InternalState, ForgeError>)
    ensures
        r is Ok <==> digest@.len() == 32,
        r matches Ok(s) ==> s.wf() && s@ == words_of_digest(digest@),
        r is Err ==> r == Err::<InternalState, ForgeError>(ForgeError::MalformedDigest),
{
    if digest.len() != 32 {
        return Err(ForgeError::MalformedDigest);
    }
    let mut words: Vec<u32> = Vec::new();
    let mut i: usize = 0;
    while i < 8
        invariant
            i <= 8,
            digest@.len() == 32,
            words@.len() == i,
            forall|k: int| 0 <= k < i ==> words@[k] == words_of_digest(digest@)[k],
        decreases 8 - i,
    {
        let b0 = *slice_index_get(digest, 4 * i);
        let b1 = *slice_index_get(digest, 4 * i + 1);
        let b2 = *slice_index_get(digest, 4 * i + 2);
        let b3 = *slice_index_get(digest, 4 * i + 3);
        let w: u32 = ((b0 as u32) << 24) | ((b1 as u32) << 16) | ((b2 as u32) << 8) | (b3 as u32);
        words.push(w);
        i = i + 1;
    }
    proof {
        assert(words@ =~= words_of_digest(digest@));
    }
    Ok(InternalState { words })
}

/// Serializes an internal state back into a 32-byte digest.
pub fn encode_state(state: &InternalState) -> (digest: Vec<u8>)
    requires
        state.wf(),
    ensures
        digest@ == digest_of_words(state@),
        digest@.len() == 32,
{
    let mut digest: Vec<u8> = Vec::new();
    let mut i: usize = 0;
    while i < 8
        invariant
            i <= 8,
            state.wf(),
            digest@.len() == 4 * i,
            forall|k: int| 0 <= k < 4 * i ==> digest@[k] == digest_of_words(state@)[k],
        decreases 8 - i,
    {
        let w: u32 = state.words[i];
        digest.push((w >> 24) as u8);
        digest.push((w >> 16) as u8);
        digest.push((w >> 8) as u8);
        digest.push(w as u8);
        i = i + 1;
        proof {
            assert forall|k: int| 0 <= k < 4 * i implies digest@[k]
                == digest_of_words(state@)[k] by {
                lemma_fundamental_div_mod(k, 4);
                lemma_mod_division_less_than_divisor(k, 4);
            }
        }
    }
    proof {
        assert(digest@ =~= digest_of_words(state@));
    }
    digest
}

/// Codec round trip: encoding the state decoded from a 32-byte digest
/// yields that digest back, byte for byte.
pub proof fn lemma_codec_round_trip(d: Seq<u8>)
    requires
        d.len() == 32,
    ensures
        digest_of_words(words_of_digest(d)) == d,
{
    let w = words_of_digest(d);
    assert forall|i: int| 0 <= i < 32 implies digest_of_words(w)[i] == d[i] by {
        lemma_fundamental_div_mod(i, 4);
        lemma_mod_division_less_than_divisor(i, 4);
        let j = i / 4;
        lemma_u32_decode_encode(d[4 * j], d[4 * j + 1], d[4 * j + 2], d[4 * j + 3]);
    }
    assert(digest_of_words(w) =~= d);
}

/// Decoding the digest that serializes an eight-word state yields that
/// state back, word for word.
pub proof fn lemma_words_round_trip(w: Seq<u32>)
    requires
        w.len() == 8,
    ensures
        words_of_digest(digest_of_words(w)) == w,
{
    let d = digest_of_words(w);
    assert forall|i: int| 0 <= i < 8 implies words_of_digest(d)[i] == w[i] by {
        lemma_fundamental_div_mod_converse(4 * i, 4, i, 0);
        lemma_fundamental_div_mod_converse(4 * i + 1, 4, i, 1);
        lemma_fundamental_div_mod_converse(4 * i + 2, 4, i, 2);
        lemma_fundamental_div_mod_converse(4 * i + 3, 4, i, 3);
        lemma_u32_encode_decode(w[i]);
    }
    assert(words_of_digest(d) =~= w);
}

} // verus!
