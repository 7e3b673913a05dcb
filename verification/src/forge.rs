//! The forgery orchestrator: composes the state codec, the padding
//! calculator and the compression driver into the length-extension attack.

use crate::codec::{
    decode_state, digest_of_words, encode_state, lemma_words_round_trip, words_of_digest,
    ForgeError,
};
use crate::compress::{extend, extend_spec, lemma_extend_split};
use crate::padding::{compute_padding, lemma_padding_correct, padding_spec};
use vstd::prelude::*;
use vstd::slice::{slice_index_get, slice_to_vec};

verus! {

/// A forged message together with the digest that authenticates it under the
/// vulnerable `H(secret || message)` construction, provided the secret-length
/// guess was exact.
#[derive(Clone)]
pub struct ForgedResult {
    message: Vec<u8>,
    digest: Vec<u8>,
}

impl ForgedResult {
    /// The forged message bytes, as a sequence.
    pub closed spec fn message_spec(&self) -> Seq<u8> {
        self.message@
    }

    /// The forged digest bytes, as a sequence.
    pub closed spec fn digest_spec(&self) -> Seq<u8> {
        self.digest@
    }

    /// Packs a forged message and its digest.
    pub fn new(message: Vec<u8>, digest: Vec<u8>) -> (r: ForgedResult)
        ensures
            r.message_spec() == message@,
            r.digest_spec() == digest@,
    {
        ForgedResult { message, digest }
    }

    /// The forged message bytes.
    pub fn message(&self) -> (m: Vec<u8>)
        ensures
            m@ == self.message_spec(),
    {
        let m = self.message.clone();
        proof {
            assert(m@ =~= self.message@);
        }
        m
    }

    /// The forged digest bytes.
    pub fn digest(&self) -> (d: Vec<u8>)
        ensures
            d@ == self.digest_spec(),
    {
        let d = self.digest.clone();
        proof {
            assert(d@ =~= self.digest@);
        }
        d
    }
}

/// The glue padding the original MAC computation would have appended, under
/// the guess: the padding for the guessed secret length plus the known
/// message's length.
pub open spec fn glue_spec(message_len: nat, guessed_secret_len: nat) -> Seq<u8> {
    padding_spec(guessed_secret_len + message_len)
}

/// The forged message: the known message, then the glue padding, then the
/// appended data.
pub open spec fn forged_message_spec(message: Seq<u8>, append: Seq<u8>, guess: nat) -> Seq<u8> {
    message + glue_spec(message.len(), guess) + append
}

/// The forged digest: the state the known MAC leaks, advanced over the
/// appended data followed by the new trailing padding, re-encoded.
pub open spec fn forged_digest_spec(
    mac: Seq<u8>,
    message_len: nat,
    append: Seq<u8>,
    guess: nat,
) -> Seq<u8> {
    let original_total = guess + message_len;
    let resume_offset = original_total + padding_spec(original_total).len();
    let trailing = padding_spec(resume_offset + append.len());
    digest_of_words(extend_spec(words_of_digest(mac), append + trailing))
}

/// Appends every byte of `src` to `dst`, in order.
fn push_bytes(dst: &mut Vec<u8>, src: &[u8])
    ensures
        final(dst)@ == old(dst)@ + src@,
{
    let src_len: usize = src.len();
    let mut i: usize = 0;
    proof {
        assert(old(dst)@ + src@.take(0) =~= old(dst)@);
    }
    while i < src_len
        invariant
            i <= src@.len(),
            src_len == src@.len(),
            dst@ == old(dst)@ + src@.take(i as int),
        decreases src@.len() - i,
    {
        dst.push(*slice_index_get(src, i));
        i = i + 1;
        proof {
            assert(dst@ =~= old(dst)@ + src@.take(i as int));
        }
    }
    proof {
        assert(src@.take(src@.len() as int) =~= src@);
    }
}

/// Performs the length extension attack.
///
/// Recovers the hash's internal state from the known MAC, computes the glue
/// padding that terminated the original `secret || message` computation under
/// the guess, and resumes compression over the appended data with its own
/// trailing padding. Fails with [`ForgeError::MalformedDigest`] exactly when
/// the known MAC is not 32 bytes. A wrong secret-length guess is not
/// detected: the call still returns a result, whose digest an independent
/// verifier will simply reject.
pub fn length_extension_attack(
    original_message: &[u8],
    original_mac: &[u8],
    data_to_append: &[u8],
    guessed_secret_len: usize,
) -> (r: Result<ForgedResult, ForgeError>)
    requires
        guessed_secret_len + original_message@.len() + data_to_append@.len() + 144 <= usize::MAX,
        8 * (guessed_secret_len + original_message@.len() + data_to_append@.len() + 144)
            <= u64::MAX,
    ensures
        r is Ok <==> original_mac@.len() == 32,
        r matches Ok(f) ==> f.message_spec() == forged_message_spec(
            original_message@,
            data_to_append@,
            guessed_secret_len as nat,
        ),
        r matches Ok(f) ==> f.digest_spec() == forged_digest_spec(
            original_mac@,
            original_message@.len(),
            data_to_append@,
            guessed_secret_len as nat,
        ),
        r is Err ==> r == Err::<ForgedResult, ForgeError>(ForgeError::MalformedDigest),
{
    let state = match decode_state(original_mac) {
        Ok(s) => s,
        Err(e) => {
            return Err(e);
        },
    };

    let original_total_len: usize = guessed_secret_len + original_message.len();
    let glue = compute_padding(original_total_len);
    proof {
        lemma_padding_correct(original_total_len as nat);
    }

    let mut forged_message = slice_to_vec(original_message);
    push_bytes(&mut forged_message, glue.as_slice());
    push_bytes(&mut forged_message, data_to_append);

    let resume_offset: usize = original_total_len + glue.len();
    let mut tail = slice_to_vec(data_to_append);
    let trailing = compute_padding(resume_offset + tail.len());
    push_bytes(&mut tail, trailing.as_slice());

    let new_state = extend(state, tail.as_slice());
    let forged_digest = encode_state(&new_state);

    proof {
        assert(forged_message@ =~= forged_message_spec(
            original_message@,
            data_to_append@,
            guessed_secret_len as nat,
        ));
        assert(tail@ =~= data_to_append@ + trailing@);
    }
    Ok(ForgedResult { message: forged_message, digest: forged_digest })
}

/// The Merkle–Damgård digest of `data` from initial state `iv`: the state
/// folded over the data followed by its padding, re-encoded.
pub open spec fn md_digest_spec(iv: Seq<u32>, data: Seq<u8>) -> Seq<u8> {
    digest_of_words(extend_spec(iv, data + padding_spec(data.len())))
}

/// Forgery soundness: when the known MAC is the Merkle–Damgård digest of
/// `secret || message` and the guess equals the secret's real length, the
/// forged digest is the Merkle–Damgård digest of `secret || forged message`
/// under the same hash — for any appended data. The bit counts involved must
/// fit the padding's 64-bit length field, and the state the MAC serializes
/// must be a well-formed eight-word state.
pub proof fn lemma_forgery_sound(
    iv: Seq<u32>,
    secret: Seq<u8>,
    message: Seq<u8>,
    append: Seq<u8>,
    mac: Seq<u8>,
)
    requires
        8 * (secret.len() + message.len()) <= u64::MAX,
        mac == md_digest_spec(iv, secret + message),
        extend_spec(iv, (secret + message) + padding_spec((secret + message).len())).len() == 8,
    ensures
        md_digest_spec(iv, secret + forged_message_spec(message, append, secret.len()))
            == forged_digest_spec(mac, message.len(), append, secret.len()),
{
    let known = secret + message;
    let total = known.len();
    let glue = padding_spec(total);
    let resume = total + glue.len();
    let trailing = padding_spec(resume + append.len());
    let leaked = extend_spec(iv, known + glue);

    // The server's input is the known prefix and its glue, then the appended
    // data; its own final padding is exactly the forged trailing padding.
    let server_input = secret + forged_message_spec(message, append, secret.len());
    assert(server_input =~= (known + glue) + append);
    assert(server_input.len() == resume + append.len());
    assert(server_input + padding_spec(server_input.len()) =~= (known + glue) + (append
        + trailing));

    // The glue ends the known prefix on a block boundary, so compression over
    // the server's input splits right where the forgery resumed.
    lemma_padding_correct(total);
    assert((known + glue).len() % 64 == 0);
    lemma_extend_split(iv, known + glue, append + trailing);

    // The MAC serializes the state at that boundary, and decoding recovers it.
    lemma_words_round_trip(leaked);
    assert(words_of_digest(mac) == leaked);
}

/// The forged message begins with the known message, carries the `0x80`-led
/// glue padding right after it, and ends with the appended data.
pub proof fn lemma_forged_message_structure(message: Seq<u8>, append: Seq<u8>, guess: nat)
    ensures
        forged_message_spec(message, append, guess).len() == message.len() + glue_spec(
            message.len(),
            guess,
        ).len() + append.len(),
        forged_message_spec(message, append, guess).take(message.len() as int) == message,
        forged_message_spec(message, append, guess)[message.len() as int] == 0x80,
        forged_message_spec(message, append, guess).skip(
            (forged_message_spec(message, append, guess).len() - append.len()) as int,
        ) == append,
{
    let f = forged_message_spec(message, append, guess);
    let glue = glue_spec(message.len(), guess);
    assert(f.take(message.len() as int) =~= message);
    assert(f[message.len() as int] == glue[0]);
    assert(f.skip((f.len() - append.len()) as int) =~= append);
}

/// For a fixed known message and guess, the glue padding inside the forged
/// message does not depend on the appended data: forgeries over different
/// appended data agree on everything up to and including the glue, and
/// differ only in the suffix that carries the appended data itself.
pub proof fn lemma_glue_independent_of_append(
    message: Seq<u8>,
    append1: Seq<u8>,
    append2: Seq<u8>,
    guess: nat,
)
    ensures
        forged_message_spec(message, append1, guess).take(
            (message.len() + glue_spec(message.len(), guess).len()) as int,
        ) == forged_message_spec(message, append2, guess).take(
            (message.len() + glue_spec(message.len(), guess).len()) as int,
        ),
        forged_message_spec(message, append1, guess).skip(
            (message.len() + glue_spec(message.len(), guess).len()) as int,
        ) == append1,
{
    let glue = glue_spec(message.len(), guess);
    let head = (message.len() + glue.len()) as int;
    assert(forged_message_spec(message, append1, guess).take(head) =~= message + glue);
    assert(forged_message_spec(message, append2, guess).take(head) =~= message + glue);
    assert(forged_message_spec(message, append1, guess).skip(head) =~= append1);
}

} // verus!
