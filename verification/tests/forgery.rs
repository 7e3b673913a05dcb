use hmac::{Hmac, Mac};
use length_extension::{
    compute_padding, decode_state, encode_state, extend, length_extension_attack, ForgeError,
};
use sha2::{Digest, Sha256};

/// The secret known only to the server in the demonstration scenario.
const SECRET: &[u8] = b"supersecretkey!!";

/// The vulnerable construction: `SHA256(secret || message)`.
fn sha256_mac(secret: &[u8], msg: &[u8]) -> Vec<u8> {
    let mut hasher = Sha256::new();
    hasher.update(secret);
    hasher.update(msg);
    hasher.finalize().to_vec()
}

/// The secure baseline: `HMAC-SHA256(secret, message)`.
fn hmac_sha256(secret: &[u8], msg: &[u8]) -> Vec<u8> {
    let mut mac = Hmac::<Sha256>::new_from_slice(secret).unwrap();
    mac.update(msg);
    mac.finalize().into_bytes().to_vec()
}

#[test]
fn test_overall() {
    let message = b"user=alice&amount=1000";
    let extra = b"&admin=true";
    let original_mac = sha256_mac(SECRET, message);
    // The attacker needs to guess the length of the secret. Here, we "guess" correctly.
    let res = length_extension_attack(message, &original_mac, extra, SECRET.len()).unwrap();
    let forged_message = res.message();
    let forged_mac = res.digest();
    // The server receives the message with the padding inside it.
    let server_side_verification_mac = sha256_mac(SECRET, &forged_message);
    assert_eq!(
        forged_mac, server_side_verification_mac,
        "Attack failed: MACs do not match!"
    );
}

#[test]
fn padding_fills_to_block_boundary() {
    for n in [0usize, 1, 38, 55, 56, 63, 64, 119, 120, 1000] {
        let p = compute_padding(n);
        assert_eq!((n + p.len()) % 64, 0);
        assert_eq!(p[0], 0x80);
        for &b in &p[1..p.len() - 8] {
            assert_eq!(b, 0);
        }
        let trailer: [u8; 8] = p[p.len() - 8..].try_into().unwrap();
        assert_eq!(u64::from_be_bytes(trailer), (n as u64) * 8);
    }
}

#[test]
fn padding_exact_value() {
    // 38 content bytes: marker, 17 zero bytes, then 304 bits big-endian.
    let p = compute_padding(38);
    assert_eq!(p.len(), 26);
    let mut expected = vec![0x80u8];
    expected.extend_from_slice(&[0u8; 17]);
    expected.extend_from_slice(&[0, 0, 0, 0, 0, 0, 0x01, 0x30]);
    assert_eq!(p, expected);
}

#[test]
fn padding_length_depends_only_on_residue() {
    for n in 0usize..128 {
        let a = compute_padding(n).len();
        let b = compute_padding(n + 64).len();
        let c = compute_padding(n + 64 * 1000).len();
        assert_eq!(a, b);
        assert_eq!(a, c);
    }
}

#[test]
fn codec_round_trip() {
    let digest: Vec<u8> = (0u8..32).collect();
    let state = decode_state(&digest).unwrap();
    assert_eq!(encode_state(&state), digest);
}

#[test]
fn malformed_digest_rejected() {
    for len in [0usize, 1, 16, 31, 33, 64] {
        let d = vec![0xabu8; len];
        assert!(matches!(decode_state(&d), Err(ForgeError::MalformedDigest)));
    }
    assert!(decode_state(&[0u8; 32]).is_ok());
}

#[test]
fn extend_on_empty_data_keeps_state() {
    let digest: Vec<u8> = (100u8..132).collect();
    let state = decode_state(&digest).unwrap();
    let state = extend(state, &[]);
    assert_eq!(encode_state(&state), digest);
}

#[test]
fn forged_digest_differs_from_original_mac() {
    // Fails if the compression step were to hand its state back unchanged.
    let message = b"user=alice&amount=1000";
    let mac = sha256_mac(SECRET, message);
    let res = length_extension_attack(message, &mac, b"&admin=true", SECRET.len()).unwrap();
    assert_ne!(res.digest(), mac);
}

#[test]
fn wrong_guess_degrades_silently() {
    let message = b"user=alice&amount=1000";
    let extra = b"&admin=true";
    let mac = sha256_mac(SECRET, message);
    let res = length_extension_attack(message, &mac, extra, SECRET.len() + 1).unwrap();
    let server_side = sha256_mac(SECRET, &res.message());
    assert_ne!(res.digest(), server_side);
}

#[test]
fn forged_message_shape() {
    let message = b"user=alice&amount=1000";
    let extra = b"&admin=true";
    let mac = sha256_mac(SECRET, message);
    let res = length_extension_attack(message, &mac, extra, SECRET.len()).unwrap();
    let forged = res.message();
    assert!(forged.starts_with(message));
    assert_eq!(forged[message.len()], 0x80);
    assert!(forged.ends_with(extra));
}

#[test]
fn glue_independent_of_append() {
    let message = b"user=alice&amount=1000";
    let mac = sha256_mac(SECRET, message);
    let r1 = length_extension_attack(message, &mac, b"&admin=true", SECRET.len()).unwrap();
    let r2 = length_extension_attack(message, &mac, b"x", SECRET.len()).unwrap();
    let glue_len = compute_padding(SECRET.len() + message.len()).len();
    let head = message.len() + glue_len;
    assert_eq!(r1.message()[..head], r2.message()[..head]);
    assert_eq!(&r1.message()[head..], &b"&admin=true"[..]);
}

#[test]
fn forgery_succeeds_across_lengths() {
    for secret_len in [0usize, 1, 16, 55, 56, 63, 64, 100] {
        let secret: Vec<u8> = (0..secret_len).map(|i| (i % 251) as u8).collect();
        for message in [&b""[..], b"m", b"user=alice&amount=1000"] {
            for extra in [&b""[..], b"&admin=true", &[0x80u8; 130][..]] {
                let mac = sha256_mac(&secret, message);
                let res = length_extension_attack(message, &mac, extra, secret_len).unwrap();
                let server_side = sha256_mac(&secret, &res.message());
                assert_eq!(res.digest(), server_side);
            }
        }
    }
}

#[test]
fn hmac_resists_extension() {
    let message = b"user=alice&amount=1000";
    let extra = b"&admin=true";
    let mac = hmac_sha256(SECRET, message);
    let res = length_extension_attack(message, &mac, extra, SECRET.len()).unwrap();
    let server_side = hmac_sha256(SECRET, &res.message());
    assert_ne!(res.digest(), server_side);
}
