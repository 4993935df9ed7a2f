//! Behavioural scenarios: round trips, tamper detection, length
//! preservation, determinism, nonce-width dispatch, and the edge cases
//! around empty plaintexts and tag-only inputs.

use chacha20_poly1305::aead::{chacha20poly1305_open, chacha20poly1305_seal, open, seal};
use chacha20_poly1305::aead::{xchacha20poly1305_open, xchacha20poly1305_seal};
use chacha20_poly1305::AeadError;

fn demo_key() -> [u8; 32] {
    let mut k = [0u8; 32];
    for i in 0..32 {
        k[i] = (i as u8).wrapping_mul(7).wrapping_add(3);
    }
    k
}

fn demo_nonce12() -> [u8; 12] {
    let mut n = [0u8; 12];
    for i in 0..12 {
        n[i] = 0x30 + i as u8;
    }
    n
}

fn demo_nonce24() -> [u8; 24] {
    let mut n = [0u8; 24];
    for i in 0..24 {
        n[i] = 0x60 + i as u8;
    }
    n
}

#[test]
fn round_trip_various_lengths() {
    let key = demo_key();
    let n12 = demo_nonce12();
    let n24 = demo_nonce24();
    let aad = b"header";
    for len in [0usize, 1, 15, 16, 17, 63, 64, 65, 128, 300] {
        let pt: Vec<u8> = (0..len).map(|i| (i * 31 % 251) as u8).collect();
        let sealed = seal(&key, &n12, aad, &pt).unwrap();
        assert_eq!(open(&key, &n12, aad, &sealed).unwrap(), pt);
        let sealed_x = seal(&key, &n24, aad, &pt).unwrap();
        assert_eq!(open(&key, &n24, aad, &sealed_x).unwrap(), pt);
    }
}

#[test]
fn length_preservation() {
    let key = demo_key();
    let n12 = demo_nonce12();
    let n24 = demo_nonce24();
    for len in [0usize, 1, 16, 100] {
        let pt = vec![0xabu8; len];
        assert_eq!(seal(&key, &n12, b"", &pt).unwrap().len(), len + 16);
        assert_eq!(seal(&key, &n24, b"", &pt).unwrap().len(), len + 16);
    }
}

#[test]
fn determinism() {
    let key = demo_key();
    let n12 = demo_nonce12();
    let pt = b"the same message sealed twice";
    let a = seal(&key, &n12, b"aad", pt).unwrap();
    let b = seal(&key, &n12, b"aad", pt).unwrap();
    assert_eq!(a, b);
    let n24 = demo_nonce24();
    let c = seal(&key, &n24, b"aad", pt).unwrap();
    let d = seal(&key, &n24, b"aad", pt).unwrap();
    assert_eq!(c, d);
}

#[test]
fn tamper_detection_ciphertext_and_tag() {
    let key = demo_key();
    let n12 = demo_nonce12();
    let aad = b"hdr";
    let pt = b"a short but meaningful message";
    let sealed = seal(&key, &n12, aad, pt).unwrap();
    for byte in 0..sealed.len() {
        for bit in 0..8 {
            let mut bad = sealed.clone();
            bad[byte] ^= 1 << bit;
            assert_eq!(
                open(&key, &n12, aad, &bad),
                Err(AeadError::AuthenticationFailed)
            );
        }
    }
}

#[test]
fn tamper_detection_aad_nonce_key() {
    let key = demo_key();
    let n12 = demo_nonce12();
    let aad = [0x11u8, 0x22];
    let pt = b"payload";
    let sealed = seal(&key, &n12, &aad, pt).unwrap();
    for byte in 0..aad.len() {
        for bit in 0..8 {
            let mut bad = aad;
            bad[byte] ^= 1 << bit;
            assert_eq!(
                open(&key, &n12, &bad, &sealed),
                Err(AeadError::AuthenticationFailed)
            );
        }
    }
    for byte in 0..n12.len() {
        for bit in 0..8 {
            let mut bad = n12;
            bad[byte] ^= 1 << bit;
            assert_eq!(
                open(&key, &bad, &aad, &sealed),
                Err(AeadError::AuthenticationFailed)
            );
        }
    }
    for byte in 0..key.len() {
        for bit in 0..8 {
            let mut bad = key;
            bad[byte] ^= 1 << bit;
            assert_eq!(
                open(&bad, &n12, &aad, &sealed),
                Err(AeadError::AuthenticationFailed)
            );
        }
    }
}

#[test]
fn nonce_width_dispatch() {
    let key = demo_key();
    let pt = b"msg";
    let n12 = demo_nonce12();
    let n24 = demo_nonce24();
    // 12 bytes routes to the standard variant, 24 to the extended one.
    assert_eq!(
        seal(&key, &n12, b"", pt).unwrap(),
        chacha20poly1305_seal(&key, &n12, b"", pt).unwrap()
    );
    assert_eq!(
        seal(&key, &n24, b"", pt).unwrap(),
        xchacha20poly1305_seal(&key, &n24, b"", pt).unwrap()
    );
    // The two variants disagree, so the dispatch is not vacuous.
    assert_ne!(
        seal(&key, &n12, b"", pt).unwrap(),
        seal(&key, &n24, b"", pt).unwrap()
    );
    for bad_len in [0usize, 1, 8, 11, 13, 16, 23, 25, 32] {
        let n = vec![0u8; bad_len];
        assert_eq!(
            seal(&key, &n, b"", pt),
            Err(AeadError::InvalidNonceLength)
        );
        assert_eq!(
            open(&key, &n, b"", &[0u8; 16]),
            Err(AeadError::InvalidNonceLength)
        );
    }
}

#[test]
fn empty_plaintext_with_aad() {
    let key = demo_key();
    let n12 = demo_nonce12();
    let aad = b"authenticated only";
    let sealed = seal(&key, &n12, aad, b"").unwrap();
    assert_eq!(sealed.len(), 16);
    assert_eq!(open(&key, &n12, aad, &sealed).unwrap(), Vec::<u8>::new());
    let n24 = demo_nonce24();
    let sealed_x = seal(&key, &n24, aad, b"").unwrap();
    assert_eq!(sealed_x.len(), 16);
    assert_eq!(open(&key, &n24, aad, &sealed_x).unwrap(), Vec::<u8>::new());
}

#[test]
fn tag_only_input_is_not_too_short() {
    let key = demo_key();
    let n12 = demo_nonce12();
    let aad = b"aad";
    // A valid tag over the empty plaintext opens to the empty plaintext.
    let sealed = seal(&key, &n12, aad, b"").unwrap();
    assert_eq!(sealed.len(), 16);
    assert_eq!(open(&key, &n12, aad, &sealed).unwrap(), Vec::<u8>::new());
    // An invalid 16-byte tag fails authentication, not the length check.
    let bogus = [0u8; 16];
    assert_eq!(
        open(&key, &n12, aad, &bogus),
        Err(AeadError::AuthenticationFailed)
    );
}

#[test]
fn error_variants() {
    let key = demo_key();
    let n12 = demo_nonce12();
    let short_key = [0u8; 16];
    assert_eq!(
        seal(&short_key, &n12, b"", b"m"),
        Err(AeadError::InvalidKeyLength)
    );
    assert_eq!(
        open(&short_key, &n12, b"", &[0u8; 16]),
        Err(AeadError::InvalidKeyLength)
    );
    assert_eq!(
        chacha20poly1305_seal(&key, &demo_nonce24(), b"", b"m"),
        Err(AeadError::InvalidNonceLength)
    );
    assert_eq!(
        xchacha20poly1305_seal(&key, &n12, b"", b"m"),
        Err(AeadError::InvalidNonceLength)
    );
    for len in 0..16usize {
        let short = vec![0u8; len];
        assert_eq!(
            open(&key, &n12, b"", &short),
            Err(AeadError::CiphertextTooShort)
        );
        assert_eq!(
            xchacha20poly1305_open(&key, &demo_nonce24(), b"", &short),
            Err(AeadError::CiphertextTooShort)
        );
    }
}

#[test]
fn aad_is_authenticated_not_encrypted() {
    let key = demo_key();
    let n12 = demo_nonce12();
    let pt = b"secret";
    let a = seal(&key, &n12, b"aad-one", pt).unwrap();
    let b = seal(&key, &n12, b"aad-two", pt).unwrap();
    // Same plaintext, same keystream: ciphertext bytes agree, tags differ.
    assert_eq!(a[..pt.len()], b[..pt.len()]);
    assert_ne!(a[pt.len()..], b[pt.len()..]);
    // Opening under the wrong AAD fails.
    assert_eq!(
        open(&key, &n12, b"aad-two", &a),
        Err(AeadError::AuthenticationFailed)
    );
}
