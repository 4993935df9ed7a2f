//! Differential tests: for a spread of deterministic inputs, seal and open
//! must agree byte for byte with the reference RustCrypto implementation,
//! in both directions and for both nonce widths.

use chacha20poly1305::aead::generic_array::GenericArray;
use chacha20poly1305::aead::{Aead, KeyInit, Payload};
use chacha20poly1305::{ChaCha20Poly1305, XChaCha20Poly1305};

use chacha20_poly1305::aead::{chacha20poly1305_open, chacha20poly1305_seal};
use chacha20_poly1305::aead::{xchacha20poly1305_open, xchacha20poly1305_seal};

fn material(seed: u8, len: usize) -> Vec<u8> {
    (0..len)
        .map(|i| seed.wrapping_add((i as u8).wrapping_mul(13)).wrapping_add((i / 256) as u8))
        .collect()
}

#[test]
fn standard_variant_matches_reference() {
    for (case, (pt_len, aad_len)) in [
        (0usize, 0usize),
        (1, 0),
        (0, 7),
        (16, 16),
        (63, 3),
        (64, 0),
        (65, 31),
        (200, 100),
    ]
    .into_iter()
    .enumerate()
    {
        let key = material(case as u8, 32);
        let nonce = material(0x40 + case as u8, 12);
        let aad = material(0x80 + case as u8, aad_len);
        let pt = material(0xc0 + case as u8, pt_len);

        let reference = ChaCha20Poly1305::new(GenericArray::from_slice(&key))
            .encrypt(
                GenericArray::from_slice(&nonce),
                Payload { msg: &pt, aad: &aad },
            )
            .unwrap();
        let ours = chacha20poly1305_seal(&key, &nonce, &aad, &pt).unwrap();
        assert_eq!(ours, reference);

        // Our open accepts the reference's output.
        let back = chacha20poly1305_open(&key, &nonce, &aad, &reference).unwrap();
        assert_eq!(back, pt);

        // The reference accepts ours.
        let ref_back = ChaCha20Poly1305::new(GenericArray::from_slice(&key))
            .decrypt(
                GenericArray::from_slice(&nonce),
                Payload { msg: &ours, aad: &aad },
            )
            .unwrap();
        assert_eq!(ref_back, pt);
    }
}

#[test]
fn extended_variant_matches_reference() {
    for (case, (pt_len, aad_len)) in [
        (0usize, 0usize),
        (1, 1),
        (0, 12),
        (17, 0),
        (64, 64),
        (129, 5),
    ]
    .into_iter()
    .enumerate()
    {
        let key = material(0x11 + case as u8, 32);
        let nonce = material(0x51 + case as u8, 24);
        let aad = material(0x91 + case as u8, aad_len);
        let pt = material(0xd1 + case as u8, pt_len);

        let reference = XChaCha20Poly1305::new(GenericArray::from_slice(&key))
            .encrypt(
                GenericArray::from_slice(&nonce),
                Payload { msg: &pt, aad: &aad },
            )
            .unwrap();
        let ours = xchacha20poly1305_seal(&key, &nonce, &aad, &pt).unwrap();
        assert_eq!(ours, reference);

        let back = xchacha20poly1305_open(&key, &nonce, &aad, &reference).unwrap();
        assert_eq!(back, pt);

        let ref_back = XChaCha20Poly1305::new(GenericArray::from_slice(&key))
            .decrypt(
                GenericArray::from_slice(&nonce),
                Payload { msg: &ours, aad: &aad },
            )
            .unwrap();
        assert_eq!(ref_back, pt);
    }
}
