//! The AEAD construction: ChaCha20-Poly1305 seal and open, the extended
//! nonce variant over HChaCha20, and the nonce-width dispatch. Every public
//! function's result is pinned to a spec-level Result, so success and each
//! error are characterized exactly.

use vstd::prelude::*;

use crate::bytes::{ct_eq, le_byte_of, pow256, wipe};
use crate::chacha::{
    chacha20_block, hchacha20, spec_chacha20_block, spec_hchacha20, spec_xor_stream, xor_stream,
    MAX_MESSAGE_LEN,
};
use crate::poly1305::{poly1305_mac, spec_poly1305};
use crate::AeadError;

verus! {

/// Zero padding up to the next multiple of 16 bytes.
pub open spec fn pad16_len(n: nat) -> nat {
    if n % 16 == 0 {
        0
    } else {
        (16 - n % 16) as nat
    }
}

pub open spec fn zeros(n: nat) -> Seq<u8> {
    Seq::new(n, |i: int| 0u8)
}

/// A length as its 8 little-endian bytes.
pub open spec fn le64_bytes(n: nat) -> Seq<u8>
    recommends
        n < pow256(8),
{
    Seq::new(8, |i: int| le_byte_of(n, i as nat))
}

/// What Poly1305 authenticates: padded AAD, padded ciphertext, then both
/// lengths as 8-byte little-endian values.
pub open spec fn spec_mac_data(aad: Seq<u8>, ct: Seq<u8>) -> Seq<u8> {
    aad + zeros(pad16_len(aad.len())) + ct + zeros(pad16_len(ct.len())) + le64_bytes(aad.len())
        + le64_bytes(ct.len())
}

/// The Poly1305 one-time key: the first half of keystream block 0.
pub open spec fn spec_poly_key(key: Seq<u8>, nonce: Seq<u8>) -> Seq<u8>
    recommends
        key.len() == 32,
        nonce.len() == 12,
{
    spec_chacha20_block(key, 0, nonce).take(32)
}

pub open spec fn spec_tag_of(key: Seq<u8>, nonce: Seq<u8>, aad: Seq<u8>, ct: Seq<u8>) -> Seq<u8>
    recommends
        key.len() == 32,
        nonce.len() == 12,
{
    spec_poly1305(spec_poly_key(key, nonce), spec_mac_data(aad, ct))
}

/// Ciphertext followed by the 16-byte tag.
pub open spec fn spec_seal(key: Seq<u8>, nonce: Seq<u8>, aad: Seq<u8>, pt: Seq<u8>) -> Seq<u8>
    recommends
        key.len() == 32,
        nonce.len() == 12,
{
    let ct = spec_xor_stream(key, nonce, pt);
    ct + spec_tag_of(key, nonce, aad, ct)
}

/// Tag verification then decryption; None is the single integrity failure.
pub open spec fn spec_open(key: Seq<u8>, nonce: Seq<u8>, aad: Seq<u8>, input: Seq<u8>) -> Option<
    Seq<u8>,
>
    recommends
        key.len() == 32,
        nonce.len() == 12,
        input.len() >= 16,
{
    let ct = input.take(input.len() - 16);
    let tag = input.skip(input.len() - 16);
    if tag == spec_tag_of(key, nonce, aad, ct) {
        Some(spec_xor_stream(key, nonce, ct))
    } else {
        None
    }
}

/// The derived key of the extended-nonce variant.
pub open spec fn spec_subkey(key: Seq<u8>, nonce: Seq<u8>) -> Seq<u8>
    recommends
        key.len() == 32,
        nonce.len() == 24,
{
    spec_hchacha20(key, nonce.take(16))
}

/// The effective 12-byte nonce: four zero bytes then the last 8 nonce bytes.
pub open spec fn spec_subnonce(nonce: Seq<u8>) -> Seq<u8>
    recommends
        nonce.len() == 24,
{
    seq![0u8, 0u8, 0u8, 0u8] + nonce.skip(16)
}

pub open spec fn spec_xseal(key: Seq<u8>, nonce: Seq<u8>, aad: Seq<u8>, pt: Seq<u8>) -> Seq<u8>
    recommends
        key.len() == 32,
        nonce.len() == 24,
{
    spec_seal(spec_subkey(key, nonce), spec_subnonce(nonce), aad, pt)
}

pub open spec fn spec_xopen(key: Seq<u8>, nonce: Seq<u8>, aad: Seq<u8>, input: Seq<u8>) -> Option<
    Seq<u8>,
>
    recommends
        key.len() == 32,
        nonce.len() == 24,
        input.len() >= 16,
{
    spec_open(spec_subkey(key, nonce), spec_subnonce(nonce), aad, input)
}

/// The whole contract of the standard-variant seal, errors included.
pub open spec fn seal_std_spec(key: Seq<u8>, nonce: Seq<u8>, aad: Seq<u8>, pt: Seq<u8>) -> Result<
    Seq<u8>,
    AeadError,
> {
    if key.len() != 32 {
        Err(AeadError::InvalidKeyLength)
    } else if nonce.len() != 12 {
        Err(AeadError::InvalidNonceLength)
    } else if pt.len() >= MAX_MESSAGE_LEN {
        Err(AeadError::MessageTooLong)
    } else {
        Ok(spec_seal(key, nonce, aad, pt))
    }
}

/// The whole contract of the standard-variant open. A 16-byte input is a
/// valid empty ciphertext, never `CiphertextTooShort`.
pub open spec fn open_std_spec(key: Seq<u8>, nonce: Seq<u8>, aad: Seq<u8>, input: Seq<u8>) -> Result<
    Seq<u8>,
    AeadError,
> {
    if key.len() != 32 {
        Err(AeadError::InvalidKeyLength)
    } else if nonce.len() != 12 {
        Err(AeadError::InvalidNonceLength)
    } else if input.len() < 16 {
        Err(AeadError::CiphertextTooShort)
    } else if input.len() - 16 >= MAX_MESSAGE_LEN {
        Err(AeadError::MessageTooLong)
    } else {
        match spec_open(key, nonce, aad, input) {
            Some(pt) => Ok(pt),
            None => Err(AeadError::AuthenticationFailed),
        }
    }
}

/// The whole contract of the extended-variant seal.
pub open spec fn seal_x_spec(key: Seq<u8>, nonce: Seq<u8>, aad: Seq<u8>, pt: Seq<u8>) -> Result<
    Seq<u8>,
    AeadError,
> {
    if key.len() != 32 {
        Err(AeadError::InvalidKeyLength)
    } else if nonce.len() != 24 {
        Err(AeadError::InvalidNonceLength)
    } else if pt.len() >= MAX_MESSAGE_LEN {
        Err(AeadError::MessageTooLong)
    } else {
        Ok(spec_xseal(key, nonce, aad, pt))
    }
}

/// The whole contract of the extended-variant open.
pub open spec fn open_x_spec(key: Seq<u8>, nonce: Seq<u8>, aad: Seq<u8>, input: Seq<u8>) -> Result<
    Seq<u8>,
    AeadError,
> {
    if key.len() != 32 {
        Err(AeadError::InvalidKeyLength)
    } else if nonce.len() != 24 {
        Err(AeadError::InvalidNonceLength)
    } else if input.len() < 16 {
        Err(AeadError::CiphertextTooShort)
    } else if input.len() - 16 >= MAX_MESSAGE_LEN {
        Err(AeadError::MessageTooLong)
    } else {
        match spec_xopen(key, nonce, aad, input) {
            Some(pt) => Ok(pt),
            None => Err(AeadError::AuthenticationFailed),
        }
    }
}

/// Nonce-width dispatch: 12 bytes is the standard variant, 24 the extended
/// one, anything else `InvalidNonceLength`.
pub open spec fn seal_spec(key: Seq<u8>, nonce: Seq<u8>, aad: Seq<u8>, pt: Seq<u8>) -> Result<
    Seq<u8>,
    AeadError,
> {
    if nonce.len() == 12 {
        seal_std_spec(key, nonce, aad, pt)
    } else if nonce.len() == 24 {
        seal_x_spec(key, nonce, aad, pt)
    } else {
        Err(AeadError::InvalidNonceLength)
    }
}

pub open spec fn open_spec(key: Seq<u8>, nonce: Seq<u8>, aad: Seq<u8>, input: Seq<u8>) -> Result<
    Seq<u8>,
    AeadError,
> {
    if nonce.len() == 12 {
        open_std_spec(key, nonce, aad, input)
    } else if nonce.len() == 24 {
        open_x_spec(key, nonce, aad, input)
    } else {
        Err(AeadError::InvalidNonceLength)
    }
}

/// An executable result agrees with a spec-level one.
pub open spec fn result_matches(r: Result<Vec<u8>, AeadError>, s: Result<Seq<u8>, AeadError>) -> bool {
    match (r, s) {
        (Ok(v), Ok(sv)) => v@ == sv,
        (Err(e), Err(se)) => e == se,
        _ => false,
    }
}

/// A 64-bit length as its 8 little-endian bytes.
fn u64_le_bytes(n: u64) -> (r: Vec<u8>)
    ensures
        r@ == le64_bytes(n as nat),
        r@.len() == 8,
{
    proof {
        crate::bytes::lemma_pow256_values();
        crate::bytes::lemma_pow256_le(8, 16);
    }
    let mut out: Vec<u8> = Vec::new();
    let mut cur: u64 = n;
    let mut i: usize = 0;
    proof {
        assert(pow256(0) == 1);
        assert(n as nat / 1 == n as nat);
    }
    while i < 8
        invariant
            i <= 8,
            out@.len() == i,
            cur as nat == n as nat / pow256(i as nat),
            forall|k: int| 0 <= k < i ==> out@[k] == le_byte_of(n as nat, k as nat),
        decreases 8 - i,
    {
        proof {
            let p = pow256(i as nat);
            crate::bytes::lemma_pow256_le(0, i as nat);
            assert(pow256((i + 1) as nat) == 256 * p);
            vstd::arithmetic::div_mod::lemma_div_denominator(n as int, p as int, 256);
            assert(p * 256 == 256 * p);
        }
        out.push((cur % 256) as u8);
        cur = cur / 256;
        i = i + 1;
    }
    proof {
        assert(out@ =~= le64_bytes(n as nat));
    }
    out
}

/// Builds the byte sequence that the tag authenticates.
fn build_mac_data(aad: &[u8], ct: &[u8]) -> (out: Vec<u8>)
    ensures
        out@ == spec_mac_data(aad@, ct@),
{
    let mut out: Vec<u8> = Vec::new();
    let mut i: usize = 0;
    while i < aad.len()
        invariant
            i <= aad@.len(),
            out@ =~= aad@.take(i as int),
        decreases aad@.len() - i,
    {
        out.push(aad[i]);
        i = i + 1;
    }
    proof {
        assert(out@ =~= aad@);
    }
    let pad1: usize = (16 - aad.len() % 16) % 16;
    let ghost stage1 = aad@ + zeros(pad16_len(aad@.len()));
    let mut j: usize = 0;
    while j < pad1
        invariant
            j <= pad1,
            pad1 == pad16_len(aad@.len()),
            out@ =~= aad@ + zeros(j as nat),
        decreases pad1 - j,
    {
        out.push(0);
        proof {
            assert(out@ =~= aad@ + zeros((j + 1) as nat));
        }
        j = j + 1;
    }
    proof {
        assert(out@ =~= stage1);
    }
    let ghost stage2 = stage1 + ct@;
    let mut k: usize = 0;
    while k < ct.len()
        invariant
            k <= ct@.len(),
            out@ =~= stage1 + ct@.take(k as int),
        decreases ct@.len() - k,
    {
        out.push(ct[k]);
        k = k + 1;
    }
    proof {
        assert(out@ =~= stage2);
    }
    let pad2: usize = (16 - ct.len() % 16) % 16;
    let ghost stage3 = stage2 + zeros(pad16_len(ct@.len()));
    let mut m: usize = 0;
    while m < pad2
        invariant
            m <= pad2,
            pad2 == pad16_len(ct@.len()),
            out@ =~= stage2 + zeros(m as nat),
        decreases pad2 - m,
    {
        out.push(0);
        proof {
            assert(out@ =~= stage2 + zeros((m + 1) as nat));
        }
        m = m + 1;
    }
    proof {
        assert(out@ =~= stage3);
    }
    let la = u64_le_bytes(aad.len() as u64);
    let ghost stage4 = stage3 + le64_bytes(aad@.len());
    let mut q: usize = 0;
    while q < 8
        invariant
            q <= 8,
            la@ == le64_bytes(aad@.len()),
            out@ =~= stage3 + la@.take(q as int),
        decreases 8 - q,
    {
        out.push(la[q]);
        q = q + 1;
    }
    proof {
        assert(out@ =~= stage4);
    }
    let lc = u64_le_bytes(ct.len() as u64);
    let mut w: usize = 0;
    while w < 8
        invariant
            w <= 8,
            lc@ == le64_bytes(ct@.len()),
            out@ =~= stage4 + lc@.take(w as int),
        decreases 8 - w,
    {
        out.push(lc[w]);
        w = w + 1;
    }
    proof {
        assert(out@ =~= spec_mac_data(aad@, ct@));
    }
    out
}

/// The Poly1305 one-time key for this (key, nonce): block 0, first half.
/// The caller must wipe it after use.
fn poly_key(key: &[u8], nonce: &[u8]) -> (out: Vec<u8>)
    requires
        key@.len() == 32,
        nonce@.len() == 12,
    ensures
        out@ == spec_poly_key(key@, nonce@),
        out@.len() == 32,
{
    let mut block = chacha20_block(key, 0, nonce);
    let mut out: Vec<u8> = Vec::new();
    let mut i: usize = 0;
    while i < 32
        invariant
            i <= 32,
            block@ == spec_chacha20_block(key@, 0, nonce@),
            out@ =~= block@.take(i as int),
        decreases 32 - i,
    {
        out.push(block[i]);
        i = i + 1;
    }
    proof {
        assert(out@ =~= spec_poly_key(key@, nonce@));
    }
    wipe(&mut block);
    out
}

/// Seal, standard variant: encrypts with keystream from block counter 1 and
/// appends the Poly1305 tag over AAD and ciphertext.
pub fn chacha20poly1305_seal(key: &[u8], nonce: &[u8], aad: &[u8], pt: &[u8]) -> (r: Result<
    Vec<u8>,
    AeadError,
>)
    ensures
        result_matches(r, seal_std_spec(key@, nonce@, aad@, pt@)),
{
    if key.len() != 32 {
        return Err(AeadError::InvalidKeyLength);
    }
    if nonce.len() != 12 {
        return Err(AeadError::InvalidNonceLength);
    }
    if pt.len() as u64 >= MAX_MESSAGE_LEN {
        return Err(AeadError::MessageTooLong);
    }
    let mut otk = poly_key(key, nonce);
    let mut ct = xor_stream(key, nonce, pt);
    let mut data = build_mac_data(aad, ct.as_slice());
    let tag = poly1305_mac(otk.as_slice(), data.as_slice());
    let mut t: usize = 0;
    while t < 16
        invariant
            t <= 16,
            tag@.len() == 16,
            ct@ =~= spec_xor_stream(key@, nonce@, pt@) + tag@.take(t as int),
        decreases 16 - t,
    {
        let b = tag[t];
        ct.push(b);
        t = t + 1;
    }
    proof {
        assert(ct@ =~= spec_seal(key@, nonce@, aad@, pt@));
    }
    wipe(&mut otk);
    wipe(&mut data);
    Ok(ct)
}

/// Open, standard variant: recomputes the tag over AAD and ciphertext,
/// compares in constant time, and only then decrypts.
pub fn chacha20poly1305_open(key: &[u8], nonce: &[u8], aad: &[u8], input: &[u8]) -> (r: Result<
    Vec<u8>,
    AeadError,
>)
    ensures
        result_matches(r, open_std_spec(key@, nonce@, aad@, input@)),
{
    if key.len() != 32 {
        return Err(AeadError::InvalidKeyLength);
    }
    if nonce.len() != 12 {
        return Err(AeadError::InvalidNonceLength);
    }
    if input.len() < 16 {
        return Err(AeadError::CiphertextTooShort);
    }
    let ct_len: usize = input.len() - 16;
    if ct_len as u64 >= MAX_MESSAGE_LEN {
        return Err(AeadError::MessageTooLong);
    }
    let mut ct: Vec<u8> = Vec::new();
    let mut i: usize = 0;
    while i < ct_len
        invariant
            i <= ct_len,
            ct_len + 16 == input@.len(),
            ct@ =~= input@.take(ct_len as int).take(i as int),
        decreases ct_len - i,
    {
        ct.push(input[i]);
        i = i + 1;
    }
    proof {
        assert(ct@ =~= input@.take(ct_len as int));
    }
    let mut rtag: Vec<u8> = Vec::new();
    let mut j: usize = 0;
    while j < 16
        invariant
            j <= 16,
            ct_len + 16 == input@.len(),
            input@.len() <= usize::MAX,
            rtag@ =~= input@.skip(ct_len as int).take(j as int),
        decreases 16 - j,
    {
        rtag.push(input[ct_len + j]);
        j = j + 1;
    }
    proof {
        assert(rtag@ =~= input@.skip(ct_len as int));
    }
    let mut otk = poly_key(key, nonce);
    let mut data = build_mac_data(aad, ct.as_slice());
    let etag = poly1305_mac(otk.as_slice(), data.as_slice());
    wipe(&mut otk);
    wipe(&mut data);
    let good = ct_eq(etag.as_slice(), rtag.as_slice());
    if !good {
        return Err(AeadError::AuthenticationFailed);
    }
    let pt = xor_stream(key, nonce, ct.as_slice());
    Ok(pt)
}

/// Seal, extended variant: HChaCha20 derives a subkey from the first 16
/// nonce bytes, then the standard construction runs under the subnonce.
pub fn xchacha20poly1305_seal(key: &[u8], nonce: &[u8], aad: &[u8], pt: &[u8]) -> (r: Result<
    Vec<u8>,
    AeadError,
>)
    ensures
        result_matches(r, seal_x_spec(key@, nonce@, aad@, pt@)),
{
    if key.len() != 32 {
        return Err(AeadError::InvalidKeyLength);
    }
    if nonce.len() != 24 {
        return Err(AeadError::InvalidNonceLength);
    }
    if pt.len() as u64 >= MAX_MESSAGE_LEN {
        return Err(AeadError::MessageTooLong);
    }
    let (mut subkey, subnonce) = derive_sub(key, nonce);
    let r = chacha20poly1305_seal(subkey.as_slice(), subnonce.as_slice(), aad, pt);
    wipe(&mut subkey);
    r
}

/// Open, extended variant.
pub fn xchacha20poly1305_open(key: &[u8], nonce: &[u8], aad: &[u8], input: &[u8]) -> (r: Result<
    Vec<u8>,
    AeadError,
>)
    ensures
        result_matches(r, open_x_spec(key@, nonce@, aad@, input@)),
{
    if key.len() != 32 {
        return Err(AeadError::InvalidKeyLength);
    }
    if nonce.len() != 24 {
        return Err(AeadError::InvalidNonceLength);
    }
    if input.len() < 16 {
        return Err(AeadError::CiphertextTooShort);
    }
    if (input.len() - 16) as u64 >= MAX_MESSAGE_LEN {
        return Err(AeadError::MessageTooLong);
    }
    let (mut subkey, subnonce) = derive_sub(key, nonce);
    let r = chacha20poly1305_open(subkey.as_slice(), subnonce.as_slice(), aad, input);
    wipe(&mut subkey);
    r
}

/// The extended variant's derived key and effective nonce.
fn derive_sub(key: &[u8], nonce: &[u8]) -> (r: (Vec<u8>, Vec<u8>))
    requires
        key@.len() == 32,
        nonce@.len() == 24,
    ensures
        r.0@ == spec_subkey(key@, nonce@),
        r.0@.len() == 32,
        r.1@ == spec_subnonce(nonce@),
        r.1@.len() == 12,
{
    let mut n16: Vec<u8> = Vec::new();
    let mut i: usize = 0;
    while i < 16
        invariant
            i <= 16,
            nonce@.len() == 24,
            n16@ =~= nonce@.take(16).take(i as int),
        decreases 16 - i,
    {
        n16.push(nonce[i]);
        i = i + 1;
    }
    proof {
        assert(n16@ =~= nonce@.take(16));
    }
    let subkey = hchacha20(key, n16.as_slice());
    let mut subnonce: Vec<u8> = Vec::new();
    subnonce.push(0);
    subnonce.push(0);
    subnonce.push(0);
    subnonce.push(0);
    let mut j: usize = 0;
    while j < 8
        invariant
            j <= 8,
            nonce@.len() == 24,
            subnonce@ =~= seq![0u8, 0u8, 0u8, 0u8] + nonce@.skip(16).take(j as int),
        decreases 8 - j,
    {
        subnonce.push(nonce[16 + j]);
        j = j + 1;
    }
    proof {
        assert(subnonce@ =~= spec_subnonce(nonce@));
    }
    (subkey, subnonce)
}

/// Seal with the variant chosen by nonce width: 12 bytes standard, 24
/// extended, anything else `InvalidNonceLength`.
pub fn seal(key: &[u8], nonce: &[u8], aad: &[u8], pt: &[u8]) -> (r: Result<Vec<u8>, AeadError>)
    ensures
        result_matches(r, seal_spec(key@, nonce@, aad@, pt@)),
{
    if nonce.len() == 12 {
        chacha20poly1305_seal(key, nonce, aad, pt)
    } else if nonce.len() == 24 {
        xchacha20poly1305_seal(key, nonce, aad, pt)
    } else {
        Err(AeadError::InvalidNonceLength)
    }
}

/// Open with the variant chosen by nonce width.
pub fn open(key: &[u8], nonce: &[u8], aad: &[u8], input: &[u8]) -> (r: Result<Vec<u8>, AeadError>)
    ensures
        result_matches(r, open_spec(key@, nonce@, aad@, input@)),
{
    if nonce.len() == 12 {
        chacha20poly1305_open(key, nonce, aad, input)
    } else if nonce.len() == 24 {
        xchacha20poly1305_open(key, nonce, aad, input)
    } else {
        Err(AeadError::InvalidNonceLength)
    }
}

/// Decrypting an encryption returns the plaintext: the keystream XOR is an
/// involution byte for byte.
proof fn lemma_xor_stream_involution(key: Seq<u8>, nonce: Seq<u8>, pt: Seq<u8>)
    ensures
        spec_xor_stream(key, nonce, spec_xor_stream(key, nonce, pt)) == pt,
{
    let ct = spec_xor_stream(key, nonce, pt);
    assert forall|i: int| 0 <= i < pt.len() implies spec_xor_stream(key, nonce, ct)[i] == pt[i] by {
        crate::bytes::lemma_xor_involution(
            pt[i],
            spec_chacha20_block(key, (1 + i / 64) as u32, nonce)[i % 64],
        );
    }
    assert(spec_xor_stream(key, nonce, ct) =~= pt);
}

/// Round trip: opening what seal produced, under the same key, nonce and
/// AAD, succeeds and returns the original plaintext — for either variant.
#[verifier::rlimit(80)]
pub proof fn lemma_seal_open_round_trip(key: Seq<u8>, nonce: Seq<u8>, aad: Seq<u8>, pt: Seq<u8>)
    requires
        key.len() == 32,
        nonce.len() == 12 || nonce.len() == 24,
        pt.len() < MAX_MESSAGE_LEN,
    ensures
        seal_spec(key, nonce, aad, pt) is Ok,
        open_spec(key, nonce, aad, seal_spec(key, nonce, aad, pt)->Ok_0) == Ok::<
            Seq<u8>,
            AeadError,
        >(pt),
{
    if nonce.len() == 12 {
        lemma_round_trip_core(key, nonce, aad, pt);
    } else {
        lemma_round_trip_core(spec_subkey(key, nonce), spec_subnonce(nonce), aad, pt);
    }
}

proof fn lemma_round_trip_core(key: Seq<u8>, nonce: Seq<u8>, aad: Seq<u8>, pt: Seq<u8>)
    requires
        key.len() == 32,
        nonce.len() == 12,
        pt.len() < MAX_MESSAGE_LEN,
    ensures
        spec_open(key, nonce, aad, spec_seal(key, nonce, aad, pt)) == Some(pt),
        spec_seal(key, nonce, aad, pt).len() == pt.len() + 16,
{
    let ct = spec_xor_stream(key, nonce, pt);
    let sealed = spec_seal(key, nonce, aad, pt);
    assert(sealed.take(sealed.len() - 16) =~= ct);
    assert(sealed.skip(sealed.len() - 16) =~= spec_tag_of(key, nonce, aad, ct));
    lemma_xor_stream_involution(key, nonce, pt);
}

/// Length preservation: a sealed message is exactly 16 bytes longer than
/// its plaintext, whichever variant sealed it.
pub proof fn lemma_seal_len(key: Seq<u8>, nonce: Seq<u8>, aad: Seq<u8>, pt: Seq<u8>)
    requires
        key.len() == 32,
        nonce.len() == 12 || nonce.len() == 24,
        pt.len() < MAX_MESSAGE_LEN,
    ensures
        seal_spec(key, nonce, aad, pt) is Ok,
        seal_spec(key, nonce, aad, pt)->Ok_0.len() == pt.len() + 16,
{
    if nonce.len() == 12 {
        lemma_round_trip_core(key, nonce, aad, pt);
    } else {
        lemma_round_trip_core(spec_subkey(key, nonce), spec_subnonce(nonce), aad, pt);
    }
}

/// A 16-byte input is the tag of an empty ciphertext, never rejected as
/// too short: it opens to the empty plaintext when the tag is valid for the
/// empty plaintext under this key, nonce and AAD, and fails authentication
/// otherwise.
pub proof fn lemma_tag_only_open(key: Seq<u8>, nonce: Seq<u8>, aad: Seq<u8>, input: Seq<u8>)
    requires
        key.len() == 32,
        nonce.len() == 12 || nonce.len() == 24,
        input.len() == 16,
    ensures
        open_spec(key, nonce, aad, input) != Err::<Seq<u8>, AeadError>(
            AeadError::CiphertextTooShort,
        ),
        open_spec(key, nonce, aad, input) is Ok ==> open_spec(key, nonce, aad, input)->Ok_0
            == Seq::<u8>::empty(),
        open_spec(key, nonce, aad, input) is Err ==> open_spec(key, nonce, aad, input)->Err_0
            == AeadError::AuthenticationFailed,
{
    let ekey = if nonce.len() == 12 {
        key
    } else {
        spec_subkey(key, nonce)
    };
    let enonce = if nonce.len() == 12 {
        nonce
    } else {
        spec_subnonce(nonce)
    };
    let ct = input.take(input.len() - 16);
    assert(ct =~= Seq::<u8>::empty());
    if input.skip(input.len() - 16) == spec_tag_of(ekey, enonce, aad, ct) {
        assert(spec_xor_stream(ekey, enonce, ct) =~= Seq::<u8>::empty());
    }
}

/// Determinism: sealing is a mathematical function of (key, nonce, AAD,
/// plaintext) alone — equal inputs give the identical sealed output. The
/// executable functions are pinned to the same spec function, so two calls
/// on equal inputs return equal bytes.
pub proof fn lemma_seal_deterministic(
    key1: Seq<u8>,
    nonce1: Seq<u8>,
    aad1: Seq<u8>,
    pt1: Seq<u8>,
    key2: Seq<u8>,
    nonce2: Seq<u8>,
    aad2: Seq<u8>,
    pt2: Seq<u8>,
)
    requires
        key1 == key2,
        nonce1 == nonce2,
        aad1 == aad2,
        pt1 == pt2,
    ensures
        seal_spec(key1, nonce1, aad1, pt1) == seal_spec(key2, nonce2, aad2, pt2),
{
}

} // verus!
