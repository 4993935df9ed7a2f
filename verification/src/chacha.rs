//! The ChaCha20 stream cipher core: a 20-round ARX permutation of a 4x4
//! matrix of 32-bit words, expanded on demand into 64-byte keystream blocks,
//! plus the HChaCha20 subkey derivation used by the extended-nonce variant.

use vstd::prelude::*;

use crate::bytes::pow256;

verus! {

/// The first rejected message length, 2^38 - 64: the 32-bit block counter,
/// starting at 1, must not wrap, so a message must stay under
/// (2^32 - 1) * 64 bytes.
pub const MAX_MESSAGE_LEN: u64 = 0x3FFFFFFFC0;

pub open spec fn spec_rotl(x: u32, n: u32) -> u32
    recommends
        0 < n < 32,
{
    (x << n) | (x >> ((32 - n) as u32))
}

fn rotl(x: u32, n: u32) -> (r: u32)
    requires
        0 < n < 32,
    ensures
        r == spec_rotl(x, n),
{
    (x << n) | (x >> (32 - n))
}

/// One quarter round: the add-rotate-xor unit applied to four words.
pub open spec fn spec_qr(a: u32, b: u32, c: u32, d: u32) -> (u32, u32, u32, u32) {
    let a = a.wrapping_add(b);
    let d = spec_rotl(d ^ a, 16);
    let c = c.wrapping_add(d);
    let b = spec_rotl(b ^ c, 12);
    let a = a.wrapping_add(b);
    let d = spec_rotl(d ^ a, 8);
    let c = c.wrapping_add(d);
    let b = spec_rotl(b ^ c, 7);
    (a, b, c, d)
}

fn qr(a: u32, b: u32, c: u32, d: u32) -> (r: (u32, u32, u32, u32))
    ensures
        r == spec_qr(a, b, c, d),
{
    let a = a.wrapping_add(b);
    let d = rotl(d ^ a, 16);
    let c = c.wrapping_add(d);
    let b = rotl(b ^ c, 12);
    let a = a.wrapping_add(b);
    let d = rotl(d ^ a, 8);
    let c = c.wrapping_add(d);
    let b = rotl(b ^ c, 7);
    (a, b, c, d)
}

/// Quarter rounds down the four columns of the state matrix.
pub open spec fn spec_column_round(s: Seq<u32>) -> Seq<u32>
    recommends
        s.len() == 16,
{
    let q0 = spec_qr(s[0], s[4], s[8], s[12]);
    let q1 = spec_qr(s[1], s[5], s[9], s[13]);
    let q2 = spec_qr(s[2], s[6], s[10], s[14]);
    let q3 = spec_qr(s[3], s[7], s[11], s[15]);
    seq![
        q0.0,
        q1.0,
        q2.0,
        q3.0,
        q0.1,
        q1.1,
        q2.1,
        q3.1,
        q0.2,
        q1.2,
        q2.2,
        q3.2,
        q0.3,
        q1.3,
        q2.3,
        q3.3,
    ]
}

/// Quarter rounds down the four diagonals of the state matrix.
pub open spec fn spec_diagonal_round(s: Seq<u32>) -> Seq<u32>
    recommends
        s.len() == 16,
{
    let q0 = spec_qr(s[0], s[5], s[10], s[15]);
    let q1 = spec_qr(s[1], s[6], s[11], s[12]);
    let q2 = spec_qr(s[2], s[7], s[8], s[13]);
    let q3 = spec_qr(s[3], s[4], s[9], s[14]);
    seq![
        q0.0,
        q1.0,
        q2.0,
        q3.0,
        q3.1,
        q0.1,
        q1.1,
        q2.1,
        q2.2,
        q3.2,
        q0.2,
        q1.2,
        q1.3,
        q2.3,
        q3.3,
        q0.3,
    ]
}

/// n double rounds: each is a column round followed by a diagonal round.
pub open spec fn spec_rounds(s: Seq<u32>, n: nat) -> Seq<u32>
    decreases n,
{
    if n == 0 {
        s
    } else {
        spec_diagonal_round(spec_column_round(spec_rounds(s, (n - 1) as nat)))
    }
}

/// The 32-bit word at byte offset 4*i of a little-endian byte sequence.
pub open spec fn spec_le32(b: Seq<u8>, i: int) -> u32 {
    (b[4 * i] as nat + 256 * (b[4 * i + 1] as nat) + 65536 * (b[4 * i + 2] as nat) + 16777216 * (b[
        4 * i + 3] as nat)) as u32
}

/// Initial state: the fixed constant, the key, the block counter, the nonce.
pub open spec fn spec_init_state(key: Seq<u8>, counter: u32, nonce: Seq<u8>) -> Seq<u32>
    recommends
        key.len() == 32,
        nonce.len() == 12,
{
    seq![
        0x61707865u32,
        0x3320646eu32,
        0x79622d32u32,
        0x6b206574u32,
        spec_le32(key, 0),
        spec_le32(key, 1),
        spec_le32(key, 2),
        spec_le32(key, 3),
        spec_le32(key, 4),
        spec_le32(key, 5),
        spec_le32(key, 6),
        spec_le32(key, 7),
        counter,
        spec_le32(nonce, 0),
        spec_le32(nonce, 1),
        spec_le32(nonce, 2),
    ]
}

/// Little-endian byte k of a 32-bit word.
pub open spec fn word_byte(w: u32, k: int) -> u8 {
    (((w as nat) / pow256(k as nat)) % 256) as u8
}

/// The finished 64-byte block: 20 rounds, feed-forward add of the initial
/// state, then little-endian serialization of the 16 words.
pub open spec fn spec_chacha20_block(key: Seq<u8>, counter: u32, nonce: Seq<u8>) -> Seq<u8>
    recommends
        key.len() == 32,
        nonce.len() == 12,
{
    let s0 = spec_init_state(key, counter, nonce);
    let s = spec_rounds(s0, 10);
    Seq::new(64, |i: int| word_byte(s[i / 4].wrapping_add(s0[i / 4]), i % 4))
}

/// HChaCha20 initial state: constant, key, then 16 nonce bytes where the
/// counter and nonce of the standard variant would sit.
pub open spec fn spec_hchacha20_init(key: Seq<u8>, n16: Seq<u8>) -> Seq<u32>
    recommends
        key.len() == 32,
        n16.len() == 16,
{
    seq![
        0x61707865u32,
        0x3320646eu32,
        0x79622d32u32,
        0x6b206574u32,
        spec_le32(key, 0),
        spec_le32(key, 1),
        spec_le32(key, 2),
        spec_le32(key, 3),
        spec_le32(key, 4),
        spec_le32(key, 5),
        spec_le32(key, 6),
        spec_le32(key, 7),
        spec_le32(n16, 0),
        spec_le32(n16, 1),
        spec_le32(n16, 2),
        spec_le32(n16, 3),
    ]
}

/// HChaCha20 subkey: words 0-3 and 12-15 of the permuted state, without the
/// feed-forward, serialized little-endian into 32 bytes.
pub open spec fn spec_hchacha20(key: Seq<u8>, n16: Seq<u8>) -> Seq<u8>
    recommends
        key.len() == 32,
        n16.len() == 16,
{
    let s = spec_rounds(spec_hchacha20_init(key, n16), 10);
    let sel = seq![s[0], s[1], s[2], s[3], s[12], s[13], s[14], s[15]];
    Seq::new(32, |i: int| word_byte(sel[i / 4], i % 4))
}

fn le32_at(b: &[u8], off: usize) -> (w: u32)
    requires
        off + 4 <= b@.len(),
    ensures
        w as nat == b@[off as int] as nat + 256 * (b@[off as int + 1] as nat) + 65536 * (b@[off
            as int + 2] as nat) + 16777216 * (b@[off as int + 3] as nat),
{
    (b[off] as u32) + 256 * (b[off + 1] as u32) + 65536 * (b[off + 2] as u32) + 16777216 * (b[off
        + 3] as u32)
}

/// Runs the 10 double rounds on a 16-word state.
fn run_rounds(init: &Vec<u32>) -> (out: Vec<u32>)
    requires
        init@.len() == 16,
    ensures
        out@ == spec_rounds(init@, 10),
{
    let mut x0 = init[0];
    let mut x1 = init[1];
    let mut x2 = init[2];
    let mut x3 = init[3];
    let mut x4 = init[4];
    let mut x5 = init[5];
    let mut x6 = init[6];
    let mut x7 = init[7];
    let mut x8 = init[8];
    let mut x9 = init[9];
    let mut x10 = init[10];
    let mut x11 = init[11];
    let mut x12 = init[12];
    let mut x13 = init[13];
    let mut x14 = init[14];
    let mut x15 = init[15];
    proof {
        assert(seq![x0, x1, x2, x3, x4, x5, x6, x7, x8, x9, x10, x11, x12, x13, x14, x15]
            =~= init@);
    }
    let mut r: usize = 0;
    while r < 10
        invariant
            r <= 10,
            seq![x0, x1, x2, x3, x4, x5, x6, x7, x8, x9, x10, x11, x12, x13, x14, x15]
                == spec_rounds(init@, r as nat),
        decreases 10 - r,
    {
        let ghost prev = seq![x0, x1, x2, x3, x4, x5, x6, x7, x8, x9, x10, x11, x12, x13, x14, x15];
        let (a0, b0, c0, d0) = qr(x0, x4, x8, x12);
        x0 = a0;
        x4 = b0;
        x8 = c0;
        x12 = d0;
        let (a1, b1, c1, d1) = qr(x1, x5, x9, x13);
        x1 = a1;
        x5 = b1;
        x9 = c1;
        x13 = d1;
        let (a2, b2, c2, d2) = qr(x2, x6, x10, x14);
        x2 = a2;
        x6 = b2;
        x10 = c2;
        x14 = d2;
        let (a3, b3, c3, d3) = qr(x3, x7, x11, x15);
        x3 = a3;
        x7 = b3;
        x11 = c3;
        x15 = d3;
        proof {
            assert(seq![x0, x1, x2, x3, x4, x5, x6, x7, x8, x9, x10, x11, x12, x13, x14, x15]
                =~= spec_column_round(prev));
        }
        let ghost mid = seq![x0, x1, x2, x3, x4, x5, x6, x7, x8, x9, x10, x11, x12, x13, x14, x15];
        let (a4, b4, c4, d4) = qr(x0, x5, x10, x15);
        x0 = a4;
        x5 = b4;
        x10 = c4;
        x15 = d4;
        let (a5, b5, c5, d5) = qr(x1, x6, x11, x12);
        x1 = a5;
        x6 = b5;
        x11 = c5;
        x12 = d5;
        let (a6, b6, c6, d6) = qr(x2, x7, x8, x13);
        x2 = a6;
        x7 = b6;
        x8 = c6;
        x13 = d6;
        let (a7, b7, c7, d7) = qr(x3, x4, x9, x14);
        x3 = a7;
        x4 = b7;
        x9 = c7;
        x14 = d7;
        proof {
            assert(seq![x0, x1, x2, x3, x4, x5, x6, x7, x8, x9, x10, x11, x12, x13, x14, x15]
                =~= spec_diagonal_round(mid));
        }
        r = r + 1;
    }
    let mut out: Vec<u32> = Vec::new();
    out.push(x0);
    out.push(x1);
    out.push(x2);
    out.push(x3);
    out.push(x4);
    out.push(x5);
    out.push(x6);
    out.push(x7);
    out.push(x8);
    out.push(x9);
    out.push(x10);
    out.push(x11);
    out.push(x12);
    out.push(x13);
    out.push(x14);
    out.push(x15);
    proof {
        assert(out@ =~= spec_rounds(init@, 10));
    }
    out
}

/// Pushes the four little-endian bytes of one word.
fn push_word_le(out: &mut Vec<u8>, w: u32)
    ensures
        final(out)@.len() == old(out)@.len() + 4,
        final(out)@ == old(out)@ + seq![
            word_byte(w, 0),
            word_byte(w, 1),
            word_byte(w, 2),
            word_byte(w, 3),
        ],
{
    proof {
        crate::bytes::lemma_pow256_values_small();
    }
    out.push((w % 256) as u8);
    out.push(((w / 256) % 256) as u8);
    out.push(((w / 65536) % 256) as u8);
    out.push(((w / 16777216) % 256) as u8);
    proof {
        assert(w as nat / 1 == w as nat);
        assert(out@ =~= old(out)@ + seq![
            word_byte(w, 0),
            word_byte(w, 1),
            word_byte(w, 2),
            word_byte(w, 3),
        ]);
    }
}

/// One 64-byte keystream block, computable independently for any counter.
pub fn chacha20_block(key: &[u8], counter: u32, nonce: &[u8]) -> (out: Vec<u8>)
    requires
        key@.len() == 32,
        nonce@.len() == 12,
    ensures
        out@ == spec_chacha20_block(key@, counter, nonce@),
        out@.len() == 64,
{
    let mut init: Vec<u32> = Vec::new();
    init.push(0x61707865);
    init.push(0x3320646e);
    init.push(0x79622d32);
    init.push(0x6b206574);
    init.push(le32_at(key, 0));
    init.push(le32_at(key, 4));
    init.push(le32_at(key, 8));
    init.push(le32_at(key, 12));
    init.push(le32_at(key, 16));
    init.push(le32_at(key, 20));
    init.push(le32_at(key, 24));
    init.push(le32_at(key, 28));
    init.push(counter);
    init.push(le32_at(nonce, 0));
    init.push(le32_at(nonce, 4));
    init.push(le32_at(nonce, 8));
    proof {
        assert(init@ =~= spec_init_state(key@, counter, nonce@));
    }
    let ws = run_rounds(&init);
    let mut out: Vec<u8> = Vec::new();
    let mut j: usize = 0;
    while j < 16
        invariant
            j <= 16,
            init@ == spec_init_state(key@, counter, nonce@),
            ws@ == spec_rounds(init@, 10),
            out@.len() == 4 * j,
            forall|i: int|
                0 <= i < 4 * j ==> out@[i] == word_byte(
                    ws@[i / 4].wrapping_add(init@[i / 4]),
                    i % 4,
                ),
        decreases 16 - j,
    {
        let t = ws[j].wrapping_add(init[j]);
        push_word_le(&mut out, t);
        j = j + 1;
    }
    proof {
        assert(out@ =~= spec_chacha20_block(key@, counter, nonce@));
    }
    out
}

/// HChaCha20: derives the 32-byte subkey of the extended-nonce variant from
/// the key and the first 16 nonce bytes.
#[verifier::rlimit(80)]
pub fn hchacha20(key: &[u8], n16: &[u8]) -> (out: Vec<u8>)
    requires
        key@.len() == 32,
        n16@.len() == 16,
    ensures
        out@ == spec_hchacha20(key@, n16@),
        out@.len() == 32,
{
    let mut init: Vec<u32> = Vec::new();
    init.push(0x61707865);
    init.push(0x3320646e);
    init.push(0x79622d32);
    init.push(0x6b206574);
    init.push(le32_at(key, 0));
    init.push(le32_at(key, 4));
    init.push(le32_at(key, 8));
    init.push(le32_at(key, 12));
    init.push(le32_at(key, 16));
    init.push(le32_at(key, 20));
    init.push(le32_at(key, 24));
    init.push(le32_at(key, 28));
    init.push(le32_at(n16, 0));
    init.push(le32_at(n16, 4));
    init.push(le32_at(n16, 8));
    init.push(le32_at(n16, 12));
    proof {
        assert(init@ =~= spec_hchacha20_init(key@, n16@));
    }
    let ws = run_rounds(&init);
    let mut out: Vec<u8> = Vec::new();
    push_word_le(&mut out, ws[0]);
    push_word_le(&mut out, ws[1]);
    push_word_le(&mut out, ws[2]);
    push_word_le(&mut out, ws[3]);
    push_word_le(&mut out, ws[12]);
    push_word_le(&mut out, ws[13]);
    push_word_le(&mut out, ws[14]);
    push_word_le(&mut out, ws[15]);
    proof {
        assert(out@ =~= spec_hchacha20(key@, n16@));
    }
    out
}

/// Keystream XOR from block counter 1: encrypts and decrypts alike, since
/// the transform is its own inverse.
pub open spec fn spec_xor_stream(key: Seq<u8>, nonce: Seq<u8>, data: Seq<u8>) -> Seq<u8>
    recommends
        key.len() == 32,
        nonce.len() == 12,
{
    Seq::new(
        data.len(),
        |i: int| data[i] ^ spec_chacha20_block(key, (1 + i / 64) as u32, nonce)[i % 64],
    )
}

pub fn xor_stream(key: &[u8], nonce: &[u8], data: &[u8]) -> (out: Vec<u8>)
    requires
        key@.len() == 32,
        nonce@.len() == 12,
        data@.len() < MAX_MESSAGE_LEN,
    ensures
        out@ == spec_xor_stream(key@, nonce@, data@),
        out@.len() == data@.len(),
{
    let mut out: Vec<u8> = Vec::new();
    let mut block: Vec<u8> = Vec::new();
    let mut i: usize = 0;
    while i < data.len()
        invariant
            i <= data@.len() < MAX_MESSAGE_LEN,
            key@.len() == 32,
            nonce@.len() == 12,
            out@.len() == i,
            i % 64 != 0 ==> block@ == spec_chacha20_block(
                key@,
                (1 + i as int / 64) as u32,
                nonce@,
            ),
            forall|k: int|
                0 <= k < i ==> out@[k] == data@[k] ^ spec_chacha20_block(
                    key@,
                    (1 + k / 64) as u32,
                    nonce@,
                )[k % 64],
        decreases data@.len() - i,
    {
        if i % 64 == 0 {
            let ctr = (1 + (i as u64) / 64) as u32;
            proof {
                assert(ctr == (1 + i as int / 64) as u32);
            }
            block = chacha20_block(key, ctr, nonce);
        }
        out.push(data[i] ^ block[i % 64]);
        i = i + 1;
    }
    proof {
        assert(out@ =~= spec_xor_stream(key@, nonce@, data@));
    }
    crate::bytes::wipe(&mut block);
    out
}

} // verus!
