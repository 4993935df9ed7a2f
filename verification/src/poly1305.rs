//! The Poly1305 one-time authenticator: a universal hash over 2^130 - 5
//! evaluated with three 44-bit limbs, finished by adding the second half of
//! the one-time key modulo 2^128.

use vstd::prelude::*;

use crate::bytes::{
    le_byte_of, le_bytes_to_u128, le_nat, lemma_le_nat_snoc, lemma_pow256_values, pow256,
    u128_to_le_bytes, wipe,
};
use vstd::arithmetic::div_mod::{
    lemma_add_mod_noop, lemma_fundamental_div_mod, lemma_mod_bound, lemma_mod_multiples_vanish,
    lemma_mul_mod_noop_left, lemma_small_mod,
};

verus! {

/// The Poly1305 prime 2^130 - 5.
pub open spec fn p1305() -> nat {
    0x3fffffffffffffffffffffffffffffffbnat
}

/// The clamp applied to the first half of the one-time key: the top four
/// bits of bytes 3, 7, 11, 15 and the bottom two bits of bytes 4, 8, 12
/// are cleared.
pub open spec fn clamp_mask_byte(i: int) -> u8 {
    if i % 4 == 3 {
        15
    } else if i >= 4 && i % 4 == 0 {
        252
    } else {
        255
    }
}

/// The evaluation point r: the clamped low 16 bytes of the one-time key.
pub open spec fn spec_poly_r(otk: Seq<u8>) -> nat
    recommends
        otk.len() == 32,
{
    le_nat(Seq::new(16, |i: int| otk[i] & clamp_mask_byte(i)))
}

/// The finalization addend s: the high 16 bytes of the one-time key.
pub open spec fn spec_poly_s(otk: Seq<u8>) -> nat
    recommends
        otk.len() == 32,
{
    le_nat(otk.subrange(16, 32))
}

/// Horner evaluation over 16-byte chunks: each chunk, extended with one
/// 0x01 byte, is added to the accumulator which is then multiplied by r,
/// all modulo 2^130 - 5.
pub open spec fn spec_poly_loop(msg: Seq<u8>, r: nat, acc: nat) -> nat
    decreases msg.len(),
{
    if msg.len() == 0 {
        acc
    } else {
        let n: int = if msg.len() >= 16 {
            16
        } else {
            msg.len() as int
        };
        let c = le_nat(msg.take(n)) + pow256(n as nat);
        spec_poly_loop(msg.skip(n), r, ((acc + c) * r) % p1305())
    }
}

/// The tag as a number: hash plus s, reduced to 128 bits.
pub open spec fn spec_poly1305_nat(otk: Seq<u8>, msg: Seq<u8>) -> nat
    recommends
        otk.len() == 32,
{
    (spec_poly_loop(msg, spec_poly_r(otk), 0) + spec_poly_s(otk)) % pow256(16)
}

/// The 16-byte tag, little-endian.
pub open spec fn spec_poly1305(otk: Seq<u8>, msg: Seq<u8>) -> Seq<u8>
    recommends
        otk.len() == 32,
{
    Seq::new(16, |i: int| le_byte_of(spec_poly1305_nat(otk, msg), i as nat))
}

/// The number held by three limbs of weight 1, 2^44 and 2^88.
pub open spec fn val3(h0: u64, h1: u64, h2: u64) -> int {
    h0 + h1 * 0x100000000000 + h2 * 0x10000000000000000000000
}

proof fn lemma_poly_loop_bound(msg: Seq<u8>, r: nat, acc: nat)
    requires
        acc < p1305(),
    ensures
        spec_poly_loop(msg, r, acc) < p1305(),
    decreases msg.len(),
{
    if msg.len() == 0 {
    } else {
        let n: int = if msg.len() >= 16 {
            16
        } else {
            msg.len() as int
        };
        let c = le_nat(msg.take(n)) + pow256(n as nat);
        lemma_mod_bound(((acc + c) * r) as int, p1305() as int);
        lemma_poly_loop_bound(msg.skip(n), r, (((acc + c) * r) % p1305()) as nat);
    }
}

proof fn lemma_mul_lt(a: int, b: int, x: int, y: int)
    requires
        0 <= a < x,
        0 <= b < y,
    ensures
        a * b < x * y,
{
    assert(a * b < x * y) by (nonlinear_arith)
        requires
            0 <= a < x,
            0 <= b < y,
    ;
}

/// The schoolbook product of two 3-limb numbers, with the columns of weight
/// 2^132 and 2^176 already folded down by 2^132 == 4 * (2^130 - 5) + 20.
#[verifier::rlimit(100)]
#[verifier::spinoff_prover]
proof fn lemma_poly_mul_identity(g0: int, g1: int, g2: int, r0: int, r1: int, r2: int)
    ensures
        (g0 + g1 * 0x100000000000 + g2 * 0x10000000000000000000000) * (r0 + r1 * 0x100000000000
            + r2 * 0x10000000000000000000000) == (g0 * r0 + 20 * (g1 * r2) + 20 * (g2 * r1)) + (g0
            * r1 + g1 * r0 + 20 * (g2 * r2)) * 0x100000000000 + (g0 * r2 + g1 * r1 + g2 * r0)
            * 0x10000000000000000000000 + 0x3fffffffffffffffffffffffffffffffbnat * (4 * (g1 * r2) + 4
            * (g2 * r1) + (4 * (g2 * r2)) * 0x100000000000),
{
    assert((g0 + g1 * 0x100000000000 + g2 * 0x10000000000000000000000) * (r0 + r1 * 0x100000000000
        + r2 * 0x10000000000000000000000) == (g0 * r0 + 20 * (g1 * r2) + 20 * (g2 * r1)) + (g0 * r1
        + g1 * r0 + 20 * (g2 * r2)) * 0x100000000000 + (g0 * r2 + g1 * r1 + g2 * r0)
        * 0x10000000000000000000000 + 0x3fffffffffffffffffffffffffffffffbnat * (4 * (g1 * r2) + 4 * (
    g2 * r1) + (4 * (g2 * r2)) * 0x100000000000)) by (nonlinear_arith);
}

/// One limb product, exact in 128 bits.
fn mul64(a: u64, b: u64) -> (r: u128)
    requires
        a < 0x400000000000,
        b < 0x100000000000,
    ensures
        r == (a as int) * (b as int),
        r < 0x40000000000000000000000,
{
    proof {
        lemma_mul_lt(a as int, b as int, 0x400000000000, 0x100000000000);
    }
    (a as u128) * (b as u128)
}

/// Splits a 128-bit value into limbs of weight 1, 2^44, 2^88.
fn split_limbs(x: u128) -> (l: (u64, u64, u64))
    ensures
        l.0 < 0x100000000000,
        l.1 < 0x100000000000,
        l.2 < 0x10000000000,
        val3(l.0, l.1, l.2) == x as int,
{
    let l0: u64 = (x % 0x100000000000) as u64;
    let l1: u64 = ((x / 0x100000000000) % 0x100000000000) as u64;
    let l2: u64 = (x / 0x10000000000000000000000) as u64;
    proof {
        lemma_fundamental_div_mod(x as int, 0x100000000000);
        lemma_fundamental_div_mod(x as int / 0x100000000000, 0x100000000000);
        vstd::arithmetic::div_mod::lemma_div_denominator(x as int, 0x100000000000, 0x100000000000);
        lemma_fundamental_div_mod(x as int, 0x10000000000000000000000);
    }
    (l0, l1, l2)
}

/// Multiplies the accumulator by r and carries back down to short limbs;
/// the result is congruent to the product modulo 2^130 - 5.
fn poly_mul_reduce(g0: u64, g1: u64, g2: u64, r0: u64, r1: u64, r2: u64) -> (h: (u64, u64, u64))
    requires
        g0 < 0x400000000000,
        g1 < 0x400000000000,
        g2 < 0x400000000000,
        r0 < 0x100000000000,
        r1 < 0x100000000000,
        r2 < 0x100000000000,
    ensures
        h.0 < 0x100000000000,
        h.1 < 0x200000000000,
        h.2 < 0x100000000000,
        val3(h.0, h.1, h.2) % (p1305() as int) == (val3(g0, g1, g2) * val3(r0, r1, r2)) % (
        p1305() as int),
{
    let d0: u128 = mul64(g0, r0) + 20 * mul64(g1, r2) + 20 * mul64(g2, r1);
    let d1: u128 = mul64(g0, r1) + mul64(g1, r0) + 20 * mul64(g2, r2);
    let d2: u128 = mul64(g0, r2) + mul64(g1, r1) + mul64(g2, r0);
    let e0: u128 = d0 % 0x100000000000;
    let t1: u128 = d1 + d0 / 0x100000000000;
    let e1: u128 = t1 % 0x100000000000;
    let t2: u128 = d2 + t1 / 0x100000000000;
    let e2: u128 = t2 % 0x100000000000;
    let carry2: u128 = t2 / 0x100000000000;
    let f0: u128 = e0 + 20 * carry2;
    let h0: u64 = (f0 % 0x100000000000) as u64;
    let h1: u64 = (e1 + f0 / 0x100000000000) as u64;
    let h2: u64 = e2 as u64;
    proof {
        lemma_poly_mul_identity(g0 as int, g1 as int, g2 as int, r0 as int, r1 as int, r2 as int);
        lemma_fundamental_div_mod(d0 as int, 0x100000000000);
        lemma_fundamental_div_mod(t1 as int, 0x100000000000);
        lemma_fundamental_div_mod(t2 as int, 0x100000000000);
        lemma_fundamental_div_mod(f0 as int, 0x100000000000);
        let fold: int = 4 * ((g1 as int) * (r2 as int)) + 4 * ((g2 as int) * (r1 as int)) + (4 * ((
        g2 as int) * (r2 as int))) * 0x100000000000;
        assert(val3(g0, g1, g2) * val3(r0, r1, r2) == val3(h0, h1, h2) + (p1305() as int) * (fold
            + 4 * (carry2 as int)));
        lemma_mod_multiples_vanish(fold + 4 * (carry2 as int), val3(h0, h1, h2), p1305() as int);
    }
    (h0, h1, h2)
}

/// Carries the accumulator into its canonical form: the unique value below
/// 2^130 - 5 congruent to it.
fn poly_finalize(h0: u64, h1: u64, h2: u64) -> (l: (u64, u64, u64))
    requires
        h0 < 0x200000000000,
        h1 < 0x200000000000,
        h2 < 0x200000000000,
    ensures
        l.0 < 0x100000000000,
        l.1 < 0x100000000000,
        l.2 < 0x40000000000,
        0 <= val3(l.0, l.1, l.2) < p1305(),
        val3(l.0, l.1, l.2) % (p1305() as int) == val3(h0, h1, h2) % (p1305() as int),
{
    let ghost start: int = val3(h0, h1, h2);
    let ca: u64 = h2 / 0x40000000000;
    let h2a: u64 = h2 % 0x40000000000;
    let h0a: u64 = h0 + 5 * ca;
    let c0: u64 = h0a / 0x100000000000;
    let h0b: u64 = h0a % 0x100000000000;
    let h1a: u64 = h1 + c0;
    let c1: u64 = h1a / 0x100000000000;
    let h1b: u64 = h1a % 0x100000000000;
    let h2b: u64 = h2a + c1;
    let c2: u64 = h2b / 0x40000000000;
    let h2c: u64 = h2b % 0x40000000000;
    let h0c: u64 = h0b + 5 * c2;
    let c0b: u64 = h0c / 0x100000000000;
    let h0d: u64 = h0c % 0x100000000000;
    let h1c: u64 = h1b + c0b;
    let c1b: u64 = h1c / 0x100000000000;
    let h1d: u64 = h1c % 0x100000000000;
    let h2d: u64 = h2c + c1b;
    proof {
        lemma_fundamental_div_mod(h2 as int, 0x40000000000);
        lemma_fundamental_div_mod(h0a as int, 0x100000000000);
        lemma_fundamental_div_mod(h1a as int, 0x100000000000);
        lemma_fundamental_div_mod(h2b as int, 0x40000000000);
        lemma_fundamental_div_mod(h0c as int, 0x100000000000);
        lemma_fundamental_div_mod(h1c as int, 0x100000000000);
        assert(val3(h0d, h1d, h2d) == start - (p1305() as int) * (ca as int + c2 as int));
    }
    let g0: u64 = h0d + 5;
    let gc0: u64 = g0 / 0x100000000000;
    let g0m: u64 = g0 % 0x100000000000;
    let g1: u64 = h1d + gc0;
    let gc1: u64 = g1 / 0x100000000000;
    let g1m: u64 = g1 % 0x100000000000;
    let g2: u64 = h2d + gc1;
    proof {
        lemma_fundamental_div_mod(g0 as int, 0x100000000000);
        lemma_fundamental_div_mod(g1 as int, 0x100000000000);
        assert(val3(g0m, g1m, g2) == val3(h0d, h1d, h2d) + 5);
    }
    if g2 >= 0x40000000000 {
        let g2m: u64 = g2 % 0x40000000000;
        proof {
            lemma_fundamental_div_mod(g2 as int, 0x40000000000);
            assert(g2 / 0x40000000000 == 1);
            assert(val3(g0m, g1m, g2m) == val3(h0d, h1d, h2d) - (p1305() as int));
            assert(val3(g0m, g1m, g2m) == start - (p1305() as int) * (ca as int + c2 as int + 1));
            lemma_mod_multiples_vanish(
                ca as int + c2 as int + 1,
                val3(g0m, g1m, g2m),
                p1305() as int,
            );
        }
        (g0m, g1m, g2m)
    } else {
        proof {
            lemma_mod_multiples_vanish(ca as int + c2 as int, val3(h0d, h1d, h2d), p1305() as int);
        }
        (h0d, h1d, h2d)
    }
}

/// Congruent accumulators stay congruent through one Horner step.
proof fn lemma_step_mod(a: int, c: int, r: int, p: int)
    requires
        p > 0,
        0 <= a,
        0 <= c,
        0 <= r,
    ensures
        ((a + c) * r) % p == (((a % p) + c) * r) % p,
{
    lemma_mod_bound(a, p);
    lemma_small_mod((a % p) as nat, p as nat);
    lemma_add_mod_noop(a, c, p);
    lemma_add_mod_noop(a % p, c, p);
    lemma_mul_mod_noop_left(a + c, r, p);
    lemma_mul_mod_noop_left((a % p) + c, r, p);
}

/// The Poly1305 tag of a message under a 32-byte one-time key. The key must
/// never authenticate a second message.
pub fn poly1305_mac(otk: &[u8], msg: &[u8]) -> (tag: Vec<u8>)
    requires
        otk@.len() == 32,
    ensures
        tag@.len() == 16,
        tag@ == spec_poly1305(otk@, msg@),
{
    proof {
        lemma_pow256_values();
    }
    let mut rb: Vec<u8> = Vec::new();
    let mut i: usize = 0;
    while i < 16
        invariant
            i <= 16,
            otk@.len() == 32,
            rb@.len() == i,
            forall|k: int| 0 <= k < i ==> rb@[k] == (otk@[k] & clamp_mask_byte(k)),
        decreases 16 - i,
    {
        let m: u8 = if i % 4 == 3 {
            15
        } else if i >= 4 && i % 4 == 0 {
            252
        } else {
            255
        };
        rb.push(otk[i] & m);
        i = i + 1;
    }
    proof {
        assert(rb@ =~= Seq::new(16, |k: int| otk@[k] & clamp_mask_byte(k)));
    }
    let rc: u128 = le_bytes_to_u128(rb.as_slice());
    let (r0, r1, r2) = split_limbs(rc);
    let mut sb: Vec<u8> = Vec::new();
    let mut j: usize = 0;
    while j < 16
        invariant
            j <= 16,
            otk@.len() == 32,
            sb@.len() == j,
            forall|k: int| 0 <= k < j ==> sb@[k] == otk@[16 + k],
        decreases 16 - j,
    {
        sb.push(otk[16 + j]);
        j = j + 1;
    }
    proof {
        assert(sb@ =~= otk@.subrange(16, 32));
    }
    let s: u128 = le_bytes_to_u128(sb.as_slice());
    let ghost rr: nat = spec_poly_r(otk@);
    let mut h0: u64 = 0;
    let mut h1: u64 = 0;
    let mut h2: u64 = 0;
    let mut pos: usize = 0;
    proof {
        assert(msg@.skip(0) =~= msg@);
        lemma_small_mod(0, p1305());
    }
    while pos < msg.len()
        invariant
            pos <= msg@.len(),
            otk@.len() == 32,
            rc as nat == rr == spec_poly_r(otk@),
            val3(r0, r1, r2) == rc as int,
            r0 < 0x100000000000,
            r1 < 0x100000000000,
            r2 < 0x10000000000,
            h0 < 0x100000000000,
            h1 < 0x200000000000,
            h2 < 0x100000000000,
            spec_poly_loop(msg@, rr, 0) == spec_poly_loop(
                msg@.skip(pos as int),
                rr,
                (val3(h0, h1, h2) % (p1305() as int)) as nat,
            ),
        decreases msg@.len() - pos,
    {
        let rem: usize = msg.len() - pos;
        let n: usize = if rem >= 16 {
            16
        } else {
            rem
        };
        let mut chunk: Vec<u8> = Vec::new();
        let mut k: usize = 0;
        while k < n
            invariant
                k <= n,
                pos + n <= msg@.len(),
                msg@.len() <= usize::MAX,
                chunk@.len() == k,
                forall|q: int| 0 <= q < k ==> chunk@[q] == msg@[pos + q],
            decreases n - k,
        {
            chunk.push(msg[pos + k]);
            k = k + 1;
        }
        proof {
            assert(chunk@ =~= msg@.subrange(pos as int, pos as int + n as int));
        }
        let ghost cval: nat = le_nat(msg@.subrange(pos as int, pos as int + n as int)) + pow256(
            n as nat,
        );
        if n < 16 {
            proof {
                lemma_le_nat_snoc(chunk@, 1);
            }
            chunk.push(1);
        }
        let cv: u128 = le_bytes_to_u128(chunk.as_slice());
        let (c0, c1, c2raw) = split_limbs(cv);
        let c2: u64 = if n == 16 {
            c2raw + 0x10000000000
        } else {
            c2raw
        };
        proof {
            lemma_pow256_values();
            assert(val3(c0, c1, c2) == cval);
        }
        let ghost aold: int = val3(h0, h1, h2);
        let (nh0, nh1, nh2) = poly_mul_reduce(h0 + c0, h1 + c1, h2 + c2, r0, r1, r2);
        proof {
            assert(val3((h0 + c0) as u64, (h1 + c1) as u64, (h2 + c2) as u64) == aold + cval);
            lemma_step_mod(aold, cval as int, rc as int, p1305() as int);
            assert(msg@.skip(pos as int).take(n as int) =~= msg@.subrange(
                pos as int,
                pos as int + n as int,
            ));
            assert(msg@.skip(pos as int).skip(n as int) =~= msg@.skip(pos as int + n as int));
        }
        h0 = nh0;
        h1 = nh1;
        h2 = nh2;
        pos = pos + n;
    }
    let (f0, f1, f2) = poly_finalize(h0, h1, h2);
    proof {
        assert(msg@.skip(msg@.len() as int) =~= Seq::<u8>::empty());
        lemma_poly_loop_bound(msg@, rr, 0);
        lemma_small_mod(val3(f0, f1, f2) as nat, p1305());
    }
    let lo: u128 = (f0 as u128) + (f1 as u128) * 0x100000000000 + ((f2 % 0x10000000000) as u128)
        * 0x10000000000000000000000;
    let t: u128 = lo.wrapping_add(s);
    proof {
        lemma_fundamental_div_mod(f2 as int, 0x10000000000);
        assert(val3(f0, f1, f2) + s == lo + s + (f2 as int / 0x10000000000)
            * 0x100000000000000000000000000000000int);
        lemma_mod_multiples_vanish(
            f2 as int / 0x10000000000,
            lo as int + s as int,
            0x100000000000000000000000000000000int,
        );
        lemma_pow256_values();
        if lo + s > u128::MAX {
            lemma_mod_multiples_vanish(
                1,
                lo as int + s as int - 0x100000000000000000000000000000000int,
                0x100000000000000000000000000000000int,
            );
            lemma_small_mod(
                (lo as int + s as int - 0x100000000000000000000000000000000int) as nat,
                pow256(16),
            );
        } else {
            lemma_small_mod((lo + s) as nat, pow256(16));
        }
        assert(t as nat == spec_poly1305_nat(otk@, msg@));
    }
    let tag = u128_to_le_bytes(t);
    proof {
        assert(tag@ =~= spec_poly1305(otk@, msg@));
    }
    wipe(&mut rb);
    wipe(&mut sb);
    tag
}

} // verus!
