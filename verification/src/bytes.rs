//! Little-endian byte/number conversions and the constant-time comparison
//! that the AEAD construction is built on.

use vstd::prelude::*;

verus! {

/// The value of a byte sequence read little-endian.
pub open spec fn le_nat(s: Seq<u8>) -> nat
    decreases s.len(),
{
    if s.len() == 0 {
        0
    } else {
        s[0] as nat + 256 * le_nat(s.skip(1))
    }
}

/// 256 to the power n: the weight of the n-th byte of a little-endian value.
pub open spec fn pow256(n: nat) -> nat
    decreases n,
{
    if n == 0 {
        1
    } else {
        256 * pow256((n - 1) as nat)
    }
}

pub proof fn lemma_pow256_le(a: nat, b: nat)
    requires
        a <= b,
    ensures
        pow256(a) <= pow256(b),
        pow256(a) > 0,
    decreases b,
{
    if b == 0 {
    } else if a == b {
        lemma_pow256_le(0, (b - 1) as nat);
    } else {
        lemma_pow256_le(a, (b - 1) as nat);
    }
}

/// Appending one byte adds it at the highest weight.
pub proof fn lemma_le_nat_snoc(s: Seq<u8>, b: u8)
    ensures
        le_nat(s.push(b)) == le_nat(s) + (b as nat) * pow256(s.len()),
    decreases s.len(),
{
    if s.len() == 0 {
        assert(s.push(b).skip(1) =~= Seq::<u8>::empty());
        assert(s.push(b)[0] == b);
        assert(le_nat(s.push(b)) == b as nat + 256 * le_nat(Seq::<u8>::empty()));
    } else {
        assert(s.push(b).skip(1) =~= s.skip(1).push(b));
        assert(s.push(b)[0] == s[0]);
        lemma_le_nat_snoc(s.skip(1), b);
        let x = le_nat(s.skip(1));
        let p = pow256((s.len() - 1) as nat);
        assert(le_nat(s.push(b)) == s[0] as nat + 256 * le_nat(s.skip(1).push(b)));
        assert(le_nat(s.skip(1).push(b)) == x + (b as nat) * p);
        assert(pow256(s.len()) == 256 * p);
        assert(256 * (x + (b as nat) * p) == 256 * x + (b as nat) * (256 * p))
            by (nonlinear_arith);
        assert(le_nat(s) == s[0] as nat + 256 * x);
    }
}

/// Exact powers of 256 that the limb arithmetic keeps referring to.
pub proof fn lemma_pow256_values()
    ensures
        pow256(16) == 0x100000000000000000000000000000000,
        pow256(8) == 0x10000000000000000,
        pow256(4) == 0x100000000,
{
    reveal_with_fuel(pow256, 17);
}

/// The byte weights inside one 32-bit word.
pub proof fn lemma_pow256_values_small()
    ensures
        pow256(0) == 1,
        pow256(1) == 256,
        pow256(2) == 65536,
        pow256(3) == 16777216,
{
    reveal_with_fuel(pow256, 5);
}

/// Little-endian value of at most 16 bytes, as a machine word.
pub fn le_bytes_to_u128(s: &[u8]) -> (r: u128)
    requires
        s@.len() <= 16,
    ensures
        r as nat == le_nat(s@),
{
    proof {
        lemma_pow256_values();
    }
    let n = s.len();
    let mut r: u128 = 0;
    let mut j = n;
    while j > 0
        invariant
            j <= n == s@.len() <= 16,
            r as nat == le_nat(s@.skip(j as int)),
            r < pow256((n - j) as nat),
        decreases j,
    {
        proof {
            assert(s@.skip(j as int - 1)[0] == s@[j as int - 1]);
            assert(s@.skip(j as int - 1).skip(1) =~= s@.skip(j as int));
            lemma_pow256_le((n - j + 1) as nat, 16);
            lemma_pow256_values();
            let x = le_nat(s@.skip(j as int));
            let p = pow256((n - j) as nat);
            assert(x < p ==> 256 * x + 255 < 256 * p) by (nonlinear_arith);
        }
        j = j - 1;
        r = r * 256 + (s[j] as u128);
    }
    assert(s@.skip(0) =~= s@);
    r
}

/// The i-th little-endian byte of a value: base-256 digit i.
pub open spec fn le_byte_of(t: nat, i: nat) -> u8 {
    ((t / pow256(i)) % 256) as u8
}

/// A 128-bit value written as its 16 little-endian bytes.
pub fn u128_to_le_bytes(t: u128) -> (r: Vec<u8>)
    ensures
        r@.len() == 16,
        le_nat(r@) == t as nat,
        forall|i: int| 0 <= i < 16 ==> r@[i] == le_byte_of(t as nat, i as nat),
{
    let mut out: Vec<u8> = Vec::new();
    let mut cur = t;
    let mut i: usize = 0;
    proof {
        assert(le_nat(out@) == 0);
        assert(pow256(0) == 1);
    }
    while i < 16
        invariant
            i <= 16,
            out@.len() == i,
            le_nat(out@) + (cur as nat) * pow256(i as nat) == t as nat,
            cur as nat == t as nat / pow256(i as nat),
            forall|k: int| 0 <= k < i ==> out@[k] == le_byte_of(t as nat, k as nat),
        decreases 16 - i,
    {
        let b = (cur % 256) as u8;
        proof {
            lemma_le_nat_snoc(out@, b);
            let p = pow256(i as nat);
            lemma_pow256_le(0, i as nat);
            assert(pow256((i + 1) as nat) == 256 * p);
            vstd::arithmetic::div_mod::lemma_fundamental_div_mod(cur as int, 256);
            assert((b as nat + 256 * (cur as nat / 256)) * p == (b as nat) * p + (cur as nat / 256)
                * (256 * p)) by (nonlinear_arith);
            vstd::arithmetic::div_mod::lemma_div_denominator(t as int, p as int, 256);
            assert(p * 256 == 256 * p);
        }
        out.push(b);
        cur = cur / 256;
        i = i + 1;
    }
    proof {
        lemma_pow256_values();
        if cur > 0 {
            assert(cur as nat * pow256(16) >= pow256(16)) by (nonlinear_arith)
                requires
                    cur >= 1,
            ;
        }
    }
    out
}

pub proof fn lemma_xor_involution(a: u8, b: u8)
    ensures
        (a ^ b) ^ b == a,
{
    assert((a ^ b) ^ b == a) by (bit_vector);
}

proof fn lemma_diff_step(d: u8, x: u8, y: u8)
    ensures
        (d | (x ^ y)) == 0 <==> d == 0 && x == y,
{
    assert((d | (x ^ y)) == 0 <==> d == 0 && x == y) by (bit_vector);
}

/// Constant-time equality of two equal-length byte strings: every byte is
/// visited whatever the contents, and only the accumulated difference is
/// inspected at the end.
pub fn ct_eq(a: &[u8], b: &[u8]) -> (r: bool)
    requires
        a@.len() == b@.len(),
    ensures
        r <==> a@ == b@,
{
    let mut diff: u8 = 0;
    let mut i: usize = 0;
    while i < a.len()
        invariant
            i <= a@.len() == b@.len(),
            diff == 0 <==> (forall|k: int| 0 <= k < i ==> a@[k] == b@[k]),
        decreases a@.len() - i,
    {
        proof {
            lemma_diff_step(diff, a@[i as int], b@[i as int]);
        }
        diff = diff | (a[i] ^ b[i]);
        i = i + 1;
    }
    proof {
        if forall|k: int| 0 <= k < a@.len() ==> a@[k] == b@[k] {
            assert(a@ =~= b@);
        }
    }
    diff == 0
}

/// Overwrites a secret buffer before it is dropped, so no intermediate key
/// material outlives the call that created it.
pub fn wipe(v: &mut Vec<u8>)
    ensures
        final(v)@.len() == old(v)@.len(),
        forall|i: int| 0 <= i < final(v)@.len() ==> final(v)@[i] == 0u8,
{
    let n = v.len();
    let mut i: usize = 0;
    while i < n
        invariant
            i <= n == v@.len(),
            forall|k: int| 0 <= k < i ==> v@[k] == 0u8,
        decreases n - i,
    {
        vstd::pervasive::VecAdditionalExecFns::set(v, i, 0u8);
        i = i + 1;
    }
}

} // verus!
