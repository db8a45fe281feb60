//! Unsigned integers as big-endian byte strings.

use vstd::prelude::*;

verus! {

/// 256 to the power `n`.
pub open spec fn pow256(n: nat) -> nat
    decreases n,
{
    if n == 0 {
        1
    } else {
        256 * pow256((n - 1) as nat)
    }
}

/// The number that a big-endian byte string stands for.
pub open spec fn be_value(s: Seq<u8>) -> nat
    decreases s.len(),
{
    if s.len() == 0 {
        0
    } else {
        be_value(s.drop_last()) * 256 + s.last() as nat
    }
}

proof fn lemma_pow256_positive(n: nat)
    ensures
        pow256(n) >= 1,
    decreases n,
{
    if n > 0 {
        lemma_pow256_positive((n - 1) as nat);
    }
}

pub proof fn lemma_pow256_16()
    ensures
        pow256(16) == 0x1_0000_0000_0000_0000_0000_0000_0000_0000,
        pow256(15) == 0x1_0000_0000_0000_0000_0000_0000_0000_00,
        pow256(8) == 0x1_0000_0000_0000_0000,
{
    reveal_with_fuel(pow256, 17);
}

proof fn lemma_pow256_monotone(a: nat, b: nat)
    requires
        a <= b,
    ensures
        pow256(a) <= pow256(b),
    decreases b,
{
    if a < b {
        lemma_pow256_monotone(a, (b - 1) as nat);
        lemma_pow256_positive((b - 1) as nat);
    }
}

proof fn lemma_be_value_bound(s: Seq<u8>)
    ensures
        be_value(s) < pow256(s.len()),
    decreases s.len(),
{
    if s.len() > 0 {
        lemma_be_value_bound(s.drop_last());
        let p = pow256((s.len() - 1) as nat);
        let v = be_value(s.drop_last());
        assert(v * 256 + (s.last() as nat) < p * 256) by (nonlinear_arith)
            requires
                v < p,
                s.last() < 256,
        ;
    }
}

/// Reads a big-endian number of at most 16 bytes.
pub fn from_be_bytes(s: &[u8]) -> (v: u128)
    requires
        s@.len() <= 16,
    ensures
        v == be_value(s@),
{
    let mut acc: u128 = 0;
    let mut i: usize = 0;
    while i < s.len()
        invariant
            i <= s@.len(),
            s@.len() <= 16,
            acc == be_value(s@.take(i as int)),
        decreases s@.len() - i,
    {
        proof {
            lemma_be_value_bound(s@.take(i as int));
            lemma_pow256_monotone(i as nat, 15);
            lemma_pow256_16();
            assert(s@.take(i + 1).drop_last() =~= s@.take(i as int));
            assert(acc * 256 + s@[i as int] < 0x1_0000_0000_0000_0000_0000_0000_0000_0000) by (nonlinear_arith)
                requires
                    acc < 0x1_0000_0000_0000_0000_0000_0000_0000_00,
                    s@[i as int] < 256,
            ;
        }
        acc = acc * 256 + s[i] as u128;
        i = i + 1;
    }
    proof {
        assert(s@.take(i as int) =~= s@);
    }
    acc
}

proof fn lemma_div_step(v: nat, p: nat)
    requires
        p >= 1,
    ensures
        (v / (256 * p)) * 256 + (v / p) % 256 == v / p,
{
    vstd::arithmetic::div_mod::lemma_div_denominator(v as int, p as int, 256);
    assert(v / (p * 256) == (v / p) / 256);
    assert(256 * p == p * 256);
    vstd::arithmetic::div_mod::lemma_fundamental_div_mod((v / p) as int, 256);
}

/// Writes `v` as `n` big-endian bytes.
pub fn to_be_bytes(v: u128, n: usize) -> (bytes: Vec<u8>)
    requires
        1 <= n <= 16,
        v < pow256(n as nat),
    ensures
        bytes@.len() == n,
        be_value(bytes@) == v,
{
    proof {
        lemma_pow256_16();
        lemma_pow256_monotone((n - 1) as nat, 15);
    }
    let mut d: u128 = 1;
    let mut k: usize = 1;
    while k < n
        invariant
            1 <= k <= n <= 16,
            d == pow256((k - 1) as nat),
            pow256((n - 1) as nat) <= 0x1_0000_0000_0000_0000_0000_0000_0000_00,
        decreases n - k,
    {
        proof {
            lemma_pow256_monotone(k as nat, (n - 1) as nat);
        }
        d = d * 256;
        k = k + 1;
    }
    let mut bytes: Vec<u8> = Vec::new();
    let mut i: usize = 0;
    proof {
        lemma_pow256_positive(n as nat);
        let p = pow256(n as nat);
        assert(v as nat / p == 0) by (nonlinear_arith)
            requires
                v < p,
                p >= 1,
        ;
        assert(be_value(bytes@) == 0);
    }
    while i < n
        invariant
            i <= n <= 16,
            bytes@.len() == i,
            i < n ==> d == pow256((n - 1 - i) as nat),
            be_value(bytes@) == v as nat / pow256((n - i) as nat),
            v < pow256(n as nat),
        decreases n - i,
    {
        proof {
            lemma_pow256_positive((n - 1 - i) as nat);
            lemma_div_step(v as nat, d as nat);
            assert(pow256((n - i) as nat) == 256 * pow256((n - 1 - i) as nat));
            assert(bytes@.push(((v / d) % 256) as u8).drop_last() =~= bytes@);
        }
        bytes.push(((v / d) % 256) as u8);
        if d >= 256 {
            proof {
                assert(pow256((n - 1 - i) as nat) == 256 * pow256((n - 1 - i - 1) as nat));
            }
            d = d / 256;
        }
        i = i + 1;
    }
    proof {
        assert(pow256(0) == 1);
        assert(v as nat / 1 == v);
    }
    bytes
}

} // verus!
