//! Big-endian words and the 16-bit sums that network checksums are built on.

use vstd::prelude::*;

verus! {

/// The value of two bytes read as a big-endian 16-bit word.
pub open spec fn be_word(hi: u8, lo: u8) -> nat {
    hi as nat * 256 + lo as nat
}

/// Sum of the big-endian words of `s`, read pairwise from the front; a lone
/// trailing byte counts with its own value.
pub open spec fn word_sum(s: Seq<u8>) -> nat
    decreases s.len(),
{
    if s.len() == 0 {
        0
    } else if s.len() == 1 {
        s[0] as nat
    } else {
        be_word(s[0], s[1]) + word_sum(s.skip(2))
    }
}

/// Two bytes read as a big-endian 16-bit word.
pub open spec fn be_u16(hi: u8, lo: u8) -> u16 {
    be_word(hi, lo) as u16
}

/// The high byte of a 16-bit word.
pub open spec fn hi_byte(w: u16) -> u8 {
    (w / 256) as u8
}

/// The low byte of a 16-bit word.
pub open spec fn lo_byte(w: u16) -> u8 {
    (w % 256) as u8
}

/// How much one unit of the byte at position `k` adds to the word sum of a
/// sequence of length `len`: a high byte counts 256 times, a low byte or a
/// lone trailing byte once.
pub open spec fn byte_weight(k: int, len: int) -> int {
    if k % 2 == 0 && k + 1 < len {
        256
    } else {
        1
    }
}

/// Replacing one byte moves the word sum by the change of that byte times
/// its weight.
pub proof fn lemma_word_sum_update(s: Seq<u8>, k: int, b: u8)
    requires
        0 <= k < s.len(),
    ensures
        word_sum(s.update(k, b)) as int - word_sum(s) as int == (b as int - s[k] as int)
            * byte_weight(k, s.len() as int),
    decreases s.len(),
{
    let t = s.update(k, b);
    if s.len() == 1 {
    } else if k >= 2 {
        assert(t.skip(2) =~= s.skip(2).update(k - 2, b));
        lemma_word_sum_update(s.skip(2), k - 2, b);
    } else {
        assert(t.skip(2) =~= s.skip(2));
    }
}

/// Two sequences that differ in exactly one byte have different word sums
/// modulo 2^16.
pub proof fn lemma_word_sum_update_mod(s: Seq<u8>, k: int, b: u8)
    requires
        0 <= k < s.len(),
        b != s[k],
    ensures
        word_sum(s.update(k, b)) % 0x10000 != word_sum(s) % 0x10000,
{
    lemma_word_sum_update(s, k, b);
    let x = word_sum(s.update(k, b)) as int;
    let y = word_sum(s) as int;
    let d = b as int - s[k] as int;
    let w = byte_weight(k, s.len() as int);
    assert(x - y == d * w);
    assert(-255 <= d <= 255 && d != 0);
    assert(w == 1 || w == 256);
    assert(-65280 <= d * w <= 65280 && d * w != 0) by (nonlinear_arith)
        requires
            -255 <= d <= 255,
            d != 0,
            w == 1 || w == 256,
    ;
    if x % 0x10000 == y % 0x10000 {
        assert((x - y) % 0x10000 == 0) by (nonlinear_arith)
            requires
                x % 0x10000 == y % 0x10000,
        ;
        assert(false) by (nonlinear_arith)
            requires
                (x - y) % 0x10000 == 0,
                -65280 <= x - y <= 65280,
                x - y != 0,
        ;
    }
}

/// Reads two bytes as a big-endian word.
pub fn u16_from_be(hi: u8, lo: u8) -> (w: u16)
    ensures
        w == be_word(hi, lo),
{
    (hi as u16) * 256 + (lo as u16)
}

/// Splits a word into its big-endian bytes.
pub fn u16_to_be(w: u16) -> (bytes: (u8, u8))
    ensures
        be_word(bytes.0, bytes.1) == w,
        bytes.0 == hi_byte(w),
        bytes.1 == lo_byte(w),
{
    ((w / 256) as u8, (w % 256) as u8)
}

/// `word_sum` of a slice from position `i` on, with the tail stepped past two
/// bytes at a time.
proof fn lemma_word_sum_step(s: Seq<u8>, i: int)
    requires
        0 <= i,
        i + 2 <= s.len(),
    ensures
        word_sum(s.skip(i)) == be_word(s[i], s[i + 1]) + word_sum(s.skip(i + 2)),
{
    assert(s.skip(i).skip(2) =~= s.skip(i + 2));
}

/// The sum of all words of `s`, wrapped to 16 bits.
pub fn word_sum_u16(s: &[u8]) -> (acc: u16)
    ensures
        acc == word_sum(s@) % 0x10000,
{
    let n = s.len();
    let mut i: usize = n - n % 2;
    let mut acc: u16 = if n % 2 == 1 {
        s[n - 1] as u16
    } else {
        0
    };
    proof {
        if n % 2 == 1 {
            assert(s@.skip(i as int) =~= seq![s@[n - 1]]);
            assert(word_sum(seq![s@[n - 1]]) == s@[n - 1] as nat);
        } else {
            assert(s@.skip(i as int).len() == 0);
        }
    }
    while i > 0
        invariant
            n == s.len(),
            i % 2 == 0,
            i <= n,
            acc == word_sum(s@.skip(i as int)) % 0x10000,
        decreases i,
    {
        let w = u16_from_be(s[i - 2], s[i - 1]);
        proof {
            lemma_word_sum_step(s@, i - 2);
        }
        acc = acc.wrapping_add(w);
        i = i - 2;
    }
    proof {
        assert(s@.skip(0) =~= s@);
    }
    acc
}

/// The sum of all words of `s`, wrapped to 32 bits.
pub fn word_sum_u32(s: &[u8]) -> (acc: u32)
    ensures
        acc == word_sum(s@) % 0x1_0000_0000,
{
    let n = s.len();
    let mut i: usize = n - n % 2;
    let mut acc: u32 = if n % 2 == 1 {
        s[n - 1] as u32
    } else {
        0
    };
    proof {
        if n % 2 == 1 {
            assert(s@.skip(i as int) =~= seq![s@[n - 1]]);
            assert(word_sum(seq![s@[n - 1]]) == s@[n - 1] as nat);
        } else {
            assert(s@.skip(i as int).len() == 0);
        }
    }
    while i > 0
        invariant
            n == s.len(),
            i % 2 == 0,
            i <= n,
            acc == word_sum(s@.skip(i as int)) % 0x1_0000_0000,
        decreases i,
    {
        let w = u16_from_be(s[i - 2], s[i - 1]);
        proof {
            lemma_word_sum_step(s@, i - 2);
        }
        acc = acc.wrapping_add(w as u32);
        i = i - 2;
    }
    proof {
        assert(s@.skip(0) =~= s@);
    }
    acc
}

/// What follows the first `n` bytes of `d`.
pub open spec fn skip_bytes(d: Seq<u8>, n: usize) -> Seq<u8> {
    d.skip(n as int)
}

} // verus!
