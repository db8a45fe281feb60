//! The 128 bits of a UUID and their hyphenated lowercase text.

use vstd::prelude::*;
use vstd::string::StringExecFns;

verus! {

/// Whether `x`, read as the 128 bits of a UUID, is a random (version 4)
/// UUID of the RFC 4122 variant: its version field (bits 76 to 79) holds 4
/// and its two variant bits (62 and 63) hold `10`.
pub open spec fn is_v4_uuid(x: u128) -> bool {
    &&& (x as nat / 0x1_0000_0000_0000_0000_000) % 16 == 4
    &&& (x as nat / 0x4000_0000_0000_0000) % 4 == 2
}

/// Draws a fresh random UUID with `uuid::Uuid::new_v4` and returns its 128
/// bits (`as_u128`, most significant byte first). Claimed is only what holds
/// of every draw: the version and variant bits that `new_v4` sets (it masks
/// random bits and sets those fields); the other 122 bits are left unsaid.
#[verifier::external_body]
pub(crate) fn new_v4_uuid() -> (x: u128)
    ensures
        is_v4_uuid(x),
{
    uuid::Uuid::new_v4().as_u128()
}

/// The lowercase hexadecimal digit for `d`.
pub open spec fn hex_char(d: nat) -> char {
    if d < 10 {
        (48 + d) as char
    } else {
        (87 + d) as char
    }
}

/// The last `n` hexadecimal digits of `x`, most significant first.
pub open spec fn hex_digits(x: nat, n: nat) -> Seq<char>
    decreases n,
{
    if n == 0 {
        Seq::empty()
    } else {
        hex_digits(x / 16, (n - 1) as nat).push(hex_char(x % 16))
    }
}

/// The hyphenated form of a UUID: its 32 hexadecimal digits in groups of
/// 8, 4, 4, 4 and 12, joined by hyphens.
pub open spec fn uuid_text(x: u128) -> Seq<char> {
    let h = hex_digits(x as nat, 32);
    h.subrange(0, 8) + seq!['-'] + h.subrange(8, 12) + seq!['-'] + h.subrange(12, 16) + seq!['-']
        + h.subrange(16, 20) + seq!['-'] + h.subrange(20, 32)
}

/// The text of one hexadecimal digit.
fn hex_digit_text(d: u128) -> (s: &'static str)
    requires
        d < 16,
    ensures
        s@ == seq![hex_char(d as nat)],
{
    proof {
        reveal_strlit("0");
        reveal_strlit("1");
        reveal_strlit("2");
        reveal_strlit("3");
        reveal_strlit("4");
        reveal_strlit("5");
        reveal_strlit("6");
        reveal_strlit("7");
        reveal_strlit("8");
        reveal_strlit("9");
        reveal_strlit("a");
        reveal_strlit("b");
        reveal_strlit("c");
        reveal_strlit("d");
        reveal_strlit("e");
        reveal_strlit("f");
    }
    let s = if d == 0 {
        "0"
    } else if d == 1 {
        "1"
    } else if d == 2 {
        "2"
    } else if d == 3 {
        "3"
    } else if d == 4 {
        "4"
    } else if d == 5 {
        "5"
    } else if d == 6 {
        "6"
    } else if d == 7 {
        "7"
    } else if d == 8 {
        "8"
    } else if d == 9 {
        "9"
    } else if d == 10 {
        "a"
    } else if d == 11 {
        "b"
    } else if d == 12 {
        "c"
    } else if d == 13 {
        "d"
    } else if d == 14 {
        "e"
    } else {
        "f"
    };
    proof {
        assert(s@ =~= seq![hex_char(d as nat)]);
    }
    s
}

/// The last `n` hexadecimal digits of `x`, most significant first.
fn hex_digits_text(x: u128, n: u32) -> (s: String)
    ensures
        s@ == hex_digits(x as nat, n as nat),
    decreases n,
{
    if n == 0 {
        String::new()
    } else {
        let mut s = hex_digits_text(x / 16, n - 1);
        s.append(hex_digit_text(x % 16));
        s
    }
}

/// A UUID in its hyphenated lowercase form.
pub fn uuid_to_string(x: u128) -> (s: String)
    ensures
        s@ == uuid_text(x),
{
    let h = hex_digits_text(x, 32);
    let ghost hv = h@;
    proof {
        lemma_hex_digits_len(x as nat, 32);
    }
    let mut s = String::new();
    let mut i: usize = 0;
    proof {
        reveal_strlit("-");
    }
    while i < 32
        invariant
            i <= 32,
            h@ == hv,
            hv.len() == 32,
            s@ == uuid_prefix(hv, i as int),
        decreases 32 - i,
    {
        let ghost before = s@;
        proof {
            reveal_strlit("-");
        }
        if i == 8 || i == 12 || i == 16 || i == 20 {
            s.append("-");
        }
        let c = slice_digit(&h, i);
        s.append(c);
        proof {
            assert(s@ =~= uuid_prefix(hv, i + 1));
        }
        i = i + 1;
    }
    proof {
        assert(uuid_prefix(hv, 32) =~= uuid_text(x)) by {
            reveal_with_fuel(uuid_prefix, 33);
        }
    }
    s
}

/// The hyphenated form of the first `i` digits of `h`.
pub open spec fn uuid_prefix(h: Seq<char>, i: int) -> Seq<char>
    decreases i,
{
    if i <= 0 {
        Seq::empty()
    } else {
        let before = uuid_prefix(h, i - 1);
        let sep = if i - 1 == 8 || i - 1 == 12 || i - 1 == 16 || i - 1 == 20 {
            seq!['-']
        } else {
            Seq::empty()
        };
        before + sep + seq![h[i - 1]]
    }
}

/// The text of the digit at position `i` of `h`.
fn slice_digit(h: &String, i: usize) -> (c: &str)
    requires
        i < 32,
        h@.len() == 32,
    ensures
        c@ == seq![h@[i as int]],
{
    use_substring(h.as_str(), i)
}

fn use_substring(h: &str, i: usize) -> (c: &str)
    requires
        i < 32,
        h@.len() == 32,
    ensures
        c@ == seq![h@[i as int]],
{
    let c = vstd::string::StrSliceExecFns::substring_char(h, i, i + 1);
    proof {
        assert(c@ =~= seq![h@[i as int]]);
    }
    c
}

proof fn lemma_hex_digits_len(x: nat, n: nat)
    ensures
        hex_digits(x, n).len() == n,
    decreases n,
{
    if n > 0 {
        lemma_hex_digits_len(x / 16, (n - 1) as nat);
    }
}

} // verus!
