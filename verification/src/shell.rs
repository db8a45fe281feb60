//! Reading the command lines that a remote shell receives.

use vstd::prelude::*;
use vstd::string::{StrSliceExecFns, StringExecFns};

verus! {

/// The characters with the Unicode `White_Space` property.
pub open spec fn white_space(c: char) -> bool {
    ||| '\u{9}' <= c <= '\u{d}'
    ||| c == ' '
    ||| c == '\u{85}'
    ||| c == '\u{a0}'
    ||| c == '\u{1680}'
    ||| '\u{2000}' <= c <= '\u{200a}'
    ||| c == '\u{2028}'
    ||| c == '\u{2029}'
    ||| c == '\u{202f}'
    ||| c == '\u{205f}'
    ||| c == '\u{3000}'
}

/// Whether `c` is white space, as `char::is_whitespace` has it.
pub fn is_white_space(c: char) -> (r: bool)
    ensures
        r == white_space(c),
{
    ('\u{9}' <= c && c <= '\u{d}') || c == ' ' || c == '\u{85}' || c == '\u{a0}' || c == '\u{1680}'
        || ('\u{2000}' <= c && c <= '\u{200a}') || c == '\u{2028}' || c == '\u{2029}' || c
        == '\u{202f}' || c == '\u{205f}' || c == '\u{3000}'
}

/// The words of `s` from position `start` on, where the word being read
/// began at `from`: the maximal runs of characters that are not white
/// space, in order.
pub open spec fn words_from(s: Seq<char>, from: int, at: int) -> Seq<Seq<char>>
    decreases s.len() - at,
{
    if at >= s.len() {
        if from < at {
            seq![s.subrange(from, at)]
        } else {
            Seq::empty()
        }
    } else if white_space(s[at]) {
        let here = if from < at {
            seq![s.subrange(from, at)]
        } else {
            Seq::<Seq<char>>::empty()
        };
        here + words_from(s, at + 1, at + 1)
    } else {
        words_from(s, from, at + 1)
    }
}

/// The words of `s`.
pub open spec fn words(s: Seq<char>) -> Seq<Seq<char>> {
    words_from(s, 0, 0)
}

/// The words of a command line: the program, then its arguments.
pub fn split(buf: &str) -> (parts: Vec<String>)
    ensures
        parts@.map_values(|p: String| p@) == words(buf@),
{
    let n = buf.unicode_len();
    let mut parts: Vec<String> = Vec::new();
    let mut from: usize = 0;
    let mut at: usize = 0;
    while at < n
        invariant
            n == buf@.len(),
            from <= at <= n,
            parts@.map_values(|p: String| p@) + words_from(buf@, from as int, at as int) == words(buf@),
        decreases n - at,
    {
        let c = buf.get_char(at);
        let ghost done = parts@.map_values(|p: String| p@);
        if is_white_space(c) {
            if from < at {
                let word = String::from_str(buf.substring_char(from, at));
                parts.push(word);
                proof {
                    assert(parts@.map_values(|p: String| p@) =~= done + seq![buf@.subrange(from as int, at as int)]);
                }
            }
            at = at + 1;
            from = at;
            proof {
                assert(parts@.map_values(|p: String| p@) + words_from(buf@, from as int, at as int) =~= words(buf@));
            }
        } else {
            at = at + 1;
        }
    }
    if from < at {
        let ghost done = parts@.map_values(|p: String| p@);
        let word = String::from_str(buf.substring_char(from, at));
        parts.push(word);
        proof {
            assert(parts@.map_values(|p: String| p@) =~= done + seq![buf@.subrange(from as int, at as int)]);
        }
    } else {
        proof {
            assert(parts@.map_values(|p: String| p@) =~= parts@.map_values(|p: String| p@) + Seq::<Seq<char>>::empty());
        }
    }
    parts
}

/// A word: some characters, none of them white space.
pub open spec fn clean_word(w: Seq<char>) -> bool {
    w.len() > 0 && forall|j: int| 0 <= j < w.len() ==> !white_space(#[trigger] w[j])
}

/// Every word of a command line is non-empty and holds no white space.
pub proof fn lemma_words_are_clean(s: Seq<char>)
    ensures
        forall|k: int| 0 <= k < words(s).len() ==> clean_word(#[trigger] words(s)[k]),
{
    lemma_words_from_clean(s, 0, 0);
}

proof fn lemma_words_from_clean(s: Seq<char>, from: int, at: int)
    requires
        0 <= from <= at <= s.len(),
        forall|j: int| from <= j < at ==> !white_space(#[trigger] s[j]),
    ensures
        forall|k: int| 0 <= k < words_from(s, from, at).len() ==> clean_word(#[trigger] words_from(s, from, at)[k]),
    decreases s.len() - at,
{
    let w = words_from(s, from, at);
    if at < s.len() && !white_space(s[at]) {
        lemma_words_from_clean(s, from, at + 1);
        assert(w == words_from(s, from, at + 1));
    } else {
        let rest = if at < s.len() {
            lemma_words_from_clean(s, at + 1, at + 1);
            words_from(s, at + 1, at + 1)
        } else {
            Seq::<Seq<char>>::empty()
        };
        let here = if from < at {
            seq![s.subrange(from, at)]
        } else {
            Seq::<Seq<char>>::empty()
        };
        assert(w =~= here + rest);
        if from < at {
            let first = s.subrange(from, at);
            assert forall|j: int| 0 <= j < first.len() implies !white_space(#[trigger] first[j]) by {
                assert(first[j] == s[from + j]);
            }
            assert(clean_word(first));
        }
        assert forall|k: int| 0 <= k < w.len() implies clean_word(#[trigger] w[k]) by {
            if k < here.len() {
                assert(w[k] == here[k]);
            } else {
                assert(w[k] == rest[k - here.len()]);
            }
        }
    }
}

/// The words of `ws` joined by single spaces.
pub open spec fn join_spaced(ws: Seq<Seq<char>>) -> Seq<char>
    decreases ws.len(),
{
    if ws.len() == 0 {
        Seq::empty()
    } else if ws.len() == 1 {
        ws[0]
    } else {
        ws[0] + seq![' '] + join_spaced(ws.drop_first())
    }
}

/// A command line made of words joined by single spaces splits back into
/// those words.
pub proof fn lemma_split_joined(ws: Seq<Seq<char>>)
    requires
        forall|k: int| 0 <= k < ws.len() ==> clean_word(#[trigger] ws[k]),
    ensures
        words(join_spaced(ws)) == ws,
    decreases ws.len(),
{
    let line = join_spaced(ws);
    if ws.len() == 0 {
        assert(words(line) =~= ws);
    } else {
        let w = ws[0];
        assert(clean_word(w));
        if ws.len() == 1 {
            lemma_skip_word(line, 0, 0, w.len() as int);
            assert(line.subrange(0, w.len() as int) =~= w);
            assert(words(line) =~= ws);
        } else {
            let rest = ws.drop_first();
            assert forall|k: int| 0 <= k < rest.len() implies clean_word(#[trigger] rest[k]) by {
                assert(rest[k] == ws[k + 1]);
            }
            lemma_split_joined(rest);
            let p = w + seq![' '];
            assert(line =~= p + join_spaced(rest));
            lemma_skip_word(line, 0, 0, w.len() as int);
            assert(line[w.len() as int] == ' ');
            lemma_words_shift(p, join_spaced(rest), 0, 0);
            assert(line.subrange(0, w.len() as int) =~= w);
            let n = w.len() as int;
            assert(words_from(line, 0, n) =~= seq![w] + words_from(line, n + 1, n + 1));
            assert(words(line) =~= ws);
        }
    }
}

/// Reading over the characters of a word changes nothing: they all join the
/// word being read.
proof fn lemma_skip_word(s: Seq<char>, from: int, at: int, to: int)
    requires
        0 <= from <= at <= to <= s.len(),
        forall|j: int| at <= j < to ==> !white_space(#[trigger] s[j]),
    ensures
        words_from(s, from, at) == words_from(s, from, to),
    decreases to - at,
{
    if at < to {
        lemma_skip_word(s, from, at + 1, to);
    }
}

/// The words after a prefix do not depend on the prefix.
proof fn lemma_words_shift(p: Seq<char>, s: Seq<char>, from: int, at: int)
    requires
        0 <= from <= at <= s.len(),
    ensures
        words_from(p + s, p.len() + from, p.len() + at) == words_from(s, from, at),
    decreases s.len() - at,
{
    let ps = p + s;
    let n = p.len() as int;
    if at >= s.len() {
        if from < at {
            assert(ps.subrange(n + from, n + at) =~= s.subrange(from, at));
        }
    } else {
        assert(ps[n + at] == s[at]);
        if white_space(s[at]) {
            lemma_words_shift(p, s, at + 1, at + 1);
            if from < at {
                assert(ps.subrange(n + from, n + at) =~= s.subrange(from, at));
            }
        } else {
            lemma_words_shift(p, s, from, at + 1);
        }
    }
}

/// `s` without the white space at its start and end.
pub open spec fn trimmed(s: Seq<char>) -> Seq<char>
    decreases s.len(),
{
    if s.len() > 0 && white_space(s[0]) {
        trimmed(s.drop_first())
    } else if s.len() > 0 && white_space(s.last()) {
        trimmed(s.drop_last())
    } else {
        s
    }
}

/// Whether a line asks to end the session: it reads `exit` once the white
/// space around it is taken away.
pub fn is_exit(line: &str) -> (r: bool)
    ensures
        r == (trimmed(line@) == "exit"@),
{
    let n = line.unicode_len();
    let mut a: usize = 0;
    let mut b: usize = n;
    proof {
        assert(line@.subrange(0, n as int) =~= line@);
    }
    while a < b && is_white_space(line.get_char(a))
        invariant
            n == line@.len(),
            a <= b == n,
            trimmed(line@) == trimmed(line@.subrange(a as int, b as int)),
        decreases b - a,
    {
        proof {
            assert(line@.subrange(a as int, b as int).drop_first() =~= line@.subrange(a + 1, b as int));
        }
        a = a + 1;
    }
    while a < b && is_white_space(line.get_char(b - 1))
        invariant
            n == line@.len(),
            a <= b <= n,
            a < b ==> !white_space(line@[a as int]),
            trimmed(line@) == trimmed(line@.subrange(a as int, b as int)),
        decreases b - a,
    {
        proof {
            let t = line@.subrange(a as int, b as int);
            assert(t.drop_last() =~= line@.subrange(a as int, b - 1));
            if a + 1 < b {
                assert(t[0] == line@[a as int]);
            }
        }
        b = b - 1;
    }
    let core = line.substring_char(a, b);
    proof {
        let t = line@.subrange(a as int, b as int);
        if t.len() > 0 {
            assert(t[0] == line@[a as int]);
            assert(t.last() == line@[b - 1]);
        }
        assert(trimmed(t) == t);
    }
    str_eq(core, "exit")
}

/// Whether two texts are equal.
pub fn str_eq(a: &str, b: &str) -> (r: bool)
    ensures
        r == (a@ == b@),
{
    let n = a.unicode_len();
    let m = b.unicode_len();
    if n != m {
        return false;
    }
    let mut i: usize = 0;
    while i < n
        invariant
            n == a@.len(),
            m == b@.len(),
            n == m,
            i <= n,
            forall|j: int| 0 <= j < i ==> a@[j] == b@[j],
        decreases n - i,
    {
        if a.get_char(i) != b.get_char(i) {
            return false;
        }
        i = i + 1;
    }
    proof {
        assert(a@ =~= b@);
    }
    true
}

} // verus!
