//! Recognising kanji in a query string.

use vstd::prelude::*;

verus! {

/// A character of the CJK Unified Ideographs block, U+4E00 through U+9FFF.
pub open spec fn is_kanji(c: char) -> bool {
    0x4E00 <= c as u32 <= 0x9FFF
}

/// Whether some character of `s` is a kanji.
pub open spec fn has_kanji(s: Seq<char>) -> bool {
    exists|i: int| 0 <= i < s.len() && is_kanji(#[trigger] s[i])
}

/// Extending a prefix by one character adds exactly that character's verdict.
proof fn lemma_has_kanji_step(s: Seq<char>, n: int)
    requires
        0 <= n < s.len(),
    ensures
        has_kanji(s.take(n + 1)) == (has_kanji(s.take(n)) || is_kanji(s[n])),
{
    let short = s.take(n);
    let long = s.take(n + 1);
    if has_kanji(short) {
        let k = choose|k: int| 0 <= k < short.len() && is_kanji(#[trigger] short[k]);
        assert(is_kanji(long[k]));
    }
    if is_kanji(s[n]) {
        assert(is_kanji(long[n]));
    }
    if has_kanji(long) {
        let k = choose|k: int| 0 <= k < long.len() && is_kanji(#[trigger] long[k]);
        if k < n {
            assert(is_kanji(short[k]));
        }
    }
}

/// Returns true if the string contains any kanji (CJK Unified Ideographs).
pub fn contains_kanji(s: &str) -> (found: bool)
    ensures
        found == has_kanji(s@),
{
    broadcast use vstd::string::axiom_spec_iter;

    let mut seen: bool = false;
    for c in it: s.chars()
        invariant
            it.seq() == s@,
            seen == has_kanji(s@.take(it.index())),
    {
        proof {
            lemma_has_kanji_step(s@, it.index());
        }
        let code: u32 = c as u32;
        seen = seen || (0x4E00 <= code && code <= 0x9FFF);
    }
    assert(s@.take(s@.len() as int) == s@);
    seen
}

} // verus!
