//! Replacing every occurrence of a pattern in a text.

use vstd::prelude::*;

verus! {

/// `pat` stands in `text` at index `at`.
pub open spec fn occurs_at(text: Seq<char>, pat: Seq<char>, at: int) -> bool {
    &&& 0 <= at
    &&& at + pat.len() <= text.len()
    &&& text.subrange(at, at + pat.len()) == pat
}

/// `pat` stands somewhere in `text`.
pub open spec fn occurs(text: Seq<char>, pat: Seq<char>) -> bool {
    exists|at: int| occurs_at(text, pat, at)
}

/// `text` with each occurrence of `pat` replaced by `to`. Occurrences are
/// taken from left to right and do not overlap: after one has been replaced,
/// the search goes on behind it. An empty pattern replaces nothing.
pub open spec fn replaced(text: Seq<char>, pat: Seq<char>, to: Seq<char>) -> Seq<char>
    decreases text.len(),
{
    if pat.len() == 0 || text.len() < pat.len() {
        text
    } else if occurs_at(text, pat, 0) {
        to + replaced(text.skip(pat.len() as int), pat, to)
    } else {
        seq![text[0]] + replaced(text.skip(1), pat, to)
    }
}

/// Whether `pat` stands in `text` at index `at`.
pub fn matches_at(text: &Vec<char>, pat: &Vec<char>, at: usize) -> (hit: bool)
    ensures
        hit == occurs_at(text@, pat@, at as int),
{
    if at > text.len() || pat.len() > text.len() - at {
        return false;
    }
    let mut k: usize = 0;
    while k < pat.len()
        invariant
            k <= pat.len(),
            at + pat.len() <= text.len(),
            text@.subrange(at as int, at + k) == pat@.take(k as int),
        decreases pat.len() - k,
    {
        if text[at + k] != pat[k] {
            assert(text@.subrange(at as int, at + pat.len())[k as int] != pat@[k as int]);
            return false;
        }
        assert(text@.subrange(at as int, at + k + 1) == text@.subrange(at as int, at + k).push(
            text@[at + k],
        ));
        assert(pat@.take(k + 1) == pat@.take(k as int).push(pat@[k as int]));
        k += 1;
    }
    assert(pat@.take(pat@.len() as int) == pat@);
    true
}

/// Replaces every occurrence of `pat` in `text` by `to`, from left to right.
pub fn replace_all(text: &Vec<char>, pat: &Vec<char>, to: &Vec<char>) -> (out: Vec<char>)
    ensures
        out@ == replaced(text@, pat@, to@),
{
    if pat.len() == 0 {
        return text.clone();
    }
    let mut out: Vec<char> = Vec::new();
    let mut i: usize = 0;
    assert(text@.skip(0) == text@);
    while i < text.len()
        invariant
            i <= text.len(),
            pat.len() > 0,
            out@ + replaced(text@.skip(i as int), pat@, to@) == replaced(text@, pat@, to@),
        decreases text.len() - i,
    {
        let ghost rest = text@.skip(i as int);
        if matches_at(text, pat, i) {
            assert(rest.subrange(0, pat@.len() as int) == text@.subrange(
                i as int,
                i + pat@.len(),
            ));
            assert(rest.skip(pat@.len() as int) == text@.skip(i + pat@.len()));
            let mut k: usize = 0;
            let ghost before = out@;
            while k < to.len()
                invariant
                    k <= to.len(),
                    out@ == before + to@.take(k as int),
                decreases to.len() - k,
            {
                out.push(to[k]);
                assert(to@.take(k + 1) == to@.take(k as int).push(to@[k as int]));
                k += 1;
            }
            assert(to@.take(to@.len() as int) == to@);
            assert(out@ + replaced(rest.skip(pat@.len() as int), pat@, to@) == before + (to@
                + replaced(rest.skip(pat@.len() as int), pat@, to@)));
            i += pat.len();
        } else {
            proof {
                if rest.len() >= pat@.len() {
                    assert(rest.subrange(0, pat@.len() as int) == text@.subrange(
                        i as int,
                        i + pat@.len(),
                    ));
                }
                assert(rest.skip(1) == text@.skip(i + 1));
                assert(rest == seq![rest[0]] + rest.skip(1));
            }
            let ghost before = out@;
            out.push(text[i]);
            assert(out@ + replaced(rest.skip(1), pat@, to@) == before + (seq![rest[0]] + replaced(
                rest.skip(1),
                pat@,
                to@,
            )));
            i += 1;
        }
    }
    assert(text@.skip(text@.len() as int) == Seq::<char>::empty());
    assert(out@ + Seq::<char>::empty() == out@);
    out
}

} // verus!
