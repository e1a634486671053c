//! Moving between strings and vectors of characters.
//!
//! The scanning code of this crate works on `Vec<char>`, where a character
//! is reached by its index in constant time.

use vstd::prelude::*;

verus! {

/// `String::push` appends the given character to the end of the string.
pub assume_specification[ String::push ](s: &mut String, c: char)
    ensures
        final(s)@ == old(s)@.push(c),
;

/// The characters of `s`, in order.
pub fn to_chars(s: &str) -> (chars: Vec<char>)
    ensures
        chars@ == s@,
{
    broadcast use vstd::string::axiom_spec_iter;

    let mut chars: Vec<char> = Vec::new();
    for c in it: s.chars()
        invariant
            it.seq() == s@,
            chars@ == s@.take(it.index()),
    {
        chars.push(c);
    }
    assert(s@.take(s@.len() as int) == s@);
    chars
}

/// The string made of the characters of `chars`, in order.
pub fn from_chars(chars: &Vec<char>) -> (s: String)
    ensures
        s@ == chars@,
{
    let mut s = String::new();
    let mut i: usize = 0;
    while i < chars.len()
        invariant
            i <= chars.len(),
            s@ == chars@.take(i as int),
        decreases chars.len() - i,
    {
        s.push(chars[i]);
        i += 1;
    }
    assert(chars@.take(chars@.len() as int) == chars@);
    s
}

/// Whether `c` is a character of `text`.
pub fn holds_char(text: &str, c: char) -> (found: bool)
    ensures
        found == text@.contains(c),
{
    broadcast use vstd::string::axiom_spec_iter;

    let mut found: bool = false;
    for d in it: text.chars()
        invariant
            it.seq() == text@,
            found == text@.take(it.index()).contains(c),
    {
        proof {
            let shorter = text@.take(it.index());
            let longer = text@.take(it.index() + 1);
            if shorter.contains(c) {
                let k = choose|k: int| 0 <= k < shorter.len() && shorter[k] == c;
                assert(longer[k] == c);
            }
            if d == c {
                assert(longer[it.index()] == c);
            }
            if longer.contains(c) {
                let k = choose|k: int| 0 <= k < longer.len() && longer[k] == c;
                if k < it.index() {
                    assert(shorter[k] == c);
                }
            }
        }
        found = found || d == c;
    }
    assert(text@.take(text@.len() as int) == text@);
    found
}

} // verus!
