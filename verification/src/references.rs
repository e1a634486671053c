//! When substitution is exhaustive: in a text whose ampersands all open a
//! reference, no reference to a declared entity outlives the substitution.

use crate::entity::{
    declares, is_delimiter, plain_name, plain_table, plain_value, regex_accepts, regex_groups,
    substituted, table_of, token, Declaration, EntityTable, ENTITY_PATTERN,
};
use crate::error::DictError;
use crate::text::to_chars;
use crate::replace::{occurs, occurs_at, replaced};
use vstd::prelude::*;

verus! {

/// The ampersand at `open` is closed by the semicolon at `close`, with no
/// delimiter between the two.
pub open spec fn closed_at(text: Seq<char>, open: int, close: int) -> bool {
    &&& open < close < text.len()
    &&& text[close] == ';'
    &&& forall|k: int| open < k < close ==> !is_delimiter(#[trigger] text[k])
}

/// Every ampersand of `text` opens a reference: a semicolon follows it
/// before any other ampersand.
pub open spec fn references_closed(text: Seq<char>) -> bool {
    forall|i: int|
        0 <= i < text.len() && #[trigger] text[i] == '&' ==> exists|j: int| closed_at(text, i, j)
}

/// Whether every ampersand of `text` opens a reference.
pub fn closes_references(text: &str) -> (closed: bool)
    ensures
        closed == references_closed(text@),
{
    let chars = to_chars(text);
    let mut open: bool = false;
    let mut opened: usize = 0;
    let mut i: usize = 0;
    while i < chars.len()
        invariant
            i <= chars.len(),
            chars@ == text@,
            open ==> opened < i && chars@[opened as int] == '&',
            open ==> forall|k: int| opened < k < i ==> !is_delimiter(#[trigger] chars@[k]),
            forall|q: int|
                0 <= q < i && #[trigger] chars@[q] == '&' && !(open && q == opened) ==> exists|
                    j: int,
                | closed_at(chars@, q, j),
        decreases chars.len() - i,
    {
        let c = chars[i];
        if open {
            if c == '&' {
                proof {
                    lemma_left_open(chars@, opened as int, i as int);
                }
                return false;
            } else if c == ';' {
                assert(closed_at(chars@, opened as int, i as int));
                open = false;
            }
        } else if c == '&' {
            open = true;
            opened = i;
        }
        i += 1;
    }
    if open {
        proof {
            lemma_left_open(chars@, opened as int, chars@.len() as int);
        }
        return false;
    }
    true
}

/// An ampersand that is followed by no delimiter up to `end`, where the
/// text ends or another ampersand stands, is not closed.
proof fn lemma_left_open(text: Seq<char>, open: int, end: int)
    requires
        0 <= open < end <= text.len(),
        text[open] == '&',
        forall|k: int| open < k < end ==> !is_delimiter(#[trigger] text[k]),
        end < text.len() ==> text[end] == '&',
    ensures
        !references_closed(text),
{
    if references_closed(text) {
        let j = choose|j: int| closed_at(text, open, j);
        if j < end {
            assert(!is_delimiter(text[j]));
        } else if j > end {
            assert(!is_delimiter(text[end]));
        }
    }
}

proof fn lemma_skip_closed(text: Seq<char>, n: int)
    requires
        references_closed(text),
        0 <= n <= text.len(),
    ensures
        references_closed(text.skip(n)),
{
    let rest = text.skip(n);
    assert forall|i: int| 0 <= i < rest.len() && #[trigger] rest[i] == '&' implies exists|j: int|
        closed_at(rest, i, j) by {
        assert(text[i + n] == '&');
        let open = i + n;
        let j = choose|j: int| closed_at(text, open, j);
        assert forall|k: int| i < k < j - n implies !is_delimiter(#[trigger] rest[k]) by {
            assert(!is_delimiter(text[k + n]));
        }
        assert(closed_at(rest, i, j - n));
    }
}

proof fn lemma_join_closed(head: Seq<char>, tail: Seq<char>)
    requires
        plain_value(head),
        references_closed(tail),
    ensures
        references_closed(head + tail),
{
    let whole = head + tail;
    assert forall|i: int| 0 <= i < whole.len() && #[trigger] whole[i] == '&' implies exists|
        j: int,
    | closed_at(whole, i, j) by {
        if i < head.len() {
            assert(head[i] != '&');
        }
        assert(tail[i - head.len()] == '&');
        let open = i - head.len();
        let j = choose|j: int| closed_at(tail, open, j);
        assert forall|k: int| i < k < j + head.len() implies !is_delimiter(#[trigger] whole[k]) by {
            assert(!is_delimiter(tail[k - head.len()]));
        }
        assert(closed_at(whole, i, j + head.len()));
    }
}

/// A stretch without ampersands at the head of the text is copied as it is.
proof fn lemma_prefix_kept(text: Seq<char>, pat: Seq<char>, to: Seq<char>, n: int)
    requires
        pat.len() > 0,
        pat[0] == '&',
        0 <= n <= text.len(),
        forall|k: int| 0 <= k < n ==> #[trigger] text[k] != '&',
    ensures
        replaced(text, pat, to) == text.take(n) + replaced(text.skip(n), pat, to),
    decreases n,
{
    if n == 0 {
        assert(text.skip(0) == text);
        assert(text.take(0) + replaced(text, pat, to) == replaced(text, pat, to));
    } else if text.len() < pat.len() {
        assert(text.take(n) + text.skip(n) == text);
    } else {
        assert(text[0] != '&');
        assert(!occurs_at(text, pat, 0)) by {
            if occurs_at(text, pat, 0) {
                assert(text.subrange(0, pat.len() as int)[0] == pat[0]);
            }
        }
        let rest = text.skip(1);
        assert forall|k: int| 0 <= k < n - 1 implies #[trigger] rest[k] != '&' by {
            assert(text[k + 1] != '&');
        }
        lemma_prefix_kept(rest, pat, to, n - 1);
        assert(rest.skip(n - 1) == text.skip(n));
        assert(seq![text[0]] + rest.take(n - 1) == text.take(n));
        assert(seq![text[0]] + (rest.take(n - 1) + replaced(text.skip(n), pat, to)) == text.take(n)
            + replaced(text.skip(n), pat, to));
    }
}

/// A reference at the head of the text that is not the one being replaced
/// is copied as it is, up to its semicolon.
proof fn lemma_reference_kept(text: Seq<char>, pat: Seq<char>, to: Seq<char>) -> (close: int)
    requires
        references_closed(text),
        pat.len() > 0,
        pat[0] == '&',
        text.len() >= pat.len(),
        text[0] == '&',
        !occurs_at(text, pat, 0),
    ensures
        closed_at(text, 0, close),
        replaced(text, pat, to) == text.take(close + 1) + replaced(text.skip(close + 1), pat, to),
{
    let close = choose|j: int| closed_at(text, 0, j);
    let rest = text.skip(1);
    assert forall|k: int| 0 <= k < close implies #[trigger] rest[k] != '&' by {
        if k + 1 < close {
            assert(!is_delimiter(text[k + 1]));
        }
    }
    lemma_prefix_kept(rest, pat, to, close);
    assert(rest.skip(close) == text.skip(close + 1));
    assert(seq![text[0]] + rest.take(close) == text.take(close + 1));
    assert(seq![text[0]] + (rest.take(close) + replaced(text.skip(close + 1), pat, to))
        == text.take(close + 1) + replaced(text.skip(close + 1), pat, to));
    close
}

/// Replacing the references to one entity leaves every ampersand closed.
pub proof fn lemma_replaced_closed(text: Seq<char>, name: Seq<char>, value: Seq<char>)
    requires
        references_closed(text),
        plain_value(value),
    ensures
        references_closed(replaced(text, token(name), value)),
    decreases text.len(),
{
    let pat = token(name);
    let out = replaced(text, pat, value);
    if text.len() < pat.len() {
    } else if occurs_at(text, pat, 0) {
        let rest = text.skip(pat.len() as int);
        lemma_skip_closed(text, pat.len() as int);
        lemma_replaced_closed(rest, name, value);
        lemma_join_closed(value, replaced(rest, pat, value));
    } else {
        let rest = text.skip(1);
        lemma_skip_closed(text, 1);
        lemma_replaced_closed(rest, name, value);
        let tail = replaced(rest, pat, value);
        assert(out == seq![text[0]] + tail);
        if text[0] != '&' {
            assert(plain_value(seq![text[0]]));
            lemma_join_closed(seq![text[0]], tail);
        } else {
            let close = lemma_reference_kept(text, pat, value);
            assert forall|i: int| 0 <= i < out.len() && #[trigger] out[i] == '&' implies exists|
                j: int,
            | closed_at(out, i, j) by {
                if i == 0 {
                    assert forall|k: int| 0 < k < close implies !is_delimiter(#[trigger] out[k]) by {
                        assert(out[k] == text.take(close + 1)[k]);
                        assert(!is_delimiter(text[k]));
                    }
                    assert(out[close] == text.take(close + 1)[close]);
                    assert(closed_at(out, 0, close));
                } else {
                    assert(tail[i - 1] == '&');
                    let open = i - 1;
                    let j = choose|j: int| closed_at(tail, open, j);
                    assert forall|k: int| i < k < j + 1 implies !is_delimiter(#[trigger] out[k]) by {
                        assert(!is_delimiter(tail[k - 1]));
                    }
                    assert(closed_at(out, i, j + 1));
                }
            }
        }
    }
}

/// Replacing the references to one entity brings no reference into the
/// text: whatever reference stands in the result stood in the text, and is
/// not a reference to the entity replaced.
pub proof fn lemma_replaced_brings_none(
    text: Seq<char>,
    name: Seq<char>,
    value: Seq<char>,
    other: Seq<char>,
)
    requires
        references_closed(text),
        plain_value(value),
        plain_name(other),
        occurs(replaced(text, token(name), value), token(other)),
    ensures
        other != name,
        occurs(text, token(other)),
    decreases text.len(),
{
    let pat = token(name);
    let wanted = token(other);
    let out = replaced(text, pat, value);
    let at = choose|at: int| occurs_at(out, wanted, at);
    assert(out[at] == '&') by {
        assert(out.subrange(at, at + wanted.len())[0] == wanted[0]);
    }
    if text.len() < pat.len() {
        assert(occurs_at(text, wanted, at));
    } else if occurs_at(text, pat, 0) {
        let rest = text.skip(pat.len() as int);
        let tail = replaced(rest, pat, value);
        assert(at >= value.len()) by {
            if at < value.len() {
                assert(value[at] != '&');
            }
        }
        assert(tail.subrange(at - value.len(), at - value.len() + wanted.len()) == out.subrange(
            at,
            at + wanted.len(),
        ));
        assert(occurs_at(tail, wanted, at - value.len()));
        lemma_skip_closed(text, pat.len() as int);
        lemma_replaced_brings_none(rest, name, value, other);
        let within = choose|q: int| occurs_at(rest, wanted, q);
        assert(text.subrange(within + pat.len(), within + pat.len() + wanted.len())
            == rest.subrange(within, within + wanted.len()));
        assert(occurs_at(text, wanted, within + pat.len()));
    } else {
        let rest = text.skip(1);
        let tail = replaced(rest, pat, value);
        assert(out == seq![text[0]] + tail);
        if at >= 1 {
            assert(tail.subrange(at - 1, at - 1 + wanted.len()) == out.subrange(
                at,
                at + wanted.len(),
            ));
            assert(occurs_at(tail, wanted, at - 1));
            lemma_skip_closed(text, 1);
            lemma_replaced_brings_none(rest, name, value, other);
            let within = choose|q: int| occurs_at(rest, wanted, q);
            assert(text.subrange(within + 1, within + 1 + wanted.len()) == rest.subrange(
                within,
                within + wanted.len(),
            ));
            assert(occurs_at(text, wanted, within + 1));
        } else {
            assert(text[0] == '&');
            let close = lemma_reference_kept(text, pat, value);
            let last = wanted.len() - 1;
            let found = out.subrange(0, wanted.len() as int);
            assert(found == wanted);
            assert(wanted[last] == ';');
            if last < close {
                assert(found[last] == out[last]);
                assert(out[last] == text.take(close + 1)[last]);
                assert(!is_delimiter(text[last]));
            }
            if last > close {
                assert(found[close] == out[close]);
                assert(out[close] == text.take(close + 1)[close]);
                assert(wanted[close] == other[close - 1]);
                assert(!is_delimiter(other[close - 1]));
            }
            assert(last == close);
            assert(text.subrange(0, wanted.len() as int) == found);
            assert(occurs_at(text, wanted, 0));
        }
    }
}

/// Substitution leaves every ampersand closed.
pub proof fn lemma_substituted_closed(text: Seq<char>, table: Seq<Declaration>)
    requires
        references_closed(text),
        plain_table(table),
    ensures
        references_closed(substituted(text, table)),
    decreases table.len(),
{
    if table.len() > 0 {
        let first = table.drop_last();
        assert forall|i: int| 0 <= i < first.len() implies plain_name((#[trigger] first[i]).name)
            && plain_value(first[i].value) by {
            assert(first[i] == table[i]);
        }
        lemma_substituted_closed(text, first);
        lemma_replaced_closed(substituted(text, first), table.last().name, table.last().value);
    }
}

/// Substitution brings no reference into the text, and leaves none to a
/// declared entity: whatever reference stands in the result stood in the
/// text, and its name is not declared.
pub proof fn lemma_substituted_brings_none(
    text: Seq<char>,
    table: Seq<Declaration>,
    name: Seq<char>,
)
    requires
        references_closed(text),
        plain_table(table),
        plain_name(name),
        occurs(substituted(text, table), token(name)),
    ensures
        !declares(table, name),
        occurs(text, token(name)),
    decreases table.len(),
{
    if table.len() > 0 {
        let first = table.drop_last();
        assert forall|i: int| 0 <= i < first.len() implies plain_name((#[trigger] first[i]).name)
            && plain_value(first[i].value) by {
            assert(first[i] == table[i]);
        }
        lemma_substituted_closed(text, first);
        lemma_replaced_brings_none(
            substituted(text, first),
            table.last().name,
            table.last().value,
            name,
        );
        lemma_substituted_brings_none(text, first, name);
        if declares(table, name) {
            let i = choose|i: int| 0 <= i < table.len() && (#[trigger] table[i]).name == name;
            if i < first.len() {
                assert(first[i].name == name);
            }
        }
    }
}

/// Substitution is exhaustive. In a text whose ampersands all open a
/// reference, and with a table of plain names and values, no reference to a
/// declared entity is left in the result.
pub proof fn lemma_substitution_exhaustive(text: Seq<char>, table: Seq<Declaration>, k: int)
    requires
        references_closed(text),
        plain_table(table),
        0 <= k < table.len(),
    ensures
        !occurs(substituted(text, table), token(table[k].name)),
{
    if occurs(substituted(text, table), token(table[k].name)) {
        lemma_substituted_brings_none(text, table, table[k].name);
    }
}

/// The failure that a strict resolution owes: the first of the three
/// conditions that does not hold.
pub open spec fn refusal(accepted: bool, plain: bool) -> DictError {
    if !accepted {
        DictError::Pattern
    } else if !plain {
        DictError::Entities
    } else {
        DictError::Ampersand
    }
}

/// Rewrites `xml` as `resolve_entities` does, but only where substitution
/// is sure to be exhaustive: where every declared name and value is plain
/// and every ampersand of the text opens a reference. No reference to a
/// declared entity is then left in the result. Any other text is refused.
pub fn resolve_exhaustively(xml: &str) -> (resolved: Result<String, DictError>)
    ensures
        resolved is Ok <==> regex_accepts(ENTITY_PATTERN@) && plain_table(
            table_of(regex_groups(ENTITY_PATTERN@, xml@)),
        ) && references_closed(xml@),
        resolved matches Ok(out) ==> out@ == substituted(
            xml@,
            table_of(regex_groups(ENTITY_PATTERN@, xml@)),
        ),
        resolved matches Ok(out) ==> forall|k: int|
            0 <= k < table_of(regex_groups(ENTITY_PATTERN@, xml@)).len() ==> !occurs(
                out@,
                token((#[trigger] table_of(regex_groups(ENTITY_PATTERN@, xml@))[k]).name),
            ),
        resolved matches Err(e) ==> e == refusal(
            regex_accepts(ENTITY_PATTERN@),
            plain_table(table_of(regex_groups(ENTITY_PATTERN@, xml@))),
        ),
{
    let table = match EntityTable::scan(xml) {
        Ok(table) => table,
        Err(e) => { return Err(e); },
    };
    if !table.is_plain() {
        return Err(DictError::Entities);
    }
    if !closes_references(xml) {
        return Err(DictError::Ampersand);
    }
    let out = table.apply(xml);
    proof {
        assert forall|k: int| 0 <= k < table@.len() implies !occurs(
            out@,
            token((#[trigger] table@[k]).name),
        ) by {
            lemma_substitution_exhaustive(xml@, table@, k);
        }
    }
    Ok(out)
}

} // verus!
