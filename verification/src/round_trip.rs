//! What is written comes back: an entry whose lists decode from their
//! encodings is handed out by a lookup as it was written.

use crate::ingest::{plan_entry, planned, EntryWrite};
use crate::json::{decode_list, encode_list, list_decoding, list_encoding};
use crate::model::{Entry, EntryParsedView, EntryView, SenseParsedView, Text, TextList};
use crate::query::{assembled, lookup, parsed_sense, Lookup, SearchKey};
use crate::store::stored;
use vstd::prelude::*;

verus! {

/// The encoding of `list` decodes to `list`.
pub open spec fn comes_back(list: TextList) -> bool {
    list_decoding(list_encoding(list)) == Some(list)
}

/// Every list of `entry` comes back from its encoding: the readings, the
/// kanji spellings, and the three lists of each sense.
pub open spec fn lists_come_back(entry: EntryView) -> bool {
    &&& comes_back(entry.rebs)
    &&& entry.kebs matches Some(kebs) ==> comes_back(kebs)
    &&& forall|i: int|
        0 <= i < entry.senses.len() ==> comes_back((#[trigger] entry.senses[i]).pos) && comes_back(
            entry.senses[i].xref,
        ) && comes_back(entry.senses[i].gloss)
}

/// `entry` as a lookup hands it out: its lists as they are, its senses
/// numbered from zero in the order in which they stand.
pub open spec fn handed_out(entry: EntryView, ent_seq: int) -> EntryParsedView {
    EntryParsedView {
        ent_seq,
        rebs: entry.rebs,
        kebs: entry.kebs,
        senses: Seq::new(
            entry.senses.len(),
            |i: int|
                SenseParsedView {
                    sense_order: i,
                    pos: entry.senses[i].pos,
                    xref: entry.senses[i].xref,
                    gloss: entry.senses[i].gloss,
                },
        ),
    }
}

/// `word` is an element of the list of `entry` that `key` names.
pub open spec fn lists_word(entry: EntryView, key: SearchKey, word: Text) -> bool {
    match key {
        SearchKey::Reading => entry.rebs.contains(word),
        SearchKey::Kanji => entry.kebs matches Some(kebs) && kebs.contains(word),
    }
}

/// What is written comes back. Where the lists of an entry come back from
/// their encodings, a lookup takes the entry as it was written for a hit
/// exactly where the entry lists the word, and hands it out with its
/// lists as they were and its senses in their order.
pub proof fn lemma_written_comes_back(entry: EntryView, last_id: int, key: SearchKey, word: Text)
    requires
        planned(entry) is Some,
        lists_come_back(entry),
    ensures
        ({
            let write = planned(entry)->0;
            let held = stored(write, last_id);
            lookup(held.row, held.senses, key, word) == if lists_word(entry, key, word) {
                Lookup::Hit(handed_out(entry, write.entry.ent_seq))
            } else {
                Lookup::Miss
            }
        }),
{
    let write = planned(entry)->0;
    let held = stored(write, last_id);
    assert forall|i: int| 0 <= i < held.senses.len() implies parsed_sense(
        #[trigger] held.senses[i],
    ) == Some(handed_out(entry, write.entry.ent_seq).senses[i]) by {
        assert(comes_back(entry.senses[i].pos));
    }
    assert(assembled(held.row, held.senses) is Some);
    assert(assembled(held.row, held.senses)->0.senses =~= handed_out(
        entry,
        write.entry.ent_seq,
    ).senses);
}

/// Whether two lists hold the same strings in the same order.
pub fn same_list(left: &Vec<String>, right: &Vec<String>) -> (same: bool)
    ensures
        same == (left.deep_view() == right.deep_view()),
{
    if left.len() != right.len() {
        assert(left.deep_view().len() != right.deep_view().len());
        return false;
    }
    let mut i: usize = 0;
    while i < left.len()
        invariant
            i <= left.len(),
            left.len() == right.len(),
            forall|k: int| 0 <= k < i ==> #[trigger] left.deep_view()[k] == right.deep_view()[k],
        decreases left.len() - i,
    {
        if left[i] != right[i] {
            assert(left.deep_view()[i as int] != right.deep_view()[i as int]);
            return false;
        }
        i += 1;
    }
    assert(left.deep_view() =~= right.deep_view());
    true
}

/// Whether the encoding of `items` decodes to `items`: encodes, decodes
/// and compares.
pub fn comes_back_list(items: &Vec<String>) -> (yes: bool)
    ensures
        yes == comes_back(items.deep_view()),
{
    let text = encode_list(items);
    match decode_list(text.as_str()) {
        Some(back) => same_list(&back, items),
        None => false,
    }
}

/// Whether every list of `entry` comes back from its encoding.
pub fn entry_comes_back(entry: &Entry) -> (yes: bool)
    ensures
        yes == lists_come_back(entry@),
{
    if !comes_back_list(&entry.rebs) {
        return false;
    }
    match &entry.kebs {
        Some(kebs) => {
            if !comes_back_list(kebs) {
                return false;
            }
        },
        None => {},
    }
    let mut i: usize = 0;
    while i < entry.senses.len()
        invariant
            i <= entry.senses.len(),
            forall|k: int|
                0 <= k < i ==> comes_back((#[trigger] entry@.senses[k]).pos) && comes_back(
                    entry@.senses[k].xref,
                ) && comes_back(entry@.senses[k].gloss),
        decreases entry.senses.len() - i,
    {
        let sense = &entry.senses[i];
        assert(entry@.senses[i as int] == sense@);
        if !(comes_back_list(&sense.pos) && comes_back_list(&sense.xref) && comes_back_list(
            &sense.gloss,
        )) {
            return false;
        }
        i += 1;
    }
    true
}

/// Plans what is written for one entry, as `plan_entry` does, and makes
/// sure that it comes back: gives the plan only where every list of the
/// entry decodes from its encoding. A lookup then takes the entry as it
/// is written for a hit exactly where the entry lists the word, and hands
/// it out with its lists as they were and its senses in their order.
pub fn plan_entry_checked(entry: &Entry) -> (write: Option<EntryWrite>)
    ensures
        write is Some <==> planned(entry@) is Some && lists_come_back(entry@),
        write matches Some(w) ==> w@ == planned(entry@)->0,
        write matches Some(w) ==> forall|last_id: int, key: SearchKey, word: Text|
            #[trigger] lookup(stored(w@, last_id).row, stored(w@, last_id).senses, key, word)
                == if lists_word(entry@, key, word) {
                Lookup::Hit(handed_out(entry@, w@.entry.ent_seq))
            } else {
                Lookup::Miss
            },
{
    let write = match plan_entry(entry) {
        Some(write) => write,
        None => { return None; },
    };
    if !entry_comes_back(entry) {
        return None;
    }
    proof {
        assert forall|last_id: int, key: SearchKey, word: Text|
            #[trigger] lookup(
                stored(write@, last_id).row,
                stored(write@, last_id).senses,
                key,
                word,
            ) == if lists_word(entry@, key, word) {
                Lookup::Hit(handed_out(entry@, write@.entry.ent_seq))
            } else {
                Lookup::Miss
            } by {
            lemma_written_comes_back(entry@, last_id, key, word);
        }
    }
    Some(write)
}

} // verus!
