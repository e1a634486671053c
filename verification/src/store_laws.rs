//! What holds of the store whatever it holds: rewriting replaces, a lookup
//! by kanji never hands out an entry without kanji, senses come back in
//! their order, and an empty store answers nothing.

use crate::ingest::{all_plannable, plannable, planned, planned_all, EntryWriteView};
use crate::number::numeral_i64;
use crate::round_trip::{handed_out, lemma_written_comes_back, lists_word};
use crate::model::{EntryParsedView, EntryView, SenseRowView, Text};
use crate::query::{assembled, lookup, parsed_sense, Lookup, SearchKey};
use crate::store::{
    all_as_written, lemma_written_well_formed, empty_state, hits, holds, ingested, sense_total, shaped, stored, well_formed,
    written, StoreState, Stored,
};
use vstd::prelude::*;

verus! {

/// Writing a batch of one entry is writing that entry.
pub proof fn lemma_ingested_one(state: StoreState, write: EntryWriteView)
    ensures
        ingested(state, seq![write]) == written(state, write),
{
    assert(seq![write].drop_last() == Seq::<EntryWriteView>::empty());
    assert(ingested(state, seq![write].drop_last()) == state);
}

/// Writing never removes an entry: what the store held under an
/// identifier before, it holds under it afterwards, and it holds the
/// identifier just written.
pub proof fn lemma_written_keeps_entries(state: StoreState, write: EntryWriteView, ent_seq: int)
    requires
        holds(state.entries, ent_seq) || ent_seq == write.entry.ent_seq,
    ensures
        holds(written(state, write).entries, ent_seq),
{
    let after = written(state, write);
    if holds(state.entries, ent_seq) {
        let i = choose|i: int| 0 <= i < state.entries.len() && (#[trigger] state.entries[i]).row.ent_seq == ent_seq;
        assert(after.entries[i].row.ent_seq == ent_seq);
    } else {
        let last = after.entries.len() - 1;
        assert(after.entries[last].row.ent_seq == ent_seq);
    }
}

/// After an entry has been written, the store holds its identifier once,
/// with the row and the sense rows just written.
pub proof fn lemma_written_once(state: StoreState, write: EntryWriteView) -> (at: int)
    requires
        well_formed(state),
    ensures
        0 <= at < written(state, write).entries.len(),
        written(state, write).entries[at] == stored(write, state.last_id),
        forall|i: int|
            0 <= i < written(state, write).entries.len() && (#[trigger] written(
                state,
                write,
            ).entries[i]).row.ent_seq == write.entry.ent_seq ==> i == at,
{
    let after = written(state, write);
    let key = write.entry.ent_seq;
    if holds(state.entries, key) {
        let at = choose|i: int| 0 <= i < state.entries.len() && (#[trigger] state.entries[i]).row.ent_seq == key;
        assert forall|i: int| 0 <= i < after.entries.len() && (#[trigger] after.entries[i]).row.ent_seq
            == key implies i == at by {
            if i < at {
                assert(state.entries[i].row.ent_seq != state.entries[at].row.ent_seq);
            }
            if at < i {
                assert(state.entries[at].row.ent_seq != state.entries[i].row.ent_seq);
            }
        }
        at
    } else {
        let at = state.entries.len() as int;
        assert forall|i: int| 0 <= i < after.entries.len() && (#[trigger] after.entries[i]).row.ent_seq
            == key implies i == at by {
            if i < at {
                assert(state.entries[i].row.ent_seq != key);
            }
        }
        at
    }
}

/// Writing the same entry again replaces it. After two batches that each
/// hold one entry of the same identifier, the store holds one row of that
/// identifier, the second one, and with it the sense rows of the second
/// batch and no others.
pub proof fn lemma_rewritten_once(
    state: StoreState,
    first: EntryWriteView,
    second: EntryWriteView,
) -> (at: int)
    requires
        well_formed(state),
        first.entry.ent_seq == second.entry.ent_seq,
    ensures
        ({
            let after = ingested(ingested(state, seq![first]), seq![second]);
            &&& 0 <= at < after.entries.len()
            &&& after.entries[at] == stored(second, state.last_id + first.senses.len())
            &&& forall|i: int|
                0 <= i < after.entries.len() && (#[trigger] after.entries[i]).row.ent_seq
                    == second.entry.ent_seq ==> i == at
            &&& forall|i: int, k: int|
                0 <= i < after.entries.len() && 0 <= k < after.entries[i].senses.len() && (
                #[trigger] after.entries[i].senses[k]).ent_seq == second.entry.ent_seq ==> i == at
            &&& after.entries.len() == written(state, first).entries.len()
        }),
{
    lemma_ingested_one(state, first);
    let middle = written(state, first);
    lemma_ingested_one(middle, second);
    let once = lemma_written_once(state, first);
    let after = written(middle, second);
    let key = second.entry.ent_seq;
    let new = stored(second, middle.last_id);
    assert(middle.entries[once].row.ent_seq == key);
    assert(holds(middle.entries, key));
    assert(after.entries[once] == new);
    assert forall|i: int, k: int|
        0 <= i < after.entries.len() && 0 <= k < after.entries[i].senses.len() && (
        #[trigger] after.entries[i].senses[k]).ent_seq == key implies i == once by {
        if i != once {
            assert(middle.entries[i].row.ent_seq != key);
            assert(after.entries[i] == middle.entries[i]);
            assert(i < state.entries.len());
            assert(state.entries[i].row.ent_seq != key);
            assert(middle.entries[i] == state.entries[i]);
            assert(state.entries[i].senses[k].ent_seq == state.entries[i].row.ent_seq);
        }
    }
    once
}

/// A batch uses as many identifiers as it writes sense rows.
pub proof fn lemma_ingested_last_id(state: StoreState, writes: Seq<EntryWriteView>)
    ensures
        ingested(state, writes).last_id == state.last_id + sense_total(writes),
    decreases writes.len(),
{
    if writes.len() > 0 {
        lemma_ingested_last_id(state, writes.drop_last());
    }
}

/// Writing a batch of well-shaped entries keeps the rules of the store,
/// as long as identifiers are left for its sense rows.
pub proof fn lemma_ingested_well_formed(state: StoreState, writes: Seq<EntryWriteView>)
    requires
        well_formed(state),
        forall|i: int| 0 <= i < writes.len() ==> shaped(#[trigger] writes[i]),
        state.last_id + sense_total(writes) <= i64::MAX,
    ensures
        well_formed(ingested(state, writes)),
    decreases writes.len(),
{
    if writes.len() > 0 {
        let first = writes.drop_last();
        assert forall|i: int| 0 <= i < first.len() implies shaped(#[trigger] first[i]) by {
            assert(first[i] == writes[i]);
        }
        lemma_ingested_well_formed(state, first);
        lemma_ingested_last_id(state, first);
        assert(shaped(writes[writes.len() - 1]));
        lemma_written_well_formed(ingested(state, first), writes.last());
    }
}

/// What a batch writes, the store holds. After a batch, the store holds
/// each entry of the batch that no later entry of the batch replaces, with
/// the row and the sense rows that the batch gives it; the sense rows are
/// numbered on from those of the entries before it.
pub proof fn lemma_ingested_holds(state: StoreState, writes: Seq<EntryWriteView>, i: int) -> (at:
    int)
    requires
        0 <= i < writes.len(),
        forall|j: int|
            i < j < writes.len() ==> (#[trigger] writes[j]).entry.ent_seq
                != writes[i].entry.ent_seq,
    ensures
        0 <= at < ingested(state, writes).entries.len(),
        ingested(state, writes).entries[at] == stored(
            writes[i],
            state.last_id + sense_total(writes.take(i)),
        ),
    decreases writes.len(),
{
    let first = writes.drop_last();
    let middle = ingested(state, first);
    let last = writes.last();
    let after = written(middle, last);
    if i == writes.len() - 1 {
        lemma_ingested_last_id(state, first);
        assert(writes.take(i) == first);
        if holds(middle.entries, last.entry.ent_seq) {
            let at = choose|k: int| 0 <= k < middle.entries.len() && (#[trigger] middle.entries[k]).row.ent_seq == last.entry.ent_seq;
            assert(after.entries[at] == stored(last, middle.last_id));
            at
        } else {
            middle.entries.len() as int
        }
    } else {
        assert forall|j: int| i < j < first.len() implies (#[trigger] first[j]).entry.ent_seq
            != first[i].entry.ent_seq by {
            assert(first[j] == writes[j]);
        }
        let at = lemma_ingested_holds(state, first, i);
        assert(first.take(i) == writes.take(i));
        assert(writes[writes.len() - 1].entry.ent_seq != writes[i].entry.ent_seq);
        assert(middle.entries[at].row.ent_seq == writes[i].entry.ent_seq);
        assert(after.entries[at] == middle.entries[at]);
        at
    }
}

/// Every entry that a lookup hands out is the entry that some entry of
/// the store makes.
pub proof fn lemma_hit_has_source(entries: Seq<Stored>, key: SearchKey, word: Text, n: int) -> (at:
    int)
    requires
        0 <= n < hits(entries, key, word).len(),
    ensures
        0 <= at < entries.len(),
        lookup(entries[at].row, entries[at].senses, key, word) == Lookup::Hit(
            hits(entries, key, word)[n],
        ),
    decreases entries.len(),
{
    let before = hits(entries.drop_last(), key, word);
    if n < before.len() {
        lemma_hit_has_source(entries.drop_last(), key, word, n)
    } else {
        entries.len() - 1
    }
}

/// An entry without kanji spellings is written with an empty column, and
/// no lookup by kanji takes it for a hit, whatever it asks for.
pub proof fn lemma_without_kanji_is_missed(
    entry: EntryView,
    senses: Seq<SenseRowView>,
    kanji: Text,
)
    requires
        entry.kebs is None,
        planned(entry) is Some,
    ensures
        planned(entry)->0.entry.kebs is None,
        lookup(planned(entry)->0.entry, senses, SearchKey::Kanji, kanji) is Miss,
{
}

/// A lookup by kanji never hands out an entry that the store holds
/// without kanji spellings.
pub proof fn lemma_without_kanji_never_found(state: StoreState, at: int, kanji: Text, n: int)
    requires
        well_formed(state),
        0 <= at < state.entries.len(),
        state.entries[at].row.kebs is None,
        0 <= n < hits(state.entries, SearchKey::Kanji, kanji).len(),
    ensures
        hits(state.entries, SearchKey::Kanji, kanji)[n].ent_seq != state.entries[at].row.ent_seq,
{
    let source = lemma_hit_has_source(state.entries, SearchKey::Kanji, kanji, n);
    let from = state.entries[source];
    assert(assembled(from.row, from.senses) is Some);
    if source < at {
        assert(state.entries[source].row.ent_seq != state.entries[at].row.ent_seq);
    }
    if at < source {
        assert(state.entries[at].row.ent_seq != state.entries[source].row.ent_seq);
    }
}

/// The senses of an entry that a lookup hands out stand in the order of
/// their meaning: each at the place that its order names.
pub proof fn lemma_hits_keep_sense_order(
    state: StoreState,
    key: SearchKey,
    word: Text,
    n: int,
    k: int,
)
    requires
        well_formed(state),
        0 <= n < hits(state.entries, key, word).len(),
        0 <= k < hits(state.entries, key, word)[n].senses.len(),
    ensures
        hits(state.entries, key, word)[n].senses[k].sense_order == k,
{
    let source = lemma_hit_has_source(state.entries, key, word, n);
    let from = state.entries[source];
    assert(assembled(from.row, from.senses) is Some);
    assert(parsed_sense(from.senses[k]) is Some);
    assert(state.entries[source].senses[k].sense_order == k);
}

/// An empty store answers every lookup with nothing.
pub proof fn lemma_empty_store_finds_nothing(key: SearchKey, word: Text)
    ensures
        hits(empty_state().entries, key, word) == Seq::<EntryParsedView>::empty(),
{
}

/// An entry that is a hit is among the entries that the lookup hands out.
pub proof fn lemma_hit_is_found(entries: Seq<Stored>, key: SearchKey, word: Text, at: int) -> (n:
    int)
    requires
        0 <= at < entries.len(),
        lookup(entries[at].row, entries[at].senses, key, word) is Hit,
    ensures
        0 <= n < hits(entries, key, word).len(),
        Lookup::Hit(hits(entries, key, word)[n]) == lookup(
            entries[at].row,
            entries[at].senses,
            key,
            word,
        ),
    decreases entries.len(),
{
    let before = hits(entries.drop_last(), key, word);
    if at == entries.len() - 1 {
        before.len() as int
    } else {
        let n = lemma_hit_is_found(entries.drop_last(), key, word, at);
        match lookup(entries.last().row, entries.last().senses, key, word) {
            Lookup::Hit(entry) => {
                assert(before.push(entry)[n] == before[n]);
            },
            _ => {},
        }
        n
    }
}

/// What is ingested is found as it was. After a batch has been written,
/// a lookup of a word that an entry of the batch lists hands that entry
/// out, with its lists as they were and its senses in their order, unless
/// a later entry of the batch has taken its place.
pub proof fn lemma_ingested_is_found(
    state: StoreState,
    entries: Seq<EntryView>,
    i: int,
    key: SearchKey,
    word: Text,
) -> (n: int)
    requires
        all_plannable(entries),
        0 <= i < entries.len(),
        forall|j: int|
            i < j < entries.len() ==> numeral_i64((#[trigger] entries[j]).ent_seq) != numeral_i64(
                entries[i].ent_seq,
            ),
        lists_word(entries[i], key, word),
    ensures
        0 <= n < hits(ingested(state, planned_all(entries)).entries, key, word).len(),
        hits(ingested(state, planned_all(entries)).entries, key, word)[n] == handed_out(
            entries[i],
            numeral_i64(entries[i].ent_seq)->0 as int,
        ),
{
    let writes = planned_all(entries);
    assert(plannable(entries[i]));
    assert forall|j: int| i < j < writes.len() implies (#[trigger] writes[j]).entry.ent_seq
        != writes[i].entry.ent_seq by {
        assert(plannable(entries[j]));
        assert(numeral_i64(entries[j].ent_seq) != numeral_i64(entries[i].ent_seq));
    }
    let at = lemma_ingested_holds(state, writes, i);
    let last_id = state.last_id + sense_total(writes.take(i));
    lemma_written_comes_back(entries[i], last_id, key, word);
    lemma_hit_is_found(ingested(state, writes).entries, key, word, at)
}

/// Whatever a lookup hands out is an entry as it was written: some entry
/// that lists the word, with its lists as they were and its senses in
/// their order.
pub proof fn lemma_found_is_as_written(entries: Seq<Stored>, key: SearchKey, word: Text, n: int) -> (entry:
    EntryView)
    requires
        all_as_written(entries),
        0 <= n < hits(entries, key, word).len(),
    ensures
        plannable(entry),
        lists_word(entry, key, word),
        hits(entries, key, word)[n] == handed_out(entry, numeral_i64(entry.ent_seq)->0 as int),
{
    let at = lemma_hit_has_source(entries, key, word, n);
    let held = entries[at];
    let (entry, last_id) = choose|entry: EntryView, last_id: int|
        plannable(entry) && #[trigger] stored(planned(entry)->0, last_id) == held;
    lemma_written_comes_back(entry, last_id, key, word);
    entry
}

} // verus!
