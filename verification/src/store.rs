//! The store: a table of entries, keyed by their identifier, and a table of
//! senses, each sense belonging to one entry. Here it is held in memory,
//! each entry together with its sense rows.

use crate::error::DictError;
use crate::ingest::{
    all_plannable, first_unplannable, plan_entries, plannable, planned, planned_all, refused,
    EntryWrite, EntryWriteView, SenseWriteView,
};
use crate::model::{
    Entry, EntryParsed, EntryParsedView, EntryRow, EntryRowView, EntryView, SenseRow,
    SenseRowView, Text,
};
use crate::query::{lookup, lookup_entry, Lookup, SearchKey};
use crate::round_trip::lemma_written_comes_back;
use vstd::prelude::*;

verus! {

/// An entry of the store as contracts see it: its row and its sense rows.
pub struct Stored {
    pub row: EntryRowView,
    pub senses: Seq<SenseRowView>,
}

/// The store as contracts see it: its entries in the order in which it
/// enumerates them, and the last identifier that it gave to a sense row.
pub struct StoreState {
    pub entries: Seq<Stored>,
    pub last_id: int,
}

/// The store that holds nothing and has given no identifier yet.
pub open spec fn empty_state() -> StoreState {
    StoreState { entries: Seq::empty(), last_id: 0 }
}

/// Some entry of `entries` has this identifier.
pub open spec fn holds(entries: Seq<Stored>, ent_seq: int) -> bool {
    exists|i: int| 0 <= i < entries.len() && (#[trigger] entries[i]).row.ent_seq == ent_seq
}

/// The sense rows that the store makes of the planned ones: it numbers
/// them on from the last identifier that it gave.
pub open spec fn numbered(senses: Seq<SenseWriteView>, last_id: int) -> Seq<SenseRowView> {
    Seq::new(
        senses.len(),
        |k: int|
            SenseRowView {
                id: last_id + 1 + k,
                ent_seq: senses[k].ent_seq,
                sense_order: senses[k].sense_order,
                pos: senses[k].pos,
                xref: senses[k].xref,
                gloss: senses[k].gloss,
            },
    )
}

/// The entry that the store holds once `write` has been written.
pub open spec fn stored(write: EntryWriteView, last_id: int) -> Stored {
    Stored { row: write.entry, senses: numbered(write.senses, last_id) }
}

/// The store after one entry has been written. An entry with the same
/// identifier is replaced where it stands, row and sense rows; a new one
/// goes to the end. Nothing else changes.
pub open spec fn written(state: StoreState, write: EntryWriteView) -> StoreState {
    let new = stored(write, state.last_id);
    StoreState {
        entries: if holds(state.entries, write.entry.ent_seq) {
            state.entries.map_values(
                |old: Stored|
                    if old.row.ent_seq == write.entry.ent_seq {
                        new
                    } else {
                        old
                    },
            )
        } else {
            state.entries.push(new)
        },
        last_id: state.last_id + write.senses.len(),
    }
}

/// The store after a batch has been written, the first entry first.
pub open spec fn ingested(state: StoreState, writes: Seq<EntryWriteView>) -> StoreState
    decreases writes.len(),
{
    if writes.len() == 0 {
        state
    } else {
        written(ingested(state, writes.drop_last()), writes.last())
    }
}

/// The number of sense rows that a batch writes.
pub open spec fn sense_total(writes: Seq<EntryWriteView>) -> int
    decreases writes.len(),
{
    if writes.len() == 0 {
        0
    } else {
        sense_total(writes.drop_last()) + writes.last().senses.len()
    }
}

/// The sense rows of `write` name its entry and count from zero.
pub open spec fn shaped(write: EntryWriteView) -> bool {
    forall|k: int|
        0 <= k < write.senses.len() ==> (#[trigger] write.senses[k]).ent_seq
            == write.entry.ent_seq && write.senses[k].sense_order == k
}

/// The rules of the store. No two entries have the same identifier. A
/// sense row belongs to the entry that holds it, and stands at the place
/// that its order names. No two sense rows have the same identifier, and
/// none has one beyond the last that was given.
pub open spec fn well_formed(state: StoreState) -> bool {
    &&& 0 <= state.last_id <= i64::MAX
    &&& forall|i: int, j: int|
        0 <= i < j < state.entries.len() ==> (#[trigger] state.entries[i]).row.ent_seq != (
        #[trigger] state.entries[j]).row.ent_seq
    &&& forall|i: int, k: int|
        0 <= i < state.entries.len() && 0 <= k < state.entries[i].senses.len() ==> {
            let sense = #[trigger] state.entries[i].senses[k];
            &&& sense.ent_seq == state.entries[i].row.ent_seq
            &&& sense.sense_order == k
            &&& 1 <= sense.id <= state.last_id
        }
    &&& forall|i: int, k: int, j: int, l: int|
        0 <= i < state.entries.len() && 0 <= k < state.entries[i].senses.len() && 0 <= j
            < state.entries.len() && 0 <= l < state.entries[j].senses.len() && (
        #[trigger] state.entries[i].senses[k]).id == (#[trigger] state.entries[j].senses[l]).id
            ==> i == j && k == l
}

/// Writing a well-shaped entry keeps the rules of the store, as long as
/// identifiers are left for its sense rows.
pub proof fn lemma_written_well_formed(state: StoreState, write: EntryWriteView)
    requires
        well_formed(state),
        shaped(write),
        state.last_id + write.senses.len() <= i64::MAX,
    ensures
        well_formed(written(state, write)),
{
    let after = written(state, write);
    let key = write.entry.ent_seq;
    let new = stored(write, state.last_id);
    assert forall|i: int| 0 <= i < after.entries.len() implies (#[trigger] after.entries[i] == new
        && after.entries[i].row.ent_seq == key) || (i < state.entries.len() && after.entries[i]
        == state.entries[i] && state.entries[i].row.ent_seq != key) by {
        if holds(state.entries, key) {
        } else {
            if i < state.entries.len() {
                assert(state.entries[i].row.ent_seq != key);
            }
        }
    }
    assert forall|i: int, j: int| 0 <= i < j < after.entries.len() implies (
    #[trigger] after.entries[i]).row.ent_seq != (#[trigger] after.entries[j]).row.ent_seq by {
        if holds(state.entries, key) {
            assert(state.entries[i].row.ent_seq != state.entries[j].row.ent_seq);
        }
    }
}

/// The entry is held as it was planned for an entry that can be written.
pub open spec fn as_written(held: Stored) -> bool {
    exists|entry: EntryView, last_id: int|
        plannable(entry) && #[trigger] stored(planned(entry)->0, last_id) == held
}

/// Every entry of the store is held as it was planned for an entry that
/// can be written: the store holds nothing else.
pub open spec fn all_as_written(entries: Seq<Stored>) -> bool {
    forall|i: int| 0 <= i < entries.len() ==> as_written(#[trigger] entries[i])
}

/// What is planned for an entry is well-shaped.
pub proof fn lemma_planned_shaped(entry: EntryView)
    requires
        planned(entry) is Some,
    ensures
        shaped(planned(entry)->0),
{
}

/// Writing what is planned for an entry that can be written leaves the
/// store holding nothing but such entries.
pub proof fn lemma_written_as_written(state: StoreState, entry: EntryView)
    requires
        all_as_written(state.entries),
        plannable(entry),
    ensures
        all_as_written(written(state, planned(entry)->0).entries),
{
    let write = planned(entry)->0;
    let after = written(state, write);
    let new = stored(write, state.last_id);
    assert(as_written(new));
    assert forall|i: int| 0 <= i < after.entries.len() implies as_written(
        #[trigger] after.entries[i],
    ) by {
        if after.entries[i] != new {
            assert(after.entries[i] == state.entries[i]);
        }
    }
}

/// An entry that is held as it was written breaks no lookup.
pub proof fn lemma_as_written_is_sound(held: Stored, key: SearchKey, word: Text)
    requires
        as_written(held),
    ensures
        !(lookup(held.row, held.senses, key, word) is Broken),
{
    let (entry, last_id) = choose|entry: EntryView, last_id: int|
        plannable(entry) && #[trigger] stored(planned(entry)->0, last_id) == held;
    lemma_written_comes_back(entry, last_id, key, word);
}

/// The entries that a lookup of `word` hands out, in the order of the
/// store: those that are hits.
pub open spec fn hits(entries: Seq<Stored>, key: SearchKey, word: Text) -> Seq<EntryParsedView>
    decreases entries.len(),
{
    if entries.len() == 0 {
        Seq::empty()
    } else {
        let before = hits(entries.drop_last(), key, word);
        match lookup(entries.last().row, entries.last().senses, key, word) {
            Lookup::Hit(entry) => before.push(entry),
            _ => before,
        }
    }
}

/// The number of sense rows of a part of a batch is no more than that of
/// the whole.
proof fn lemma_sense_total_grows(writes: Seq<EntryWriteView>, n: int)
    requires
        0 <= n <= writes.len(),
    ensures
        0 <= sense_total(writes.take(n)) <= sense_total(writes),
    decreases writes.len(),
{
    if n == writes.len() {
        assert(writes.take(n) == writes);
        if writes.len() > 0 {
            lemma_sense_total_grows(writes.drop_last(), n - 1);
            assert(writes.drop_last().take(n - 1) == writes.drop_last());
        }
    } else {
        lemma_sense_total_grows(writes.drop_last(), n);
        assert(writes.drop_last().take(n) == writes.take(n));
    }
}

/// Whether `done` is the outcome that writing a batch owes, and `after`
/// the store that it leaves. A batch is written as a whole or not at all:
/// where an entry cannot be written, or the store has too few identifiers
/// left for the sense rows, the store stays as it was.
pub open spec fn ingestion(
    before: StoreState,
    entries: Seq<EntryView>,
    done: Result<(), DictError>,
    after: StoreState,
) -> bool {
    match done {
        Ok(_) => {
            &&& all_plannable(entries)
            &&& before.last_id + sense_total(planned_all(entries)) <= i64::MAX
            &&& after == ingested(before, planned_all(entries))
        },
        Err(DictError::SenseIds) => {
            &&& all_plannable(entries)
            &&& before.last_id + sense_total(planned_all(entries)) > i64::MAX
            &&& after == before
        },
        Err(e) => {
            &&& exists|index: usize|
                first_unplannable(entries, index as int) && e == refused(
                    entries[index as int],
                    index,
                )
            &&& after == before
        },
    }
}

/// An entry as the store holds it.
struct StoredEntry {
    row: EntryRow,
    senses: Vec<SenseRow>,
}

impl View for StoredEntry {
    type V = Stored;

    closed spec fn view(&self) -> Stored {
        Stored { row: self.row@, senses: self.senses.deep_view() }
    }
}

/// The dictionary store, held in memory.
pub struct DictDb {
    entries: Vec<StoredEntry>,
    last_id: i64,
}

impl View for DictDb {
    type V = StoreState;

    closed spec fn view(&self) -> StoreState {
        StoreState {
            entries: self.entries@.map_values(|e: StoredEntry| e@),
            last_id: self.last_id as int,
        }
    }
}

impl DictDb {
    #[verifier::type_invariant]
    spec fn rules(self) -> bool {
        well_formed(self@) && all_as_written(self@.entries)
    }

    /// A store that holds nothing.
    pub fn new() -> (db: Self)
        ensures
            db@ == empty_state(),
    {
        let db = DictDb { entries: Vec::new(), last_id: 0 };
        assert(db@.entries =~= Seq::<Stored>::empty());
        db
    }

    /// Resets the store: what it held is gone, and identifiers are given
    /// anew from the start. A store that holds nothing stays as it is.
    pub fn reset_database(&mut self)
        ensures
            final(self)@ == empty_state(),
    {
        *self = DictDb::new();
    }

    /// The number of entries that the store holds.
    pub fn entry_count(&self) -> (n: usize)
        ensures
            n == self@.entries.len(),
    {
        self.entries.len()
    }

    /// Whether identifiers are left for all the sense rows of a batch.
    fn fits(&self, writes: &Vec<EntryWrite>) -> (enough: bool)
        ensures
            enough == (self@.last_id + sense_total(writes.deep_view()) <= i64::MAX),
    {
        proof {
            use_type_invariant(self);
        }
        let ghost all = writes.deep_view();
        let mut left: i64 = i64::MAX - self.last_id;
        let mut i: usize = 0;
        while i < writes.len()
            invariant
                i <= writes.len(),
                all == writes.deep_view(),
                0 <= left,
                left == i64::MAX - self@.last_id - sense_total(all.take(i as int)),
            decreases writes.len() - i,
        {
            let count = writes[i].senses.len();
            proof {
                assert(all.take(i + 1).drop_last() == all.take(i as int));
                assert(all.take(i + 1).last().senses.len() == count);
                lemma_sense_total_grows(all, i + 1);
            }
            if count as u64 > left as u64 {
                return false;
            }
            left = left - count as i64;
            i += 1;
        }
        assert(all.take(all.len() as int) == all);
        true
    }

    /// Writes one entry in place of whatever the store held under its
    /// identifier.
    fn write(&mut self, write: &EntryWrite, source: Ghost<EntryView>)
        requires
            plannable(source@),
            write@ == planned(source@)->0,
            old(self)@.last_id + write@.senses.len() <= i64::MAX,
        ensures
            final(self)@ == written(old(self)@, write@),
    {
        proof {
            use_type_invariant(&*self);
            lemma_planned_shaped(source@);
            lemma_written_well_formed(self@, write@);
            lemma_written_as_written(self@, source@);
        }
        let ghost before = self@;
        let ghost new = stored(write@, before.last_id);
        let mut senses: Vec<SenseRow> = Vec::new();
        let mut k: usize = 0;
        while k < write.senses.len()
            invariant
                k <= write.senses.len(),
                senses.len() == k,
                self@ == before,
                shaped(write@),
                new == stored(write@, before.last_id),
                before.last_id + write@.senses.len() <= i64::MAX,
                0 <= before.last_id,
                forall|n: int| 0 <= n < k ==> (#[trigger] senses[n])@ == new.senses[n],
            decreases write.senses.len() - k,
        {
            let planned = &write.senses[k];
            assert(write@.senses[k as int] == planned@);
            senses.push(
                SenseRow {
                    id: self.last_id + 1 + k as i64,
                    ent_seq: planned.ent_seq,
                    sense_order: planned.sense_order as i64,
                    pos: planned.pos.clone(),
                    xref: planned.xref.clone(),
                    gloss: planned.gloss.clone(),
                },
            );
            k += 1;
        }
        let kebs = match &write.entry.kebs {
            Some(text) => Some(text.clone()),
            None => None,
        };
        let entry = StoredEntry {
            row: EntryRow { ent_seq: write.entry.ent_seq, rebs: write.entry.rebs.clone(), kebs },
            senses,
        };
        assert(entry@.senses =~= new.senses);
        assert(entry@ == new);
        let mut at: usize = 0;
        let mut found: bool = false;
        while at < self.entries.len()
            invariant_except_break
                !found,
            invariant
                at <= self.entries.len(),
                self@ == before,
                forall|n: int|
                    0 <= n < at ==> (#[trigger] before.entries[n]).row.ent_seq
                        != write@.entry.ent_seq,
            ensures
                found ==> at < self.entries.len() && before.entries[at as int].row.ent_seq == write@.entry.ent_seq,
                !found ==> !holds(before.entries, write@.entry.ent_seq),
                self@ == before,
            decreases self.entries.len() - at,
        {
            if self.entries[at].row.ent_seq == write.entry.ent_seq {
                found = true;
                break;
            }
            at += 1;
        }
        let ghost after = written(before, write@);
        let last_id = self.last_id + write.senses.len() as i64;
        let mut entries: Vec<StoredEntry> = Vec::new();
        core::mem::swap(&mut self.entries, &mut entries);
        assert(entries@.map_values(|e: StoredEntry| e@) == before.entries);
        self.last_id = last_id;
        if found {
            assert(holds(before.entries, write@.entry.ent_seq));
            assert(after.entries =~= before.entries.update(at as int, new)) by {
                assert forall|n: int| 0 <= n < before.entries.len() && n != at implies (
                #[trigger] before.entries[n]).row.ent_seq != write@.entry.ent_seq by {
                    if n < at {
                        assert(before.entries[n].row.ent_seq != before.entries[at as int].row.ent_seq);
                    } else {
                        assert(before.entries[at as int].row.ent_seq != before.entries[n].row.ent_seq);
                    }
                }
            }
            entries.set(at, entry);
        } else {
            entries.push(entry);
        }
        assert(entries@.map_values(|e: StoredEntry| e@) =~= after.entries);
        self.entries = entries;
    }

    /// Writes a batch of entries, each in place of whatever the store held
    /// under its identifier, the first entry first. The batch is written as
    /// a whole or not at all.
    pub fn insert_entries(&mut self, entries: &Vec<Entry>) -> (done: Result<(), DictError>)
        ensures
            ingestion(old(self)@, entries.deep_view(), done, final(self)@),
            well_formed(final(self)@),
            all_as_written(final(self)@.entries),
    {
        proof {
            use_type_invariant(&*self);
        }
        let ghost before = self@;
        let writes = match plan_entries(entries) {
            Ok(writes) => writes,
            Err(e) => { return Err(e); },
        };
        if !self.fits(&writes) {
            return Err(DictError::SenseIds);
        }
        let ghost all = writes.deep_view();
        let mut i: usize = 0;
        while i < writes.len()
            invariant
                i <= writes.len(),
                all == writes.deep_view(),
                all == planned_all(entries.deep_view()),
                all_plannable(entries.deep_view()),
                before.last_id + sense_total(all) <= i64::MAX,
                self@ == ingested(before, all.take(i as int)),
                self@.last_id == before.last_id + sense_total(all.take(i as int)),
            decreases writes.len() - i,
        {
            proof {
                assert(all.take(i + 1).drop_last() == all.take(i as int));
                assert(all.take(i + 1).last() == writes[i as int]@);
                lemma_sense_total_grows(all, i + 1);
                assert(plannable(entries.deep_view()[i as int]));
                assert(all[i as int] == planned(entries.deep_view()[i as int])->0);
            }
            self.write(&writes[i], Ghost(entries.deep_view()[i as int]));
            i += 1;
        }
        proof {
            assert(all.take(all.len() as int) == all);
            use_type_invariant(&*self);
        }
        Ok(())
    }

    /// Looks `word` up in the column that `key` names.
    fn search(&self, key: SearchKey, word: &str) -> (found: Result<Vec<EntryParsed>, DictError>)
        ensures
            found is Ok,
            found matches Ok(list) ==> list.deep_view() == hits(self@.entries, key, word@),
    {
        proof {
            use_type_invariant(self);
        }
        let ghost all = self@.entries;
        let mut list: Vec<EntryParsed> = Vec::new();
        let mut i: usize = 0;
        while i < self.entries.len()
            invariant
                i <= self.entries.len(),
                all == self@.entries,
                all_as_written(all),
                list.deep_view() == hits(all.take(i as int), key, word@),
            decreases self.entries.len() - i,
        {
            let entry = &self.entries[i];
            proof {
                assert(all.take(i + 1).drop_last() == all.take(i as int));
                assert(all.take(i + 1).last() == entry@);
                assert(all[i as int] == entry@);
                lemma_as_written_is_sound(entry@, key, word@);
            }
            let ghost had = list.deep_view();
            match lookup_entry(&entry.row, &entry.senses, key, word) {
                Ok(Some(parsed)) => {
                    list.push(parsed);
                    assert(list.deep_view() =~= had.push(parsed@));
                },
                Ok(None) => {},
                // The store holds only what it wrote, which always decodes:
                // this arm is never taken.
                Err(e) => {
                    return Err(e);
                },
            }
            i += 1;
        }
        assert(all.take(all.len() as int) == all);
        Ok(list)
    }

    /// Finds the entries that have `reading` among their readings, equal
    /// to it character by character, each with its senses in the order of
    /// their meaning. The lookup does not fail: where nothing matches, the
    /// list is empty.
    pub fn search_entries_with_senses_by_reading(&self, reading: &str) -> (found: Result<
        Vec<EntryParsed>,
        DictError,
    >)
        ensures
            found is Ok,
            found matches Ok(list) ==> list.deep_view() == hits(
                self@.entries,
                SearchKey::Reading,
                reading@,
            ),
            well_formed(self@),
            all_as_written(self@.entries),
    {
        proof {
            use_type_invariant(self);
        }
        self.search(SearchKey::Reading, reading)
    }

    /// Finds the entries that have `kanji` among their kanji spellings,
    /// equal to it character by character, each with its senses in the
    /// order of their meaning. An entry without kanji spellings is never
    /// among them. The lookup does not fail: where nothing matches, the
    /// list is empty.
    pub fn search_entries_with_senses_by_kanji(&self, kanji: &str) -> (found: Result<
        Vec<EntryParsed>,
        DictError,
    >)
        ensures
            found is Ok,
            found matches Ok(list) ==> list.deep_view() == hits(
                self@.entries,
                SearchKey::Kanji,
                kanji@,
            ),
            well_formed(self@),
            all_as_written(self@.entries),
    {
        proof {
            use_type_invariant(self);
        }
        self.search(SearchKey::Kanji, kanji)
    }
}

} // verus!
