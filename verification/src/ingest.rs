//! Planning what is written for an entry: its row, and one row for each of
//! its senses. An entry is written as a whole, in place of whatever the
//! store held under its identifier.

use crate::error::DictError;
use crate::json::{encode_list, list_encoding};
use crate::model::{Entry, EntryRow, EntryRowView, EntryView, Sense, SenseView, Text};
use crate::number::{numeral_i64, parse_i64};
use crate::round_trip::{lists_come_back, plan_entry_checked};
use vstd::prelude::*;

verus! {

/// The row of one sense, before the store has given it an identifier.
#[derive(Debug)]
pub struct SenseWrite {
    pub ent_seq: i64,
    /// The place of the sense among the senses of its entry, from zero.
    pub sense_order: u64,
    pub pos: String,
    pub xref: String,
    pub gloss: String,
}

/// A `SenseWrite` as contracts see it.
pub struct SenseWriteView {
    pub ent_seq: int,
    pub sense_order: int,
    pub pos: Text,
    pub xref: Text,
    pub gloss: Text,
}

impl DeepView for SenseWrite {
    type V = SenseWriteView;

    open spec fn deep_view(&self) -> SenseWriteView {
        SenseWriteView {
            ent_seq: self.ent_seq as int,
            sense_order: self.sense_order as int,
            pos: self.pos@,
            xref: self.xref@,
            gloss: self.gloss@,
        }
    }
}

impl View for SenseWrite {
    type V = SenseWriteView;

    open spec fn view(&self) -> SenseWriteView {
        self.deep_view()
    }
}

/// All that is written for one entry: the row of the entry, which takes the
/// place of a row with the same identifier, and the rows of its senses,
/// which take the place of all the sense rows of that identifier.
#[derive(Debug)]
pub struct EntryWrite {
    pub entry: EntryRow,
    pub senses: Vec<SenseWrite>,
}

/// An `EntryWrite` as contracts see it.
pub struct EntryWriteView {
    pub entry: EntryRowView,
    pub senses: Seq<SenseWriteView>,
}

impl DeepView for EntryWrite {
    type V = EntryWriteView;

    open spec fn deep_view(&self) -> EntryWriteView {
        EntryWriteView { entry: self.entry.deep_view(), senses: self.senses.deep_view() }
    }
}

impl View for EntryWrite {
    type V = EntryWriteView;

    open spec fn view(&self) -> EntryWriteView {
        self.deep_view()
    }
}

/// The row of the sense that stands at place `order` in the entry
/// `ent_seq`.
pub open spec fn planned_sense(ent_seq: int, order: int, sense: SenseView) -> SenseWriteView {
    SenseWriteView {
        ent_seq,
        sense_order: order,
        pos: list_encoding(sense.pos),
        xref: list_encoding(sense.xref),
        gloss: list_encoding(sense.gloss),
    }
}

/// The encoded list of kanji spellings, where the entry has any.
pub open spec fn planned_kebs(kebs: Option<Seq<Seq<char>>>) -> Option<Text> {
    match kebs {
        Some(list) => Some(list_encoding(list)),
        None => None,
    }
}

/// What is written for `entry`, or nothing where its identifier is no
/// integer of 64 bits.
pub open spec fn planned(entry: EntryView) -> Option<EntryWriteView> {
    match numeral_i64(entry.ent_seq) {
        Some(ent_seq) => Some(
            EntryWriteView {
                entry: EntryRowView {
                    ent_seq: ent_seq as int,
                    rebs: list_encoding(entry.rebs),
                    kebs: planned_kebs(entry.kebs),
                },
                senses: Seq::new(
                    entry.senses.len(),
                    |order: int| planned_sense(ent_seq as int, order, entry.senses[order]),
                ),
            },
        ),
        None => None,
    }
}

/// The entry can be written: its identifier can be read, and each of its
/// lists decodes from its encoding.
pub open spec fn plannable(entry: EntryView) -> bool {
    planned(entry) is Some && lists_come_back(entry)
}

/// Every entry of the batch can be written.
pub open spec fn all_plannable(entries: Seq<EntryView>) -> bool {
    forall|i: int| 0 <= i < entries.len() ==> plannable(#[trigger] entries[i])
}

/// What is written for a batch whose entries can all be written, entry by
/// entry.
pub open spec fn planned_all(entries: Seq<EntryView>) -> Seq<EntryWriteView> {
    Seq::new(entries.len(), |i: int| planned(entries[i])->0)
}

/// The entry at `index` is the first of the batch that cannot be written.
pub open spec fn first_unplannable(entries: Seq<EntryView>, index: int) -> bool {
    &&& 0 <= index < entries.len()
    &&& !plannable(entries[index])
    &&& forall|k: int| 0 <= k < index ==> plannable(#[trigger] entries[k])
}

/// Why the entry at `index`, which cannot be written, is refused: for its
/// identifier where that cannot be read, else for its lists.
pub open spec fn refused(entry: EntryView, index: usize) -> DictError {
    if planned(entry) is None {
        DictError::EntSeq { index }
    } else {
        DictError::Codec { index }
    }
}

fn plan_sense(ent_seq: i64, order: u64, sense: &Sense) -> (row: SenseWrite)
    ensures
        row@ == planned_sense(ent_seq as int, order as int, sense@),
{
    SenseWrite {
        ent_seq,
        sense_order: order,
        pos: encode_list(&sense.pos),
        xref: encode_list(&sense.xref),
        gloss: encode_list(&sense.gloss),
    }
}

/// Plans what is written for one entry: reads the identifier, encodes the
/// lists, and numbers the senses from zero in the order in which they
/// stand. Gives nothing where the identifier cannot be read.
pub fn plan_entry(entry: &Entry) -> (write: Option<EntryWrite>)
    ensures
        write.deep_view() == planned(entry@),
{
    let ent_seq = match parse_i64(entry.ent_seq.as_str()) {
        Some(ent_seq) => ent_seq,
        None => { return None; },
    };
    let rebs = encode_list(&entry.rebs);
    let kebs = match &entry.kebs {
        Some(list) => Some(encode_list(list)),
        None => None,
    };
    let mut senses: Vec<SenseWrite> = Vec::new();
    let mut order: usize = 0;
    while order < entry.senses.len()
        invariant
            order <= entry.senses.len(),
            senses.len() == order,
            forall|k: int|
                0 <= k < order ==> (#[trigger] senses[k])@ == planned_sense(
                    ent_seq as int,
                    k,
                    entry@.senses[k],
                ),
        decreases entry.senses.len() - order,
    {
        let row = plan_sense(ent_seq, order as u64, &entry.senses[order]);
        senses.push(row);
        order += 1;
    }
    let write = EntryWrite { entry: EntryRow { ent_seq, rebs, kebs }, senses };
    assert(write@.senses =~= planned(entry@)->0.senses);
    Some(write)
}

/// Plans what is written for a batch, entry by entry, and makes sure of
/// each entry that its lists decode from their encodings, or reports the
/// first entry that cannot be written: a batch is written as a whole or
/// not at all.
pub fn plan_entries(entries: &Vec<Entry>) -> (plan: Result<Vec<EntryWrite>, DictError>)
    ensures
        match plan {
            Ok(writes) => all_plannable(entries.deep_view()) && writes.deep_view() == planned_all(
                entries.deep_view(),
            ),
            Err(e) => exists|index: usize|
                first_unplannable(entries.deep_view(), index as int) && e == refused(
                    entries.deep_view()[index as int],
                    index,
                ),
        },
{
    let mut writes: Vec<EntryWrite> = Vec::new();
    let mut i: usize = 0;
    while i < entries.len()
        invariant
            i <= entries.len(),
            writes.len() == i,
            forall|k: int| 0 <= k < i ==> plannable(#[trigger] entries.deep_view()[k]),
            forall|k: int|
                0 <= k < i ==> planned(#[trigger] entries.deep_view()[k]) == Some(writes[k]@),
        decreases entries.len() - i,
    {
        assert(entries.deep_view()[i as int] == entries[i as int]@);
        match plan_entry_checked(&entries[i]) {
            Some(write) => {
                writes.push(write);
            },
            None => {
                assert(first_unplannable(entries.deep_view(), i as int));
                if parse_i64(entries[i].ent_seq.as_str()).is_none() {
                    return Err(DictError::EntSeq { index: i });
                }
                return Err(DictError::Codec { index: i });
            },
        }
        i += 1;
    }
    assert(writes.deep_view() =~= planned_all(entries.deep_view()));
    Ok(writes)
}

} // verus!
