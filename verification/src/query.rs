//! Reading rows back: whether a row is the one that a lookup asks for, and
//! the entry that a row and its sense rows make.

use crate::error::DictError;
use crate::json::{decode_list, list_decoding};
use crate::model::{
    EntryParsed, EntryParsedView, EntryRow, EntryRowView, SenseParsed, SenseParsedView, SenseRow,
    SenseRowView, Text, TextList,
};
use vstd::prelude::*;

verus! {

/// The column by which a lookup finds entries.
#[derive(Debug, Clone, Copy, PartialEq, Eq, Structural)]
pub enum SearchKey {
    /// The list of readings.
    Reading,
    /// The list of kanji spellings.
    Kanji,
}

/// The sense that a sense row holds, where its three list columns decode.
pub open spec fn parsed_sense(row: SenseRowView) -> Option<SenseParsedView> {
    if list_decoding(row.pos) is Some && list_decoding(row.xref) is Some && list_decoding(
        row.gloss,
    ) is Some {
        Some(
            SenseParsedView {
                sense_order: row.sense_order,
                pos: list_decoding(row.pos)->0,
                xref: list_decoding(row.xref)->0,
                gloss: list_decoding(row.gloss)->0,
            },
        )
    } else {
        None
    }
}

/// The kanji spellings that an entry row holds: none for an empty column,
/// and no answer where the column does not decode.
pub open spec fn parsed_kebs(kebs: Option<Text>) -> Option<Option<TextList>> {
    match kebs {
        None => Some(None),
        Some(text) => match list_decoding(text) {
            Some(list) => Some(Some(list)),
            None => None,
        },
    }
}

/// Every sense row of the sequence decodes.
pub open spec fn senses_decode(senses: Seq<SenseRowView>) -> bool {
    forall|i: int| 0 <= i < senses.len() ==> parsed_sense(#[trigger] senses[i]) is Some
}

/// The entry that a row and its sense rows make, the senses in the order of
/// the rows, where every list column decodes.
pub open spec fn assembled(row: EntryRowView, senses: Seq<SenseRowView>) -> Option<
    EntryParsedView,
> {
    if list_decoding(row.rebs) is Some && parsed_kebs(row.kebs) is Some && senses_decode(senses) {
        Some(
            EntryParsedView {
                ent_seq: row.ent_seq,
                rebs: list_decoding(row.rebs)->0,
                kebs: parsed_kebs(row.kebs)->0,
                senses: Seq::new(senses.len(), |i: int| parsed_sense(senses[i])->0),
            },
        )
    } else {
        None
    }
}

/// What a lookup makes of one entry.
pub enum Lookup {
    /// The entry is not what the lookup asks for.
    Miss,
    /// The entry is what the lookup asks for.
    Hit(EntryParsedView),
    /// A list column that the lookup reads does not decode.
    Broken,
}

/// What a lookup of `word` makes of the entry with this row and these sense
/// rows. The entry is a hit where `word` is an element of the list that
/// the key names, equal to it character by character. An entry without
/// kanji spellings is a miss for every lookup by kanji.
pub open spec fn lookup(
    row: EntryRowView,
    senses: Seq<SenseRowView>,
    key: SearchKey,
    word: Text,
) -> Lookup {
    let column = match key {
        SearchKey::Reading => Some(row.rebs),
        SearchKey::Kanji => row.kebs,
    };
    match column {
        None => Lookup::Miss,
        Some(text) => match list_decoding(text) {
            None => Lookup::Broken,
            Some(list) => if list.contains(word) {
                match assembled(row, senses) {
                    Some(entry) => Lookup::Hit(entry),
                    None => Lookup::Broken,
                }
            } else {
                Lookup::Miss
            },
        },
    }
}

/// Whether `wanted` is an element of `items`.
pub fn list_contains(items: &Vec<String>, wanted: &str) -> (found: bool)
    ensures
        found == items.deep_view().contains(wanted@),
{
    let target = String::from_str(wanted);
    let ghost list = items.deep_view();
    let mut i: usize = 0;
    while i < items.len()
        invariant
            i <= items.len(),
            list == items.deep_view(),
            target@ == wanted@,
            forall|k: int| 0 <= k < i ==> #[trigger] list[k] != wanted@,
        decreases items.len() - i,
    {
        if items[i] == target {
            assert(list[i as int] == wanted@);
            return true;
        }
        i += 1;
    }
    false
}

fn parse_sense(row: &SenseRow) -> (sense: Option<SenseParsed>)
    ensures
        sense.deep_view() == parsed_sense(row@),
{
    let pos = match decode_list(row.pos.as_str()) {
        Some(pos) => pos,
        None => { return None; },
    };
    let xref = match decode_list(row.xref.as_str()) {
        Some(xref) => xref,
        None => { return None; },
    };
    let gloss = match decode_list(row.gloss.as_str()) {
        Some(gloss) => gloss,
        None => { return None; },
    };
    Some(SenseParsed { sense_order: row.sense_order, pos, xref, gloss })
}

/// Makes the entry that a lookup hands out from its row and its sense rows,
/// which the caller gives in the order of their `sense_order`. Fails where
/// a list column does not decode.
pub fn assemble_entry(row: &EntryRow, senses: &Vec<SenseRow>) -> (entry: Result<
    EntryParsed,
    DictError,
>)
    ensures
        match entry {
            Ok(parsed) => assembled(row@, senses.deep_view()) == Some(parsed@),
            Err(e) => assembled(row@, senses.deep_view()) is None && e == (DictError::Decode {
                ent_seq: row.ent_seq,
            }),
        },
{
    let failure = DictError::Decode { ent_seq: row.ent_seq };
    let rebs = match decode_list(row.rebs.as_str()) {
        Some(rebs) => rebs,
        None => { return Err(failure); },
    };
    let kebs = match &row.kebs {
        Some(text) => match decode_list(text.as_str()) {
            Some(kebs) => Some(kebs),
            None => { return Err(failure); },
        },
        None => None,
    };
    let ghost rows = senses.deep_view();
    let mut parsed: Vec<SenseParsed> = Vec::new();
    let mut i: usize = 0;
    while i < senses.len()
        invariant
            i <= senses.len(),
            rows == senses.deep_view(),
            failure == (DictError::Decode { ent_seq: row.ent_seq }),
            parsed.len() == i,
            forall|k: int| 0 <= k < i ==> parsed_sense(#[trigger] rows[k]) == Some(parsed[k]@),
        decreases senses.len() - i,
    {
        assert(rows[i as int] == senses[i as int]@);
        match parse_sense(&senses[i]) {
            Some(sense) => {
                parsed.push(sense);
            },
            None => {
                assert(parsed_sense(rows[i as int]) is None);
                return Err(failure);
            },
        }
        i += 1;
    }
    let entry = EntryParsed { ent_seq: row.ent_seq, rebs, kebs, senses: parsed };
    assert(entry@.senses =~= assembled(row@, rows)->0.senses);
    Ok(entry)
}

/// Looks one entry up: decides whether `word` is an element of the list
/// that `key` names, and where it is, makes the entry.
pub fn lookup_entry(row: &EntryRow, senses: &Vec<SenseRow>, key: SearchKey, word: &str) -> (found:
    Result<Option<EntryParsed>, DictError>)
    ensures
        match found {
            Ok(Some(parsed)) => lookup(row@, senses.deep_view(), key, word@) == Lookup::Hit(
                parsed@,
            ),
            Ok(None) => lookup(row@, senses.deep_view(), key, word@) is Miss,
            Err(e) => lookup(row@, senses.deep_view(), key, word@) is Broken && e == (
            DictError::Decode { ent_seq: row.ent_seq }),
        },
{
    let decoded = match key {
        SearchKey::Reading => decode_list(row.rebs.as_str()),
        SearchKey::Kanji => match &row.kebs {
            Some(text) => decode_list(text.as_str()),
            None => { return Ok(None); },
        },
    };
    let list = match decoded {
        Some(list) => list,
        None => { return Err(DictError::Decode { ent_seq: row.ent_seq }); },
    };
    if !list_contains(&list, word) {
        return Ok(None);
    }
    match assemble_entry(row, senses) {
        Ok(parsed) => Ok(Some(parsed)),
        Err(e) => Err(e),
    }
}

} // verus!
