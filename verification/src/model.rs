//! The records of the dictionary: entries as a document holds them, rows as
//! the store holds them, and entries as a lookup hands them out.

use crate::error::DictError;
use vstd::prelude::*;

verus! {

/// A text, as contracts see it.
pub type Text = Seq<char>;

/// An ordered list of texts, as contracts see it.
pub type TextList = Seq<Seq<char>>;

/// One meaning of an entry.
#[derive(Debug)]
pub struct Sense {
    /// The parts of speech of this sense.
    pub pos: Vec<String>,
    /// References to related entries.
    pub xref: Vec<String>,
    /// The meanings in the target language.
    pub gloss: Vec<String>,
}

/// A `Sense` as contracts see it.
pub struct SenseView {
    pub pos: TextList,
    pub xref: TextList,
    pub gloss: TextList,
}

impl DeepView for Sense {
    type V = SenseView;

    open spec fn deep_view(&self) -> SenseView {
        SenseView {
            pos: self.pos.deep_view(),
            xref: self.xref.deep_view(),
            gloss: self.gloss.deep_view(),
        }
    }
}

impl View for Sense {
    type V = SenseView;

    open spec fn view(&self) -> SenseView {
        self.deep_view()
    }
}

/// One headword group of the dictionary, as the document gives it. Its
/// senses count from zero in the order in which they stand.
#[derive(Debug)]
pub struct Entry {
    /// The identifier, still as text.
    pub ent_seq: String,
    /// The readings, in kana.
    pub rebs: Vec<String>,
    /// The kanji spellings, where the word has any.
    pub kebs: Option<Vec<String>>,
    /// The senses, the primary one first.
    pub senses: Vec<Sense>,
}

/// An `Entry` as contracts see it.
pub struct EntryView {
    pub ent_seq: Text,
    pub rebs: TextList,
    pub kebs: Option<TextList>,
    pub senses: Seq<SenseView>,
}

impl DeepView for Entry {
    type V = EntryView;

    open spec fn deep_view(&self) -> EntryView {
        EntryView {
            ent_seq: self.ent_seq@,
            rebs: self.rebs.deep_view(),
            kebs: self.kebs.deep_view(),
            senses: self.senses.deep_view(),
        }
    }
}

impl View for Entry {
    type V = EntryView;

    open spec fn view(&self) -> EntryView {
        self.deep_view()
    }
}

impl Entry {
    /// Whether the entry has a reading, as every entry of a document must.
    pub fn has_reading(&self) -> (yes: bool)
        ensures
            yes == (self@.rebs.len() > 0),
    {
        self.rebs.len() > 0
    }
}

/// A dictionary document: its entries in the order in which they stand.
#[derive(Debug)]
pub struct JMDict {
    pub entry: Vec<Entry>,
}

/// The entry at `index` is the first of the sequence that has no reading.
pub open spec fn first_without_reading(entries: Seq<EntryView>, index: int) -> bool {
    &&& 0 <= index < entries.len()
    &&& entries[index].rebs.len() == 0
    &&& forall|k: int| 0 <= k < index ==> (#[trigger] entries[k]).rebs.len() > 0
}

impl JMDict {
    /// Holds the document to the rule that every entry has a reading, and
    /// reports the first entry that breaks it.
    pub fn check(&self) -> (checked: Result<(), DictError>)
        ensures
            match checked {
                Ok(_) => forall|k: int|
                    0 <= k < self.entry.len() ==> (#[trigger] self.entry.deep_view()[k]).rebs.len()
                        > 0,
                Err(e) => exists|index: usize|
                    e == (DictError::Reading { index }) && first_without_reading(
                        self.entry.deep_view(),
                        index as int,
                    ),
            },
    {
        let ghost entries = self.entry.deep_view();
        let mut i: usize = 0;
        while i < self.entry.len()
            invariant
                i <= self.entry.len(),
                entries == self.entry.deep_view(),
                forall|k: int| 0 <= k < i ==> (#[trigger] entries[k]).rebs.len() > 0,
            decreases self.entry.len() - i,
        {
            assert(entries[i as int] == self.entry[i as int]@);
            if !self.entry[i].has_reading() {
                assert(first_without_reading(entries, i as int));
                return Err(DictError::Reading { index: i });
            }
            i += 1;
        }
        Ok(())
    }
}

/// A row of the table of entries. Its list columns hold encoded lists.
#[derive(Debug)]
pub struct EntryRow {
    pub ent_seq: i64,
    /// The encoded list of readings.
    pub rebs: String,
    /// The encoded list of kanji spellings, or nothing.
    pub kebs: Option<String>,
}

/// An `EntryRow` as contracts see it.
pub struct EntryRowView {
    pub ent_seq: int,
    pub rebs: Text,
    pub kebs: Option<Text>,
}

impl DeepView for EntryRow {
    type V = EntryRowView;

    open spec fn deep_view(&self) -> EntryRowView {
        EntryRowView {
            ent_seq: self.ent_seq as int,
            rebs: self.rebs@,
            kebs: self.kebs.deep_view(),
        }
    }
}

impl View for EntryRow {
    type V = EntryRowView;

    open spec fn view(&self) -> EntryRowView {
        self.deep_view()
    }
}

/// A row of the table of senses. Its list columns hold encoded lists.
#[derive(Debug)]
pub struct SenseRow {
    pub id: i64,
    pub ent_seq: i64,
    pub sense_order: i64,
    pub pos: String,
    pub xref: String,
    pub gloss: String,
}

/// A `SenseRow` as contracts see it.
pub struct SenseRowView {
    pub id: int,
    pub ent_seq: int,
    pub sense_order: int,
    pub pos: Text,
    pub xref: Text,
    pub gloss: Text,
}

impl DeepView for SenseRow {
    type V = SenseRowView;

    open spec fn deep_view(&self) -> SenseRowView {
        SenseRowView {
            id: self.id as int,
            ent_seq: self.ent_seq as int,
            sense_order: self.sense_order as int,
            pos: self.pos@,
            xref: self.xref@,
            gloss: self.gloss@,
        }
    }
}

impl View for SenseRow {
    type V = SenseRowView;

    open spec fn view(&self) -> SenseRowView {
        self.deep_view()
    }
}

/// A sense as a lookup hands it out.
#[derive(Debug)]
pub struct SenseParsed {
    pub sense_order: i64,
    /// The part of speech for this sense.
    pub pos: Vec<String>,
    /// Cross-references for this sense.
    pub xref: Vec<String>,
    /// Glosses (meanings) for this sense.
    pub gloss: Vec<String>,
}

/// A `SenseParsed` as contracts see it.
pub struct SenseParsedView {
    pub sense_order: int,
    pub pos: TextList,
    pub xref: TextList,
    pub gloss: TextList,
}

impl DeepView for SenseParsed {
    type V = SenseParsedView;

    open spec fn deep_view(&self) -> SenseParsedView {
        SenseParsedView {
            sense_order: self.sense_order as int,
            pos: self.pos.deep_view(),
            xref: self.xref.deep_view(),
            gloss: self.gloss.deep_view(),
        }
    }
}

impl View for SenseParsed {
    type V = SenseParsedView;

    open spec fn view(&self) -> SenseParsedView {
        self.deep_view()
    }
}

/// An entry as a lookup hands it out.
#[derive(Debug)]
pub struct EntryParsed {
    /// The entry sequence number.
    pub ent_seq: i64,
    /// The Japanese readings for this entry.
    pub rebs: Vec<String>,
    /// The kanji for this entry, if available.
    pub kebs: Option<Vec<String>>,
    /// The senses for this entry, in the order of their meaning.
    pub senses: Vec<SenseParsed>,
}

/// An `EntryParsed` as contracts see it.
pub struct EntryParsedView {
    pub ent_seq: int,
    pub rebs: TextList,
    pub kebs: Option<TextList>,
    pub senses: Seq<SenseParsedView>,
}

impl DeepView for EntryParsed {
    type V = EntryParsedView;

    open spec fn deep_view(&self) -> EntryParsedView {
        EntryParsedView {
            ent_seq: self.ent_seq as int,
            rebs: self.rebs.deep_view(),
            kebs: self.kebs.deep_view(),
            senses: self.senses.deep_view(),
        }
    }
}

impl View for EntryParsed {
    type V = EntryParsedView;

    open spec fn view(&self) -> EntryParsedView {
        self.deep_view()
    }
}

} // verus!
