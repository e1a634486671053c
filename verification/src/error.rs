//! The failures that the library reports.

use vstd::prelude::*;

verus! {

/// Why an operation of the library failed.
#[derive(Debug, Clone, Copy, PartialEq, Eq, Structural)]
pub enum DictError {
    /// The pattern for entity declarations was refused by the matcher.
    Pattern,
    /// A declared name holds an ampersand or a semicolon, or a declared
    /// value holds an ampersand: a reference may outlive the substitution.
    Entities,
    /// An ampersand of the text opens no reference: no semicolon follows it
    /// before the next ampersand.
    Ampersand,
    /// The entry at this index of a document has no reading.
    Reading { index: usize },
    /// The entry at this index of a batch has an identifier that is no
    /// integer of 64 bits.
    EntSeq { index: usize },
    /// A list of the entry at this index of a batch does not decode from
    /// its encoding.
    Codec { index: usize },
    /// A list column of the entry with this identifier does not hold the
    /// encoding of a list of strings.
    Decode { ent_seq: i64 },
    /// The store has no identifiers left for the sense rows of a batch.
    SenseIds,
}

} // verus!
