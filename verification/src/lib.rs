//! A verified core for a Japanese–English dictionary database: entity
//! resolution of the raw XML text, planning of the rows written for each
//! entry, and lookup of entries by reading or by kanji spelling.

pub mod entity;
pub mod error;
pub mod ingest;
pub mod json;
pub mod kanji;
pub mod model;
pub mod number;
pub mod query;
pub mod references;
pub mod replace;
pub mod round_trip;
pub mod store;
pub mod store_laws;
pub mod text;
