//! A relational-table-backed key-value store: a flat, `/`-separated key
//! namespace over a single two-column table, with the four primitive
//! operations list, get, put and delete.
//!
//! The pure parts of the four operations are verified here: key and prefix
//! validation, the prefix-listing algorithm that collapses deeper keys into
//! directory segments, and the translation of raw storage outcomes into the
//! error taxonomy. An executable model of the backing table ([`table::Table`])
//! realises the same four-operation contract in memory and carries the
//! store-level laws (round trip, idempotent delete, overwrite).

pub mod backend;
pub mod entry;
pub mod errors;
pub mod listing;
pub mod path;
pub mod table;
