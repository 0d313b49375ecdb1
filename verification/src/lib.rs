//! Verified core of a vehicle-document intake pipeline.
//!
//! The library classifies scanned files by extension category, derives a
//! best-effort structured vehicle hint from a file path, and plans batched
//! uploads of hinted records, accounting for partial failures. All I/O
//! (directory walking, HTTP dispatch) lives outside the library; the
//! functions here are pure and fully specified.

pub mod category;
pub mod documents;
pub mod extract;
pub mod scan;
pub mod spreadsheet;
pub mod sync;
pub mod text;
pub mod vision;
