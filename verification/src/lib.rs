//! Dataset validation engine for delimited (CSV) tables.
//!
//! The crate loads a delimited text file with a header row into an in-memory
//! columnar [`table::Table`], derives a shape-and-size summary from it, and runs
//! a fixed set of data-quality checks: a missing-value census, a duplicate-row
//! census, and an optional target-column census. Every function is specified
//! against a mathematical model of the table and verified.

pub mod table;
pub mod text;
pub mod infer;
pub mod load;
pub mod summary;
pub mod quality;
