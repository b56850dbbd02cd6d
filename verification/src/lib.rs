//! Expansion of compact job and drawing identifiers.
//!
//! A launcher is handed short tokens such as `1234`, `23-25` or `a1-a9` and
//! has to turn them into the full list of identifiers to look up. This crate
//! holds that expansion: decimal widths and the carry of leading digits from
//! one identifier to the next, the reading of a token into a single value or
//! a range, and the enumeration of a range.

pub mod digits;
pub mod number;
pub mod prog;
pub mod text;
pub mod matcher;
pub mod token;
pub mod drawing;
pub mod handler;
