//! Parsing of single-commit patch-export files into commit records.
//!
//! [`line`] holds the shapes of the header lines and their matchers,
//! [`patch`] the record and the parser over the lines of a file, and
//! [`apply`] the ordered application of a parsed series.
pub mod apply;
pub mod line;
pub mod patch;

pub use apply::apply_patches;
pub use patch::{parse_lines, ParseError, Patch, PatchScanner};
