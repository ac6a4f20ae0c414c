//! Literal substring search over the lines of a text.
//!
//! The line scanner, [`scan`], finds the occurrences of a pattern in one
//! line, left to right and without overlap, and cuts the line at them. The
//! search engine, [`search`], scans every line of a text and numbers the
//! lines that hold the pattern. Letter case can be ignored: line and pattern
//! are then compared in folded form, character by character, and the pieces
//! of the line are still taken from the line as it is written.
//!
//! The pattern is taken literally. The empty pattern occurs nowhere.

pub mod config;
pub mod folding;
pub mod lines;
pub mod occurrences;
pub mod output;
pub mod record;
pub mod scan;
pub mod search;
pub mod text;

pub use crate::config::Config;
pub use crate::output::{report, spans, Span};
pub use crate::record::MatchingLine;
pub use crate::scan::{get_matches, scan, split_line};
pub use crate::search::{search, search_case_insensitive, search_case_sensitive};
