//! A fuzzy executable locator: filters directory listings by a case-insensitive
//! substring or similarity test, merges the matches into one sorted set, and
//! renders a match with the found span emphasised.

pub mod colour;
pub mod highlight;
pub mod order;
pub mod scan;
pub mod text;

pub use colour::{emphasize, Color};
pub use highlight::{compose_highlight, highlight_styled, highlight_text};
pub use scan::{find_executables, merge_matches, scan_directory, Candidate};
pub use text::{contains_pattern, find_first};
