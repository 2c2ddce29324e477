//! A line filter. The arguments are sorted into a list of inclusion
//! patterns and a list of exclusion patterns; a line of the input is kept
//! when it contains every inclusion pattern and no exclusion pattern.
//!
//! Patterns are literal: no wildcards, no escapes, no case folding. Texts
//! are Rust strings, and a pattern occurs in a line when the UTF-8 bytes of
//! the pattern are a contiguous part of the UTF-8 bytes of the line. A line
//! ends at a line feed, with or without a carriage return before it; kept
//! lines are written out with a single line feed each.
//!
//! Every function is total, and its contract says exactly what it returns.

pub mod filter;
pub mod lines;
pub mod matching;
pub mod options;
pub mod text;

pub use filter::{extract, filter_text, render_lines};
pub use lines::next_line;
pub use matching::{contains_bytes, is_excluded, is_included, is_retained};
pub use options::{separate_options, ParseState, TokenKind};
