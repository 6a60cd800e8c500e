//! A small text analyzer: it tokenizes a text on whitespace, lowercases the
//! tokens, applies an optional minimum-length filter and an optional
//! first-letter filter, and reports aggregate statistics (total word count,
//! distinct word count, rounded average word length, and the most frequent
//! word with a deterministic tie-break).

pub mod chars;
pub mod config;
pub mod counts;
pub mod errors;
pub mod numbers;
pub mod report;
pub mod stats;
pub mod words;
