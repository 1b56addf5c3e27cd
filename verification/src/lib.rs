//! Verified core of a spellchecker for structured markup documents.
//!
//! The library extracts checkable prose from a parsed document tree,
//! groups it into paragraphs, merges paragraphs that are too short, and
//! maps issues reported against paragraph-local text offsets back to
//! line/column ranges in the original document. Parsing the document and
//! talking to the external grammar service are left to the caller; the
//! library receives the tree and the service's matches as plain values.

use vstd::prelude::*;

pub mod args;
pub mod check_file;
pub mod config_file;
pub mod lines;
pub mod merge_short;
pub mod metadata;
pub mod paragraph;
pub mod preprocessor;
pub mod problem;
pub mod range;
pub mod sort;
pub mod word_count;
pub mod syntax;

verus! {

/// Connection and checking options for the external grammar service.
#[derive(Debug, Clone, Default)]
pub struct LanguageToolConfig {
    pub host: String,
    pub port: u16,
    pub language: String,
    pub disabled_rules: Option<Vec<String>>,
    pub disabled_categories: Option<Vec<String>>,
    pub picky: Option<bool>,
}

/// Options of the spellcheck run itself.
#[derive(Debug, Clone, Default)]
pub struct SpellcheckConfig {
    pub ignore_words: Option<Vec<String>>,
}

} // verus!
