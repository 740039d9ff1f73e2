//! Extraction engine for a semi-structured wiki export: a streaming page
//! splitter, a template/wikilink parameter parser, classification rules for
//! morphology, labels and syllable counts, and the ordered processing core
//! used by the concurrent pipelines.

pub mod config;
pub mod entry;
pub mod labels;
pub mod markup;
pub mod morphology;
pub mod patterns;
pub mod pipeline;
pub mod scan;
pub mod script;
pub mod sections;
pub mod syllables;
pub mod text;
pub mod unicode;
pub mod wikitext;
