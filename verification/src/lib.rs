//! Verified core of a knowledge-graph library: identifiers, labels, URL
//! checks, graph traversal and the knowledge store's rules.
pub mod text;

pub use text::{chars_eq, chars_to_string, str_chars};
pub mod types;
pub mod security;
pub mod id;
pub mod seqs;
pub mod sort;
pub mod learn;
pub mod graph;
pub mod traversal;
pub mod fuzzy;
pub mod render;
pub mod knowledge_type;
pub mod store;
pub mod learning;
pub mod conflicts;
pub mod paths;
pub mod registry;
pub mod source_lookup;
pub mod vault;
pub mod misc;
pub mod stale;
pub mod schema;
pub mod health;
pub mod kgraph;
pub mod config;
pub mod ingest;
pub mod sync;
pub mod recall;
pub mod chain;
pub mod forget;
pub mod install;
pub mod report;
pub mod relevance;
pub mod workspace;
pub mod recommend;
pub mod laws;
pub mod outcome_laws;
