//! A knowledge-graph engine: nodes and labelled, weighted edges held in an
//! index-addressed arena, with validation, traversal algorithms,
//! persistence framing and statistics, each stated and proved with Verus.
//! Around it stand the plain records of the application that uses it.

pub mod builder;
pub mod config;
pub mod appstate;
pub mod digraph;
pub mod error;
pub mod extractor;
pub mod graph;
pub mod hashing;
pub mod llm;
pub mod persistence;
pub mod prereqs;
pub mod query;
pub mod search;
pub mod shortest;
pub mod stats;
pub mod text;
pub mod tools;
pub mod types;
pub mod ureach;
pub mod validation;
pub mod vector;
pub mod walks;
