//! Ingestion, batching, skill aggregation and rating of a developer's commit
//! history, with each step's behaviour stated and proved.

pub mod text;
pub mod error;
pub mod config;
pub mod models;
pub mod languages;
pub mod taxonomy;
pub mod batcher;
pub mod parser;
pub mod rating;
pub mod extractor;
pub mod summary;
pub mod prompts;
pub mod quota;
pub mod paging;
pub mod ingest;

