//! Verified core of a product-page crawler: URL normalisation and
//! deduplication, scheme handling, keyword heuristics, pattern
//! classification and the decisions around the Gemini pattern query.

pub mod text;
pub mod url_normalizer;
pub mod error;
pub mod classifier;
pub mod config;
pub mod heuristics;
pub mod crawler;
pub mod gemini;
pub mod collection;
