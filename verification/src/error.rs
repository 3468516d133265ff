//! The errors of the crawler.

use vstd::prelude::*;

verus! {

/// Why a crawl or a classification failed. Errors that come from outside
/// services are carried as their messages.
#[derive(Debug)]
pub enum AppError {
    Spider(String),
    Request(String),
    Gemini(String),
    EnvVar(String),
    Json(String),
    Regex(String),
    /// No confirmed product page; the reason says which strategy found none.
    NoProducts(String),
}

} // verus!
