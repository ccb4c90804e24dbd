//! A small web search engine core: a depth-bounded crawler, an HTML document
//! parser, forward and inverted term indices with a binary on-disk encoding,
//! and two ranking back ends (a fixed-point BM25 and an embedding-cluster
//! pipeline whose external steps are driven by the surrounding application).

use vstd::prelude::*;

pub mod auth;
pub mod bm25;
pub mod codec;
pub mod config;
pub mod crawl;
pub mod discover;
pub mod embed;
pub mod html;
pub mod index;
pub mod meta;
pub mod parse;
pub mod services;
pub mod text;

verus! {

/// Error codes surfaced to the API layer for ranking and index operations.
#[derive(Debug, Clone, Copy, PartialEq, Eq, Structural)]
pub enum ErrorCode {
    /// Catch-all internal failure.
    Unspecified,
    /// No query term produced any embedding or posting.
    VocabularyMiss,
    /// Ranking completed but selected zero documents.
    NoResults,
    /// Malformed query input.
    QueryProcessingError,
    /// Requested index shape does not match the stored one, or the stored
    /// index is unreadable or absent when a read was expected.
    IndexingError,
    /// The external embedding step failed or produced malformed output.
    EmbeddingScriptError,
    /// The external clustering step failed or produced malformed output.
    ClusteringScriptError,
}

} // verus!
