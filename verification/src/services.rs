//! The orchestrator's decisions: whether the index files need rebuilding,
//! which seeds to crawl, which ranking back end a selector names, and the
//! assembly of a query answer for the BM25 path. The file reads and writes
//! around these decisions are the application's part.

use vstd::prelude::*;

use crate::bm25::{get_bm25_rankings, spec_bm25_valid, spec_rank, BM25_QUERY_BOUND};
use crate::index::{ForwardIndex, InvertedIndex};
use crate::meta::SearchResponse;
use crate::parse::{Document, DocumentView};
use crate::text::{spec_words, str_eq};
use crate::ErrorCode;

verus! {

/// The orchestrator's failures.
#[derive(Debug, Clone, Copy, PartialEq, Eq, Structural)]
pub enum ServiceError {
    /// A stored index has the wrong shape for its path.
    IndexTypeError,
    /// The seed catalogue could not be read.
    ReadDomainsError,
}

/// A query answer: the ranked documents and how many documents were indexed
/// at query time.
#[derive(Debug)]
pub struct DocumentResult {
    pub results: Vec<Document>,
    pub indexed: usize,
}

/// The mathematical content of a query answer.
#[verifier::ext_equal]
pub struct DocumentResultView {
    pub results: Seq<DocumentView>,
    pub indexed: usize,
}

impl View for DocumentResult {
    type V = DocumentResultView;

    open spec fn view(&self) -> DocumentResultView {
        DocumentResultView { results: self.results.deep_view(), indexed: self.indexed }
    }
}

impl DeepView for DocumentResult {
    type V = DocumentResultView;

    open spec fn deep_view(&self) -> DocumentResultView {
        self.view()
    }
}

/// How loading one index file with its expected shape went.
#[derive(Debug, Clone, Copy, PartialEq, Eq, Structural)]
pub enum IndexLoadState {
    /// The file decoded to the expected shape.
    Present,
    /// The file decoded to the other shape.
    WrongShape,
    /// The file is absent or did not decode.
    Missing,
}

/// Which of the two indices a rebuild pass must construct.
#[derive(Debug, Clone, Copy, PartialEq, Eq, Structural)]
pub struct RefreshPlan {
    pub build_forward: bool,
    pub build_inverted: bool,
}

/// Decides the index refresh: a file of the wrong shape is an error; an
/// absent or unreadable file is rebuilt; a present one is left alone.
pub fn fill_indices(forward_state: IndexLoadState, inverted_state: IndexLoadState) -> (r: Result<
    RefreshPlan,
    ServiceError,
>)
    ensures
        forward_state is WrongShape || inverted_state is WrongShape ==> r == Err::<
            RefreshPlan,
            ServiceError,
        >(ServiceError::IndexTypeError),
        !(forward_state is WrongShape) && !(inverted_state is WrongShape) ==> r == Ok::<
            RefreshPlan,
            ServiceError,
        >(
            RefreshPlan {
                build_forward: forward_state is Missing,
                build_inverted: inverted_state is Missing,
            },
        ),
{
    match forward_state {
        IndexLoadState::WrongShape => {
            return Err(ServiceError::IndexTypeError);
        },
        _ => {},
    }
    match inverted_state {
        IndexLoadState::WrongShape => {
            return Err(ServiceError::IndexTypeError);
        },
        _ => {},
    }
    Ok(
        RefreshPlan {
            build_forward: matches!(forward_state, IndexLoadState::Missing),
            build_inverted: matches!(inverted_state, IndexLoadState::Missing),
        },
    )
}

/// Picks the seeds of the crawl: the first `seed_count` catalogue URLs, or
/// all of them if there are fewer.
#[verifier::loop_isolation(false)]
pub fn select_seeds(seed_urls: Vec<String>, seed_count: u8) -> (r: Vec<String>)
    ensures
        r.deep_view() == (if seed_urls@.len() <= seed_count as nat {
            seed_urls.deep_view()
        } else {
            seed_urls.deep_view().take(seed_count as int)
        }),
{
    let mut s = seed_urls;
    let ghost dv = s.deep_view();
    if s.len() > seed_count as usize {
        s.truncate(seed_count as usize);
        proof {
            assert(s.deep_view() =~= dv.take(seed_count as int));
        }
    }
    s
}

/// The ranking back ends.
#[derive(Debug, Clone, Copy, PartialEq, Eq, Structural)]
pub enum RankMethod {
    /// BM25 over the inverted index; no external process.
    Bm25,
    /// Word-vector embeddings, averaged per document.
    WordVector,
    /// Whole-sentence embeddings, one vector per document.
    SentenceTransformer,
}

/// Maps the algorithm selector to a ranking back end: the empty selector is
/// BM25, the two script paths name the embedding back ends, anything else
/// is refused.
pub fn select_backend(script: &str) -> (r: Result<RankMethod, ErrorCode>)
    ensures
        script@ == ""@ ==> r == Ok::<RankMethod, ErrorCode>(RankMethod::Bm25),
        script@ == "scripts/embedding.py"@ ==> r == Ok::<RankMethod, ErrorCode>(
            RankMethod::WordVector,
        ),
        script@ == "scripts/sentence_transform.py"@ ==> r == Ok::<RankMethod, ErrorCode>(
            RankMethod::SentenceTransformer,
        ),
        script@ != ""@ && script@ != "scripts/embedding.py"@ && script@
            != "scripts/sentence_transform.py"@ ==> r == Err::<RankMethod, ErrorCode>(
            ErrorCode::EmbeddingScriptError,
        ),
{
    proof {
        reveal_strlit("");
        reveal_strlit("scripts/embedding.py");
        reveal_strlit("scripts/sentence_transform.py");
        assert(""@.len() == 0);
        assert("scripts/embedding.py"@.len() == 20);
        assert("scripts/sentence_transform.py"@.len() == 29);
    }
    if str_eq(script, "") {
        Ok(RankMethod::Bm25)
    } else if str_eq(script, "scripts/embedding.py") {
        Ok(RankMethod::WordVector)
    } else if str_eq(script, "scripts/sentence_transform.py") {
        Ok(RankMethod::SentenceTransformer)
    } else {
        Err(ErrorCode::EmbeddingScriptError)
    }
}

/// Answers a BM25 query over a loaded index pair: the ranked documents,
/// wrapped with the number of documents that were indexed at query time.
pub fn answer_query_bm25(forward: ForwardIndex, inverted: InvertedIndex, query: String) -> (r:
    Result<SearchResponse, ErrorCode>)
    ensures
        forward.entries.deep_view().len() == 0 ==> r == Err::<SearchResponse, ErrorCode>(
            ErrorCode::NoResults,
        ),
        forward.entries.deep_view().len() > 0 && !spec_bm25_valid(
            forward.entries.deep_view(),
            inverted.entries.deep_view(),
        ) ==> r == Err::<SearchResponse, ErrorCode>(ErrorCode::Unspecified),
        spec_bm25_valid(forward.entries.deep_view(), inverted.entries.deep_view())
            && spec_words(query@).len() > BM25_QUERY_BOUND ==> r == Err::<
            SearchResponse,
            ErrorCode,
        >(ErrorCode::QueryProcessingError),
        spec_bm25_valid(forward.entries.deep_view(), inverted.entries.deep_view())
            && spec_words(query@).len() <= BM25_QUERY_BOUND ==> (r matches Ok(
            SearchResponse::Search(dr),
        ) && dr.results.deep_view() == spec_rank(
            forward.entries.deep_view(),
            inverted.entries.deep_view(),
            query@,
        ) && dr.indexed == forward.entries.deep_view().len()),
{
    let indexed = forward.entries.len();
    match get_bm25_rankings(forward, inverted, query) {
        Ok(results) => Ok(SearchResponse::Search(DocumentResult { results, indexed })),
        Err(e) => Err(e),
    }
}

} // verus!
