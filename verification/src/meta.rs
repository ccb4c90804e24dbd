//! Meta-search: the request and result values of the external search tools,
//! and the parsing of their text output into results. Spawning the tools and
//! the asynchronous aggregation are the application's part.

use vstd::prelude::*;

use crate::services::{DocumentResult, DocumentResultView};
use crate::text::push_char;

verus! {

/// One response of a search request: either this engine's own ranked answer
/// or one result of an external engine.
pub enum SearchResponse {
    Search(DocumentResult),
    MetaSearch(MetaSearchResult),
}

/// The mathematical content of a search response.
#[verifier::ext_equal]
pub enum SearchResponseView {
    Search(DocumentResultView),
    MetaSearch(MetaSearchResultView),
}

impl View for SearchResponse {
    type V = SearchResponseView;

    open spec fn view(&self) -> SearchResponseView {
        match self {
            SearchResponse::Search(d) => SearchResponseView::Search(d@),
            SearchResponse::MetaSearch(m) => SearchResponseView::MetaSearch(m@),
        }
    }
}

impl DeepView for SearchResponse {
    type V = SearchResponseView;

    open spec fn deep_view(&self) -> SearchResponseView {
        self.view()
    }
}

/// What a search request hands back to the API layer.
pub enum SearchResult {
    Documents(Vec<SearchResponse>),
    Error(String),
}

/// One result row of an external search engine.
#[derive(Debug)]
pub struct MetaSearchResult {
    pub title: String,
    pub url: String,
    pub description: String,
    pub engine: String,
}

/// The mathematical content of an external result row.
#[verifier::ext_equal]
pub struct MetaSearchResultView {
    pub title: Seq<char>,
    pub url: Seq<char>,
    pub description: Seq<char>,
    pub engine: Seq<char>,
}

impl View for MetaSearchResult {
    type V = MetaSearchResultView;

    open spec fn view(&self) -> MetaSearchResultView {
        MetaSearchResultView {
            title: self.title@,
            url: self.url@,
            description: self.description@,
            engine: self.engine@,
        }
    }
}

impl DeepView for MetaSearchResult {
    type V = MetaSearchResultView;

    open spec fn deep_view(&self) -> MetaSearchResultView {
        self.view()
    }
}

impl MetaSearchResult {
    /// Builds a result row from its parts.
    pub fn new(title: String, url: String, description: String, engine: String) -> (r:
        MetaSearchResult)
        ensures
            r.title == title,
            r.url == url,
            r.description == description,
            r.engine == engine,
    {
        MetaSearchResult { title, url, description, engine }
    }
}

/// One request against an external search engine.
#[derive(Debug)]
pub struct MetaSearchRequest {
    pub browser: String,
    pub q: String,
}

/// The numbered result rows that the external tool's text output matches:
/// for each match, the title, the bracketed URL part, and the description;
/// a function of the text alone.
pub uninterp spec fn ddgr_matches(raw: Seq<char>) -> Seq<(Seq<char>, Seq<char>, Seq<char>)>;

/// Relies on `regex::Regex::captures_iter` with the fixed row pattern
/// `(number.)(title)([url])(description)`: the matches are a function of
/// the text alone.
#[verifier::external_body]
fn ddgr_captures(raw: &str) -> (r: Vec<(String, String, String)>)
    ensures
        r.deep_view() == ddgr_matches(raw@),
{
    let re = regex::Regex::new(r"(\d+)\.\s*(.+)\s*(\[.+?\])\s*(.+)").unwrap();
    re.captures_iter(raw).map(
        |cap| (cap[2].to_string(), cap[3].to_string(), cap[4].to_string()),
    ).collect()
}

/// The URL characters kept from a bracketed match: the brackets go, the
/// rest stays.
pub open spec fn spec_strip_brackets(s: Seq<char>) -> Seq<char> {
    s.filter(|c: char| c != '[' && c != ']')
}

fn strip_brackets(s: &str) -> (r: String)
    ensures
        r@ == spec_strip_brackets(s@),
{
    let ghost keep = |c: char| c != '[' && c != ']';
    let n = s.unicode_len();
    let mut out = String::new();
    let mut i: usize = 0;
    proof {
        assert(s@.take(0) =~= Seq::<char>::empty());
        reveal(Seq::filter);
        assert(out@ =~= s@.take(0).filter(keep));
    }
    while i < n
        invariant
            n == s@.len(),
            i <= n,
            keep == (|c: char| c != '[' && c != ']'),
            out@ == s@.take(i as int).filter(keep),
        decreases n - i,
    {
        let c = s.get_char(i);
        proof {
            let m = s@.take(i as int);
            assert(s@.take(i + 1) =~= m.push(s@[i as int]));
            let q = m.push(s@[i as int]);
            assert(q.drop_last() =~= m);
            reveal(Seq::filter);
            assert(q.filter(keep) == if keep(q.last()) {
                m.filter(keep).push(q.last())
            } else {
                m.filter(keep)
            });
        }
        if !(c == '[' || c == ']') {
            push_char(&mut out, c);
        }
        i = i + 1;
    }
    proof {
        assert(s@.take(n as int) =~= s@);
    }
    out
}

/// What one matched row becomes: an external result with the engine name,
/// the URL prefixed with the scheme and stripped of its brackets.
pub open spec fn spec_meta_row(
    m: (Seq<char>, Seq<char>, Seq<char>),
    engine: Seq<char>,
) -> SearchResponseView {
    SearchResponseView::MetaSearch(
        MetaSearchResultView {
            title: m.0,
            url: "https://"@ + spec_strip_brackets(m.1),
            description: m.2,
            engine,
        },
    )
}

impl MetaSearchRequest {
    /// Builds a request from the engine name and the query.
    pub fn new(browser: String, q: String) -> (r: MetaSearchRequest)
        ensures
            r.browser == browser,
            r.q == q,
    {
        MetaSearchRequest { browser, q }
    }

    /// Parses the text output of the external tool into result rows: one
    /// response per matched row, in match order.
    #[verifier::loop_isolation(false)]
    pub fn process_with_expression(&self, raw: &str, engine: &str) -> (r: Vec<SearchResponse>)
        ensures
            r.deep_view() == Seq::new(
                ddgr_matches(raw@).len(),
                |i: int| spec_meta_row(ddgr_matches(raw@)[i], engine@),
            ),
    {
        let rows = ddgr_captures(raw);
        let ghost ms = ddgr_matches(raw@);
        let mut out: Vec<SearchResponse> = Vec::new();
        let mut i: usize = 0;
        while i < rows.len()
            invariant
                i <= rows@.len(),
                rows.deep_view() == ms,
                out.deep_view().len() == i,
                forall|k: int|
                    0 <= k < i ==> #[trigger] out.deep_view()[k] == spec_meta_row(
                        ms[k],
                        engine@,
                    ),
            decreases rows@.len() - i,
        {
            let title = rows[i].0.clone();
            let url = String::from_str("https://").concat(
                strip_brackets(rows[i].1.as_str()).as_str(),
            );
            let description = rows[i].2.clone();
            let row = SearchResponse::MetaSearch(
                MetaSearchResult::new(title, url, description, String::from_str(engine)),
            );
            let ghost prev = out.deep_view();
            proof {
                assert(rows.deep_view()[i as int] == (rows@[i as int].0@, rows@[i as int].1@,
                rows@[i as int].2@));
                assert(row@ == spec_meta_row(ms[i as int], engine@));
            }
            out.push(row);
            proof {
                assert(out.deep_view() =~= prev.push(row@));
            }
            i = i + 1;
        }
        proof {
            assert(out.deep_view() =~= Seq::new(
                ms.len(),
                |i: int| spec_meta_row(ms[i], engine@),
            ));
        }
        out
    }
}

} // verus!
