//! The two index shapes and their bulk construction from a document batch:
//! a forward index mapping each document to its term list, and an inverted
//! index mapping each term to its postings (document and term frequency).

use vstd::prelude::*;

use crate::parse::{Document, DocumentView};
use crate::text::{spec_tokens, str_eq, tokenise};

verus! {

/// One forward-index entry: a document and its extracted term list.
pub struct ForwardEntry {
    pub document: Document,
    pub terms: Vec<String>,
}

#[verifier::ext_equal]
pub struct ForwardEntryView {
    pub document: DocumentView,
    pub terms: Seq<Seq<char>>,
}

impl View for ForwardEntry {
    type V = ForwardEntryView;

    open spec fn view(&self) -> ForwardEntryView {
        ForwardEntryView { document: self.document@, terms: self.terms.deep_view() }
    }
}

impl DeepView for ForwardEntry {
    type V = ForwardEntryView;

    open spec fn deep_view(&self) -> ForwardEntryView {
        self.view()
    }
}

/// One posting: a document and how often the term occurs in its term list.
pub struct Posting {
    pub document: Document,
    pub term_frequency: u64,
}

#[verifier::ext_equal]
pub struct PostingView {
    pub document: DocumentView,
    pub term_frequency: u64,
}

impl View for Posting {
    type V = PostingView;

    open spec fn view(&self) -> PostingView {
        PostingView { document: self.document@, term_frequency: self.term_frequency }
    }
}

impl DeepView for Posting {
    type V = PostingView;

    open spec fn deep_view(&self) -> PostingView {
        self.view()
    }
}

/// One inverted-index entry: a term and its posting list.
pub struct InvertedEntry {
    pub term: String,
    pub postings: Vec<Posting>,
}

#[verifier::ext_equal]
pub struct InvertedEntryView {
    pub term: Seq<char>,
    pub postings: Seq<PostingView>,
}

impl View for InvertedEntry {
    type V = InvertedEntryView;

    open spec fn view(&self) -> InvertedEntryView {
        InvertedEntryView { term: self.term@, postings: self.postings.deep_view() }
    }
}

impl DeepView for InvertedEntry {
    type V = InvertedEntryView;

    open spec fn deep_view(&self) -> InvertedEntryView {
        self.view()
    }
}

/// The forward (document-to-terms) index.
pub struct ForwardIndex {
    pub entries: Vec<ForwardEntry>,
}

/// The inverted (term-to-postings) index.
pub struct InvertedIndex {
    pub entries: Vec<InvertedEntry>,
}

/// The tagged union over the two index shapes.
pub enum Indexer {
    TermIndex(ForwardIndex),
    InvertedIndex(InvertedIndex),
}

/// The mathematical content of an `Indexer`.
#[verifier::ext_equal]
pub enum IndexerView {
    TermIndex(Seq<ForwardEntryView>),
    InvertedIndex(Seq<InvertedEntryView>),
}

impl View for Indexer {
    type V = IndexerView;

    open spec fn view(&self) -> IndexerView {
        match self {
            Indexer::TermIndex(f) => IndexerView::TermIndex(f.entries.deep_view()),
            Indexer::InvertedIndex(v) => IndexerView::InvertedIndex(v.entries.deep_view()),
        }
    }
}

/// The flattened term sequence of a document's content strings, in order.
pub open spec fn spec_doc_terms(content: Seq<Seq<char>>) -> Seq<Seq<char>>
    decreases content.len(),
{
    if content.len() == 0 {
        Seq::empty()
    } else {
        spec_doc_terms(content.drop_last()) + spec_tokens(content.last())
    }
}

/// Tokenises every content string of the document and flattens the results
/// into one term sequence.
#[verifier::loop_isolation(false)]
pub fn document_terms(document: &Document) -> (r: Vec<String>)
    ensures
        r.deep_view() == spec_doc_terms(document@.content),
{
    let mut out: Vec<String> = Vec::new();
    let mut i: usize = 0;
    let ghost content = document.content.deep_view();
    proof {
        assert(content.take(0) =~= Seq::<Seq<char>>::empty());
        assert(out.deep_view() =~= spec_doc_terms(content.take(0)));
    }
    while i < document.content.len()
        invariant
            i <= document.content@.len(),
            out.deep_view() == spec_doc_terms(content.take(i as int)),
        decreases document.content@.len() - i,
    {
        let mut toks = tokenise(document.content[i].as_str());
        let ghost prev = out.deep_view();
        let ghost toks_view = toks.deep_view();
        out.append(&mut toks);
        proof {
            assert(out.deep_view() =~= prev + toks_view);
            assert(content.take(i + 1).drop_last() =~= content.take(i as int));
            assert(content.take(i + 1).last() == content[i as int]);
            assert(out.deep_view() =~= spec_doc_terms(content.take(i + 1)));
        }
        i = i + 1;
    }
    proof {
        assert(content.take(document.content@.len() as int) =~= content);
    }
    out
}

/// Inserting a document's term list into the forward index: the first entry
/// with the same document is overwritten; otherwise a new entry is appended.
pub open spec fn spec_fwd_insert(
    entries: Seq<ForwardEntryView>,
    d: DocumentView,
    terms: Seq<Seq<char>>,
) -> Seq<ForwardEntryView>
    decreases entries.len(),
{
    if entries.len() == 0 {
        seq![ForwardEntryView { document: d, terms }]
    } else if entries[0].document == d {
        seq![ForwardEntryView { document: d, terms }] + entries.drop_first()
    } else {
        seq![entries[0]] + spec_fwd_insert(entries.drop_first(), d, terms)
    }
}

proof fn lemma_fwd_insert_found(
    s: Seq<ForwardEntryView>,
    d: DocumentView,
    terms: Seq<Seq<char>>,
    k: int,
)
    requires
        0 <= k < s.len(),
        forall|j: int| 0 <= j < k ==> s[j].document != d,
        s[k].document == d,
    ensures
        spec_fwd_insert(s, d, terms) =~= s.update(
            k,
            ForwardEntryView { document: d, terms },
        ),
    decreases k,
{
    if k == 0 {
        assert(spec_fwd_insert(s, d, terms) =~= s.update(
            0,
            ForwardEntryView { document: d, terms },
        ));
    } else {
        lemma_fwd_insert_found(s.drop_first(), d, terms, k - 1);
        assert(spec_fwd_insert(s, d, terms) =~= s.update(
            k,
            ForwardEntryView { document: d, terms },
        ));
    }
}

proof fn lemma_fwd_insert_missing(s: Seq<ForwardEntryView>, d: DocumentView, terms: Seq<Seq<char>>)
    requires
        forall|j: int| 0 <= j < s.len() ==> s[j].document != d,
    ensures
        spec_fwd_insert(s, d, terms) =~= s.push(ForwardEntryView { document: d, terms }),
    decreases s.len(),
{
    if s.len() == 0 {
    } else {
        lemma_fwd_insert_missing(s.drop_first(), d, terms);
        assert(spec_fwd_insert(s, d, terms) =~= s.push(ForwardEntryView { document: d, terms }));
    }
}

impl ForwardIndex {
    /// Inserts the document with its term list; an entry for an equal
    /// document is overwritten, insertion order is otherwise kept.
    #[verifier::loop_isolation(false)]
    pub fn insert(&mut self, document: Document, terms: Vec<String>)
        ensures
            final(self).entries.deep_view() == spec_fwd_insert(
                old(self).entries.deep_view(),
                document@,
                terms.deep_view(),
            ),
    {
        let ghost s = self.entries.deep_view();
        let ghost new_entry = ForwardEntryView { document: document@, terms: terms.deep_view() };
        let n = self.entries.len();
        let mut k: usize = 0;
        while k < n
            invariant
                n == self.entries@.len(),
                k <= n,
                forall|j: int| 0 <= j < k ==> s[j].document != document@,
                s == self.entries.deep_view(),
            decreases n - k,
        {
            if self.entries[k].document == document {
                proof {
                    assert(s[k as int].document == document@);
                    lemma_fwd_insert_found(s, document@, terms.deep_view(), k as int);
                }
                self.entries[k] = ForwardEntry { document, terms };
                proof {
                    assert(self.entries.deep_view() =~= s.update(k as int, new_entry));
                }
                return ;
            }
            proof {
                assert(s[k as int].document != document@);
            }
            k = k + 1;
        }
        proof {
            lemma_fwd_insert_missing(s, document@, terms.deep_view());
        }
        let ghost prev = self.entries.deep_view();
        self.entries.push(ForwardEntry { document, terms });
        proof {
            assert(self.entries.deep_view() =~= prev.push(new_entry));
        }
    }
}

/// The number of occurrences of `t` in the term sequence.
pub open spec fn spec_count(terms: Seq<Seq<char>>, t: Seq<char>) -> nat {
    terms.filter(|x: Seq<char>| x == t).len()
}

/// Counts the occurrences of `t` in the term list.
#[verifier::loop_isolation(false)]
pub fn count_occurrences(terms: &Vec<String>, t: &str) -> (r: u64)
    ensures
        r == spec_count(terms.deep_view(), t@),
{
    let ghost ts = terms.deep_view();
    let ghost p = |x: Seq<char>| x == t@;
    let mut count: u64 = 0;
    let mut k: usize = 0;
    proof {
        assert(ts.take(0) =~= Seq::<Seq<char>>::empty());
        reveal(Seq::filter);
        assert(count == ts.take(0).filter(p).len());
    }
    while k < terms.len()
        invariant
            k <= terms@.len(),
            p == (|x: Seq<char>| x == t@),
            count == ts.take(k as int).filter(p).len(),
            count <= k,
        decreases terms@.len() - k,
    {
        proof {
            let m = ts.take(k as int);
            assert(ts.take(k + 1) =~= m.push(ts[k as int]));
            let q = m.push(ts[k as int]);
            assert(q.drop_last() =~= m);
            reveal(Seq::filter);
            assert(q.filter(p) == if p(q.last()) {
                m.filter(p).push(q.last())
            } else {
                m.filter(p)
            });
        }
        if str_eq(terms[k].as_str(), t) {
            count = count + 1;
        }
        k = k + 1;
    }
    proof {
        assert(ts.take(terms@.len() as int) =~= ts);
    }
    count
}

/// Appending a posting for `t`: the first entry with that term gets the
/// posting appended; if there is none, a new entry is appended.
pub open spec fn spec_inv_post(
    entries: Seq<InvertedEntryView>,
    d: DocumentView,
    t: Seq<char>,
    tf: u64,
) -> Seq<InvertedEntryView>
    decreases entries.len(),
{
    let pv = PostingView { document: d, term_frequency: tf };
    if entries.len() == 0 {
        seq![InvertedEntryView { term: t, postings: seq![pv] }]
    } else if entries[0].term == t {
        seq![InvertedEntryView { term: t, postings: entries[0].postings.push(pv) }]
            + entries.drop_first()
    } else {
        seq![entries[0]] + spec_inv_post(entries.drop_first(), d, t, tf)
    }
}

proof fn lemma_inv_post_found(
    s: Seq<InvertedEntryView>,
    d: DocumentView,
    t: Seq<char>,
    tf: u64,
    k: int,
)
    requires
        0 <= k < s.len(),
        forall|j: int| 0 <= j < k ==> s[j].term != t,
        s[k].term == t,
    ensures
        spec_inv_post(s, d, t, tf) =~= s.update(
            k,
            InvertedEntryView {
                term: t,
                postings: s[k].postings.push(PostingView { document: d, term_frequency: tf }),
            },
        ),
    decreases k,
{
    if k == 0 {
        assert(spec_inv_post(s, d, t, tf) =~= s.update(
            0,
            InvertedEntryView {
                term: t,
                postings: s[0].postings.push(PostingView { document: d, term_frequency: tf }),
            },
        ));
    } else {
        lemma_inv_post_found(s.drop_first(), d, t, tf, k - 1);
        assert(spec_inv_post(s, d, t, tf) =~= s.update(
            k,
            InvertedEntryView {
                term: t,
                postings: s[k].postings.push(PostingView { document: d, term_frequency: tf }),
            },
        ));
    }
}

proof fn lemma_inv_post_missing(s: Seq<InvertedEntryView>, d: DocumentView, t: Seq<char>, tf: u64)
    requires
        forall|j: int| 0 <= j < s.len() ==> s[j].term != t,
    ensures
        spec_inv_post(s, d, t, tf) =~= s.push(
            InvertedEntryView {
                term: t,
                postings: seq![PostingView { document: d, term_frequency: tf }],
            },
        ),
    decreases s.len(),
{
    if s.len() == 0 {
    } else {
        lemma_inv_post_missing(s.drop_first(), d, t, tf);
        assert(spec_inv_post(s, d, t, tf) =~= s.push(
            InvertedEntryView {
                term: t,
                postings: seq![PostingView { document: d, term_frequency: tf }],
            },
        ));
    }
}

impl InvertedIndex {
    /// Appends one posting for `t`, creating the entry if absent.
    #[verifier::loop_isolation(false)]
    fn post(&mut self, document: &Document, t: &String, tf: u64)
        ensures
            final(self).entries.deep_view() == spec_inv_post(
                old(self).entries.deep_view(),
                document@,
                t@,
                tf,
            ),
    {
        let ghost s = self.entries.deep_view();
        let ghost pv = PostingView { document: document@, term_frequency: tf };
        let n = self.entries.len();
        let mut k: usize = 0;
        while k < n
            invariant
                n == self.entries@.len(),
                k <= n,
                forall|j: int| 0 <= j < k ==> s[j].term != t@,
                s == self.entries.deep_view(),
            decreases n - k,
        {
            if str_eq(self.entries[k].term.as_str(), t.as_str()) {
                proof {
                    assert(s[k as int].term == t@);
                    lemma_inv_post_found(s, document@, t@, tf, k as int);
                }
                let ghost pre = self.entries@;
                let mut entry = self.entries.remove(k);
                let ghost entry_postings = entry.postings.deep_view();
                proof {
                    assert(entry@ == s[k as int]);
                }
                entry.postings.push(Posting { document: document.clone(), term_frequency: tf });
                proof {
                    assert(entry.postings.deep_view() =~= entry_postings.push(pv));
                    assert(entry@ =~= InvertedEntryView {
                        term: t@,
                        postings: s[k as int].postings.push(pv),
                    });
                }
                let ghost rem = self.entries@;
                let ghost entry_view = entry@;
                self.entries.insert(k, entry);
                proof {
                    assert forall|j: int| 0 <= j < self.entries@.len() implies
                        self.entries.deep_view()[j] == s.update(
                        k as int,
                        InvertedEntryView { term: t@, postings: s[k as int].postings.push(pv) },
                    )[j] by {
                        if j < k {
                            assert(self.entries@[j] == rem[j]);
                            assert(rem[j] == pre[j]);
                        } else if j == k {
                            assert(self.entries@[j]@ == entry_view);
                        } else {
                            assert(self.entries@[j] == rem[j - 1]);
                            assert(rem[j - 1] == pre[j]);
                        }
                    }
                    assert(self.entries.deep_view() =~= s.update(
                        k as int,
                        InvertedEntryView { term: t@, postings: s[k as int].postings.push(pv) },
                    ));
                }
                return ;
            }
            proof {
                assert(s[k as int].term != t@);
            }
            k = k + 1;
        }
        proof {
            lemma_inv_post_missing(s, document@, t@, tf);
        }
        let ghost prev = self.entries.deep_view();
        let postings = vec![Posting { document: document.clone(), term_frequency: tf }];
        proof {
            assert(postings.deep_view() =~= seq![pv]);
        }
        self.entries.push(InvertedEntry { term: t.clone(), postings });
        proof {
            assert(self.entries.deep_view() =~= prev.push(
                InvertedEntryView { term: t@, postings: seq![pv] },
            ));
        }
    }
}

/// Adding one document to the inverted index, walking its term list from
/// position `j`: at the first occurrence of each term, a posting with the
/// term's total occurrence count is appended; repeats are skipped.
pub open spec fn spec_inv_add_doc_from(
    entries: Seq<InvertedEntryView>,
    d: DocumentView,
    terms: Seq<Seq<char>>,
    j: int,
) -> Seq<InvertedEntryView>
    decreases terms.len() - j,
{
    if j < 0 || j >= terms.len() {
        entries
    } else {
        let t = terms[j];
        let next = if terms.take(j).contains(t) {
            entries
        } else {
            spec_inv_post(entries, d, t, spec_count(terms, t) as u64)
        };
        spec_inv_add_doc_from(next, d, terms, j + 1)
    }
}

fn term_seen_before(terms: &Vec<String>, j: usize) -> (r: bool)
    requires
        j < terms@.len(),
    ensures
        r == terms.deep_view().take(j as int).contains(terms.deep_view()[j as int]),
{
    let mut k: usize = 0;
    while k < j
        invariant
            k <= j < terms@.len(),
            forall|i: int|
                0 <= i < k ==> terms.deep_view()[i] != terms.deep_view()[j as int],
        decreases j - k,
    {
        if str_eq(terms[k].as_str(), terms[j].as_str()) {
            proof {
                assert(terms.deep_view().take(j as int)[k as int] == terms.deep_view()[j as int]);
            }
            return true;
        }
        k = k + 1;
    }
    proof {
        assert forall|i: int|
            0 <= i < terms.deep_view().take(j as int).len() implies terms.deep_view().take(
            j as int,
        )[i] != terms.deep_view()[j as int] by {
            assert(terms.deep_view().take(j as int)[i] == terms.deep_view()[i]);
        }
    }
    false
}

impl InvertedIndex {
    /// Adds one document: one posting per distinct term of its term list,
    /// carrying the term's occurrence count.
    #[verifier::loop_isolation(false)]
    pub fn add_document(&mut self, document: &Document, terms: &Vec<String>)
        ensures
            final(self).entries.deep_view() == spec_inv_add_doc_from(
                old(self).entries.deep_view(),
                document@,
                terms.deep_view(),
                0,
            ),
    {
        let ghost start = self.entries.deep_view();
        let ghost ts = terms.deep_view();
        let mut j: usize = 0;
        while j < terms.len()
            invariant
                j <= terms@.len(),
                spec_inv_add_doc_from(self.entries.deep_view(), document@, ts, j as int)
                    == spec_inv_add_doc_from(start, document@, ts, 0),
            decreases terms@.len() - j,
        {
            let ghost cur = self.entries.deep_view();
            if !term_seen_before(terms, j) {
                let tf = count_occurrences(terms, terms[j].as_str());
                let t = terms[j].clone();
                proof {
                    assert(t@ == ts[j as int]);
                    assert(tf == spec_count(ts, ts[j as int]) as u64);
                }
                self.post(document, &t, tf);
                proof {
                    assert(self.entries.deep_view() == spec_inv_post(
                        cur,
                        document@,
                        ts[j as int],
                        spec_count(ts, ts[j as int]) as u64,
                    ));
                }
            }
            j = j + 1;
        }
        proof {
            assert(spec_inv_add_doc_from(self.entries.deep_view(), document@, ts, ts.len() as int)
                == self.entries.deep_view());
        }
    }
}

/// Building the forward index over the documents from position `i` on:
/// each document is inserted with its flattened term list.
pub open spec fn spec_build_forward_from(
    entries: Seq<ForwardEntryView>,
    docs: Seq<DocumentView>,
    i: int,
) -> Seq<ForwardEntryView>
    decreases docs.len() - i,
{
    if i < 0 || i >= docs.len() {
        entries
    } else {
        spec_build_forward_from(
            spec_fwd_insert(entries, docs[i], spec_doc_terms(docs[i].content)),
            docs,
            i + 1,
        )
    }
}

/// Building the inverted index over the documents from position `i` on.
pub open spec fn spec_build_inverted_from(
    entries: Seq<InvertedEntryView>,
    docs: Seq<DocumentView>,
    i: int,
) -> Seq<InvertedEntryView>
    decreases docs.len() - i,
{
    if i < 0 || i >= docs.len() {
        entries
    } else {
        spec_build_inverted_from(
            spec_inv_add_doc_from(entries, docs[i], spec_doc_terms(docs[i].content), 0),
            docs,
            i + 1,
        )
    }
}

/// What one bulk build pass yields for either index shape.
pub open spec fn spec_index_build(idx: IndexerView, docs: Seq<DocumentView>) -> IndexerView {
    match idx {
        IndexerView::TermIndex(e) => IndexerView::TermIndex(spec_build_forward_from(e, docs, 0)),
        IndexerView::InvertedIndex(e) => IndexerView::InvertedIndex(
            spec_build_inverted_from(e, docs, 0),
        ),
    }
}

impl Indexer {
    /// Populates the index in one bulk pass over the document batch:
    /// tokenises every content string of each document, flattens the term
    /// lists, and inserts them under the index's own shape.
    #[verifier::loop_isolation(false)]
    pub fn new(self, documents: &Vec<Document>) -> (r: Indexer)
        ensures
            r@ == spec_index_build(self@, documents.deep_view()),
    {
        let ghost dv = documents.deep_view();
        match self {
            Indexer::TermIndex(f) => {
                let ghost start = f.entries.deep_view();
                let mut fwd = f;
                let mut i: usize = 0;
                while i < documents.len()
                    invariant
                        i <= documents@.len(),
                        spec_build_forward_from(fwd.entries.deep_view(), dv, i as int)
                            == spec_build_forward_from(start, dv, 0),
                    decreases documents@.len() - i,
                {
                    let ghost cur = fwd.entries.deep_view();
                    let terms = document_terms(&documents[i]);
                    let doc = documents[i].clone();
                    proof {
                        assert(doc@ == dv[i as int]);
                        assert(terms.deep_view() == spec_doc_terms(dv[i as int].content));
                    }
                    fwd.insert(doc, terms);
                    i = i + 1;
                }
                proof {
                    assert(spec_build_forward_from(fwd.entries.deep_view(), dv, dv.len() as int)
                        == fwd.entries.deep_view());
                }
                Indexer::TermIndex(fwd)
            },
            Indexer::InvertedIndex(v) => {
                let ghost start = v.entries.deep_view();
                let mut inv = v;
                let mut i: usize = 0;
                while i < documents.len()
                    invariant
                        i <= documents@.len(),
                        spec_build_inverted_from(inv.entries.deep_view(), dv, i as int)
                            == spec_build_inverted_from(start, dv, 0),
                    decreases documents@.len() - i,
                {
                    let ghost cur = inv.entries.deep_view();
                    let terms = document_terms(&documents[i]);
                    proof {
                        assert(documents@[i as int]@ == dv[i as int]);
                        assert(terms.deep_view() == spec_doc_terms(dv[i as int].content));
                    }
                    inv.add_document(&documents[i], &terms);
                    i = i + 1;
                }
                proof {
                    assert(spec_build_inverted_from(inv.entries.deep_view(), dv, dv.len() as int)
                        == inv.entries.deep_view());
                }
                Indexer::InvertedIndex(inv)
            },
        }
    }
}

/// The posting list of the first entry for `t`, or empty.
pub open spec fn spec_inv_lookup(entries: Seq<InvertedEntryView>, t: Seq<char>) -> Seq<PostingView>
    decreases entries.len(),
{
    if entries.len() == 0 {
        Seq::empty()
    } else if entries[0].term == t {
        entries[0].postings
    } else {
        spec_inv_lookup(entries.drop_first(), t)
    }
}

/// The term list of the first entry for `d`, or nothing.
pub open spec fn spec_fwd_lookup(entries: Seq<ForwardEntryView>, d: DocumentView) -> Option<
    Seq<Seq<char>>,
>
    decreases entries.len(),
{
    if entries.len() == 0 {
        None
    } else if entries[0].document == d {
        Some(entries[0].terms)
    } else {
        spec_fwd_lookup(entries.drop_first(), d)
    }
}

proof fn lemma_post_lookup_same(e: Seq<InvertedEntryView>, d: DocumentView, t: Seq<char>, tf: u64)
    ensures
        spec_inv_lookup(spec_inv_post(e, d, t, tf), t) == spec_inv_lookup(e, t).push(
            PostingView { document: d, term_frequency: tf },
        ),
    decreases e.len(),
{
    let pv = PostingView { document: d, term_frequency: tf };
    if e.len() == 0 {
        assert(spec_inv_lookup(spec_inv_post(e, d, t, tf), t) =~= Seq::empty().push(pv));
        assert(spec_inv_lookup(e, t) =~= Seq::<PostingView>::empty());
    } else if e[0].term == t {
        let r = spec_inv_post(e, d, t, tf);
        assert(r[0].term == t);
        assert(r[0].postings == e[0].postings.push(pv));
    } else {
        lemma_post_lookup_same(e.drop_first(), d, t, tf);
        let r = spec_inv_post(e, d, t, tf);
        assert(r =~= seq![e[0]] + spec_inv_post(e.drop_first(), d, t, tf));
        assert(r.drop_first() =~= spec_inv_post(e.drop_first(), d, t, tf));
    }
}

proof fn lemma_post_lookup_other(
    e: Seq<InvertedEntryView>,
    d: DocumentView,
    t: Seq<char>,
    tf: u64,
    u: Seq<char>,
)
    requires
        u != t,
    ensures
        spec_inv_lookup(spec_inv_post(e, d, t, tf), u) == spec_inv_lookup(e, u),
    decreases e.len(),
{
    if e.len() == 0 {
        let r = spec_inv_post(e, d, t, tf);
        assert(r.len() == 1 && r[0].term == t);
        assert(r.drop_first() =~= Seq::<InvertedEntryView>::empty());
        assert(spec_inv_lookup(r, u) == spec_inv_lookup(r.drop_first(), u));
    } else if e[0].term == t {
        let r = spec_inv_post(e, d, t, tf);
        assert(r[0].term == t);
        assert(r.drop_first() =~= e.drop_first());
        assert(spec_inv_lookup(r, u) == spec_inv_lookup(e.drop_first(), u));
        assert(spec_inv_lookup(e, u) == spec_inv_lookup(e.drop_first(), u));
    } else {
        lemma_post_lookup_other(e.drop_first(), d, t, tf, u);
        let r = spec_inv_post(e, d, t, tf);
        assert(r =~= seq![e[0]] + spec_inv_post(e.drop_first(), d, t, tf));
        assert(r.drop_first() =~= spec_inv_post(e.drop_first(), d, t, tf));
    }
}

proof fn lemma_add_doc_preserves(
    e: Seq<InvertedEntryView>,
    d: DocumentView,
    terms: Seq<Seq<char>>,
    j: int,
    u: Seq<char>,
    pv: PostingView,
)
    requires
        0 <= j <= terms.len(),
        spec_inv_lookup(e, u).contains(pv),
    ensures
        spec_inv_lookup(spec_inv_add_doc_from(e, d, terms, j), u).contains(pv),
    decreases terms.len() - j,
{
    if j >= terms.len() {
    } else {
        let t = terms[j];
        let next = if terms.take(j).contains(t) {
            e
        } else {
            spec_inv_post(e, d, t, spec_count(terms, t) as u64)
        };
        if !terms.take(j).contains(t) {
            if t == u {
                lemma_post_lookup_same(e, d, t, spec_count(terms, t) as u64);
                let s = spec_inv_lookup(e, u);
                let idx = choose|idx: int| 0 <= idx < s.len() && s[idx] == pv;
                assert(spec_inv_lookup(next, u)[idx] == pv);
            } else {
                lemma_post_lookup_other(e, d, t, spec_count(terms, t) as u64, u);
            }
        }
        assert(spec_inv_lookup(next, u).contains(pv));
        lemma_add_doc_preserves(next, d, terms, j + 1, u, pv);
    }
}

proof fn lemma_add_doc_complete(
    e: Seq<InvertedEntryView>,
    d: DocumentView,
    terms: Seq<Seq<char>>,
    j: int,
    t: Seq<char>,
)
    requires
        0 <= j <= terms.len(),
        !terms.take(j).contains(t),
        exists|k: int| j <= k < terms.len() && terms[k] == t,
    ensures
        spec_inv_lookup(spec_inv_add_doc_from(e, d, terms, j), t).contains(
            PostingView { document: d, term_frequency: spec_count(terms, t) as u64 },
        ),
    decreases terms.len() - j,
{
    let pv = PostingView { document: d, term_frequency: spec_count(terms, t) as u64 };
    let tj = terms[j];
    let next = if terms.take(j).contains(tj) {
        e
    } else {
        spec_inv_post(e, d, tj, spec_count(terms, tj) as u64)
    };
    if tj == t {
        lemma_post_lookup_same(e, d, t, spec_count(terms, t) as u64);
        assert(spec_inv_lookup(next, t).contains(pv)) by {
            assert(spec_inv_lookup(next, t).last() == pv);
        }
        lemma_add_doc_preserves(next, d, terms, j + 1, t, pv);
    } else {
        assert(!terms.take(j + 1).contains(t)) by {
            assert forall|i: int| 0 <= i < j + 1 implies #[trigger] terms.take(j + 1)[i] != t by {
                if i < j {
                    assert(terms.take(j)[i] == terms[i]);
                }
            }
        }
        assert(exists|k: int| j + 1 <= k < terms.len() && terms[k] == t) by {
            let k0 = choose|k: int| j <= k < terms.len() && terms[k] == t;
            assert(k0 != j);
        }
        if !terms.take(j).contains(tj) {
            lemma_post_lookup_other(e, d, tj, spec_count(terms, tj) as u64, t);
        }
        lemma_add_doc_complete(next, d, terms, j + 1, t);
    }
}

proof fn lemma_build_preserves(
    e: Seq<InvertedEntryView>,
    docs: Seq<DocumentView>,
    i: int,
    u: Seq<char>,
    pv: PostingView,
)
    requires
        0 <= i <= docs.len(),
        spec_inv_lookup(e, u).contains(pv),
    ensures
        spec_inv_lookup(spec_build_inverted_from(e, docs, i), u).contains(pv),
    decreases docs.len() - i,
{
    if i >= docs.len() {
    } else {
        let next = spec_inv_add_doc_from(e, docs[i], spec_doc_terms(docs[i].content), 0);
        lemma_add_doc_preserves(e, docs[i], spec_doc_terms(docs[i].content), 0, u, pv);
        lemma_build_preserves(next, docs, i + 1, u, pv);
    }
}

proof fn lemma_build_complete_from(
    e: Seq<InvertedEntryView>,
    docs: Seq<DocumentView>,
    i0: int,
    i: int,
    t: Seq<char>,
)
    requires
        0 <= i0 <= i < docs.len(),
        spec_doc_terms(docs[i].content).contains(t),
    ensures
        spec_inv_lookup(spec_build_inverted_from(e, docs, i0), t).contains(
            PostingView {
                document: docs[i],
                term_frequency: spec_count(spec_doc_terms(docs[i].content), t) as u64,
            },
        ),
    decreases i - i0,
{
    let terms = spec_doc_terms(docs[i0].content);
    let next = spec_inv_add_doc_from(e, docs[i0], terms, 0);
    if i0 == i {
        assert(terms.take(0) =~= Seq::<Seq<char>>::empty());
        lemma_add_doc_complete(e, docs[i], terms, 0, t);
        lemma_build_preserves(
            next,
            docs,
            i0 + 1,
            t,
            PostingView { document: docs[i], term_frequency: spec_count(terms, t) as u64 },
        );
    } else {
        lemma_build_complete_from(next, docs, i0 + 1, i, t);
    }
}

/// Inverted posting completeness: for every term `t` occurring in the
/// tokenized content of a document of the batch, the inverted index built
/// from the batch holds a posting for `t` that references that document,
/// with `term_frequency` equal to the number of occurrences of `t` in the
/// document's term list.
pub proof fn lemma_inverted_posting_complete(docs: Seq<DocumentView>, i: int, t: Seq<char>)
    requires
        0 <= i < docs.len(),
        spec_doc_terms(docs[i].content).contains(t),
    ensures
        spec_inv_lookup(
            spec_build_inverted_from(Seq::empty(), docs, 0),
            t,
        ).contains(
            PostingView {
                document: docs[i],
                term_frequency: spec_count(spec_doc_terms(docs[i].content), t) as u64,
            },
        ),
{
    lemma_build_complete_from(Seq::empty(), docs, 0, i, t);
}

} // verus!
