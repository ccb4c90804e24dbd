//! The embedding-cluster ranking path. Vectors are fixed-point integers
//! (the application converts the external scripts' floating-point output at
//! a fixed scale); everything that decides — which documents to embed with
//! which terms, how the script outputs are classified, how clusters are
//! assembled, how the query vector is fitted to the centroid length, and
//! which cluster answers the query — is verified here. Only the subprocess
//! calls and the dimensionality reduction run outside, in the application.
//!
//! One deliberate deviation: the closest centroid is chosen by the sum of
//! squared component differences, a Minkowski distance of order 2, not of
//! order p = vector length. For realistic dimensions that exponent is far
//! outside what any fixed-width integer arithmetic can evaluate, and
//! floating point is not available here; the order-2 argmin is exact but
//! can differ from the order-p one.

use vstd::prelude::*;

use crate::index::{ForwardEntryView, ForwardIndex, Indexer};
use crate::parse::{Document, DocumentView};
use crate::services::RankMethod;
use crate::text::{spec_words, split_words};
use crate::ErrorCode;

verus! {

/// Bound on the magnitude of a fixed-point vector component.
pub const VEC_COMP_BOUND: i64 = 0x10000000000;

/// Bound on a vector's dimension and on the vectors per script call.
pub const VEC_DIM_BOUND: usize = 0x100000;

/// The smallest term count for which a document is embedded.
pub const MIN_EMBED_TERMS: usize = 3;

/// How many index terms are embedded per document for each back end.
pub fn embed_term_count(backend: RankMethod) -> (r: usize)
    ensures
        backend is WordVector ==> r == 5,
        backend is SentenceTransformer ==> r == 50,
        backend is Bm25 ==> r == 0,
{
    match backend {
        RankMethod::WordVector => 5,
        RankMethod::SentenceTransformer => 50,
        RankMethod::Bm25 => 0,
    }
}

/// A document together with its fixed-point embedding vector.
#[derive(Debug)]
pub struct EmbeddedDocument {
    pub document: Document,
    pub embedding: Vec<i64>,
}

#[verifier::ext_equal]
pub struct EmbeddedDocumentView {
    pub document: DocumentView,
    pub embedding: Seq<i64>,
}

impl View for EmbeddedDocument {
    type V = EmbeddedDocumentView;

    open spec fn view(&self) -> EmbeddedDocumentView {
        EmbeddedDocumentView { document: self.document@, embedding: self.embedding@ }
    }
}

impl DeepView for EmbeddedDocument {
    type V = EmbeddedDocumentView;

    open spec fn deep_view(&self) -> EmbeddedDocumentView {
        self.view()
    }
}

/// A cluster: its centroid and the embedded documents assigned to it.
#[derive(Debug)]
pub struct Cluster {
    pub centroid: Vec<i64>,
    pub documents: Vec<EmbeddedDocument>,
}

#[verifier::ext_equal]
pub struct ClusterView {
    pub centroid: Seq<i64>,
    pub documents: Seq<EmbeddedDocumentView>,
}

impl View for Cluster {
    type V = ClusterView;

    open spec fn view(&self) -> ClusterView {
        ClusterView { centroid: self.centroid@, documents: self.documents.deep_view() }
    }
}

impl DeepView for Cluster {
    type V = ClusterView;

    open spec fn deep_view(&self) -> ClusterView {
        self.view()
    }
}

/// One raw cluster as the clustering script reports it: a centroid and the
/// member vectors.
#[derive(Debug)]
pub struct RawCluster {
    pub centroid: Vec<i64>,
    pub members: Vec<Vec<i64>>,
}

#[verifier::ext_equal]
pub struct RawClusterView {
    pub centroid: Seq<i64>,
    pub members: Seq<Seq<i64>>,
}

impl View for RawCluster {
    type V = RawClusterView;

    open spec fn view(&self) -> RawClusterView {
        RawClusterView { centroid: self.centroid@, members: self.members.deep_view() }
    }
}

impl DeepView for RawCluster {
    type V = RawClusterView;

    open spec fn deep_view(&self) -> RawClusterView {
        self.view()
    }
}

/// What one embedding call produced: vectors, a numeric failure signal in
/// place of the JSON vectors, or no readable output at all.
pub enum EmbedOutcome {
    Vectors(Vec<Vec<i64>>),
    Signal(i64),
    Failure,
}

#[verifier::ext_equal]
pub enum EmbedOutcomeView {
    Vectors(Seq<Seq<i64>>),
    Signal(i64),
    Failure,
}

impl View for EmbedOutcome {
    type V = EmbedOutcomeView;

    open spec fn view(&self) -> EmbedOutcomeView {
        match self {
            EmbedOutcome::Vectors(vs) => EmbedOutcomeView::Vectors(vs.deep_view()),
            EmbedOutcome::Signal(s) => EmbedOutcomeView::Signal(*s),
            EmbedOutcome::Failure => EmbedOutcomeView::Failure,
        }
    }
}

impl DeepView for EmbedOutcome {
    type V = EmbedOutcomeView;

    open spec fn deep_view(&self) -> EmbedOutcomeView {
        self.view()
    }
}

/// What the clustering call produced.
pub enum ClusterOutcome {
    Clusters(Vec<RawCluster>),
    Failure,
}

/// A fixed-point vector within the bounds the distance arithmetic needs.
pub open spec fn spec_vec_ok(v: Seq<i64>) -> bool {
    &&& v.len() <= VEC_DIM_BOUND
    &&& forall|i: int| 0 <= i < v.len() ==> -VEC_COMP_BOUND <= #[trigger] v[i] <= VEC_COMP_BOUND
}

/// A script's vector list within bounds.
pub open spec fn spec_vectors_ok(vs: Seq<Seq<i64>>) -> bool {
    &&& vs.len() <= VEC_DIM_BOUND
    &&& forall|k: int| 0 <= k < vs.len() ==> spec_vec_ok(#[trigger] vs[k])
}

/// Checks one vector against the bounds.
fn check_vec(v: &Vec<i64>) -> (r: bool)
    ensures
        r == spec_vec_ok(v@),
{
    if v.len() > VEC_DIM_BOUND {
        return false;
    }
    let mut i: usize = 0;
    while i < v.len()
        invariant
            i <= v@.len(),
            v@.len() <= VEC_DIM_BOUND,
            forall|k: int| 0 <= k < i ==> -VEC_COMP_BOUND <= #[trigger] v@[k] <= VEC_COMP_BOUND,
        decreases v@.len() - i,
    {
        if v[i] < -VEC_COMP_BOUND || v[i] > VEC_COMP_BOUND {
            return false;
        }
        i = i + 1;
    }
    true
}

fn check_vecs(vs: &Vec<Vec<i64>>) -> (r: bool)
    ensures
        r == spec_vectors_ok(vs.deep_view()),
{
    if vs.len() > VEC_DIM_BOUND {
        proof {
            assert(vs.deep_view().len() == vs@.len());
        }
        return false;
    }
    let mut k: usize = 0;
    while k < vs.len()
        invariant
            k <= vs@.len(),
            vs@.len() <= VEC_DIM_BOUND,
            forall|j: int| 0 <= j < k ==> spec_vec_ok(#[trigger] vs.deep_view()[j]),
        decreases vs@.len() - k,
    {
        if !check_vec(&vs[k]) {
            proof {
                assert(vs.deep_view()[k as int] == vs@[k as int]@);
            }
            return false;
        }
        proof {
            assert(vs.deep_view()[k as int] == vs@[k as int]@);
        }
        k = k + 1;
    }
    true
}

/// Copies a fixed-point vector.
pub fn clone_vec_i64(v: &Vec<i64>) -> (r: Vec<i64>)
    ensures
        r@ == v@,
{
    let mut out: Vec<i64> = Vec::new();
    let mut i: usize = 0;
    while i < v.len()
        invariant
            i <= v@.len(),
            out@ =~= v@.take(i as int),
        decreases v@.len() - i,
    {
        out.push(v[i]);
        proof {
            assert(out@ =~= v@.take(i + 1));
        }
        i = i + 1;
    }
    proof {
        assert(v@.take(v@.len() as int) =~= v@);
    }
    out
}

fn clone_vecs_i64(vs: &Vec<Vec<i64>>) -> (r: Vec<Vec<i64>>)
    ensures
        r.deep_view() == vs.deep_view(),
{
    let mut out: Vec<Vec<i64>> = Vec::new();
    let mut k: usize = 0;
    while k < vs.len()
        invariant
            k <= vs@.len(),
            out.deep_view() =~= vs.deep_view().take(k as int),
        decreases vs@.len() - k,
    {
        let ghost prev = out.deep_view();
        out.push(clone_vec_i64(&vs[k]));
        proof {
            assert(out.deep_view() =~= prev.push(vs.deep_view()[k as int]));
            assert(out.deep_view() =~= vs.deep_view().take(k + 1));
        }
        k = k + 1;
    }
    proof {
        assert(vs.deep_view().take(vs@.len() as int) =~= vs.deep_view());
    }
    out
}

/// How an embedding outcome is read: in-bounds vectors pass through; the
/// numeric signal `1` means the vocabulary had no entry for the input;
/// any other signal is an unspecified failure; unreadable output and
/// out-of-bounds vectors are an embedding-script failure.
pub open spec fn spec_classify_embed(o: EmbedOutcomeView) -> Result<Seq<Seq<i64>>, ErrorCode> {
    match o {
        EmbedOutcomeView::Vectors(vs) => if spec_vectors_ok(vs) {
            Ok(vs)
        } else {
            Err(ErrorCode::EmbeddingScriptError)
        },
        EmbedOutcomeView::Signal(s) => if s == 1 {
            Err(ErrorCode::VocabularyMiss)
        } else {
            Err(ErrorCode::Unspecified)
        },
        EmbedOutcomeView::Failure => Err(ErrorCode::EmbeddingScriptError),
    }
}

/// Classifies one embedding call's outcome.
pub fn classify_embed_outcome(outcome: &EmbedOutcome) -> (r: Result<Vec<Vec<i64>>, ErrorCode>)
    ensures
        match r {
            Ok(vs) => spec_classify_embed(outcome@) == Ok::<Seq<Seq<i64>>, ErrorCode>(
                vs.deep_view(),
            ),
            Err(e) => spec_classify_embed(outcome@) == Err::<Seq<Seq<i64>>, ErrorCode>(e),
        },
{
    match outcome {
        EmbedOutcome::Vectors(vs) => {
            if check_vecs(vs) {
                Ok(clone_vecs_i64(vs))
            } else {
                Err(ErrorCode::EmbeddingScriptError)
            }
        },
        EmbedOutcome::Signal(s) => {
            if *s == 1 {
                Err(ErrorCode::VocabularyMiss)
            } else {
                Err(ErrorCode::Unspecified)
            }
        },
        EmbedOutcome::Failure => Err(ErrorCode::EmbeddingScriptError),
    }
}

/// Division rounded toward zero, as machine division computes it.
pub open spec fn spec_tdiv(a: int, b: int) -> int {
    if a >= 0 {
        a / b
    } else {
        -((-a) / b)
    }
}

/// The sum of one column over the vectors.
pub open spec fn spec_col_sum(vs: Seq<Seq<i64>>, col: int) -> int
    decreases vs.len(),
{
    if vs.len() == 0 {
        0
    } else {
        spec_col_sum(vs.drop_last(), col) + if 0 <= col < vs.last().len() {
            vs.last()[col]
        } else {
            0
        }
    }
}

/// All vectors share the length of the first.
pub open spec fn spec_uniform(vs: Seq<Seq<i64>>) -> bool {
    forall|k: int| 0 <= k < vs.len() ==> (#[trigger] vs[k]).len() == vs[0].len()
}

/// The componentwise average of the vectors, rounded toward zero.
pub open spec fn spec_avg(vs: Seq<Seq<i64>>) -> Seq<i64> {
    Seq::new(vs[0].len(), |i: int| spec_tdiv(spec_col_sum(vs, i), vs.len() as int) as i64)
}

proof fn lemma_col_sum_bound(vs: Seq<Seq<i64>>, col: int)
    requires
        forall|k: int| 0 <= k < vs.len() ==> spec_vec_ok(#[trigger] vs[k]),
    ensures
        -(vs.len() as int) * (VEC_COMP_BOUND as int) <= spec_col_sum(vs, col) <= (vs.len() as int)
            * (VEC_COMP_BOUND as int),
    decreases vs.len(),
{
    if vs.len() == 0 {
    } else {
        let prefix = vs.drop_last();
        assert forall|k: int| 0 <= k < prefix.len() implies spec_vec_ok(#[trigger] prefix[k]) by {
            assert(prefix[k] == vs[k]);
        }
        lemma_col_sum_bound(prefix, col);
        assert(spec_vec_ok(vs.last()));
        if 0 <= col < vs.last().len() {
            assert(-VEC_COMP_BOUND <= vs.last()[col] <= VEC_COMP_BOUND);
        }
    }
}

/// Averages the vectors into one document vector; nothing when there are no
/// vectors or their lengths differ.
#[verifier::loop_isolation(false)]
pub fn get_average_vector(features: &Vec<Vec<i64>>) -> (r: Option<Vec<i64>>)
    requires
        spec_vectors_ok(features.deep_view()),
    ensures
        ({
            let vs = features.deep_view();
            if vs.len() == 0 || !spec_uniform(vs) {
                r is None
            } else {
                r matches Some(v) && v@ == spec_avg(vs)
            }
        }),
{
    let ghost vs = features.deep_view();
    if features.len() == 0 {
        return None;
    }
    let width = features[0].len();
    let count = features.len();
    let mut k: usize = 0;
    while k < count
        invariant
            count == features@.len(),
            width == vs[0].len(),
            k <= count,
            forall|j: int| 0 <= j < k ==> (#[trigger] vs[j]).len() == vs[0].len(),
        decreases count - k,
    {
        if features[k].len() != width {
            proof {
                assert(vs[k as int].len() != vs[0].len());
            }
            return None;
        }
        proof {
            assert(vs[k as int].len() == vs[0].len());
        }
        k = k + 1;
    }
    let mut out: Vec<i64> = Vec::new();
    let mut i: usize = 0;
    while i < width
        invariant
            count == features@.len(),
            count >= 1,
            width == vs[0].len(),
            spec_uniform(vs),
            i <= width,
            out@.len() == i,
            forall|c: int| 0 <= c < i ==> #[trigger] out@[c] == spec_avg(vs)[c],
        decreases width - i,
    {
        let mut acc: i64 = 0;
        let mut k2: usize = 0;
        proof {
            assert(vs.take(0) =~= Seq::<Seq<i64>>::empty());
        }
        while k2 < count
            invariant
                count == features@.len(),
                width == vs[0].len(),
                spec_uniform(vs),
                i < width,
                k2 <= count,
                acc == spec_col_sum(vs.take(k2 as int), i as int),
                -(k2 as int) * (VEC_COMP_BOUND as int) <= acc as int <= (k2 as int) * (
                VEC_COMP_BOUND as int),
            decreases count - k2,
        {
            proof {
                assert(vs.take(k2 + 1).drop_last() =~= vs.take(k2 as int));
                assert(vs.take(k2 + 1).last() == vs[k2 as int]);
                assert(spec_vec_ok(vs[k2 as int]));
                assert(vs[k2 as int].len() == vs[0].len());
                assert(-VEC_COMP_BOUND <= vs[k2 as int][i as int] <= VEC_COMP_BOUND);
            }
            acc = acc + features[k2][i];
            k2 = k2 + 1;
        }
        proof {
            assert(vs.take(count as int) =~= vs);
        }
        let q: i64 = if acc >= 0 {
            acc / (count as i64)
        } else {
            -((-acc) / (count as i64))
        };
        proof {
            if acc >= 0 {
                vstd::arithmetic::div_mod::lemma_div_pos_is_pos(acc as int, count as int);
                vstd::arithmetic::div_mod::lemma_div_nonincreasing(acc as int, count as int);
            } else {
                vstd::arithmetic::div_mod::lemma_div_pos_is_pos(-(acc as int), count as int);
                vstd::arithmetic::div_mod::lemma_div_nonincreasing(-(acc as int), count as int);
            }
            assert(q == spec_tdiv(spec_col_sum(vs, i as int), count as int));
            assert(spec_avg(vs)[i as int] == spec_tdiv(spec_col_sum(vs, i as int), vs.len() as int)
                as i64);
        }
        out.push(q);
        i = i + 1;
    }
    proof {
        assert(out@ =~= spec_avg(vs));
    }
    Some(out)
}

/// The document vector of a script's vectors: the average for the
/// word-vector back end, the first vector for whole-sentence back ends;
/// nothing when the vectors are unusable.
pub open spec fn spec_doc_vector(vs: Seq<Seq<i64>>, backend: RankMethod) -> Option<Seq<i64>> {
    if vs.len() == 0 {
        None
    } else if backend is WordVector {
        if spec_uniform(vs) {
            Some(spec_avg(vs))
        } else {
            None
        }
    } else {
        Some(vs[0])
    }
}

/// Reduces a script's vectors to one document vector.
pub fn document_vector(vs: &Vec<Vec<i64>>, backend: RankMethod) -> (r: Option<Vec<i64>>)
    requires
        spec_vectors_ok(vs.deep_view()),
    ensures
        match r {
            Some(v) => spec_doc_vector(vs.deep_view(), backend) == Some(v@),
            None => spec_doc_vector(vs.deep_view(), backend) is None,
        },
{
    if vs.len() == 0 {
        proof {
            assert(vs.deep_view().len() == vs@.len());
        }
        return None;
    }
    match backend {
        RankMethod::WordVector => get_average_vector(vs),
        _ => {
            proof {
                assert(vs.deep_view()[0] == vs@[0]@);
            }
            Some(clone_vec_i64(&vs[0]))
        },
    }
}

impl Clone for EmbeddedDocument {
    /// Clones the pair; the copy has the same mathematical content.
    fn clone(&self) -> (res: Self)
        ensures
            res@ == self@,
    {
        let res = EmbeddedDocument {
            document: self.document.clone(),
            embedding: clone_vec_i64(&self.embedding),
        };
        proof {
            assert(res@ =~= self@);
        }
        res
    }
}

/// One embedding request: the document and the terms handed to the script.
pub struct EmbedJob {
    pub document: Document,
    pub terms: Vec<String>,
}

#[verifier::ext_equal]
pub struct EmbedJobView {
    pub document: DocumentView,
    pub terms: Seq<Seq<char>>,
}

impl View for EmbedJob {
    type V = EmbedJobView;

    open spec fn view(&self) -> EmbedJobView {
        EmbedJobView { document: self.document@, terms: self.terms.deep_view() }
    }
}

impl DeepView for EmbedJob {
    type V = EmbedJobView;

    open spec fn deep_view(&self) -> EmbedJobView {
        self.view()
    }
}

/// The terms embedded for one entry: its first `n_terms` index terms, then
/// the words of its title.
pub open spec fn spec_job_terms(e: ForwardEntryView, n_terms: int) -> Seq<Seq<char>> {
    (if e.terms.len() <= n_terms {
        e.terms
    } else {
        e.terms.take(n_terms)
    }) + spec_words(e.document.title)
}

/// The embedding plan over the forward index: one job per entry with at
/// least `MIN_EMBED_TERMS` terms, in index order.
pub open spec fn spec_plan(entries: Seq<ForwardEntryView>, n_terms: int) -> Seq<EmbedJobView>
    decreases entries.len(),
{
    if entries.len() == 0 {
        Seq::empty()
    } else {
        let rest = spec_plan(entries.drop_last(), n_terms);
        if entries.last().terms.len() >= MIN_EMBED_TERMS {
            rest.push(
                EmbedJobView {
                    document: entries.last().document,
                    terms: spec_job_terms(entries.last(), n_terms),
                },
            )
        } else {
            rest
        }
    }
}

fn take_strings(v: &Vec<String>, n: usize) -> (r: Vec<String>)
    ensures
        r.deep_view() == (if v.deep_view().len() <= n {
            v.deep_view()
        } else {
            v.deep_view().take(n as int)
        }),
{
    let count = if v.len() <= n {
        v.len()
    } else {
        n
    };
    let mut out: Vec<String> = Vec::new();
    let mut i: usize = 0;
    while i < count
        invariant
            count <= v@.len(),
            i <= count,
            out.deep_view() =~= v.deep_view().take(i as int),
        decreases count - i,
    {
        let ghost prev = out.deep_view();
        out.push(v[i].clone());
        proof {
            assert(out.deep_view() =~= prev.push(v.deep_view()[i as int]));
            assert(out.deep_view() =~= v.deep_view().take(i + 1));
        }
        i = i + 1;
    }
    proof {
        if v.deep_view().len() <= n {
            assert(v.deep_view().take(v@.len() as int) =~= v.deep_view());
        }
    }
    out
}

/// Plans the embedding pass: which documents are embedded, with which
/// terms. Documents with fewer than `MIN_EMBED_TERMS` terms are skipped.
#[verifier::loop_isolation(false)]
pub fn plan_embeddings(fwd: &ForwardIndex, num_terms: usize) -> (r: Vec<EmbedJob>)
    ensures
        r.deep_view() == spec_plan(fwd.entries.deep_view(), num_terms as int),
{
    let ghost dv = fwd.entries.deep_view();
    let mut out: Vec<EmbedJob> = Vec::new();
    let mut i: usize = 0;
    proof {
        assert(dv.take(0) =~= Seq::<ForwardEntryView>::empty());
        assert(out.deep_view() =~= spec_plan(dv.take(0), num_terms as int));
    }
    while i < fwd.entries.len()
        invariant
            i <= fwd.entries@.len(),
            out.deep_view() == spec_plan(dv.take(i as int), num_terms as int),
        decreases fwd.entries@.len() - i,
    {
        proof {
            assert(dv.take(i + 1).drop_last() =~= dv.take(i as int));
            assert(dv.take(i + 1).last() == dv[i as int]);
        }
        if fwd.entries[i].terms.len() >= MIN_EMBED_TERMS {
            let mut terms = take_strings(&fwd.entries[i].terms, num_terms);
            let mut title_words = split_words(fwd.entries[i].document.title.as_str(), false);
            let ghost terms_prefix = terms.deep_view();
            let ghost title_view = title_words.deep_view();
            terms.append(&mut title_words);
            proof {
                assert(terms.deep_view() =~= terms_prefix + title_view);
                assert(terms.deep_view() =~= spec_job_terms(dv[i as int], num_terms as int));
            }
            let job = EmbedJob { document: fwd.entries[i].document.clone(), terms };
            let ghost prev = out.deep_view();
            proof {
                assert(job@.document == dv[i as int].document);
            }
            out.push(job);
            proof {
                assert(out.deep_view() =~= prev.push(
                    EmbedJobView {
                        document: dv[i as int].document,
                        terms: spec_job_terms(dv[i as int], num_terms as int),
                    },
                ));
            }
        }
        i = i + 1;
    }
    proof {
        assert(dv.take(fwd.entries@.len() as int) =~= dv);
    }
    out
}

/// What the embedding pass yields: for each job whose outcome classifies as
/// vectors that reduce to a document vector, the document with that vector;
/// every other job is skipped.
pub open spec fn spec_embedded(
    jobs: Seq<EmbedJobView>,
    outs: Seq<EmbedOutcomeView>,
    backend: RankMethod,
) -> Seq<EmbeddedDocumentView>
    decreases jobs.len(),
{
    if jobs.len() == 0 {
        Seq::empty()
    } else {
        let rest = spec_embedded(jobs.drop_last(), outs.drop_last(), backend);
        match spec_classify_embed(outs.last()) {
            Ok(vs) => match spec_doc_vector(vs, backend) {
                Some(v) => rest.push(
                    EmbeddedDocumentView { document: jobs.last().document, embedding: v },
                ),
                None => rest,
            },
            Err(_) => rest,
        }
    }
}

/// Pairs the jobs with their outcomes and collects the embedded documents.
/// A job whose embedding failed is skipped; if nothing could be embedded,
/// the vocabulary had no entries for the batch.
#[verifier::loop_isolation(false)]
pub fn embed_documents(jobs: &Vec<EmbedJob>, outcomes: &Vec<EmbedOutcome>, backend: RankMethod) -> (r:
    Result<Vec<EmbeddedDocument>, ErrorCode>)
    ensures
        jobs@.len() != outcomes@.len() ==> r == Err::<Vec<EmbeddedDocument>, ErrorCode>(
            ErrorCode::Unspecified,
        ),
        jobs@.len() == outcomes@.len() && spec_embedded(
            jobs.deep_view(),
            outcomes.deep_view(),
            backend,
        ).len() == 0 ==> r == Err::<Vec<EmbeddedDocument>, ErrorCode>(ErrorCode::VocabularyMiss),
        jobs@.len() == outcomes@.len() && spec_embedded(
            jobs.deep_view(),
            outcomes.deep_view(),
            backend,
        ).len() > 0 ==> (r matches Ok(es) && es.deep_view() == spec_embedded(
            jobs.deep_view(),
            outcomes.deep_view(),
            backend,
        )),
{
    if jobs.len() != outcomes.len() {
        return Err(ErrorCode::Unspecified);
    }
    let ghost js = jobs.deep_view();
    let ghost os = outcomes.deep_view();
    let mut out: Vec<EmbeddedDocument> = Vec::new();
    let mut j: usize = 0;
    proof {
        assert(js.take(0) =~= Seq::<EmbedJobView>::empty());
        assert(os.take(0) =~= Seq::<EmbedOutcomeView>::empty());
        assert(out.deep_view() =~= spec_embedded(js.take(0), os.take(0), backend));
    }
    while j < jobs.len()
        invariant
            j <= jobs@.len(),
            jobs@.len() == outcomes@.len(),
            out.deep_view() == spec_embedded(js.take(j as int), os.take(j as int), backend),
        decreases jobs@.len() - j,
    {
        proof {
            assert(js.take(j + 1).drop_last() =~= js.take(j as int));
            assert(os.take(j + 1).drop_last() =~= os.take(j as int));
            assert(js.take(j + 1).last() == js[j as int]);
            assert(os.take(j + 1).last() == os[j as int]);
        }
        match classify_embed_outcome(&outcomes[j]) {
            Ok(vs) => {
                match document_vector(&vs, backend) {
                    Some(v) => {
                        let ed = EmbeddedDocument {
                            document: jobs[j].document.clone(),
                            embedding: v,
                        };
                        let ghost prev = out.deep_view();
                        proof {
                            assert(ed@.document == js[j as int].document);
                        }
                        out.push(ed);
                        proof {
                            assert(out.deep_view() =~= prev.push(ed@));
                            assert(out.deep_view() =~= spec_embedded(
                                js.take(j + 1),
                                os.take(j + 1),
                                backend,
                            ));
                        }
                    },
                    None => {
                        proof {
                            assert(out.deep_view() =~= spec_embedded(
                                js.take(j + 1),
                                os.take(j + 1),
                                backend,
                            ));
                        }
                    },
                }
            },
            Err(_) => {
                proof {
                    assert(out.deep_view() =~= spec_embedded(
                        js.take(j + 1),
                        os.take(j + 1),
                        backend,
                    ));
                }
            },
        }
        j = j + 1;
    }
    proof {
        assert(js.take(jobs@.len() as int) =~= js);
        assert(os.take(outcomes@.len() as int) =~= os);
    }
    if out.len() == 0 {
        return Err(ErrorCode::VocabularyMiss);
    }
    Ok(out)
}

/// Whether a vector is one of the member vectors, by exact equality.
pub open spec fn spec_member(members: Seq<Seq<i64>>, e: Seq<i64>) -> bool {
    exists|m: int| 0 <= m < members.len() && members[m] == e
}

fn eq_vec_i64(a: &Vec<i64>, b: &Vec<i64>) -> (r: bool)
    ensures
        r == (a@ == b@),
{
    if a.len() != b.len() {
        return false;
    }
    let mut i: usize = 0;
    while i < a.len()
        invariant
            a@.len() == b@.len(),
            i <= a@.len(),
            forall|k: int| 0 <= k < i ==> a@[k] == b@[k],
        decreases a@.len() - i,
    {
        if a[i] != b[i] {
            return false;
        }
        i = i + 1;
    }
    proof {
        assert(a@ =~= b@);
    }
    true
}

fn contains_vec(members: &Vec<Vec<i64>>, e: &Vec<i64>) -> (r: bool)
    ensures
        r == spec_member(members.deep_view(), e@),
{
    let mut m: usize = 0;
    while m < members.len()
        invariant
            m <= members@.len(),
            forall|k: int| 0 <= k < m ==> members.deep_view()[k] != e@,
        decreases members@.len() - m,
    {
        if eq_vec_i64(&members[m], e) {
            proof {
                assert(members.deep_view()[m as int] == e@);
            }
            return true;
        }
        proof {
            assert(members.deep_view()[m as int] == members@[m as int]@);
        }
        m = m + 1;
    }
    false
}

/// Assembles the clusters from the clustering call's outcome: each raw
/// cluster keeps its centroid and gets the embedded documents whose vector
/// equals one of its member vectors, in embedding order. A failed call is a
/// clustering-script error.
#[verifier::loop_isolation(false)]
pub fn generate_clusters(embeddings: &Vec<EmbeddedDocument>, outcome: ClusterOutcome) -> (r: Result<
    Vec<Cluster>,
    ErrorCode,
>)
    ensures
        outcome is Failure ==> r == Err::<Vec<Cluster>, ErrorCode>(ErrorCode::ClusteringScriptError),
        outcome matches ClusterOutcome::Clusters(raw) ==> (r matches Ok(cs) && cs.deep_view()
            == Seq::new(
            raw.deep_view().len(),
            |k: int| ClusterView {
                centroid: raw.deep_view()[k].centroid,
                documents: embeddings.deep_view().filter(
                    |e: EmbeddedDocumentView| spec_member(raw.deep_view()[k].members, e.embedding),
                ),
            },
        )),
{
    let raw = match outcome {
        ClusterOutcome::Clusters(raw) => raw,
        ClusterOutcome::Failure => {
            return Err(ErrorCode::ClusteringScriptError);
        },
    };
    let ghost rv = raw.deep_view();
    let ghost ev = embeddings.deep_view();
    let mut out: Vec<Cluster> = Vec::new();
    let mut k: usize = 0;
    while k < raw.len()
        invariant
            k <= raw@.len(),
            rv == raw.deep_view(),
            ev == embeddings.deep_view(),
            out.deep_view().len() == k,
            forall|c: int|
                0 <= c < k ==> #[trigger] out.deep_view()[c] == (ClusterView {
                    centroid: rv[c].centroid,
                    documents: ev.filter(
                        |e: EmbeddedDocumentView| spec_member(rv[c].members, e.embedding),
                    ),
                }),
        decreases raw@.len() - k,
    {
        let ghost pred = |e: EmbeddedDocumentView| spec_member(rv[k as int].members, e.embedding);
        let mut docs: Vec<EmbeddedDocument> = Vec::new();
        let mut i: usize = 0;
        proof {
            assert(ev.take(0) =~= Seq::<EmbeddedDocumentView>::empty());
            reveal(Seq::filter);
            assert(docs.deep_view() =~= ev.take(0).filter(pred));
        }
        while i < embeddings.len()
            invariant
                i <= embeddings@.len(),
                k < raw@.len(),
                rv == raw.deep_view(),
                ev == embeddings.deep_view(),
                pred == (|e: EmbeddedDocumentView| spec_member(rv[k as int].members, e.embedding)),
                docs.deep_view() == ev.take(i as int).filter(pred),
            decreases embeddings@.len() - i,
        {
            proof {
                let m = ev.take(i as int);
                assert(ev.take(i + 1) =~= m.push(ev[i as int]));
                let q = m.push(ev[i as int]);
                assert(q.drop_last() =~= m);
                reveal(Seq::filter);
                assert(q.filter(pred) == if pred(q.last()) {
                    m.filter(pred).push(q.last())
                } else {
                    m.filter(pred)
                });
            }
            if contains_vec(&raw[k].members, &embeddings[i].embedding) {
                proof {
                    assert(raw[k as int]@ == rv[k as int]);
                    assert(embeddings@[i as int]@ == ev[i as int]);
                    assert(pred(ev[i as int]));
                }
                let ghost prev = docs.deep_view();
                docs.push(embeddings[i].clone());
                proof {
                    assert(docs.deep_view() =~= prev.push(ev[i as int]));
                }
            } else {
                proof {
                    assert(raw[k as int]@ == rv[k as int]);
                    assert(embeddings@[i as int]@ == ev[i as int]);
                    assert(!pred(ev[i as int]));
                }
            }
            i = i + 1;
        }
        proof {
            assert(ev.take(embeddings@.len() as int) =~= ev);
        }
        let cluster = Cluster { centroid: clone_vec_i64(&raw[k].centroid), documents: docs };
        let ghost prev = out.deep_view();
        proof {
            assert(cluster@ == (ClusterView {
                centroid: rv[k as int].centroid,
                documents: ev.filter(pred),
            }));
        }
        out.push(cluster);
        proof {
            assert(out.deep_view() =~= prev.push(cluster@));
        }
        k = k + 1;
    }
    proof {
        assert(out.deep_view() =~= Seq::new(
            rv.len(),
            |c: int| ClusterView {
                centroid: rv[c].centroid,
                documents: ev.filter(
                    |e: EmbeddedDocumentView| spec_member(rv[c].members, e.embedding),
                ),
            },
        ));
    }
    Ok(out)
}

/// The squared distance over the first `n` components.
pub open spec fn spec_dist_to(a: Seq<i64>, b: Seq<i64>, n: int) -> int
    decreases n,
{
    if n <= 0 {
        0
    } else {
        spec_dist_to(a, b, n - 1) + (a[n - 1] - b[n - 1]) * (a[n - 1] - b[n - 1])
    }
}

/// The distance between two vectors used to pick the closest centroid: the
/// sum of the squared component differences over the shorter length (the
/// square root is dropped, which keeps the argmin; see the module note on
/// the distance order).
pub open spec fn spec_dist(a: Seq<i64>, b: Seq<i64>) -> int {
    spec_dist_to(a, b, if a.len() <= b.len() {
        a.len() as int
    } else {
        b.len() as int
    })
}

/// Computes the squared distance between two bounded vectors.
#[verifier::loop_isolation(false)]
pub fn centroid_distance(a: &Vec<i64>, b: &Vec<i64>) -> (r: u128)
    requires
        spec_vec_ok(a@),
        spec_vec_ok(b@),
    ensures
        r == spec_dist(a@, b@),
{
    let n = if a.len() <= b.len() {
        a.len()
    } else {
        b.len()
    };
    let mut acc: u128 = 0;
    let mut i: usize = 0;
    while i < n
        invariant
            n <= a@.len() && n <= b@.len(),
            i <= n,
            acc == spec_dist_to(a@, b@, i as int),
            acc <= (i as int) * 0x40000000000000000000000,
        decreases n - i,
    {
        let d: i128 = (a[i] as i128) - (b[i] as i128);
        proof {
            assert(-VEC_COMP_BOUND <= a@[i as int] <= VEC_COMP_BOUND);
            assert(-VEC_COMP_BOUND <= b@[i as int] <= VEC_COMP_BOUND);
            assert(0 <= d * d <= 0x40000000000000000000000) by (nonlinear_arith)
                requires
                    -0x20000000000 <= d <= 0x20000000000,
            ;
        }
        let sq: i128 = d * d;
        acc = acc + (sq as u128);
        i = i + 1;
    }
    acc
}

/// How a query vector fits the centroid length.
pub enum QueryFit {
    /// The vector, zero-padded to the centroid length where it was shorter.
    Ready(Vec<i64>),
    /// The vector is longer than the centroid: a dimensionality reduction
    /// over the document embeddings must bring it down.
    NeedsReduction,
}

/// Fits the query vector to the centroid length: a shorter vector is
/// zero-padded, an equal-length one passes through, and a longer one is
/// handed back for the reduction step.
#[verifier::loop_isolation(false)]
pub fn fit_query_vector(query_vec: Vec<i64>, centroid_len: usize) -> (r: QueryFit)
    ensures
        query_vec@.len() > centroid_len ==> r is NeedsReduction,
        query_vec@.len() <= centroid_len ==> (r matches QueryFit::Ready(v) && v@.len()
            == centroid_len && v@.take(query_vec@.len() as int) == query_vec@ && forall|i: int|
            query_vec@.len() <= i < centroid_len ==> v@[i] == 0),
{
    if query_vec.len() > centroid_len {
        return QueryFit::NeedsReduction;
    }
    let ghost qv = query_vec@;
    let mut v = query_vec;
    while v.len() < centroid_len
        invariant
            qv.len() <= v@.len() <= centroid_len,
            v@.take(qv.len() as int) =~= qv,
            forall|i: int| qv.len() <= i < v@.len() ==> v@[i] == 0,
        decreases centroid_len - v@.len(),
    {
        v.push(0);
        proof {
            assert(v@.take(qv.len() as int) =~= qv);
        }
    }
    QueryFit::Ready(v)
}

/// Accepts the reduced query vector if the reduction produced exactly the
/// centroid length; anything else is an internal failure.
pub fn accept_reduced(reduced: Vec<i64>, centroid_len: usize) -> (r: Result<Vec<i64>, ErrorCode>)
    ensures
        reduced@.len() == centroid_len ==> (r matches Ok(v) && v@ == reduced@ && v@.len()
            == centroid_len),
        reduced@.len() != centroid_len ==> r == Err::<Vec<i64>, ErrorCode>(ErrorCode::Unspecified),
{
    if reduced.len() == centroid_len {
        Ok(reduced)
    } else {
        Err(ErrorCode::Unspecified)
    }
}

/// The index of the closest centroid, scanning from `i` with `best` the
/// closest so far; earlier clusters win ties.
pub open spec fn spec_best_cluster(cs: Seq<ClusterView>, q: Seq<i64>, i: int, best: int) -> int
    decreases cs.len() - i,
{
    if i < 0 || i >= cs.len() || best < 0 || best >= cs.len() {
        best
    } else {
        let nb = if spec_dist(q, cs[i].centroid) < spec_dist(q, cs[best].centroid) {
            i
        } else {
            best
        };
        spec_best_cluster(cs, q, i + 1, nb)
    }
}

proof fn lemma_best_cluster_minimal_from(cs: Seq<ClusterView>, q: Seq<i64>, i: int, best: int)
    requires
        0 <= best < cs.len(),
        0 <= i <= cs.len(),
        forall|k: int|
            0 <= k < i ==> spec_dist(q, cs[best].centroid) <= spec_dist(
                q,
                (#[trigger] cs[k]).centroid,
            ),
    ensures
        0 <= spec_best_cluster(cs, q, i, best) < cs.len(),
        forall|k: int|
            0 <= k < cs.len() ==> spec_dist(q, cs[spec_best_cluster(cs, q, i, best)].centroid)
                <= spec_dist(q, (#[trigger] cs[k]).centroid),
    decreases cs.len() - i,
{
    if i >= cs.len() {
    } else {
        let nb = if spec_dist(q, cs[i].centroid) < spec_dist(q, cs[best].centroid) {
            i
        } else {
            best
        };
        lemma_best_cluster_minimal_from(cs, q, i + 1, nb);
    }
}

/// The selection law behind `spec_best_cluster`: the selected cluster's
/// centroid is at least as close to the query vector as every other.
pub proof fn lemma_selected_cluster_is_nearest(cs: Seq<ClusterView>, q: Seq<i64>)
    requires
        cs.len() > 0,
    ensures
        0 <= spec_best_cluster(cs, q, 1, 0) < cs.len(),
        forall|k: int|
            0 <= k < cs.len() ==> spec_dist(q, cs[spec_best_cluster(cs, q, 1, 0)].centroid)
                <= spec_dist(q, (#[trigger] cs[k]).centroid),
{
    lemma_best_cluster_minimal_from(cs, q, 1, 0);
}

/// Every centroid within the distance arithmetic's bounds.
pub open spec fn spec_centroids_ok(cs: Seq<ClusterView>) -> bool {
    forall|k: int| 0 <= k < cs.len() ==> spec_vec_ok((#[trigger] cs[k]).centroid)
}

/// Selects the cluster whose centroid is closest to the query vector
/// (earlier clusters win ties) and returns its documents, in embedding
/// order. No clusters means no results; an out-of-bounds vector is an
/// internal failure.
#[verifier::loop_isolation(false)]
pub fn select_cluster(clusters: &Vec<Cluster>, query_vec: &Vec<i64>) -> (r: Result<
    Vec<Document>,
    ErrorCode,
>)
    ensures
        clusters@.len() == 0 ==> r == Err::<Vec<Document>, ErrorCode>(ErrorCode::NoResults),
        clusters@.len() > 0 && !(spec_vec_ok(query_vec@) && spec_centroids_ok(
            clusters.deep_view(),
        )) ==> r == Err::<Vec<Document>, ErrorCode>(ErrorCode::Unspecified),
        clusters@.len() > 0 && spec_vec_ok(query_vec@) && spec_centroids_ok(clusters.deep_view())
            ==> (r matches Ok(docs) && docs.deep_view() == ({
            let best = clusters.deep_view()[spec_best_cluster(
                clusters.deep_view(),
                query_vec@,
                1,
                0,
            )];
            Seq::new(best.documents.len(), |i: int| best.documents[i].document)
        })),
{
    let ghost cs = clusters.deep_view();
    if clusters.len() == 0 {
        return Err(ErrorCode::NoResults);
    }
    if !check_vec(query_vec) {
        return Err(ErrorCode::Unspecified);
    }
    let mut k: usize = 0;
    while k < clusters.len()
        invariant
            k <= clusters@.len(),
            cs == clusters.deep_view(),
            forall|j: int| 0 <= j < k ==> spec_vec_ok((#[trigger] cs[j]).centroid),
        decreases clusters@.len() - k,
    {
        if !check_vec(&clusters[k].centroid) {
            proof {
                assert(cs[k as int] == clusters@[k as int]@);
            }
            return Err(ErrorCode::Unspecified);
        }
        proof {
            assert(cs[k as int] == clusters@[k as int]@);
        }
        k = k + 1;
    }
    let mut best: usize = 0;
    proof {
        assert(cs[0] == clusters@[0]@);
        assert(spec_vec_ok(clusters@[0]@.centroid));
    }
    let mut best_dist = centroid_distance(query_vec, &clusters[0].centroid);
    let mut i: usize = 1;
    while i < clusters.len()
        invariant
            1 <= i <= clusters@.len(),
            best < clusters@.len(),
            cs == clusters.deep_view(),
            spec_vec_ok(query_vec@),
            spec_centroids_ok(cs),
            best_dist == spec_dist(query_vec@, cs[best as int].centroid),
            spec_best_cluster(cs, query_vec@, i as int, best as int) == spec_best_cluster(
                cs,
                query_vec@,
                1,
                0,
            ),
        decreases clusters@.len() - i,
    {
        let d = centroid_distance(query_vec, &clusters[i].centroid);
        if d < best_dist {
            best = i;
            best_dist = d;
        }
        i = i + 1;
    }
    let chosen = &clusters[best];
    let ghost bestv = cs[spec_best_cluster(cs, query_vec@, 1, 0)];
    proof {
        assert(spec_best_cluster(cs, query_vec@, clusters@.len() as int, best as int)
            == best as int);
        assert(chosen@ == bestv);
    }
    let mut docs: Vec<Document> = Vec::new();
    let mut m: usize = 0;
    while m < chosen.documents.len()
        invariant
            m <= chosen.documents@.len(),
            chosen@ == bestv,
            docs.deep_view().len() == m,
            forall|j: int|
                0 <= j < m ==> #[trigger] docs.deep_view()[j] == bestv.documents[j].document,
        decreases chosen.documents@.len() - m,
    {
        let ghost prev = docs.deep_view();
        docs.push(chosen.documents[m].document.clone());
        proof {
            assert(docs.deep_view() =~= prev.push(chosen.documents@[m as int].document@));
            assert(chosen.documents.deep_view()[m as int] == chosen.documents@[m as int]@);
            assert(bestv.documents[m as int] == chosen.documents@[m as int]@);
        }
        m = m + 1;
    }
    proof {
        assert(docs.deep_view() =~= Seq::new(
            bestv.documents.len(),
            |i: int| bestv.documents[i].document,
        ));
    }
    Ok(docs)
}

/// Hands the forward map out of the tagged index union; an inverted index
/// has no document-to-terms map.
pub fn collect_terms(index: Indexer) -> (r: Option<ForwardIndex>)
    ensures
        (index matches Indexer::TermIndex(f) ==> r == Some(f)),
        (index matches Indexer::InvertedIndex(v) ==> r is None),
{
    match index {
        Indexer::TermIndex(f) => Some(f),
        Indexer::InvertedIndex(_) => None,
    }
}

} // verus!
