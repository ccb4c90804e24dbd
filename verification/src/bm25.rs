//! BM25 ranking over the two indices, in exact fixed-point integer
//! arithmetic. Scores are integers: the inverse-document-frequency factor is
//! a binary logarithm in units of 2^-20, made strictly monotone in document
//! frequency by a small linear tie-break, and the term-frequency
//! normalisation with `k1 = 3/2`, `b = 3/4` is carried out exactly with a
//! scale of 2^32. Ranking sorts by descending score, ties broken by the
//! original document order, so a fixed index and query always yield one
//! ordering.

use vstd::prelude::*;

use vstd::arithmetic::div_mod::lemma_fundamental_div_mod;
use vstd::arithmetic::logarithm::{lemma_log_is_ordered, lemma_log_nonnegative, lemma_log_pow, log};
use vstd::arithmetic::power::pow;

use crate::parse::{Document, DocumentView};
use crate::index::{
    ForwardEntryView, ForwardIndex, InvertedEntryView, InvertedIndex, Posting, PostingView,
    spec_fwd_lookup, spec_inv_lookup,
};
use crate::text::{spec_words, split_words, str_eq};
use crate::ErrorCode;

verus! {

/// Bound on the document count and on the total term count that the scorer
/// accepts; keeps every intermediate product inside 128 bits.
pub const BM25_SIZE_BOUND: u64 = 0x100000;

/// Bound on the number of query terms the scorer accepts.
pub const BM25_QUERY_BOUND: usize = 0x10000;

/// The floor of the binary logarithm.
#[verifier::loop_isolation(false)]
pub fn floor_log2(x: u64) -> (r: u32)
    requires
        x >= 1,
    ensures
        r == log(2, x as int),
        r <= 63,
{
    let mut v = x;
    let mut r: u32 = 0;
    proof {
        vstd::arithmetic::power::lemma_pow0(2);
    }
    while v >= 2
        invariant
            v >= 1,
            log(2, x as int) == r + log(2, v as int),
            pow(2, r as nat) * v <= x,
            r <= 63,
        decreases v,
    {
        proof {
            vstd::arithmetic::power::lemma_pow_positive(2, r as nat);
            vstd::arithmetic::logarithm::lemma_log_s(2, v as int);
            assert(log(2, v as int) == 1 + log(2, v as int / 2));
            assert(v as int / 2 == (v / 2) as int);
            assert(pow(2, (r + 1) as nat) == 2 * pow(2, r as nat)) by {
                vstd::arithmetic::power::lemma_pow_adds(2, 1, r as nat);
                vstd::arithmetic::power::lemma_pow1(2);
            }
            let h = (v / 2) as int;
            assert(2 * h <= v);
            assert(h >= 1);
            assert(pow(2, (r + 1) as nat) * h <= pow(2, r as nat) * v) by (nonlinear_arith)
                requires
                    pow(2, (r + 1) as nat) == 2 * pow(2, r as nat),
                    pow(2, r as nat) > 0,
                    2 * h <= v,
                    h >= 1,
            ;
            assert(r < 63) by {
                if r >= 63 {
                    assert(pow(2, r as nat) == pow(2, 63));
                    assert(pow(2, 63) == 0x8000000000000000) by {
                        vstd::arithmetic::power2::lemma_pow2(63);
                        vstd::arithmetic::power2::lemma2_to64();
                    }
                    assert(pow(2, 63) * 2 <= pow(2, 63) * v) by (nonlinear_arith)
                        requires
                            v >= 2,
                            pow(2, 63) > 0,
                    ;
                    assert(false);
                }
            }
        }
        v = v / 2;
        r = r + 1;
    }
    proof {
        vstd::arithmetic::logarithm::lemma_log0(2, v as int);
    }
    r
}

/// The scaled inverse document frequency: the binary logarithm of
/// `(2 N - n) / (2 n)` in units of 2^-20 (a fixed-point stand-in for the
/// BM25 `log((N - n)/n + 1/2)` weight), plus `N - n`, which makes the value
/// strictly decreasing in the document frequency `n`.
pub open spec fn spec_idf(n_docs: int, n: int) -> int {
    0x100000 * (log(2, 2 * n_docs - n) - log(2, 2 * n)) + (n_docs - n)
}

proof fn lemma_log2_bound(x: int)
    requires
        1 <= x <= 0x200000,
    ensures
        0 <= log(2, x) <= 21,
{
    lemma_log_nonnegative(2, x);
    lemma_log_is_ordered(2, x, 0x200000);
    assert(pow(2, 21) == 0x200000) by {
        vstd::arithmetic::power2::lemma_pow2(21);
        vstd::arithmetic::power2::lemma2_to64();
    }
    lemma_log_pow(2, 21);
}

/// Bound of the scaled idf for bounded indices.
proof fn lemma_idf_bound(n_docs: int, n: int)
    requires
        1 <= n <= n_docs <= BM25_SIZE_BOUND,
    ensures
        -0x4000000 <= spec_idf(n_docs, n) <= 0x4000000,
{
    lemma_log2_bound(2 * n_docs - n);
    lemma_log2_bound(2 * n);
}

/// The scaled idf is strictly decreasing in the document frequency: a rarer
/// term has a strictly larger idf.
pub proof fn lemma_idf_strictly_decreasing(n_docs: int, n1: int, n2: int)
    requires
        1 <= n1 < n2 <= n_docs,
    ensures
        spec_idf(n_docs, n1) > spec_idf(n_docs, n2),
{
    lemma_log_is_ordered(2, 2 * n_docs - n2, 2 * n_docs - n1);
    lemma_log_is_ordered(2, 2 * n1, 2 * n2);
    let g1 = log(2, 2 * n_docs - n1) - log(2, 2 * n1);
    let g2 = log(2, 2 * n_docs - n2) - log(2, 2 * n2);
    assert(g1 >= g2);
    assert(0x100000 * g1 >= 0x100000 * g2) by (nonlinear_arith)
        requires
            g1 >= g2,
    ;
}

/// Computes the scaled idf.
pub fn idf_scaled(n_docs: u64, n: u64) -> (r: i64)
    requires
        1 <= n <= n_docs,
        n_docs <= BM25_SIZE_BOUND,
    ensures
        r == spec_idf(n_docs as int, n as int),
{
    let a = floor_log2(2 * n_docs - n);
    let b = floor_log2(2 * n);
    0x100000i64 * (a as i64 - b as i64) + (n_docs as i64 - n as i64)
}

/// The numerator of the term-frequency weight `tf (k1+1) / (tf + k1 (1 - b
/// + b dl/avg))` with `k1 = 3/2`, `b = 3/4` and `avg = total/n_docs`,
/// multiplied through so that it is exact over the integers, and scaled by
/// 2^32.
pub open spec fn spec_weight_num(tf: int, total: int) -> int {
    20 * tf * total * 0x100000000
}

/// The matching denominator of the term-frequency weight.
pub open spec fn spec_weight_den(tf: int, total: int, dl: int, n_docs: int) -> int {
    8 * total * tf + 3 * total + 9 * dl * n_docs
}

/// A quantity scaled by a positive fraction `num/den`, rounded toward zero,
/// as machine division computes it.
pub open spec fn spec_scaled(a: int, num: int, den: int) -> int {
    if a >= 0 {
        (a * num) / den
    } else {
        -(((-a) * num) / den)
    }
}

/// One query term's contribution to a document's score: the scaled idf
/// times the exact term-frequency weight. A term that does not occur in the
/// document or in the index, or an index without terms, contributes zero.
pub open spec fn spec_comp(n_docs: int, total: int, n: int, tf: int, dl: int) -> int {
    if tf <= 0 || n <= 0 || total <= 0 {
        0
    } else {
        spec_scaled(
            spec_idf(n_docs, n),
            spec_weight_num(tf, total),
            spec_weight_den(tf, total, dl, n_docs),
        )
    }
}

/// Scaling by at least 3 keeps strict order through truncating division.
proof fn lemma_scaled_strict(a1: int, a2: int, num: int, den: int)
    requires
        a1 > a2,
        den >= 1,
        num >= 3 * den,
    ensures
        spec_scaled(a1, num, den) > spec_scaled(a2, num, den),
{
    vstd::arithmetic::div_mod::lemma_mod_division_less_than_divisor(a1 * num, den);
    vstd::arithmetic::div_mod::lemma_mod_division_less_than_divisor(a2 * num, den);
    vstd::arithmetic::div_mod::lemma_mod_division_less_than_divisor((-a1) * num, den);
    vstd::arithmetic::div_mod::lemma_mod_division_less_than_divisor((-a2) * num, den);
    lemma_fundamental_div_mod(a1 * num, den);
    lemma_fundamental_div_mod(a2 * num, den);
    lemma_fundamental_div_mod((-a1) * num, den);
    lemma_fundamental_div_mod((-a2) * num, den);
    if a1 >= 0 && a2 >= 0 {
        let q1 = (a1 * num) / den;
        let q2 = (a2 * num) / den;
        assert(q1 > q2) by (nonlinear_arith)
            requires
                a1 * num == den * q1 + (a1 * num) % den,
                a2 * num == den * q2 + (a2 * num) % den,
                0 <= (a1 * num) % den < den,
                0 <= (a2 * num) % den < den,
                a1 >= a2 + 1,
                a2 >= 0,
                den >= 1,
                num >= 3 * den,
        ;
    } else if a1 >= 0 && a2 < 0 {
        let q1 = (a1 * num) / den;
        let q2 = ((-a2) * num) / den;
        assert(q1 >= 0 && q2 >= 1) by (nonlinear_arith)
            requires
                a1 * num == den * q1 + (a1 * num) % den,
                (-a2) * num == den * q2 + ((-a2) * num) % den,
                0 <= (a1 * num) % den < den,
                0 <= ((-a2) * num) % den < den,
                a1 >= 0,
                a2 <= -1,
                den >= 1,
                num >= 3 * den,
        ;
    } else {
        let q1 = ((-a1) * num) / den;
        let q2 = ((-a2) * num) / den;
        assert(q2 > q1) by (nonlinear_arith)
            requires
                (-a1) * num == den * q1 + ((-a1) * num) % den,
                (-a2) * num == den * q2 + ((-a2) * num) % den,
                0 <= ((-a1) * num) % den < den,
                0 <= ((-a2) * num) % den < den,
                a1 <= -1,
                a2 <= a1 - 1,
                den >= 1,
                num >= 3 * den,
        ;
    }
}

/// The idf monotonicity law: of two terms with the same term frequency in a
/// document of the same length, the rarer term (present in strictly fewer
/// documents) contributes a strictly larger score component.
pub proof fn lemma_rarer_term_scores_higher(
    n_docs: int,
    total: int,
    n1: int,
    n2: int,
    tf: int,
    dl: int,
)
    requires
        1 <= n1 < n2 <= n_docs <= BM25_SIZE_BOUND,
        1 <= tf,
        1 <= total <= BM25_SIZE_BOUND,
        0 <= dl <= total,
    ensures
        spec_comp(n_docs, total, n1, tf, dl) > spec_comp(n_docs, total, n2, tf, dl),
{
    lemma_idf_strictly_decreasing(n_docs, n1, n2);
    let num = spec_weight_num(tf, total);
    let den = spec_weight_den(tf, total, dl, n_docs);
    assert(den >= 1 && num >= 3 * den) by (nonlinear_arith)
        requires
            num == 20 * tf * total * 0x100000000,
            den == 8 * total * tf + 3 * total + 9 * dl * n_docs,
            1 <= tf,
            1 <= total,
            0 <= dl <= total,
            1 <= n_docs <= 0x100000,
    ;
    lemma_scaled_strict(spec_idf(n_docs, n1), spec_idf(n_docs, n2), num, den);
}

/// Bound of one component for bounded inputs: it fits comfortably in 128
/// bits, so that score sums cannot overflow.
proof fn lemma_comp_bound(n_docs: int, total: int, n: int, tf: int, dl: int)
    requires
        1 <= n_docs <= BM25_SIZE_BOUND,
        0 <= total <= BM25_SIZE_BOUND,
        0 <= n <= n_docs,
        0 <= tf <= BM25_SIZE_BOUND,
        0 <= dl <= total,
    ensures
        -0x800000000000000000000000000 <= spec_comp(n_docs, total, n, tf, dl)
            <= 0x800000000000000000000000000,
{
    if tf <= 0 || n <= 0 || total <= 0 {
    } else {
        let a = spec_idf(n_docs, n);
        let num = spec_weight_num(tf, total);
        let den = spec_weight_den(tf, total, dl, n_docs);
        lemma_idf_bound(n_docs, n);
        assert(den >= 1 && num >= 0 && num <= 0x100000000000000000000) by (nonlinear_arith)
            requires
                num == 20 * tf * total * 0x100000000,
                den == 8 * total * tf + 3 * total + 9 * dl * n_docs,
                1 <= tf <= 0x100000,
                1 <= total <= 0x100000,
                0 <= dl,
                1 <= n_docs,
        ;
        if a >= 0 {
            let x = a * num;
            assert(0 <= x <= 0x800000000000000000000000000) by (nonlinear_arith)
                requires
                    0 <= a <= 0x4000000,
                    0 <= num <= 0x100000000000000000000,
                    x == a * num,
            ;
            vstd::arithmetic::div_mod::lemma_div_pos_is_pos(x, den);
            vstd::arithmetic::div_mod::lemma_div_nonincreasing(x, den);
        } else {
            let x = (-a) * num;
            assert(0 <= x <= 0x800000000000000000000000000) by (nonlinear_arith)
                requires
                    0 <= -a <= 0x4000000,
                    0 <= num <= 0x100000000000000000000,
                    x == (-a) * num,
            ;
            vstd::arithmetic::div_mod::lemma_div_pos_is_pos(x, den);
            vstd::arithmetic::div_mod::lemma_div_nonincreasing(x, den);
        }
    }
}

/// Computes one query term's score component.
fn comp_term(n_docs: u64, total: u64, n: u64, tf: u64, dl: u64) -> (r: i128)
    requires
        1 <= n_docs <= BM25_SIZE_BOUND,
        total <= BM25_SIZE_BOUND,
        n <= n_docs,
        tf <= BM25_SIZE_BOUND,
        dl <= total,
    ensures
        r == spec_comp(n_docs as int, total as int, n as int, tf as int, dl as int),
{
    if tf == 0 || n == 0 || total == 0 {
        return 0;
    }
    let a = idf_scaled(n_docs, n);
    proof {
        lemma_idf_bound(n_docs as int, n as int);
        assert(20 * (tf as int) * (total as int) < 0x200000000000) by (nonlinear_arith)
            requires
                1 <= tf as int <= 0x100000,
                1 <= total as int <= 0x100000,
        ;
        assert(8 * (total as int) * (tf as int) + 3 * (total as int) + 9 * (dl as int) * (
        n_docs as int) < 0x200000000000) by (nonlinear_arith)
            requires
                1 <= tf as int <= 0x100000,
                1 <= total as int <= 0x100000,
                0 <= dl as int <= 0x100000,
                1 <= n_docs as int <= 0x100000,
        ;
        assert(1 <= 8 * (total as int) * (tf as int)) by (nonlinear_arith)
            requires
                1 <= tf as int,
                1 <= total as int,
        ;
    }
    let nt: u64 = 20 * tf * total;
    let den64: u64 = 8 * total * tf + 3 * total + 9 * dl * n_docs;
    let num: i128 = (nt as i128) * 0x100000000i128;
    let den: i128 = den64 as i128;
    proof {
        assert(num == spec_weight_num(tf as int, total as int)) by (nonlinear_arith)
            requires
                num == 20 * (tf as int) * (total as int) * 0x100000000,
        ;
        assert(den == spec_weight_den(tf as int, total as int, dl as int, n_docs as int));
        assert(0 <= num <= 0x100000000000000000000) by (nonlinear_arith)
            requires
                num == 20 * (tf as int) * (total as int) * 0x100000000,
                1 <= tf as int <= 0x100000,
                1 <= total as int <= 0x100000,
        ;
        assert((a as int) * num <= 0x800000000000000000000000000 && (-(a as int)) * num
            <= 0x800000000000000000000000000 && (a as int) * num
            >= -0x800000000000000000000000000) by (nonlinear_arith)
            requires
                -0x4000000 <= a as int <= 0x4000000,
                0 <= num <= 0x100000000000000000000,
        ;
    }
    if a >= 0 {
        let x: i128 = (a as i128) * num;
        proof {
            assert((a as int) * num >= 0) by (nonlinear_arith)
                requires
                    a as int >= 0,
                    num >= 0,
            ;
            vstd::arithmetic::div_mod::lemma_div_pos_is_pos(x as int, den as int);
            vstd::arithmetic::div_mod::lemma_div_nonincreasing(x as int, den as int);
        }
        x / den
    } else {
        let x: i128 = (-(a as i128)) * num;
        proof {
            assert((-(a as int)) * num >= 0) by (nonlinear_arith)
                requires
                    -(a as int) >= 0,
                    num >= 0,
            ;
            vstd::arithmetic::div_mod::lemma_div_pos_is_pos(x as int, den as int);
            vstd::arithmetic::div_mod::lemma_div_nonincreasing(x as int, den as int);
        }
        -(x / den)
    }
}

/// The term frequency of the first posting for `d`, or zero if the document
/// has no posting in the list.
pub open spec fn spec_tf(postings: Seq<PostingView>, d: DocumentView) -> int
    decreases postings.len(),
{
    if postings.len() == 0 {
        0
    } else if postings[0].document == d {
        postings[0].term_frequency as int
    } else {
        spec_tf(postings.drop_first(), d)
    }
}

/// The total number of terms over all forward-index entries.
pub open spec fn spec_total(fwd: Seq<ForwardEntryView>) -> int
    decreases fwd.len(),
{
    if fwd.len() == 0 {
        0
    } else {
        spec_total(fwd.drop_last()) + fwd.last().terms.len()
    }
}

/// The length of the document: its term count in the forward index, or zero
/// if it is not indexed.
pub open spec fn spec_doc_len(fwd: Seq<ForwardEntryView>, d: DocumentView) -> int {
    match spec_fwd_lookup(fwd, d) {
        Some(ts) => ts.len() as int,
        None => 0,
    }
}

/// The index pair sizes the scorer accepts: at least one document, at least
/// one term overall, and every count inside `BM25_SIZE_BOUND`.
pub open spec fn spec_bm25_valid(fwd: Seq<ForwardEntryView>, inv: Seq<InvertedEntryView>) -> bool {
    &&& 1 <= fwd.len() <= BM25_SIZE_BOUND
    &&& 1 <= spec_total(fwd) <= BM25_SIZE_BOUND
    &&& forall|j: int| 0 <= j < fwd.len() ==> (#[trigger] fwd[j].terms).len() <= spec_total(fwd)
    &&& forall|k: int| 0 <= k < inv.len() ==> (#[trigger] inv[k].postings).len() <= fwd.len()
    &&& forall|k: int, m: int|
        0 <= k < inv.len() && 0 <= m < inv[k].postings.len() ==> (#[trigger] inv[k].postings[m]).term_frequency
            <= BM25_SIZE_BOUND
}

proof fn lemma_lookup_is_entry(inv: Seq<InvertedEntryView>, t: Seq<char>)
    ensures
        spec_inv_lookup(inv, t) == Seq::<PostingView>::empty() || exists|k: int|
            0 <= k < inv.len() && spec_inv_lookup(inv, t) == (#[trigger] inv[k]).postings,
    decreases inv.len(),
{
    if inv.len() == 0 {
    } else if inv[0].term == t {
        assert(spec_inv_lookup(inv, t) == inv[0].postings);
    } else {
        lemma_lookup_is_entry(inv.drop_first(), t);
        if spec_inv_lookup(inv, t) != Seq::<PostingView>::empty() {
            let k0 = choose|k: int|
                0 <= k < inv.drop_first().len() && spec_inv_lookup(inv.drop_first(), t) == (
                #[trigger] inv.drop_first()[k]).postings;
            assert(inv[k0 + 1] == inv.drop_first()[k0]);
            assert(spec_inv_lookup(inv, t) == inv[k0 + 1].postings);
        }
    }
}

proof fn lemma_tf_in_range(postings: Seq<PostingView>, d: DocumentView, bound: int)
    requires
        forall|m: int| 0 <= m < postings.len() ==> (#[trigger] postings[m]).term_frequency <= bound,
        bound >= 0,
    ensures
        0 <= spec_tf(postings, d) <= bound,
    decreases postings.len(),
{
    if postings.len() == 0 {
    } else if postings[0].document == d {
    } else {
        assert(forall|m: int|
            0 <= m < postings.drop_first().len() ==> (#[trigger] postings.drop_first()[m]).term_frequency
                <= bound) by {
            assert(forall|m: int|
                0 <= m < postings.drop_first().len() ==> postings.drop_first()[m] == postings[m
                    + 1]);
        }
        lemma_tf_in_range(postings.drop_first(), d, bound);
    }
}

/// The sum of the term counts of a prefix never exceeds the whole sum.
proof fn lemma_total_prefix(fwd: Seq<ForwardEntryView>, i: int)
    requires
        0 <= i <= fwd.len(),
    ensures
        spec_total(fwd.take(i)) <= spec_total(fwd),
    decreases fwd.len() - i,
{
    if i == fwd.len() {
        assert(fwd.take(i) =~= fwd);
    } else {
        assert(fwd.take(i + 1).drop_last() =~= fwd.take(i));
        assert(spec_total(fwd.take(i)) <= spec_total(fwd.take(i + 1)));
        lemma_total_prefix(fwd, i + 1);
    }
}

/// Sums the term counts, or reports that the sum exceeds the bound.
#[verifier::loop_isolation(false)]
fn compute_total(fwd: &ForwardIndex) -> (r: Option<u64>)
    ensures
        match r {
            Some(t) => t == spec_total(fwd.entries.deep_view()) && t <= BM25_SIZE_BOUND,
            None => spec_total(fwd.entries.deep_view()) > BM25_SIZE_BOUND,
        },
{
    let ghost dv = fwd.entries.deep_view();
    let mut acc: u64 = 0;
    let mut i: usize = 0;
    proof {
        assert(dv.take(0) =~= Seq::<ForwardEntryView>::empty());
    }
    while i < fwd.entries.len()
        invariant
            i <= fwd.entries@.len(),
            acc == spec_total(dv.take(i as int)),
            acc <= BM25_SIZE_BOUND,
        decreases fwd.entries@.len() - i,
    {
        let l = fwd.entries[i].terms.len();
        proof {
            assert(dv.take(i + 1).drop_last() =~= dv.take(i as int));
            assert(dv.take(i + 1).last() == dv[i as int]);
            assert(dv[i as int].terms.len() == l);
        }
        if l as u64 > BM25_SIZE_BOUND || acc > BM25_SIZE_BOUND - l as u64 {
            proof {
                lemma_total_prefix(dv, i + 1);
            }
            return None;
        }
        acc = acc + l as u64;
        i = i + 1;
    }
    proof {
        assert(dv.take(fwd.entries@.len() as int) =~= dv);
    }
    Some(acc)
}

/// The BM25 ranking state: the two indices with their document and total
/// term counts, within the scorer's bounds.
pub struct BM25 {
    forward: ForwardIndex,
    inverted: InvertedIndex,
    doc_count: u64,
    total_terms: u64,
}

impl BM25 {
    pub closed spec fn spec_forward(&self) -> Seq<ForwardEntryView> {
        self.forward.entries.deep_view()
    }

    pub closed spec fn spec_inverted(&self) -> Seq<InvertedEntryView> {
        self.inverted.entries.deep_view()
    }

    /// Well-formedness: the indices are within the scorer's bounds and the
    /// cached counts are what they count.
    pub closed spec fn wf(&self) -> bool {
        &&& spec_bm25_valid(self.spec_forward(), self.spec_inverted())
        &&& self.doc_count == self.spec_forward().len()
        &&& self.total_terms == spec_total(self.spec_forward())
    }

    /// Builds the ranking state, validating the size bounds; an index pair
    /// out of bounds is refused with the catch-all code.
    #[verifier::loop_isolation(false)]
    pub fn new(forward: ForwardIndex, inverted: InvertedIndex) -> (r: Result<BM25, ErrorCode>)
        ensures
            match r {
                Ok(bm) => {
                    &&& spec_bm25_valid(forward.entries.deep_view(), inverted.entries.deep_view())
                    &&& bm.wf()
                    &&& bm.spec_forward() == forward.entries.deep_view()
                    &&& bm.spec_inverted() == inverted.entries.deep_view()
                },
                Err(e) => e == ErrorCode::Unspecified && !spec_bm25_valid(
                    forward.entries.deep_view(),
                    inverted.entries.deep_view(),
                ),
            },
    {
        let ghost fdv = forward.entries.deep_view();
        let ghost idv = inverted.entries.deep_view();
        let n = forward.entries.len();
        if n == 0 || n as u64 > BM25_SIZE_BOUND {
            return Err(ErrorCode::Unspecified);
        }
        let total = match compute_total(&forward) {
            Some(t) => t,
            None => {
                return Err(ErrorCode::Unspecified);
            },
        };
        if total == 0 {
            return Err(ErrorCode::Unspecified);
        }
        let mut j: usize = 0;
        while j < n
            invariant
                n == forward.entries@.len(),
                total == spec_total(fdv),
                forall|p: int| 0 <= p < j ==> (#[trigger] fdv[p].terms).len() <= total,
            decreases n - j,
        {
            if forward.entries[j].terms.len() as u64 > total {
                proof {
                    assert(fdv[j as int].terms.len() > spec_total(fdv));
                }
                return Err(ErrorCode::Unspecified);
            }
            j = j + 1;
        }
        let mut k: usize = 0;
        while k < inverted.entries.len()
            invariant
                n == forward.entries@.len(),
                forall|p: int| 0 <= p < k ==> (#[trigger] idv[p].postings).len() <= n,
                forall|p: int, m: int|
                    0 <= p < k && 0 <= m < idv[p].postings.len() ==> (
                    #[trigger] idv[p].postings[m]).term_frequency <= BM25_SIZE_BOUND,
            decreases inverted.entries@.len() - k,
        {
            if inverted.entries[k].postings.len() > n {
                proof {
                    assert(idv[k as int].postings.len() > fdv.len());
                }
                return Err(ErrorCode::Unspecified);
            }
            let mut m: usize = 0;
            while m < inverted.entries[k].postings.len()
                invariant
                    k < inverted.entries@.len(),
                    forall|q: int|
                        0 <= q < m ==> (#[trigger] idv[k as int].postings[q]).term_frequency
                            <= BM25_SIZE_BOUND,
                decreases inverted.entries@[k as int].postings@.len() - m,
            {
                if inverted.entries[k].postings[m].term_frequency > BM25_SIZE_BOUND {
                    proof {
                        assert(idv[k as int].postings[m as int].term_frequency
                            > BM25_SIZE_BOUND);
                    }
                    return Err(ErrorCode::Unspecified);
                }
                m = m + 1;
            }
            k = k + 1;
        }
        let bm = BM25 { forward, inverted, doc_count: n as u64, total_terms: total };
        Ok(bm)
    }
}

/// Finds the posting list of the first inverted entry for `t`.
#[verifier::loop_isolation(false)]
fn lookup_postings<'a>(inv: &'a InvertedIndex, t: &str) -> (r: Option<&'a Vec<Posting>>)
    ensures
        match r {
            Some(ps) => ps.deep_view() == spec_inv_lookup(inv.entries.deep_view(), t@),
            None => spec_inv_lookup(inv.entries.deep_view(), t@) == Seq::<PostingView>::empty(),
        },
{
    let ghost dv = inv.entries.deep_view();
    let mut k: usize = 0;
    proof {
        assert(dv.skip(0) =~= dv);
    }
    while k < inv.entries.len()
        invariant
            k <= inv.entries@.len(),
            spec_inv_lookup(dv, t@) == spec_inv_lookup(dv.skip(k as int), t@),
        decreases inv.entries@.len() - k,
    {
        proof {
            assert(dv.skip(k as int)[0] == dv[k as int]);
            assert(dv.skip(k as int).drop_first() =~= dv.skip(k + 1));
        }
        if str_eq(inv.entries[k].term.as_str(), t) {
            proof {
                assert(spec_inv_lookup(dv.skip(k as int), t@) == dv[k as int].postings);
            }
            return Some(&inv.entries[k].postings);
        }
        k = k + 1;
    }
    proof {
        assert(dv.skip(inv.entries@.len() as int) =~= Seq::<InvertedEntryView>::empty());
    }
    None
}

/// Finds the document's term count in the forward index, or zero.
#[verifier::loop_isolation(false)]
fn lookup_doc_len(fwd: &ForwardIndex, d: &Document) -> (r: u64)
    requires
        spec_total(fwd.entries.deep_view()) <= BM25_SIZE_BOUND,
        forall|j: int|
            0 <= j < fwd.entries.deep_view().len() ==> (#[trigger] fwd.entries.deep_view()[j].terms).len()
                <= spec_total(fwd.entries.deep_view()),
    ensures
        r == spec_doc_len(fwd.entries.deep_view(), d@),
        r <= spec_total(fwd.entries.deep_view()),
{
    let ghost dv = fwd.entries.deep_view();
    let mut k: usize = 0;
    proof {
        assert(dv.skip(0) =~= dv);
    }
    while k < fwd.entries.len()
        invariant
            k <= fwd.entries@.len(),
            spec_fwd_lookup(dv, d@) == spec_fwd_lookup(dv.skip(k as int), d@),
        decreases fwd.entries@.len() - k,
    {
        proof {
            assert(dv.skip(k as int)[0] == dv[k as int]);
            assert(dv.skip(k as int).drop_first() =~= dv.skip(k + 1));
        }
        if fwd.entries[k].document == *d {
            proof {
                assert(dv[k as int].document == d@);
                assert(spec_fwd_lookup(dv.skip(k as int), d@) == Some(dv[k as int].terms));
            }
            return fwd.entries[k].terms.len() as u64;
        }
        proof {
            assert(dv[k as int].document != d@);
        }
        k = k + 1;
    }
    proof {
        assert(dv.skip(fwd.entries@.len() as int) =~= Seq::<ForwardEntryView>::empty());
    }
    0
}

/// The term frequency of `d` in the posting list.
#[verifier::loop_isolation(false)]
fn lookup_tf(postings: &Vec<Posting>, d: &Document) -> (r: u64)
    ensures
        r == spec_tf(postings.deep_view(), d@),
{
    let ghost dv = postings.deep_view();
    let mut m: usize = 0;
    proof {
        assert(dv.skip(0) =~= dv);
    }
    while m < postings.len()
        invariant
            m <= postings@.len(),
            spec_tf(dv, d@) == spec_tf(dv.skip(m as int), d@),
        decreases postings@.len() - m,
    {
        proof {
            assert(dv.skip(m as int)[0] == dv[m as int]);
            assert(dv.skip(m as int).drop_first() =~= dv.skip(m + 1));
        }
        if postings[m].document == *d {
            proof {
                assert(dv[m as int].document == d@);
            }
            return postings[m].term_frequency;
        }
        proof {
            assert(dv[m as int].document != d@);
        }
        m = m + 1;
    }
    proof {
        assert(dv.skip(postings@.len() as int) =~= Seq::<PostingView>::empty());
    }
    0
}

/// The score of one document against the query: the sum of the components
/// of the whitespace-separated query terms.
pub open spec fn spec_score_terms(
    inv: Seq<InvertedEntryView>,
    terms: Seq<Seq<char>>,
    n_docs: int,
    total: int,
    dl: int,
    d: DocumentView,
) -> int
    decreases terms.len(),
{
    if terms.len() == 0 {
        0
    } else {
        let ps = spec_inv_lookup(inv, terms.last());
        spec_score_terms(inv, terms.drop_last(), n_docs, total, dl, d) + spec_comp(
            n_docs,
            total,
            ps.len() as int,
            spec_tf(ps, d),
            dl,
        )
    }
}

/// The BM25 score of a document for a query, over the index pair.
pub open spec fn spec_score(
    fwd: Seq<ForwardEntryView>,
    inv: Seq<InvertedEntryView>,
    query: Seq<char>,
    d: DocumentView,
) -> int {
    spec_score_terms(
        inv,
        spec_words(query),
        fwd.len() as int,
        spec_total(fwd),
        spec_doc_len(fwd, d),
        d,
    )
}

impl BM25 {
    /// The scaled inverse document frequency of a term, zero when no
    /// document contains it.
    pub fn idf(&self, term: &str) -> (r: i64)
        requires
            self.wf(),
        ensures
            ({
                let n = spec_inv_lookup(self.spec_inverted(), term@).len();
                r == if n == 0 {
                    0
                } else {
                    spec_idf(self.spec_forward().len() as int, n as int)
                }
            }),
    {
        let ps = match lookup_postings(&self.inverted, term) {
            Some(ps) => ps,
            None => {
                return 0;
            },
        };
        if ps.len() == 0 {
            return 0;
        }
        proof {
            lemma_lookup_is_entry(self.spec_inverted(), term@);
        }
        idf_scaled(self.doc_count, ps.len() as u64)
    }

    /// The fixed-point BM25 score of a document for a query.
    #[verifier::loop_isolation(false)]
    pub fn score(&self, query: &str, document: &Document) -> (r: i128)
        requires
            self.wf(),
            spec_words(query@).len() <= BM25_QUERY_BOUND,
        ensures
            r == spec_score(self.spec_forward(), self.spec_inverted(), query@, document@),
    {
        let terms = split_words(query, false);
        let ghost ts = terms.deep_view();
        let ghost fdv = self.spec_forward();
        let ghost idv = self.spec_inverted();
        let dl = lookup_doc_len(&self.forward, document);
        let mut acc: i128 = 0;
        let mut i: usize = 0;
        proof {
            assert(ts.take(0) =~= Seq::<Seq<char>>::empty());
        }
        while i < terms.len()
            invariant
                i <= terms@.len(),
                acc == spec_score_terms(
                    idv,
                    ts.take(i as int),
                    fdv.len() as int,
                    spec_total(fdv),
                    dl as int,
                    document@,
                ),
                -0x800000000000000000000000000 * (i as int) <= acc
                    <= 0x800000000000000000000000000 * (i as int),
            decreases terms@.len() - i,
        {
            let n: u64;
            let tf: u64;
            match lookup_postings(&self.inverted, terms[i].as_str()) {
                Some(ps) => {
                    proof {
                        lemma_lookup_is_entry(idv, ts[i as int]);
                        if ps.deep_view().len() > 0 {
                            let k0 = choose|k: int|
                                0 <= k < idv.len() && spec_inv_lookup(idv, ts[i as int]) == (
                                #[trigger] idv[k]).postings;
                            lemma_tf_in_range(idv[k0].postings, document@, BM25_SIZE_BOUND as int);
                        }
                    }
                    n = ps.len() as u64;
                    tf = lookup_tf(ps, document);
                },
                None => {
                    n = 0;
                    tf = 0;
                },
            }
            proof {
                lemma_comp_bound(
                    fdv.len() as int,
                    spec_total(fdv),
                    n as int,
                    tf as int,
                    dl as int,
                );
                assert(ts.take(i + 1).drop_last() =~= ts.take(i as int));
                assert(ts.take(i + 1).last() == ts[i as int]);
            }
            let c = comp_term(self.doc_count, self.total_terms, n, tf, dl);
            acc = acc + c;
            i = i + 1;
        }
        proof {
            assert(ts.take(terms@.len() as int) =~= ts);
        }
        acc
    }
}

/// The sort order of the score pairs: larger score first; equal scores keep
/// the original document order.
pub open spec fn spec_before(a: (int, int), b: (int, int)) -> bool {
    a.0 > b.0 || (a.0 == b.0 && a.1 < b.1)
}

/// Inserts a score pair behind every pair that precedes it in the order.
pub open spec fn spec_insert_pair(s: Seq<(int, int)>, x: (int, int)) -> Seq<(int, int)>
    decreases s.len(),
{
    if s.len() > 0 && spec_before(s[0], x) {
        seq![s[0]] + spec_insert_pair(s.drop_first(), x)
    } else {
        seq![x] + s
    }
}

/// Insertion-sorts the score pairs, in document order; with distinct
/// second components the result is the unique stable descending order.
pub open spec fn spec_sort_pairs(s: Seq<(int, int)>) -> Seq<(int, int)>
    decreases s.len(),
{
    if s.len() == 0 {
        Seq::empty()
    } else {
        spec_insert_pair(spec_sort_pairs(s.drop_last()), s.last())
    }
}

/// The score pair of every document of the forward index, in index order.
pub open spec fn spec_score_pairs(
    fwd: Seq<ForwardEntryView>,
    inv: Seq<InvertedEntryView>,
    query: Seq<char>,
) -> Seq<(int, int)> {
    Seq::new(fwd.len(), |j: int| (spec_score(fwd, inv, query, fwd[j].document), j))
}

/// The ranking: every indexed document, sorted by descending score, ties
/// broken by index order. A fixed index pair and query determine it fully.
pub open spec fn spec_rank(
    fwd: Seq<ForwardEntryView>,
    inv: Seq<InvertedEntryView>,
    query: Seq<char>,
) -> Seq<DocumentView> {
    let sorted = spec_sort_pairs(spec_score_pairs(fwd, inv, query));
    Seq::new(
        sorted.len(),
        |m: int|
            if 0 <= sorted[m].1 < fwd.len() {
                fwd[sorted[m].1].document
            } else {
                fwd[0].document
            },
    )
}

proof fn lemma_insert_pair_at(s: Seq<(int, int)>, x: (int, int), p: int)
    requires
        0 <= p <= s.len(),
        forall|j: int| 0 <= j < p ==> spec_before(#[trigger] s[j], x),
        p < s.len() ==> !spec_before(s[p], x),
    ensures
        spec_insert_pair(s, x) =~= s.take(p) + seq![x] + s.skip(p),
    decreases p,
{
    if p == 0 {
        assert(spec_insert_pair(s, x) =~= s.take(0) + seq![x] + s.skip(0));
    } else {
        assert(spec_before(s[0], x));
        assert(forall|j: int|
            0 <= j < p - 1 ==> spec_before(#[trigger] s.drop_first()[j], x)) by {
            assert(forall|j: int|
                0 <= j < s.drop_first().len() ==> s.drop_first()[j] == s[j + 1]);
        }
        assert(p - 1 < s.drop_first().len() ==> !spec_before(s.drop_first()[p - 1], x));
        lemma_insert_pair_at(s.drop_first(), x, p - 1);
        assert(spec_insert_pair(s, x) =~= s.take(p) + seq![x] + s.skip(p));
    }
}

impl BM25 {
    /// Ranks every indexed document by descending fixed-point BM25 score
    /// against the query; equal scores keep the index order. The result is a
    /// function of the index pair and the query alone, so repeated calls
    /// return the same ordering. A query with more terms than
    /// `BM25_QUERY_BOUND` is malformed and refused.
    #[verifier::loop_isolation(false)]
    #[verifier::rlimit(60)]
    pub fn rank_documents(&self, query: String) -> (r: Result<Vec<Document>, ErrorCode>)
        requires
            self.wf(),
        ensures
            spec_words(query@).len() > BM25_QUERY_BOUND ==> r == Err::<
                Vec<Document>,
                ErrorCode,
            >(ErrorCode::QueryProcessingError),
            spec_words(query@).len() <= BM25_QUERY_BOUND ==> r is Ok && r.unwrap().deep_view()
                == spec_rank(self.spec_forward(), self.spec_inverted(), query@),
    {
        let ghost fdv = self.spec_forward();
        let ghost idv = self.spec_inverted();
        let ghost pairs = spec_score_pairs(fdv, idv, query@);
        let qcheck = split_words(query.as_str(), false);
        if qcheck.len() > BM25_QUERY_BOUND {
            return Err(ErrorCode::QueryProcessingError);
        }
        let n = self.forward.entries.len();
        let mut sorted: Vec<(i128, usize)> = Vec::new();
        let mut j: usize = 0;
        proof {
            assert(pairs.take(0) =~= Seq::<(int, int)>::empty());
            assert(Seq::new(sorted@.len(), |m: int| (sorted@[m].0 as int, sorted@[m].1 as int))
                =~= spec_sort_pairs(pairs.take(0)));
        }
        while j < n
            invariant
                n == self.forward.entries@.len(),
                j <= n,
                sorted@.len() == j,
                forall|m: int| 0 <= m < sorted@.len() ==> (#[trigger] sorted@[m]).1 < n,
                Seq::new(sorted@.len(), |m: int| (sorted@[m].0 as int, sorted@[m].1 as int))
                    == spec_sort_pairs(pairs.take(j as int)),
            decreases n - j,
        {
            let ghost sv = Seq::new(
                sorted@.len(),
                |m: int| (sorted@[m].0 as int, sorted@[m].1 as int),
            );
            let s = self.score(query.as_str(), &self.forward.entries[j].document);
            let key = (s, j);
            let ghost keyv = (s as int, j as int);
            proof {
                assert(pairs[j as int] == keyv);
            }
            let mut p: usize = 0;
            while p < sorted.len()
                invariant
                    p <= sorted@.len(),
                    sv == Seq::new(
                        sorted@.len(),
                        |m: int| (sorted@[m].0 as int, sorted@[m].1 as int),
                    ),
                    forall|m: int| 0 <= m < p ==> spec_before(#[trigger] sv[m], keyv),
                decreases sorted@.len() - p,
            {
                let e = sorted[p];
                if !(e.0 > s || (e.0 == s && e.1 < j)) {
                    proof {
                        assert(sv[p as int] == (e.0 as int, e.1 as int));
                        assert(!spec_before(sv[p as int], keyv));
                    }
                    break ;
                }
                proof {
                    assert(sv[p as int] == (e.0 as int, e.1 as int));
                    assert(spec_before(sv[p as int], keyv));
                }
                p = p + 1;
            }
            proof {
                lemma_insert_pair_at(sv, keyv, p as int);
            }
            let ghost pre = sorted@;
            sorted.insert(p, key);
            proof {
                assert(pairs.take(j + 1).drop_last() =~= pairs.take(j as int));
                assert(pairs.take(j + 1).last() == keyv);
                assert forall|m: int| 0 <= m < sorted@.len() implies (#[trigger] sorted@[m]).1
                    < n by {
                    if m < p {
                        assert(sorted@[m] == pre[m]);
                    } else if m == p {
                        assert(sorted@[m] == key);
                    } else {
                        assert(sorted@[m] == pre[m - 1]);
                    }
                }
                assert(Seq::new(sorted@.len(), |m: int| (sorted@[m].0 as int, sorted@[m].1 as int))
                    =~= spec_sort_pairs(pairs.take(j + 1))) by {
                    assert forall|m: int| 0 <= m < sorted@.len() implies (
                    #[trigger] sorted@[m].0 as int, sorted@[m].1 as int)
                        == spec_insert_pair(sv, keyv)[m] by {
                        assert(spec_insert_pair(sv, keyv) =~= sv.take(p as int) + seq![keyv]
                            + sv.skip(p as int));
                        if m < p {
                            assert(sorted@[m] == pre[m]);
                            assert(sv[m] == (pre[m].0 as int, pre[m].1 as int));
                        } else if m == p {
                            assert(sorted@[m] == key);
                        } else {
                            assert(sorted@[m] == pre[m - 1]);
                            assert(sv[m - 1] == (pre[m - 1].0 as int, pre[m - 1].1 as int));
                        }
                    }
                }
            }
            j = j + 1;
        }
        proof {
            assert(pairs.take(n as int) =~= pairs);
        }
        let ghost sv = Seq::new(sorted@.len(), |m: int| (sorted@[m].0 as int, sorted@[m].1 as int));
        let mut out: Vec<Document> = Vec::new();
        let mut m: usize = 0;
        proof {
            assert(out.deep_view() =~= Seq::<DocumentView>::empty());
        }
        while m < sorted.len()
            invariant
                m <= sorted@.len(),
                sorted@.len() == n,
                n == self.forward.entries@.len(),
                sv == Seq::new(
                    sorted@.len(),
                    |k: int| (sorted@[k].0 as int, sorted@[k].1 as int),
                ),
                sv == spec_sort_pairs(pairs),
                forall|k: int| 0 <= k < sorted@.len() ==> (#[trigger] sorted@[k]).1 < n,
                out.deep_view().len() == m,
                forall|k: int|
                    0 <= k < m ==> #[trigger] out.deep_view()[k] == spec_rank(fdv, idv, query@)[k],
            decreases sorted@.len() - m,
        {
            let idx = sorted[m].1;
            let ghost prev = out.deep_view();
            out.push(self.forward.entries[idx].document.clone());
            proof {
                assert(out.deep_view() =~= prev.push(self.forward.entries@[idx as int].document@));
                assert(sv[m as int] == (sorted@[m as int].0 as int, sorted@[m as int].1 as int));
                assert(0 <= sv[m as int].1 < fdv.len());
                assert(spec_rank(fdv, idv, query@)[m as int] == fdv[sv[m as int].1].document);
                assert(fdv[idx as int].document == self.forward.entries@[idx as int].document@);
            }
            m = m + 1;
        }
        proof {
            assert(out.deep_view() =~= spec_rank(fdv, idv, query@));
        }
        Ok(out)
    }
}

/// No later pair precedes an earlier one in the sort order.
pub open spec fn spec_pairs_sorted(s: Seq<(int, int)>) -> bool {
    forall|i: int, j: int| 0 <= i < j < s.len() ==> !spec_before(s[j], s[i])
}

proof fn lemma_insert_pair_ensures(s: Seq<(int, int)>, x: (int, int))
    requires
        spec_pairs_sorted(s),
    ensures
        spec_insert_pair(s, x).len() == s.len() + 1,
        spec_insert_pair(s, x).to_multiset() =~= s.to_multiset().insert(x),
        spec_pairs_sorted(spec_insert_pair(s, x)),
    decreases s.len(),
{
    broadcast use vstd::seq_lib::group_to_multiset_ensures;

    let r = spec_insert_pair(s, x);
    if s.len() > 0 && spec_before(s[0], x) {
        let tail = s.drop_first();
        assert(forall|i: int, j: int|
            0 <= i < j < tail.len() ==> !spec_before(#[trigger] tail[j], #[trigger] tail[i]))
            by {
            assert(forall|k: int| 0 <= k < tail.len() ==> tail[k] == s[k + 1]);
        }
        lemma_insert_pair_ensures(tail, x);
        let rt = spec_insert_pair(tail, x);
        assert(r =~= seq![s[0]] + rt);
        assert(r =~= rt.insert(0, s[0]));
        assert(r.to_multiset() =~= s.to_multiset().insert(x)) by {
            assert(r.remove(0) =~= rt);
            assert(r.remove(0).to_multiset() =~= r.to_multiset().remove(r[0]));
            assert(s.remove(0) =~= tail);
            assert(s.remove(0).to_multiset() =~= s.to_multiset().remove(s[0]));
            assert(s.to_multiset().count(s[0]) > 0) by {
                assert(s.contains(s[0]));
            }
            assert(r.to_multiset().count(r[0]) > 0) by {
                assert(r.contains(r[0]));
            }
        }
        assert forall|i: int, j: int| 0 <= i < j < r.len() implies !spec_before(r[j], r[i]) by {
            if i == 0 {
                let e = rt[j - 1];
                assert(rt.contains(e));
                assert(rt.to_multiset().count(e) > 0);
                if tail.to_multiset().count(e) > 0 {
                    let k = choose|k: int| 0 <= k < tail.len() && tail[k] == e;
                    assert(e == s[k + 1]);
                    assert(!spec_before(s[k + 1], s[0]));
                } else {
                    assert(e == x);
                    assert(spec_before(s[0], x));
                }
            } else {
                assert(r[i] == rt[i - 1] && r[j] == rt[j - 1]);
            }
        }
    } else {
        assert(r =~= seq![x] + s);
        assert(r =~= s.insert(0, x));
        assert(r.to_multiset() =~= s.to_multiset().insert(x)) by {
            assert(r.remove(0) =~= s);
            assert(r.remove(0).to_multiset() =~= r.to_multiset().remove(r[0]));
            assert(r.to_multiset().count(r[0]) > 0) by {
                assert(r.contains(r[0]));
            }
        }
        assert forall|i: int, j: int| 0 <= i < j < r.len() implies !spec_before(r[j], r[i]) by {
            if i == 0 {
                if s.len() > 0 {
                    assert(!spec_before(s[0], x));
                    assert(!spec_before(s[j - 1], s[0]) || j == 1);
                }
            } else {
                assert(r[i] == s[i - 1] && r[j] == s[j - 1]);
            }
        }
    }
}

proof fn lemma_sort_pairs_ensures(s: Seq<(int, int)>)
    ensures
        spec_sort_pairs(s).len() == s.len(),
        spec_sort_pairs(s).to_multiset() =~= s.to_multiset(),
        spec_pairs_sorted(spec_sort_pairs(s)),
    decreases s.len(),
{
    broadcast use vstd::seq_lib::group_to_multiset_ensures;

    if s.len() == 0 {
    } else {
        lemma_sort_pairs_ensures(s.drop_last());
        lemma_insert_pair_ensures(spec_sort_pairs(s.drop_last()), s.last());
        assert(s =~= s.drop_last().push(s.last()));
        assert(s.to_multiset() =~= s.drop_last().to_multiset().insert(s.last()));
    }
}

/// The ranking law behind `spec_rank`: it lists exactly one document per
/// forward-index entry, and their scores are non-increasing.
pub proof fn lemma_rank_sorted_by_score(
    fwd: Seq<ForwardEntryView>,
    inv: Seq<InvertedEntryView>,
    query: Seq<char>,
)
    ensures
        spec_rank(fwd, inv, query).len() == fwd.len(),
        forall|i: int, j: int|
            0 <= i < j < fwd.len() ==> spec_score(fwd, inv, query, spec_rank(fwd, inv, query)[i])
                >= spec_score(fwd, inv, query, spec_rank(fwd, inv, query)[j]),
{
    broadcast use vstd::seq_lib::group_to_multiset_ensures;

    let pairs = spec_score_pairs(fwd, inv, query);
    let sorted = spec_sort_pairs(pairs);
    lemma_sort_pairs_ensures(pairs);
    assert forall|m: int|
        0 <= m < sorted.len() implies 0 <= #[trigger] sorted[m].1 < fwd.len() && sorted[m].0
        == spec_score(fwd, inv, query, fwd[sorted[m].1].document) by {
        assert(sorted.contains(sorted[m]));
        assert(sorted.to_multiset().count(sorted[m]) > 0);
        assert(pairs.to_multiset().count(sorted[m]) > 0);
        assert(pairs.contains(sorted[m]));
        let k = choose|k: int| 0 <= k < pairs.len() && pairs[k] == sorted[m];
        assert(pairs[k] == (spec_score(fwd, inv, query, fwd[k].document), k));
    }
    assert forall|i: int, j: int|
        0 <= i < j < fwd.len() implies spec_score(fwd, inv, query, spec_rank(fwd, inv, query)[i])
        >= spec_score(fwd, inv, query, spec_rank(fwd, inv, query)[j]) by {
        assert(!spec_before(sorted[j], sorted[i]));
        assert(sorted[j].0 <= sorted[i].0);
        assert(spec_rank(fwd, inv, query)[i] == fwd[sorted[i].1].document);
        assert(spec_rank(fwd, inv, query)[j] == fwd[sorted[j].1].document);
    }
}

/// Ranks the documents of the forward index against the query with BM25
/// over the inverted index. An empty index yields `NoResults`; an index
/// pair or query outside the scorer's bounds yields `Unspecified`;
/// otherwise the ranking is the one `spec_rank` determines, so repeated
/// calls with a fixed index pair and query return the same ordering.
pub fn get_bm25_rankings(forward: ForwardIndex, inverted: InvertedIndex, query: String) -> (r:
    Result<Vec<Document>, ErrorCode>)
    ensures
        forward.entries.deep_view().len() == 0 ==> r == Err::<Vec<Document>, ErrorCode>(
            ErrorCode::NoResults,
        ),
        forward.entries.deep_view().len() > 0 && !spec_bm25_valid(
            forward.entries.deep_view(),
            inverted.entries.deep_view(),
        ) ==> r == Err::<Vec<Document>, ErrorCode>(ErrorCode::Unspecified),
        spec_bm25_valid(forward.entries.deep_view(), inverted.entries.deep_view())
            && spec_words(query@).len() > BM25_QUERY_BOUND ==> r == Err::<
            Vec<Document>,
            ErrorCode,
        >(ErrorCode::QueryProcessingError),
        spec_bm25_valid(forward.entries.deep_view(), inverted.entries.deep_view())
            && spec_words(query@).len() <= BM25_QUERY_BOUND ==> r is Ok
            && r.unwrap().deep_view() == spec_rank(
            forward.entries.deep_view(),
            inverted.entries.deep_view(),
            query@,
        ),
{
    if forward.entries.len() == 0 {
        proof {
            assert(forward.entries.deep_view().len() == forward.entries@.len());
        }
        return Err(ErrorCode::NoResults);
    }
    let bm = match BM25::new(forward, inverted) {
        Ok(bm) => bm,
        Err(e) => {
            return Err(e);
        },
    };
    bm.rank_documents(query)
}

} // verus!
