//! The binary on-disk encoding of the two index shapes, and its decoder.
//! The layout is length-prefixed and self-describing: one tag byte for the
//! shape, then counts and elements, every integer 64-bit little-endian and
//! every character a 32-bit little-endian Unicode scalar. Decoding rejects
//! malformed input, and decoding an encoding yields the encoded index back.

use vstd::prelude::*;

use vstd::bytes::{
    lemma_auto_spec_u32_to_from_le_bytes, lemma_auto_spec_u64_to_from_le_bytes,
    spec_u32_from_le_bytes, spec_u32_to_le_bytes, spec_u64_from_le_bytes, spec_u64_to_le_bytes,
    u32_from_le_bytes, u32_to_le_bytes, u64_from_le_bytes, u64_to_le_bytes,
};
use vstd::slice::slice_subrange;
use vstd::utf8::{char_is_scalar, char_u32_cast, is_scalar};

use crate::index::{
    ForwardEntry, ForwardEntryView, ForwardIndex, Indexer, IndexerView, InvertedEntry,
    InvertedEntryView, InvertedIndex, Posting, PostingView,
};
use crate::parse::{Document, DocumentView};
use crate::text::push_char;

verus! {

/// Relies on `char::from_u32`: it returns the character of a Unicode scalar
/// value, and nothing for a surrogate or out-of-range value.
pub assume_specification[ char::from_u32 ](v: u32) -> (r: Option<char>)
    ensures
        is_scalar(v) ==> r == Some(v as char),
        !is_scalar(v) ==> r is None,
;

// ---------------------------------------------------------------------------
// encoding
// ---------------------------------------------------------------------------
pub open spec fn enc_u64(x: u64) -> Seq<u8> {
    spec_u64_to_le_bytes(x)
}

pub open spec fn enc_char(c: char) -> Seq<u8> {
    spec_u32_to_le_bytes(c as u32)
}

/// The concatenation of the encodings of the elements, in order.
pub open spec fn enc_each<T>(s: Seq<T>, f: spec_fn(T) -> Seq<u8>) -> Seq<u8>
    decreases s.len(),
{
    if s.len() == 0 {
        Seq::empty()
    } else {
        f(s[0]) + enc_each(s.drop_first(), f)
    }
}

pub open spec fn enc_str(s: Seq<char>) -> Seq<u8> {
    enc_u64(s.len() as u64) + enc_each(s, |c: char| enc_char(c))
}

pub open spec fn enc_str_list(xs: Seq<Seq<char>>) -> Seq<u8> {
    enc_u64(xs.len() as u64) + enc_each(xs, |x: Seq<char>| enc_str(x))
}

pub open spec fn enc_doc(d: DocumentView) -> Seq<u8> {
    enc_str(d.url) + enc_str(d.title) + enc_str(d.description) + enc_str_list(d.content)
        + enc_str_list(d.images) + enc_str_list(d.links)
}

pub open spec fn enc_fwd_entry(e: ForwardEntryView) -> Seq<u8> {
    enc_doc(e.document) + enc_str_list(e.terms)
}

pub open spec fn enc_posting(p: PostingView) -> Seq<u8> {
    enc_doc(p.document) + enc_u64(p.term_frequency)
}

pub open spec fn enc_postings(ps: Seq<PostingView>) -> Seq<u8> {
    enc_u64(ps.len() as u64) + enc_each(ps, |p: PostingView| enc_posting(p))
}

pub open spec fn enc_inv_entry(e: InvertedEntryView) -> Seq<u8> {
    enc_str(e.term) + enc_postings(e.postings)
}

/// The encoding of a whole index: a shape tag, a count, and the entries.
pub open spec fn enc_index(v: IndexerView) -> Seq<u8> {
    match v {
        IndexerView::TermIndex(es) => seq![0u8] + enc_u64(es.len() as u64) + enc_each(
            es,
            |e: ForwardEntryView| enc_fwd_entry(e),
        ),
        IndexerView::InvertedIndex(es) => seq![1u8] + enc_u64(es.len() as u64) + enc_each(
            es,
            |e: InvertedEntryView| enc_inv_entry(e),
        ),
    }
}

// ---------------------------------------------------------------------------
// boundedness: every length fits the 64-bit count that the layout stores
// ---------------------------------------------------------------------------
pub open spec fn wf_str(s: Seq<char>) -> bool {
    s.len() <= u64::MAX
}

pub open spec fn wf_str_list(xs: Seq<Seq<char>>) -> bool {
    &&& xs.len() <= u64::MAX
    &&& forall|i: int| 0 <= i < xs.len() ==> wf_str(#[trigger] xs[i])
}

pub open spec fn wf_doc(d: DocumentView) -> bool {
    &&& wf_str(d.url)
    &&& wf_str(d.title)
    &&& wf_str(d.description)
    &&& wf_str_list(d.content)
    &&& wf_str_list(d.images)
    &&& wf_str_list(d.links)
}

pub open spec fn wf_fwd_entry(e: ForwardEntryView) -> bool {
    wf_doc(e.document) && wf_str_list(e.terms)
}

pub open spec fn wf_inv_entry(e: InvertedEntryView) -> bool {
    &&& wf_str(e.term)
    &&& e.postings.len() <= u64::MAX
    &&& forall|i: int| 0 <= i < e.postings.len() ==> wf_doc(#[trigger] e.postings[i].document)
}

/// Every count stored by the encoding fits in 64 bits; true of every value
/// that exists at run time.
pub open spec fn wf_index(v: IndexerView) -> bool {
    match v {
        IndexerView::TermIndex(es) => es.len() <= u64::MAX && forall|i: int|
            0 <= i < es.len() ==> wf_fwd_entry(#[trigger] es[i]),
        IndexerView::InvertedIndex(es) => es.len() <= u64::MAX && forall|i: int|
            0 <= i < es.len() ==> wf_inv_entry(#[trigger] es[i]),
    }
}

// ---------------------------------------------------------------------------
// decoding, as a function of the byte sequence: each step yields the decoded
// value and the remaining bytes, or nothing on malformed input
// ---------------------------------------------------------------------------
pub open spec fn dec_u64(b: Seq<u8>) -> Option<(u64, Seq<u8>)> {
    if b.len() >= 8 {
        Some((spec_u64_from_le_bytes(b.take(8)), b.skip(8)))
    } else {
        None
    }
}

pub open spec fn dec_char(b: Seq<u8>) -> Option<(char, Seq<u8>)> {
    if b.len() >= 4 {
        let v = spec_u32_from_le_bytes(b.take(4));
        if is_scalar(v) {
            Some((v as char, b.skip(4)))
        } else {
            None
        }
    } else {
        None
    }
}

/// Decodes `n` elements in sequence with the element decoder `fd`.
pub open spec fn dec_each<T>(
    b: Seq<u8>,
    n: nat,
    fd: spec_fn(Seq<u8>) -> Option<(T, Seq<u8>)>,
) -> Option<(Seq<T>, Seq<u8>)>
    decreases n,
{
    if n == 0 {
        Some((Seq::empty(), b))
    } else {
        match fd(b) {
            None => None,
            Some((v, r)) => match dec_each(r, (n - 1) as nat, fd) {
                None => None,
                Some((s, r2)) => Some((seq![v] + s, r2)),
            },
        }
    }
}

pub open spec fn dec_str(b: Seq<u8>) -> Option<(Seq<char>, Seq<u8>)> {
    match dec_u64(b) {
        None => None,
        Some((n, r)) => dec_each(r, n as nat, |bb: Seq<u8>| dec_char(bb)),
    }
}

pub open spec fn dec_str_list(b: Seq<u8>) -> Option<(Seq<Seq<char>>, Seq<u8>)> {
    match dec_u64(b) {
        None => None,
        Some((n, r)) => dec_each(r, n as nat, |bb: Seq<u8>| dec_str(bb)),
    }
}

pub open spec fn dec_doc(b: Seq<u8>) -> Option<(DocumentView, Seq<u8>)> {
    match dec_str(b) {
        None => None,
        Some((url, b1)) => match dec_str(b1) {
            None => None,
            Some((title, b2)) => match dec_str(b2) {
                None => None,
                Some((description, b3)) => match dec_str_list(b3) {
                    None => None,
                    Some((content, b4)) => match dec_str_list(b4) {
                        None => None,
                        Some((images, b5)) => match dec_str_list(b5) {
                            None => None,
                            Some((links, b6)) => Some(
                                (
                                    DocumentView {
                                        url,
                                        title,
                                        description,
                                        content,
                                        images,
                                        links,
                                    },
                                    b6,
                                ),
                            ),
                        },
                    },
                },
            },
        },
    }
}

pub open spec fn dec_fwd_entry(b: Seq<u8>) -> Option<(ForwardEntryView, Seq<u8>)> {
    match dec_doc(b) {
        None => None,
        Some((document, b1)) => match dec_str_list(b1) {
            None => None,
            Some((terms, b2)) => Some((ForwardEntryView { document, terms }, b2)),
        },
    }
}

pub open spec fn dec_posting(b: Seq<u8>) -> Option<(PostingView, Seq<u8>)> {
    match dec_doc(b) {
        None => None,
        Some((document, b1)) => match dec_u64(b1) {
            None => None,
            Some((term_frequency, b2)) => Some((PostingView { document, term_frequency }, b2)),
        },
    }
}

pub open spec fn dec_inv_entry(b: Seq<u8>) -> Option<(InvertedEntryView, Seq<u8>)> {
    match dec_str(b) {
        None => None,
        Some((term, b1)) => match dec_u64(b1) {
            None => None,
            Some((n, b2)) => match dec_each(b2, n as nat, |bb: Seq<u8>| dec_posting(bb)) {
                None => None,
                Some((postings, b3)) => Some((InvertedEntryView { term, postings }, b3)),
            },
        },
    }
}

/// Decodes a whole index file: the shape tag decides the entry decoder, and
/// trailing bytes make the input malformed.
pub open spec fn spec_decode_index(b: Seq<u8>) -> Option<IndexerView> {
    if b.len() == 0 {
        None
    } else {
        let tag = b[0];
        let body = b.drop_first();
        if tag == 0u8 {
            match dec_u64(body) {
                None => None,
                Some((n, r)) => match dec_each(
                    r,
                    n as nat,
                    |bb: Seq<u8>| dec_fwd_entry(bb),
                ) {
                    None => None,
                    Some((es, rest)) => if rest.len() == 0 {
                        Some(IndexerView::TermIndex(es))
                    } else {
                        None
                    },
                },
            }
        } else if tag == 1u8 {
            match dec_u64(body) {
                None => None,
                Some((n, r)) => match dec_each(
                    r,
                    n as nat,
                    |bb: Seq<u8>| dec_inv_entry(bb),
                ) {
                    None => None,
                    Some((es, rest)) => if rest.len() == 0 {
                        Some(IndexerView::InvertedIndex(es))
                    } else {
                        None
                    },
                },
            }
        } else {
            None
        }
    }
}

// ---------------------------------------------------------------------------
// round-trip lemmas
// ---------------------------------------------------------------------------
proof fn lemma_rt_u64(x: u64, rest: Seq<u8>)
    ensures
        dec_u64(enc_u64(x) + rest) == Some((x, rest)),
{
    lemma_auto_spec_u64_to_from_le_bytes();
    let b = enc_u64(x) + rest;
    assert(b.take(8) =~= enc_u64(x));
    assert(b.skip(8) =~= rest);
}

proof fn lemma_rt_char(c: char, rest: Seq<u8>)
    ensures
        dec_char(enc_char(c) + rest) == Some((c, rest)),
{
    lemma_auto_spec_u32_to_from_le_bytes();
    char_is_scalar(c);
    char_u32_cast(c, c as u32);
    let b = enc_char(c) + rest;
    assert(b.take(4) =~= enc_char(c));
    assert(b.skip(4) =~= rest);
}

proof fn lemma_rt_each<T>(
    s: Seq<T>,
    rest: Seq<u8>,
    f: spec_fn(T) -> Seq<u8>,
    fd: spec_fn(Seq<u8>) -> Option<(T, Seq<u8>)>,
    p: spec_fn(T) -> bool,
)
    requires
        forall|v: T, rr: Seq<u8>| p(v) ==> #[trigger] fd(f(v) + rr) == Some((v, rr)),
        forall|i: int| 0 <= i < s.len() ==> p(#[trigger] s[i]),
    ensures
        dec_each(enc_each(s, f) + rest, s.len(), fd) == Some((s, rest)),
    decreases s.len(),
{
    if s.len() == 0 {
        assert(enc_each(s, f) + rest =~= rest);
        assert(dec_each(rest, 0, fd) == Some((Seq::<T>::empty(), rest)));
        assert(s =~= Seq::<T>::empty());
    } else {
        let tail = s.drop_first();
        assert(enc_each(s, f) + rest =~= f(s[0]) + (enc_each(tail, f) + rest));
        assert(p(s[0]));
        assert(fd(f(s[0]) + (enc_each(tail, f) + rest)) == Some(
            (s[0], enc_each(tail, f) + rest),
        ));
        assert(forall|i: int| 0 <= i < tail.len() ==> p(#[trigger] tail[i]));
        lemma_rt_each(tail, rest, f, fd, p);
        assert(seq![s[0]] + tail =~= s);
    }
}

proof fn lemma_rt_str(s: Seq<char>, rest: Seq<u8>)
    requires
        wf_str(s),
    ensures
        dec_str(enc_str(s) + rest) == Some((s, rest)),
{
    let f = |c: char| enc_char(c);
    let fd = |bb: Seq<u8>| dec_char(bb);
    let n: u64 = s.len() as u64;
    assert(enc_str(s) + rest =~= enc_u64(n) + (enc_each(s, f) + rest));
    lemma_rt_u64(n, enc_each(s, f) + rest);
    assert forall|v: char, rr: Seq<u8>| true implies #[trigger] fd(f(v) + rr) == Some((v, rr)) by {
        lemma_rt_char(v, rr);
    }
    lemma_rt_each(s, rest, f, fd, |v: char| true);
    assert(n as nat == s.len());
}

proof fn lemma_rt_str_list(xs: Seq<Seq<char>>, rest: Seq<u8>)
    requires
        wf_str_list(xs),
    ensures
        dec_str_list(enc_str_list(xs) + rest) == Some((xs, rest)),
{
    let f = |x: Seq<char>| enc_str(x);
    let fd = |bb: Seq<u8>| dec_str(bb);
    let n: u64 = xs.len() as u64;
    assert(enc_str_list(xs) + rest =~= enc_u64(n) + (enc_each(xs, f) + rest));
    lemma_rt_u64(n, enc_each(xs, f) + rest);
    assert forall|v: Seq<char>, rr: Seq<u8>| wf_str(v) implies #[trigger] fd(f(v) + rr) == Some(
        (v, rr),
    ) by {
        if wf_str(v) {
            lemma_rt_str(v, rr);
        }
    }
    lemma_rt_each(xs, rest, f, fd, |v: Seq<char>| wf_str(v));
    assert(n as nat == xs.len());
}

proof fn lemma_rt_doc(d: DocumentView, rest: Seq<u8>)
    requires
        wf_doc(d),
    ensures
        dec_doc(enc_doc(d) + rest) == Some((d, rest)),
{
    let r5 = enc_str_list(d.links) + rest;
    let r4 = enc_str_list(d.images) + r5;
    let r3 = enc_str_list(d.content) + r4;
    let r2 = enc_str(d.description) + r3;
    let r1 = enc_str(d.title) + r2;
    assert(enc_doc(d) + rest =~= enc_str(d.url) + r1);
    lemma_rt_str(d.url, r1);
    assert(r1 =~= enc_str(d.title) + r2);
    lemma_rt_str(d.title, r2);
    lemma_rt_str(d.description, r3);
    lemma_rt_str_list(d.content, r4);
    lemma_rt_str_list(d.images, r5);
    lemma_rt_str_list(d.links, rest);
}

proof fn lemma_rt_fwd_entry(e: ForwardEntryView, rest: Seq<u8>)
    requires
        wf_fwd_entry(e),
    ensures
        dec_fwd_entry(enc_fwd_entry(e) + rest) == Some((e, rest)),
{
    let r1 = enc_str_list(e.terms) + rest;
    assert(enc_fwd_entry(e) + rest =~= enc_doc(e.document) + r1);
    lemma_rt_doc(e.document, r1);
    lemma_rt_str_list(e.terms, rest);
    assert(ForwardEntryView { document: e.document, terms: e.terms } =~= e);
}

proof fn lemma_rt_posting(p: PostingView, rest: Seq<u8>)
    requires
        wf_doc(p.document),
    ensures
        dec_posting(enc_posting(p) + rest) == Some((p, rest)),
{
    let r1 = enc_u64(p.term_frequency) + rest;
    assert(enc_posting(p) + rest =~= enc_doc(p.document) + r1);
    lemma_rt_doc(p.document, r1);
    lemma_rt_u64(p.term_frequency, rest);
    assert(PostingView { document: p.document, term_frequency: p.term_frequency } =~= p);
}

proof fn lemma_rt_inv_entry(e: InvertedEntryView, rest: Seq<u8>)
    requires
        wf_inv_entry(e),
    ensures
        dec_inv_entry(enc_inv_entry(e) + rest) == Some((e, rest)),
{
    let f = |p: PostingView| enc_posting(p);
    let fd = |bb: Seq<u8>| dec_posting(bb);
    let n: u64 = e.postings.len() as u64;
    let r2 = enc_each(e.postings, f) + rest;
    let r1 = enc_u64(n) + r2;
    assert(enc_inv_entry(e) + rest =~= enc_str(e.term) + r1);
    lemma_rt_str(e.term, r1);
    lemma_rt_u64(n, r2);
    assert forall|v: PostingView, rr: Seq<u8>| wf_doc(v.document) implies #[trigger] fd(f(v) + rr)
        == Some((v, rr)) by {
        if wf_doc(v.document) {
            lemma_rt_posting(v, rr);
        }
    }
    lemma_rt_each(e.postings, rest, f, fd, |v: PostingView| wf_doc(v.document));
    assert(n as nat == e.postings.len());
    assert(InvertedEntryView { term: e.term, postings: e.postings } =~= e);
}

// ---------------------------------------------------------------------------
// executable encoder
// ---------------------------------------------------------------------------
proof fn lemma_enc_each_snoc<T>(s: Seq<T>, x: T, f: spec_fn(T) -> Seq<u8>)
    ensures
        enc_each(s.push(x), f) == enc_each(s, f) + f(x),
    decreases s.len(),
{
    if s.len() == 0 {
        assert(s.push(x)[0] == x);
        assert(s.push(x).drop_first() =~= Seq::<T>::empty());
        assert(enc_each(s.push(x), f) == f(x) + enc_each(s.push(x).drop_first(), f));
        assert(enc_each(s.push(x).drop_first(), f) == Seq::<u8>::empty());
        assert(f(x) + Seq::<u8>::empty() =~= Seq::<u8>::empty() + f(x));
        assert(enc_each(s, f) == Seq::<u8>::empty());
    } else {
        assert(s.push(x)[0] == s[0]);
        assert(s.push(x).drop_first() =~= s.drop_first().push(x));
        lemma_enc_each_snoc(s.drop_first(), x, f);
        assert(enc_each(s.push(x), f) == f(s[0]) + enc_each(s.drop_first().push(x), f));
        assert(enc_each(s.drop_first().push(x), f) == enc_each(s.drop_first(), f) + f(x));
        assert(f(s[0]) + (enc_each(s.drop_first(), f) + f(x)) =~= (f(s[0]) + enc_each(
            s.drop_first(),
            f,
        )) + f(x));
        assert(f(s[0]) + enc_each(s.drop_first(), f) == enc_each(s, f));
    }
}

fn put_u64(out: &mut Vec<u8>, x: u64)
    ensures
        final(out)@ == old(out)@ + enc_u64(x),
{
    let mut b = u64_to_le_bytes(x);
    out.append(&mut b);
}

fn put_char(out: &mut Vec<u8>, c: char)
    ensures
        final(out)@ == old(out)@ + enc_char(c),
{
    let mut b = u32_to_le_bytes(c as u32);
    out.append(&mut b);
}

#[verifier::loop_isolation(false)]
fn put_str(out: &mut Vec<u8>, s: &str)
    ensures
        final(out)@ == old(out)@ + enc_str(s@),
        wf_str(s@),
{
    let ghost f = |c: char| enc_char(c);
    let n = s.unicode_len();
    put_u64(out, n as u64);
    let ghost mid = out@;
    let mut i: usize = 0;
    proof {
        assert(s@.take(0) =~= Seq::<char>::empty());
        assert(mid + enc_each(s@.take(0), f) =~= mid);
    }
    while i < n
        invariant
            i <= n,
            out@ == mid + enc_each(s@.take(i as int), f),
        decreases n - i,
    {
        let c = s.get_char(i);
        put_char(out, c);
        proof {
            assert(s@.take(i + 1) =~= s@.take(i as int).push(s@[i as int]));
            lemma_enc_each_snoc(s@.take(i as int), s@[i as int], f);
            assert(out@ =~= mid + enc_each(s@.take(i + 1), f));
        }
        i = i + 1;
    }
    proof {
        assert(s@.take(n as int) =~= s@);
        assert(out@ =~= old(out)@ + enc_str(s@));
    }
}

#[verifier::loop_isolation(false)]
fn put_str_list(out: &mut Vec<u8>, xs: &Vec<String>)
    ensures
        final(out)@ == old(out)@ + enc_str_list(xs.deep_view()),
        wf_str_list(xs.deep_view()),
{
    let ghost f = |x: Seq<char>| enc_str(x);
    let ghost dv = xs.deep_view();
    let n = xs.len();
    put_u64(out, n as u64);
    let ghost mid = out@;
    let mut i: usize = 0;
    proof {
        assert(dv.take(0) =~= Seq::<Seq<char>>::empty());
        assert(mid + enc_each(dv.take(0), f) =~= mid);
    }
    while i < n
        invariant
            i <= n,
            out@ == mid + enc_each(dv.take(i as int), f),
            forall|k: int| 0 <= k < i ==> wf_str(#[trigger] dv[k]),
        decreases n - i,
    {
        put_str(out, xs[i].as_str());
        proof {
            assert(dv.take(i + 1) =~= dv.take(i as int).push(dv[i as int]));
            lemma_enc_each_snoc(dv.take(i as int), dv[i as int], f);
            assert(out@ =~= mid + enc_each(dv.take(i + 1), f));
        }
        i = i + 1;
    }
    proof {
        assert(dv.take(n as int) =~= dv);
        assert(out@ =~= old(out)@ + enc_str_list(dv));
    }
}

fn put_doc(out: &mut Vec<u8>, d: &Document)
    ensures
        final(out)@ == old(out)@ + enc_doc(d@),
        wf_doc(d@),
{
    put_str(out, d.url.as_str());
    put_str(out, d.title.as_str());
    put_str(out, d.description.as_str());
    put_str_list(out, &d.content);
    put_str_list(out, &d.images);
    put_str_list(out, &d.links);
    proof {
        assert(out@ =~= old(out)@ + enc_doc(d@));
    }
}

#[verifier::loop_isolation(false)]
fn put_postings(out: &mut Vec<u8>, ps: &Vec<Posting>)
    ensures
        final(out)@ == old(out)@ + enc_postings(ps.deep_view()),
        ps.deep_view().len() <= u64::MAX,
        forall|i: int|
            0 <= i < ps.deep_view().len() ==> wf_doc(#[trigger] ps.deep_view()[i].document),
{
    let ghost f = |p: PostingView| enc_posting(p);
    let ghost dv = ps.deep_view();
    let n = ps.len();
    put_u64(out, n as u64);
    let ghost mid = out@;
    let mut i: usize = 0;
    proof {
        assert(dv.take(0) =~= Seq::<PostingView>::empty());
        assert(mid + enc_each(dv.take(0), f) =~= mid);
    }
    while i < n
        invariant
            i <= n,
            out@ == mid + enc_each(dv.take(i as int), f),
            forall|k: int| 0 <= k < i ==> wf_doc(#[trigger] dv[k].document),
        decreases n - i,
    {
        put_doc(out, &ps[i].document);
        put_u64(out, ps[i].term_frequency);
        proof {
            assert(dv.take(i + 1) =~= dv.take(i as int).push(dv[i as int]));
            lemma_enc_each_snoc(dv.take(i as int), dv[i as int], f);
            assert(out@ =~= mid + enc_each(dv.take(i + 1), f));
        }
        i = i + 1;
    }
    proof {
        assert(dv.take(n as int) =~= dv);
        assert(out@ =~= old(out)@ + enc_postings(dv));
    }
}

/// Encodes the index into its on-disk byte form. Every run-time index is
/// within the layout's 64-bit count bounds, which the second clause records.
#[verifier::loop_isolation(false)]
#[verifier::rlimit(60)]
pub fn encode_index(idx: &Indexer) -> (r: Vec<u8>)
    ensures
        r@ == enc_index(idx@),
        wf_index(idx@),
{
    let mut out: Vec<u8> = Vec::new();
    match idx {
        Indexer::TermIndex(fwd) => {
            let ghost f = |e: ForwardEntryView| enc_fwd_entry(e);
            let ghost dv = fwd.entries.deep_view();
            out.push(0u8);
            proof {
                assert(out@ =~= seq![0u8]);
            }
            let n = fwd.entries.len();
            put_u64(&mut out, n as u64);
            let ghost mid = out@;
            let mut i: usize = 0;
            proof {
                assert(dv.take(0) =~= Seq::<ForwardEntryView>::empty());
                assert(mid + enc_each(dv.take(0), f) =~= mid);
            }
            while i < n
                invariant
                    i <= n,
                    out@ == mid + enc_each(dv.take(i as int), f),
                    forall|k: int| 0 <= k < i ==> wf_fwd_entry(#[trigger] dv[k]),
                decreases n - i,
            {
                put_doc(&mut out, &fwd.entries[i].document);
                put_str_list(&mut out, &fwd.entries[i].terms);
                proof {
                    assert(dv.take(i + 1) =~= dv.take(i as int).push(dv[i as int]));
                    lemma_enc_each_snoc(dv.take(i as int), dv[i as int], f);
                    assert(out@ =~= mid + enc_each(dv.take(i + 1), f));
                }
                i = i + 1;
            }
            proof {
                assert(dv.take(n as int) =~= dv);
                assert(out@ =~= enc_index(idx@));
            }
        },
        Indexer::InvertedIndex(inv) => {
            let ghost f = |e: InvertedEntryView| enc_inv_entry(e);
            let ghost dv = inv.entries.deep_view();
            out.push(1u8);
            proof {
                assert(out@ =~= seq![1u8]);
            }
            let n = inv.entries.len();
            put_u64(&mut out, n as u64);
            let ghost mid = out@;
            let mut i: usize = 0;
            proof {
                assert(dv.take(0) =~= Seq::<InvertedEntryView>::empty());
                assert(mid + enc_each(dv.take(0), f) =~= mid);
            }
            while i < n
                invariant
                    i <= n,
                    out@ == mid + enc_each(dv.take(i as int), f),
                    forall|k: int| 0 <= k < i ==> wf_inv_entry(#[trigger] dv[k]),
                decreases n - i,
            {
                put_str(&mut out, inv.entries[i].term.as_str());
                put_postings(&mut out, &inv.entries[i].postings);
                proof {
                    assert(dv.take(i + 1) =~= dv.take(i as int).push(dv[i as int]));
                    lemma_enc_each_snoc(dv.take(i as int), dv[i as int], f);
                    assert(out@ =~= mid + enc_each(dv.take(i + 1), f));
                }
                i = i + 1;
            }
            proof {
                assert(dv.take(n as int) =~= dv);
                assert(out@ =~= enc_index(idx@));
            }
        },
    }
    out
}

// ---------------------------------------------------------------------------
// executable decoder
// ---------------------------------------------------------------------------
fn take_u64(b: &Vec<u8>, pos: usize) -> (r: Option<(u64, usize)>)
    requires
        pos <= b@.len(),
    ensures
        match r {
            Some(v) => pos <= v.1 <= b@.len() && dec_u64(b@.skip(pos as int)) == Some(
                (v.0, b@.skip(v.1 as int)),
            ),
            None => dec_u64(b@.skip(pos as int)) is None,
        },
{
    if b.len() - pos >= 8 {
        let x = u64_from_le_bytes(slice_subrange(b.as_slice(), pos, pos + 8));
        proof {
            assert(b@.skip(pos as int).take(8) =~= b@.subrange(pos as int, pos + 8));
            assert(b@.skip(pos as int).skip(8) =~= b@.skip(pos + 8));
        }
        Some((x, pos + 8))
    } else {
        None
    }
}

fn take_char(b: &Vec<u8>, pos: usize) -> (r: Option<(char, usize)>)
    requires
        pos <= b@.len(),
    ensures
        match r {
            Some(v) => pos <= v.1 <= b@.len() && dec_char(b@.skip(pos as int)) == Some(
                (v.0, b@.skip(v.1 as int)),
            ),
            None => dec_char(b@.skip(pos as int)) is None,
        },
{
    if b.len() - pos >= 4 {
        let v = u32_from_le_bytes(slice_subrange(b.as_slice(), pos, pos + 4));
        proof {
            assert(b@.skip(pos as int).take(4) =~= b@.subrange(pos as int, pos + 4));
            assert(b@.skip(pos as int).skip(4) =~= b@.skip(pos + 4));
        }
        match char::from_u32(v) {
            Some(c) => Some((c, pos + 4)),
            None => None,
        }
    } else {
        None
    }
}

#[verifier::loop_isolation(false)]
fn take_str(b: &Vec<u8>, pos: usize) -> (r: Option<(String, usize)>)
    requires
        pos <= b@.len(),
    ensures
        match r {
            Some(v) => pos <= v.1 <= b@.len() && dec_str(b@.skip(pos as int)) == Some(
                (v.0@, b@.skip(v.1 as int)),
            ),
            None => dec_str(b@.skip(pos as int)) is None,
        },
{
    let ghost fd = |bb: Seq<u8>| dec_char(bb);
    let np = match take_u64(b, pos) {
        Some(v) => v,
        None => {
            return None;
        },
    };
    let n = np.0;
    let p0 = np.1;
    let mut p = p0;
    let mut i: u64 = 0;
    let mut out = String::new();
    proof {
        assert(out@ + Seq::<char>::empty() =~= out@);
    }
    while i < n
        invariant
            i <= n,
            p0 <= p <= b@.len(),
            fd == (|bb: Seq<u8>| dec_char(bb)),
            dec_each(b@.skip(p0 as int), n as nat, fd) == (match dec_each(
                b@.skip(p as int),
                (n - i) as nat,
                fd,
            ) {
                Some(t) => Some((out@ + t.0, t.1)),
                None => None::<(Seq<char>, Seq<u8>)>,
            }),
        decreases n - i,
    {
        match take_char(b, p) {
            Some(cp) => {
                let c = cp.0;
                let ghost pprev = p as int;
                let ghost oprev = out@;
                push_char(&mut out, c);
                p = cp.1;
                proof {
                    let inner = dec_each(b@.skip(p as int), (n - i - 1) as nat, fd);
                    assert(dec_each(b@.skip(pprev), (n - i) as nat, fd) == (match inner {
                        Some(t) => Some((seq![c] + t.0, t.1)),
                        None => None::<(Seq<char>, Seq<u8>)>,
                    }));
                    if inner is Some {
                        let t = inner.unwrap();
                        assert(oprev + (seq![c] + t.0) =~= (oprev.push(c)) + t.0);
                    }
                }
                i = i + 1;
            },
            None => {
                return None;
            },
        }
    }
    proof {
        assert(dec_each(b@.skip(p as int), 0, fd) == Some(
            (Seq::<char>::empty(), b@.skip(p as int)),
        ));
        assert(out@ + Seq::<char>::empty() =~= out@);
    }
    Some((out, p))
}

#[verifier::loop_isolation(false)]
fn take_str_list(b: &Vec<u8>, pos: usize) -> (r: Option<(Vec<String>, usize)>)
    requires
        pos <= b@.len(),
    ensures
        match r {
            Some(v) => pos <= v.1 <= b@.len() && dec_str_list(b@.skip(pos as int)) == Some(
                (v.0.deep_view(), b@.skip(v.1 as int)),
            ),
            None => dec_str_list(b@.skip(pos as int)) is None,
        },
{
    let ghost fd = |bb: Seq<u8>| dec_str(bb);
    let np = match take_u64(b, pos) {
        Some(v) => v,
        None => {
            return None;
        },
    };
    let n = np.0;
    let p0 = np.1;
    let mut p = p0;
    let mut i: u64 = 0;
    let mut out: Vec<String> = Vec::new();
    proof {
        assert(out.deep_view() =~= Seq::<Seq<char>>::empty());
    }
    while i < n
        invariant
            i <= n,
            p0 <= p <= b@.len(),
            fd == (|bb: Seq<u8>| dec_str(bb)),
            dec_each(b@.skip(p0 as int), n as nat, fd) == (match dec_each(
                b@.skip(p as int),
                (n - i) as nat,
                fd,
            ) {
                Some(t) => Some((out.deep_view() + t.0, t.1)),
                None => None::<(Seq<Seq<char>>, Seq<u8>)>,
            }),
        decreases n - i,
    {
        match take_str(b, p) {
            Some(sp) => {
                let ghost pprev = p as int;
                let ghost oprev = out.deep_view();
                let ghost sv = sp.0@;
                out.push(sp.0);
                p = sp.1;
                proof {
                    assert(out.deep_view() =~= oprev.push(sv));
                    let inner = dec_each(b@.skip(p as int), (n - i - 1) as nat, fd);
                    assert(dec_each(b@.skip(pprev), (n - i) as nat, fd) == (match inner {
                        Some(t) => Some((seq![sv] + t.0, t.1)),
                        None => None::<(Seq<Seq<char>>, Seq<u8>)>,
                    }));
                    if inner is Some {
                        let t = inner.unwrap();
                        assert(oprev + (seq![sv] + t.0) =~= (oprev.push(sv)) + t.0);
                    }
                }
                i = i + 1;
            },
            None => {
                return None;
            },
        }
    }
    proof {
        assert(dec_each(b@.skip(p as int), 0, fd) == Some(
            (Seq::<Seq<char>>::empty(), b@.skip(p as int)),
        ));
        assert(out.deep_view() + Seq::<Seq<char>>::empty() =~= out.deep_view());
    }
    Some((out, p))
}

fn take_doc(b: &Vec<u8>, pos: usize) -> (r: Option<(Document, usize)>)
    requires
        pos <= b@.len(),
    ensures
        match r {
            Some(v) => pos <= v.1 <= b@.len() && dec_doc(b@.skip(pos as int)) == Some(
                (v.0@, b@.skip(v.1 as int)),
            ),
            None => dec_doc(b@.skip(pos as int)) is None,
        },
{
    let url = match take_str(b, pos) {
        Some(v) => v,
        None => {
            return None;
        },
    };
    let title = match take_str(b, url.1) {
        Some(v) => v,
        None => {
            return None;
        },
    };
    let description = match take_str(b, title.1) {
        Some(v) => v,
        None => {
            return None;
        },
    };
    let content = match take_str_list(b, description.1) {
        Some(v) => v,
        None => {
            return None;
        },
    };
    let images = match take_str_list(b, content.1) {
        Some(v) => v,
        None => {
            return None;
        },
    };
    let links = match take_str_list(b, images.1) {
        Some(v) => v,
        None => {
            return None;
        },
    };
    let p = links.1;
    let doc = Document {
        url: url.0,
        title: title.0,
        description: description.0,
        content: content.0,
        images: images.0,
        links: links.0,
    };
    proof {
        assert(dec_doc(b@.skip(pos as int)) == Some((doc@, b@.skip(p as int)))) by {
            assert(dec_doc(b@.skip(pos as int)).unwrap().0 =~= doc@);
        }
    }
    Some((doc, p))
}

#[verifier::loop_isolation(false)]
fn take_postings(b: &Vec<u8>, pos: usize) -> (r: Option<(Vec<Posting>, usize)>)
    requires
        pos <= b@.len(),
    ensures
        match r {
            Some(v) => pos <= v.1 <= b@.len() && {
                &&& dec_u64(b@.skip(pos as int)) is Some
                &&& {
                    let np = dec_u64(b@.skip(pos as int)).unwrap();
                    dec_each(np.1, np.0 as nat, |bb: Seq<u8>| dec_posting(bb)) == Some(
                        (v.0.deep_view(), b@.skip(v.1 as int)),
                    )
                }
            },
            None => {
                ||| dec_u64(b@.skip(pos as int)) is None
                ||| {
                    let np = dec_u64(b@.skip(pos as int)).unwrap();
                    dec_each(np.1, np.0 as nat, |bb: Seq<u8>| dec_posting(bb)) is None
                }
            },
        },
{
    let ghost fd = |bb: Seq<u8>| dec_posting(bb);
    let np = match take_u64(b, pos) {
        Some(v) => v,
        None => {
            return None;
        },
    };
    let n = np.0;
    let p0 = np.1;
    let mut p = p0;
    let mut i: u64 = 0;
    let mut out: Vec<Posting> = Vec::new();
    proof {
        assert(out.deep_view() =~= Seq::<PostingView>::empty());
    }
    while i < n
        invariant
            i <= n,
            p0 <= p <= b@.len(),
            fd == (|bb: Seq<u8>| dec_posting(bb)),
            dec_each(b@.skip(p0 as int), n as nat, fd) == (match dec_each(
                b@.skip(p as int),
                (n - i) as nat,
                fd,
            ) {
                Some(t) => Some((out.deep_view() + t.0, t.1)),
                None => None::<(Seq<PostingView>, Seq<u8>)>,
            }),
        decreases n - i,
    {
        let doc = match take_doc(b, p) {
            Some(v) => v,
            None => {
                return None;
            },
        };
        let tf = match take_u64(b, doc.1) {
            Some(v) => v,
            None => {
                return None;
            },
        };
        let ghost pprev = p as int;
        let ghost oprev = out.deep_view();
        let posting = Posting { document: doc.0, term_frequency: tf.0 };
        let ghost pv = posting@;
        out.push(posting);
        p = tf.1;
        proof {
            assert(out.deep_view() =~= oprev.push(pv));
            assert(fd(b@.skip(pprev)) == Some((pv, b@.skip(p as int)))) by {
                assert(dec_posting(b@.skip(pprev)).unwrap().0 =~= pv);
            }
            let inner = dec_each(b@.skip(p as int), (n - i - 1) as nat, fd);
            assert(dec_each(b@.skip(pprev), (n - i) as nat, fd) == (match inner {
                Some(t) => Some((seq![pv] + t.0, t.1)),
                None => None::<(Seq<PostingView>, Seq<u8>)>,
            }));
            if inner is Some {
                let t = inner.unwrap();
                assert(oprev + (seq![pv] + t.0) =~= (oprev.push(pv)) + t.0);
            }
        }
        i = i + 1;
    }
    proof {
        assert(dec_each(b@.skip(p as int), 0, fd) == Some(
            (Seq::<PostingView>::empty(), b@.skip(p as int)),
        ));
        assert(out.deep_view() + Seq::<PostingView>::empty() =~= out.deep_view());
    }
    Some((out, p))
}

/// Decodes an index from its on-disk byte form; malformed bytes, an unknown
/// shape tag or trailing bytes yield nothing.
#[verifier::loop_isolation(false)]
#[verifier::rlimit(60)]
pub fn decode_index(b: &Vec<u8>) -> (r: Option<Indexer>)
    ensures
        match r {
            Some(idx) => spec_decode_index(b@) == Some(idx@),
            None => spec_decode_index(b@) is None,
        },
{
    if b.len() == 0 {
        return None;
    }
    let tag = b[0];
    proof {
        assert(b@.drop_first() =~= b@.skip(1));
    }
    if tag == 0u8 {
        let ghost fd = |bb: Seq<u8>| dec_fwd_entry(bb);
        let np = match take_u64(b, 1) {
            Some(v) => v,
            None => {
                return None;
            },
        };
        let n = np.0;
        let p0 = np.1;
        let mut p = p0;
        let mut i: u64 = 0;
        let mut entries: Vec<ForwardEntry> = Vec::new();
        proof {
            assert(entries.deep_view() =~= Seq::<ForwardEntryView>::empty());
        }
        while i < n
            invariant
                i <= n,
                p0 <= p <= b@.len(),
                fd == (|bb: Seq<u8>| dec_fwd_entry(bb)),
                dec_each(b@.skip(p0 as int), n as nat, fd) == (match dec_each(
                    b@.skip(p as int),
                    (n - i) as nat,
                    fd,
                ) {
                    Some(t) => Some((entries.deep_view() + t.0, t.1)),
                    None => None::<(Seq<ForwardEntryView>, Seq<u8>)>,
                }),
            decreases n - i,
        {
            let doc = match take_doc(b, p) {
                Some(v) => v,
                None => {
                    return None;
                },
            };
            let terms = match take_str_list(b, doc.1) {
                Some(v) => v,
                None => {
                    return None;
                },
            };
            let ghost pprev = p as int;
            let ghost oprev = entries.deep_view();
            let entry = ForwardEntry { document: doc.0, terms: terms.0 };
            let ghost ev = entry@;
            entries.push(entry);
            p = terms.1;
            proof {
                assert(entries.deep_view() =~= oprev.push(ev));
                assert(fd(b@.skip(pprev)) == Some((ev, b@.skip(p as int)))) by {
                    assert(dec_fwd_entry(b@.skip(pprev)).unwrap().0 =~= ev);
                }
                let inner = dec_each(b@.skip(p as int), (n - i - 1) as nat, fd);
                assert(dec_each(b@.skip(pprev), (n - i) as nat, fd) == (match inner {
                    Some(t) => Some((seq![ev] + t.0, t.1)),
                    None => None::<(Seq<ForwardEntryView>, Seq<u8>)>,
                }));
                if inner is Some {
                    let t = inner.unwrap();
                    assert(oprev + (seq![ev] + t.0) =~= (oprev.push(ev)) + t.0);
                }
            }
            i = i + 1;
        }
        if p != b.len() {
            proof {
                assert(dec_each(b@.skip(p as int), 0, fd) == Some(
                    (Seq::<ForwardEntryView>::empty(), b@.skip(p as int)),
                ));
                assert(entries.deep_view() + Seq::<ForwardEntryView>::empty()
                    =~= entries.deep_view());
                assert(b@.skip(p as int).len() != 0);
            }
            return None;
        }
        proof {
            assert(dec_each(b@.skip(p as int), 0, fd) == Some(
                (Seq::<ForwardEntryView>::empty(), b@.skip(p as int)),
            ));
            assert(entries.deep_view() + Seq::<ForwardEntryView>::empty()
                =~= entries.deep_view());
            assert(b@.skip(p as int).len() == 0);
        }
        Some(Indexer::TermIndex(ForwardIndex { entries }))
    } else if tag == 1u8 {
        let ghost fd = |bb: Seq<u8>| dec_inv_entry(bb);
        let np = match take_u64(b, 1) {
            Some(v) => v,
            None => {
                return None;
            },
        };
        let n = np.0;
        let p0 = np.1;
        let mut p = p0;
        let mut i: u64 = 0;
        let mut entries: Vec<InvertedEntry> = Vec::new();
        proof {
            assert(entries.deep_view() =~= Seq::<InvertedEntryView>::empty());
        }
        while i < n
            invariant
                i <= n,
                p0 <= p <= b@.len(),
                fd == (|bb: Seq<u8>| dec_inv_entry(bb)),
                dec_each(b@.skip(p0 as int), n as nat, fd) == (match dec_each(
                    b@.skip(p as int),
                    (n - i) as nat,
                    fd,
                ) {
                    Some(t) => Some((entries.deep_view() + t.0, t.1)),
                    None => None::<(Seq<InvertedEntryView>, Seq<u8>)>,
                }),
            decreases n - i,
        {
            let term = match take_str(b, p) {
                Some(v) => v,
                None => {
                    return None;
                },
            };
            let postings = match take_postings(b, term.1) {
                Some(v) => v,
                None => {
                    return None;
                },
            };
            let ghost pprev = p as int;
            let ghost oprev = entries.deep_view();
            let entry = InvertedEntry { term: term.0, postings: postings.0 };
            let ghost ev = entry@;
            entries.push(entry);
            p = postings.1;
            proof {
                assert(entries.deep_view() =~= oprev.push(ev));
                assert(fd(b@.skip(pprev)) == Some((ev, b@.skip(p as int)))) by {
                    assert(dec_inv_entry(b@.skip(pprev)).unwrap().0 =~= ev);
                }
                let inner = dec_each(b@.skip(p as int), (n - i - 1) as nat, fd);
                assert(dec_each(b@.skip(pprev), (n - i) as nat, fd) == (match inner {
                    Some(t) => Some((seq![ev] + t.0, t.1)),
                    None => None::<(Seq<InvertedEntryView>, Seq<u8>)>,
                }));
                if inner is Some {
                    let t = inner.unwrap();
                    assert(oprev + (seq![ev] + t.0) =~= (oprev.push(ev)) + t.0);
                }
            }
            i = i + 1;
        }
        if p != b.len() {
            proof {
                assert(dec_each(b@.skip(p as int), 0, fd) == Some(
                    (Seq::<InvertedEntryView>::empty(), b@.skip(p as int)),
                ));
                assert(entries.deep_view() + Seq::<InvertedEntryView>::empty()
                    =~= entries.deep_view());
                assert(b@.skip(p as int).len() != 0);
            }
            return None;
        }
        proof {
            assert(dec_each(b@.skip(p as int), 0, fd) == Some(
                (Seq::<InvertedEntryView>::empty(), b@.skip(p as int)),
            ));
            assert(entries.deep_view() + Seq::<InvertedEntryView>::empty()
                =~= entries.deep_view());
            assert(b@.skip(p as int).len() == 0);
        }
        Some(Indexer::InvertedIndex(InvertedIndex { entries }))
    } else {
        None
    }
}

/// Index round-trip: decoding the encoding of any index yields that index.
pub proof fn lemma_index_round_trip(v: IndexerView)
    requires
        wf_index(v),
    ensures
        spec_decode_index(enc_index(v)) == Some(v),
{
    match v {
        IndexerView::TermIndex(es) => {
            let f = |e: ForwardEntryView| enc_fwd_entry(e);
            let fd = |bb: Seq<u8>| dec_fwd_entry(bb);
            let n: u64 = es.len() as u64;
            let b = enc_index(v);
            assert(b.len() > 0 && b[0] == 0u8);
            assert(b.drop_first() =~= enc_u64(n) + (enc_each(es, f) + Seq::<u8>::empty()));
            lemma_rt_u64(n, enc_each(es, f) + Seq::<u8>::empty());
            assert forall|e: ForwardEntryView, rr: Seq<u8>| wf_fwd_entry(e) implies #[trigger] fd(
                f(e) + rr,
            ) == Some((e, rr)) by {
                if wf_fwd_entry(e) {
                    lemma_rt_fwd_entry(e, rr);
                }
            }
            lemma_rt_each(es, Seq::<u8>::empty(), f, fd, |e: ForwardEntryView| wf_fwd_entry(e));
            assert(n as nat == es.len());
        },
        IndexerView::InvertedIndex(es) => {
            let f = |e: InvertedEntryView| enc_inv_entry(e);
            let fd = |bb: Seq<u8>| dec_inv_entry(bb);
            let n: u64 = es.len() as u64;
            let b = enc_index(v);
            assert(b.len() > 0 && b[0] == 1u8);
            assert(b.drop_first() =~= enc_u64(n) + (enc_each(es, f) + Seq::<u8>::empty()));
            lemma_rt_u64(n, enc_each(es, f) + Seq::<u8>::empty());
            assert forall|e: InvertedEntryView, rr: Seq<u8>| wf_inv_entry(e) implies #[trigger] fd(
                f(e) + rr,
            ) == Some((e, rr)) by {
                if wf_inv_entry(e) {
                    lemma_rt_inv_entry(e, rr);
                }
            }
            lemma_rt_each(es, Seq::<u8>::empty(), f, fd, |e: InvertedEntryView| wf_inv_entry(e));
            assert(n as nat == es.len());
        },
    }
}

} // verus!
