use search_core::bm25::{get_bm25_rankings, idf_scaled, BM25};
use search_core::codec::{decode_index, encode_index};
use search_core::index::{ForwardIndex, Indexer, InvertedIndex};
use search_core::parse::Document;

fn strings(v: Vec<&str>) -> Vec<String> {
    let mut out = Vec::new();
    for s in v {
        out.push(s.to_string());
    }
    out
}

fn doc(url: &str, content: Vec<&str>) -> Document {
    Document {
        url: url.to_string(),
        title: format!("title {}", url),
        description: "d".to_string(),
        content: strings(content),
        images: strings(vec!["i.png"]),
        links: strings(vec!["l"]),
    }
}

fn build_both(docs: &Vec<Document>) -> (ForwardIndex, InvertedIndex) {
    let f = match Indexer::TermIndex(ForwardIndex { entries: Vec::new() }).new(docs) {
        Indexer::TermIndex(f) => f,
        _ => panic!("wrong shape"),
    };
    let v = match Indexer::InvertedIndex(InvertedIndex { entries: Vec::new() }).new(docs) {
        Indexer::InvertedIndex(v) => v,
        _ => panic!("wrong shape"),
    };
    (f, v)
}

fn urls(docs: &Vec<Document>) -> Vec<String> {
    docs.iter().map(|d| d.url.clone()).collect()
}

#[test]
fn index_round_trip_forward() {
    let docs = vec![doc("a", vec!["alpha beta"]), doc("b", vec!["beta gamma"])];
    let (f, _) = build_both(&docs);
    let idx = Indexer::TermIndex(f);
    let bytes = encode_index(&idx);
    let back = decode_index(&bytes).expect("the encoding decodes");
    match (idx, back) {
        (Indexer::TermIndex(a), Indexer::TermIndex(b)) => {
            assert_eq!(a.entries.len(), b.entries.len());
            for k in 0..a.entries.len() {
                assert!(a.entries[k].document == b.entries[k].document);
                assert_eq!(a.entries[k].terms, b.entries[k].terms);
            }
        },
        _ => panic!("shape changed across the round trip"),
    }
}

#[test]
fn index_round_trip_inverted() {
    let docs = vec![doc("a", vec!["beta alpha beta"]), doc("b", vec!["beta"])];
    let (_, v) = build_both(&docs);
    let idx = Indexer::InvertedIndex(v);
    let bytes = encode_index(&idx);
    let back = decode_index(&bytes).expect("the encoding decodes");
    match (idx, back) {
        (Indexer::InvertedIndex(a), Indexer::InvertedIndex(b)) => {
            assert_eq!(a.entries.len(), b.entries.len());
            for k in 0..a.entries.len() {
                assert_eq!(a.entries[k].term, b.entries[k].term);
                assert_eq!(a.entries[k].postings.len(), b.entries[k].postings.len());
                for m in 0..a.entries[k].postings.len() {
                    assert!(a.entries[k].postings[m].document == b.entries[k].postings[m].document);
                    assert_eq!(
                        a.entries[k].postings[m].term_frequency,
                        b.entries[k].postings[m].term_frequency
                    );
                }
            }
        },
        _ => panic!("shape changed across the round trip"),
    }
}

#[test]
fn decoder_rejects_malformed_input() {
    assert!(decode_index(&Vec::new()).is_none());
    assert!(decode_index(&vec![7u8]).is_none());
    assert!(decode_index(&vec![0u8, 1, 2, 3]).is_none());
    // trailing garbage after a valid encoding is rejected
    let idx = Indexer::TermIndex(ForwardIndex { entries: Vec::new() });
    let mut bytes = encode_index(&idx);
    assert!(decode_index(&bytes).is_some());
    bytes.push(0u8);
    assert!(decode_index(&bytes).is_none());
}

#[test]
fn bm25_empty_index_yields_no_results() {
    let forward = ForwardIndex { entries: Vec::new() };
    let inverted = InvertedIndex { entries: Vec::new() };
    let r = get_bm25_rankings(forward, inverted, "anything".to_string());
    assert_eq!(r.unwrap_err(), search_core::ErrorCode::NoResults);
}

#[test]
fn bm25_is_deterministic() {
    let docs = vec![
        doc("a", vec!["database systems run database queries"]),
        doc("b", vec!["gardening hints for spring flowers"]),
        doc("c", vec!["database indexes speed lookups"]),
    ];
    let (f1, v1) = build_both(&docs);
    let (f2, v2) = build_both(&docs);
    let r1 = get_bm25_rankings(f1, v1, "database lookups".to_string()).unwrap();
    let r2 = get_bm25_rankings(f2, v2, "database lookups".to_string()).unwrap();
    assert_eq!(urls(&r1), urls(&r2));
}

#[test]
fn bm25_three_documents_sharing_a_term_all_rank() {
    // three documents, each containing "database" plus two unique fillers
    let docs = vec![
        doc("a", vec!["database kumquat zeppelin"]),
        doc("b", vec!["database marmot quasar"]),
        doc("c", vec!["database obelisk trellis"]),
    ];
    let (f, v) = build_both(&docs);
    let bm = {
        let (f2, v2) = build_both(&docs);
        BM25::new(f2, v2).ok().expect("the index pair is within bounds")
    };
    for d in &docs {
        assert!(bm.score("database", d) != 0, "every document gets a non-zero score");
    }
    let ranked = get_bm25_rankings(f, v, "database".to_string()).unwrap();
    assert_eq!(ranked.len(), 3);
    let mut ranked_urls = urls(&ranked);
    ranked_urls.sort();
    assert_eq!(ranked_urls, strings(vec!["a", "b", "c"]));
}

#[test]
fn bm25_rarer_term_ranks_its_document_higher() {
    // "kumquat" appears in one document, "database" in all three; with equal
    // frequencies the kumquat document wins a kumquat query
    let docs = vec![
        doc("a", vec!["database kumquat zeppelin"]),
        doc("b", vec!["database marmot quasar"]),
        doc("c", vec!["database obelisk trellis"]),
    ];
    let (f, v) = build_both(&docs);
    let ranked = get_bm25_rankings(f, v, "kumquat".to_string()).unwrap();
    assert_eq!(ranked[0].url, "a");
}

#[test]
fn idf_is_strictly_monotone_in_document_frequency() {
    // rarer terms get strictly larger scaled idf values
    assert!(idf_scaled(100, 1) > idf_scaled(100, 2));
    assert!(idf_scaled(100, 2) > idf_scaled(100, 50));
    assert!(idf_scaled(100, 50) > idf_scaled(100, 100));
}

#[test]
fn bm25_ranking_is_sorted_by_score() {
    let docs = vec![
        doc("a", vec!["kumquat orchard rows"]),
        doc("b", vec!["database kumquat zeppelin"]),
        doc("c", vec!["database indexes speed lookups"]),
        doc("d", vec!["gardening hints for spring"]),
    ];
    let (f, v) = build_both(&docs);
    let ranked = get_bm25_rankings(f, v, "database kumquat".to_string()).unwrap();
    let (f2, v2) = build_both(&docs);
    let bm = BM25::new(f2, v2).ok().expect("the index pair is within bounds");
    for w in ranked.windows(2) {
        assert!(
            bm.score("database kumquat", &w[0]) >= bm.score("database kumquat", &w[1]),
            "scores never increase down the ranking"
        );
    }
}

#[test]
fn bm25_ties_keep_document_order() {
    // two identical documents under different URLs score equally; the
    // ranking keeps their index order
    let docs = vec![
        doc("first", vec!["apple banana cherry"]),
        doc("second", vec!["apple banana cherry"]),
    ];
    let (f, v) = build_both(&docs);
    let ranked = get_bm25_rankings(f, v, "apple".to_string()).unwrap();
    assert_eq!(urls(&ranked), strings(vec!["first", "second"]));
}
