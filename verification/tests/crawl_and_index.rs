use search_core::crawl::Crawler;
use search_core::index::{document_terms, Indexer, InvertedIndex, ForwardIndex};
use search_core::parse::Document;

fn strings(v: Vec<&str>) -> Vec<String> {
    let mut out = Vec::new();
    for s in v {
        out.push(s.to_string());
    }
    out
}

fn body_with_links(text: &str, links: Vec<&str>) -> String {
    let mut b = format!("<html><body><p>{}</p>", text);
    for l in links {
        b.push_str(&format!("<a href=\"{}\">x</a>", l));
    }
    b.push_str("</body></html>");
    b
}

#[test]
fn crawl_depth_bound_is_respected() {
    // depth bound 1: the seed is fetched, the pages it links to are not
    let mut c = Crawler::new(strings(vec!["https://a.test"]), 1);
    let first = c.next_to_fetch().expect("the seed is due");
    assert_eq!(first.url, "https://a.test");
    assert_eq!(first.crawl_depth, 0);
    c.record_fetch(first, body_with_links("seed", vec!["https://b.test"]));
    // the discovered page sits at depth 1, which is not below the bound
    assert!(c.next_to_fetch().is_none());
    assert_eq!(c.results().len(), 1);
    assert_eq!(c.results()[0].new_urls, strings(vec!["https://b.test"]));
}

#[test]
fn crawl_follows_links_below_the_bound() {
    let mut c = Crawler::new(strings(vec!["https://a.test"]), 2);
    let first = c.next_to_fetch().unwrap();
    c.record_fetch(first, body_with_links("seed", vec!["https://b.test"]));
    let second = c.next_to_fetch().expect("the discovered page is due");
    assert_eq!(second.url, "https://b.test");
    assert_eq!(second.crawl_depth, 1);
    c.record_fetch(second, body_with_links("child", vec![]));
    assert!(c.next_to_fetch().is_none());
    assert_eq!(c.into_results().len(), 2);
}

#[test]
fn crawl_visits_each_url_once() {
    // the same URL seeded twice and linked back to itself is fetched once
    let mut c = Crawler::new(strings(vec!["https://a.test", "https://a.test"]), 3);
    let first = c.next_to_fetch().unwrap();
    c.record_fetch(first, body_with_links("seed", vec!["https://a.test"]));
    assert!(c.next_to_fetch().is_none());
    let results = c.into_results();
    assert_eq!(results.len(), 1);
    assert_eq!(results[0].url, "https://a.test");
}

pub fn doc(url: &str, content: Vec<&str>) -> Document {
    Document {
        url: url.to_string(),
        title: format!("title of {}", url),
        description: String::new(),
        content: strings(content),
        images: vec![],
        links: vec![],
    }
}

#[test]
fn document_terms_flatten_and_tokenise() {
    let d = doc("u", vec!["The quick fox", "jumps, far"]);
    assert_eq!(document_terms(&d), strings(vec!["quick", "fox", "jumps", "far"]));
}

#[test]
fn forward_index_build_keeps_one_entry_per_document() {
    let docs = vec![doc("a", vec!["alpha beta"]), doc("b", vec!["beta gamma"])];
    let built = Indexer::TermIndex(ForwardIndex { entries: Vec::new() }).new(&docs);
    match built {
        Indexer::TermIndex(f) => {
            assert_eq!(f.entries.len(), 2);
            assert_eq!(f.entries[0].document.url, "a");
            assert_eq!(f.entries[0].terms, strings(vec!["alpha", "beta"]));
            assert_eq!(f.entries[1].terms, strings(vec!["beta", "gamma"]));
        },
        Indexer::InvertedIndex(_) => panic!("wrong shape"),
    }
}

#[test]
fn inverted_index_build_counts_term_frequencies() {
    // posting completeness on concrete values: "beta" appears twice in the
    // first document and once in the second
    let docs = vec![doc("a", vec!["beta alpha beta"]), doc("b", vec!["beta gamma"])];
    let built = Indexer::InvertedIndex(InvertedIndex { entries: Vec::new() }).new(&docs);
    match built {
        Indexer::InvertedIndex(v) => {
            let beta = v.entries.iter().find(|e| e.term == "beta").expect("beta is posted");
            assert_eq!(beta.postings.len(), 2);
            assert_eq!(beta.postings[0].document.url, "a");
            assert_eq!(beta.postings[0].term_frequency, 2);
            assert_eq!(beta.postings[1].document.url, "b");
            assert_eq!(beta.postings[1].term_frequency, 1);
            let alpha = v.entries.iter().find(|e| e.term == "alpha").expect("alpha is posted");
            assert_eq!(alpha.postings.len(), 1);
            assert_eq!(alpha.postings[0].term_frequency, 1);
        },
        Indexer::TermIndex(_) => panic!("wrong shape"),
    }
}
