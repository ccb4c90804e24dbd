use search_core::crawl::CrawlResult;
use search_core::parse::{
    parse_crawl_result, parse_crawl_result_with, parse_crawl_results, Document,
};
use search_core::text::{is_stop_word, split_words, str_eq, tokenise, vec_str_eq};

fn strings(v: Vec<&str>) -> Vec<String> {
    let mut out = Vec::new();
    for s in v {
        out.push(s.to_string());
    }
    out
}

#[test]
fn tokenise_lowercases_and_drops_stop_words() {
    let toks = tokenise("The Quick BROWN fox");
    assert_eq!(toks, strings(vec!["quick", "brown", "fox"]));
}

#[test]
fn tokenise_strips_non_alphabetic_without_splitting() {
    // the apostrophe is removed, the word is not split
    let toks = tokenise("don't panic, it's fine 123");
    assert_eq!(toks, strings(vec!["dont", "panic", "its", "fine"]));
}

#[test]
fn tokenise_empty_input() {
    let toks = tokenise("   ");
    assert!(toks.is_empty());
}

#[test]
fn split_words_keeps_non_alphabetic_when_asked() {
    let ws = split_words("db2  engine\tv1.5", false);
    assert_eq!(ws, strings(vec!["db2", "engine", "v1.5"]));
}

#[test]
fn stop_word_membership() {
    assert!(is_stop_word("the"));
    assert!(is_stop_word("which"));
    assert!(!is_stop_word("database"));
}

#[test]
fn str_helpers() {
    assert!(str_eq("abc", "abc"));
    assert!(!str_eq("abc", "abd"));
    assert!(vec_str_eq(&strings(vec!["a", "b"]), &strings(vec!["a", "b"])));
    assert!(!vec_str_eq(&strings(vec!["a"]), &strings(vec!["a", "b"])));
}

fn page(url: &str, body: &str, links: Vec<&str>) -> CrawlResult {
    CrawlResult { url: url.to_string(), new_urls: strings(links), body: body.to_string() }
}

#[test]
fn parse_extracts_title_content_description_images() {
    let body = "<html><head><title>A large database of reliable knowledge</title>\
        <meta name=\"description\" content=\"A catalogue page\"></head>\
        <body><h1>Welcome here</h1><p>This page describes the database engine.</p>\
        <img src=\"logo.png\"><a href=\"https://example.org/next\">next</a></body></html>";
    let doc = parse_crawl_result(&page("https://example.org", body, vec![
        "https://example.org/next",
    ]))
    .expect("the page parses");
    assert_eq!(doc.url, "https://example.org");
    assert_eq!(doc.title, "A large database of reliable knowledge");
    assert_eq!(doc.description, "A catalogue page");
    assert_eq!(doc.content, strings(vec![
        "Welcome here",
        "This page describes the database engine.",
    ]));
    assert_eq!(doc.images, strings(vec!["logo.png"]));
    assert_eq!(doc.links, strings(vec!["https://example.org/next"]));
}

#[test]
fn parse_rejects_missing_title() {
    let body = "<html><body><p>Some text without any title.</p></body></html>";
    assert!(parse_crawl_result(&page("https://example.org", body, vec![])).is_none());
}

#[test]
fn parse_rejects_empty_content() {
    let body = "<html><head><title>The rules of general engineering</title></head>\
        <body></body></html>";
    assert!(parse_crawl_result(&page("https://example.org", body, vec![])).is_none());
}

#[test]
fn parse_decision_follows_the_reported_language() {
    // the rejection decision over the detector's outcome, pinned without
    // running the detector: a reported non-English language rejects, a
    // reported English or no report accepts
    let body = "<html><head><title>The curious reader</title></head>\
        <body><p>A page about reading.</p></body></html>";
    let cr = page("https://example.org", body, vec![]);
    assert!(parse_crawl_result_with(&cr, Some("French".to_string())).is_none());
    assert!(parse_crawl_result_with(&cr, Some("English".to_string())).is_some());
    assert!(parse_crawl_result_with(&cr, None).is_some());
}

#[test]
fn parse_rejects_non_english_title() {
    // a clearly French title is detected and rejected
    let body = "<html><head><title>Les bibliothèques publiques sont ouvertes aujourd'hui \
        et tout le monde peut venir lire des livres</title></head>\
        <body><h1>Texte</h1><p>Contenu de la page.</p></body></html>";
    assert!(parse_crawl_result(&page("https://example.fr", body, vec![])).is_none());
}

#[test]
fn parse_caps_image_references() {
    let mut body = String::from(
        "<html><head><title>The picture gallery of natural history</title></head><body><p>Many \
         pictures of nature below.</p>",
    );
    for i in 0..15 {
        body.push_str(&format!("<img src=\"img{}.png\">", i));
    }
    body.push_str("</body></html>");
    let doc = parse_crawl_result(&page("https://example.org/gallery", &body, vec![]))
        .expect("the page parses");
    assert_eq!(doc.images.len(), 10);
    assert_eq!(doc.images[0], "img0.png");
    assert_eq!(doc.images[9], "img9.png");
}

#[test]
fn parse_batch_drops_rejected_results() {
    let good = page(
        "https://example.org/a",
        "<html><head><title>An encyclopedia of modern science</title></head>\
         <body><p>Science content for everyone.</p></body></html>",
        vec![],
    );
    let bad = page("https://example.org/b", "<html><body></body></html>", vec![]);
    let docs = parse_crawl_results(vec![good, bad]);
    assert_eq!(docs.len(), 1);
    assert_eq!(docs[0].url, "https://example.org/a");
}

#[test]
fn document_equality_is_structural() {
    let a = Document {
        url: "u".to_string(),
        title: "t".to_string(),
        description: String::new(),
        content: strings(vec!["c"]),
        images: vec![],
        links: vec![],
    };
    let b = a.clone();
    assert!(a == b);
    let mut c = a.clone();
    c.title = "other".to_string();
    assert!(a != c);
}
