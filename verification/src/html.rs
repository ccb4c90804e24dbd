//! Trusted extraction wrappers over the `scraper` HTML parser. Each result
//! is a function of the HTML text alone, so each gets a name that the
//! callers' contracts use.

use vstd::prelude::*;

verus! {

/// The text of the first `<title>` element of the HTML text, if any.
pub uninterp spec fn title_of(html: Seq<char>) -> Option<Seq<char>>;

/// The texts of the heading elements (`h1` through `h6`) of the HTML text,
/// in document order.
pub uninterp spec fn headings_of(html: Seq<char>) -> Seq<Seq<char>>;

/// The texts of the `<p>` elements of the HTML text, in document order.
pub uninterp spec fn paragraphs_of(html: Seq<char>) -> Seq<Seq<char>>;

/// The `content` attribute of the last `<meta name="description">` element
/// that has one, if any.
pub uninterp spec fn meta_desc_of(html: Seq<char>) -> Option<Seq<char>>;

/// The `src` attributes of the `<img>` elements, in document order.
pub uninterp spec fn image_srcs_of(html: Seq<char>) -> Seq<Seq<char>>;

/// The `href` attributes of the `<a>` elements, in document order.
pub uninterp spec fn links_of(html: Seq<char>) -> Seq<Seq<char>>;

/// Relies on `scraper::Html::parse_document` and `Selector::parse("title")`:
/// the first title element's text is a function of the HTML text alone.
#[verifier::external_body]
pub fn extract_title(html: &str) -> (r: Option<String>)
    ensures
        r.deep_view() == title_of(html@),
{
    let doc = scraper::Html::parse_document(html);
    let sel = scraper::Selector::parse("title").unwrap();
    doc.select(&sel).next().map(|el| el.text().collect::<String>())
}

/// Relies on `scraper::Html::parse_document` with the heading selector:
/// the heading texts are a function of the HTML text alone.
#[verifier::external_body]
pub fn extract_headings(html: &str) -> (r: Vec<String>)
    ensures
        r.deep_view() == headings_of(html@),
{
    let doc = scraper::Html::parse_document(html);
    let sel = scraper::Selector::parse("h1, h2, h3, h4, h5, h6").unwrap();
    doc.select(&sel).map(|el| el.text().collect::<String>()).collect()
}

/// Relies on `scraper::Html::parse_document` with the `p` selector:
/// the paragraph texts are a function of the HTML text alone.
#[verifier::external_body]
pub fn extract_paragraphs(html: &str) -> (r: Vec<String>)
    ensures
        r.deep_view() == paragraphs_of(html@),
{
    let doc = scraper::Html::parse_document(html);
    let sel = scraper::Selector::parse("p").unwrap();
    doc.select(&sel).map(|el| el.text().collect::<String>()).collect()
}

/// Relies on `scraper::Html::parse_document` with a selector on the meta
/// name attribute: the description is a function of the HTML text alone.
#[verifier::external_body]
pub fn extract_meta_description(html: &str) -> (r: Option<String>)
    ensures
        r.deep_view() == meta_desc_of(html@),
{
    let doc = scraper::Html::parse_document(html);
    let sel = scraper::Selector::parse("meta[name=\"description\"]").unwrap();
    let mut out: Option<String> = None;
    for el in doc.select(&sel) {
        if let Some(content) = el.value().attr("content") {
            out = Some(content.to_string());
        }
    }
    out
}

/// Relies on `scraper::Html::parse_document` with the `img` selector:
/// the image references are a function of the HTML text alone.
#[verifier::external_body]
pub fn extract_image_sources(html: &str) -> (r: Vec<String>)
    ensures
        r.deep_view() == image_srcs_of(html@),
{
    let doc = scraper::Html::parse_document(html);
    let sel = scraper::Selector::parse("img").unwrap();
    let mut out: Vec<String> = Vec::new();
    for el in doc.select(&sel) {
        if let Some(src) = el.value().attr("src") {
            out.push(src.to_string());
        }
    }
    out
}

/// Relies on `scraper::Html::parse_document` with the `a` selector:
/// the hyperlink targets are a function of the HTML text alone.
#[verifier::external_body]
pub fn extract_links(html: &str) -> (r: Vec<String>)
    ensures
        r.deep_view() == links_of(html@),
{
    let doc = scraper::Html::parse_document(html);
    let sel = scraper::Selector::parse("a").unwrap();
    let mut out: Vec<String> = Vec::new();
    for el in doc.select(&sel) {
        if let Some(href) = el.value().attr("href") {
            out.push(href.to_string());
        }
    }
    out
}

} // verus!
