//! The document parser: turns raw crawl output into validated `Document`
//! values. HTML extraction is delegated to the wrappers in `html`; language
//! detection to `lingua`. Pages whose detected title language is present and
//! not English are rejected, as are pages with an empty URL, body, title or
//! extracted content.

use vstd::prelude::*;

use crate::crawl::{CrawlResult, CrawlResultView};
use crate::html::{
    extract_headings, extract_image_sources, extract_meta_description, extract_paragraphs,
    extract_title, headings_of, image_srcs_of, links_of, meta_desc_of, paragraphs_of, title_of,
};
use crate::text::{clone_strings, keep_nonempty, str_eq, vec_str_eq};

verus! {

/// The largest number of image references kept per document, earliest first.
pub const MAX_IMAGES: usize = 10;

/// One parsed, validated page, ready for indexing. Identity is structural.
#[derive(Debug)]
pub struct Document {
    pub url: String,
    pub title: String,
    pub description: String,
    pub content: Vec<String>,
    pub images: Vec<String>,
    pub links: Vec<String>,
}

/// The mathematical content of a `Document`.
#[verifier::ext_equal]
pub struct DocumentView {
    pub url: Seq<char>,
    pub title: Seq<char>,
    pub description: Seq<char>,
    pub content: Seq<Seq<char>>,
    pub images: Seq<Seq<char>>,
    pub links: Seq<Seq<char>>,
}

impl View for Document {
    type V = DocumentView;

    open spec fn view(&self) -> DocumentView {
        DocumentView {
            url: self.url@,
            title: self.title@,
            description: self.description@,
            content: self.content.deep_view(),
            images: self.images.deep_view(),
            links: self.links.deep_view(),
        }
    }
}

impl DeepView for Document {
    type V = DocumentView;

    open spec fn deep_view(&self) -> DocumentView {
        self.view()
    }
}

impl PartialEq for Document {
    fn eq(&self, other: &Self) -> (r: bool) {
        let r = str_eq(self.url.as_str(), other.url.as_str()) && str_eq(
            self.title.as_str(),
            other.title.as_str(),
        ) && str_eq(self.description.as_str(), other.description.as_str()) && vec_str_eq(
            &self.content,
            &other.content,
        ) && vec_str_eq(&self.images, &other.images) && vec_str_eq(&self.links, &other.links);
        proof {
            if r {
                assert(self@ =~= other@);
            }
        }
        r
    }
}

impl vstd::std_specs::cmp::PartialEqSpecImpl for Document {
    open spec fn obeys_eq_spec() -> bool {
        true
    }

    open spec fn eq_spec(&self, other: &Document) -> bool {
        self@ == other@
    }
}

impl Clone for Document {
    /// Clones the document; the copy has the same mathematical content.
    fn clone(&self) -> (res: Self)
        ensures
            res@ == self@,
    {
        let res = Document {
            url: self.url.clone(),
            title: self.title.clone(),
            description: self.description.clone(),
            content: clone_strings(&self.content),
            images: clone_strings(&self.images),
            links: clone_strings(&self.links),
        };
        proof {
            assert(res@ =~= self@);
        }
        res
    }
}

/// The names of the languages the detector is configured with.
pub open spec fn spec_supported_language(l: Seq<char>) -> bool {
    ||| l == "English"@
    ||| l == "Ukrainian"@
    ||| l == "Turkish"@
    ||| l == "Thai"@
    ||| l == "Swedish"@
    ||| l == "Spanish"@
    ||| l == "Slovene"@
    ||| l == "Slovak"@
    ||| l == "Russian"@
    ||| l == "Romanian"@
    ||| l == "Portuguese"@
    ||| l == "Polish"@
    ||| l == "Korean"@
    ||| l == "Japanese"@
    ||| l == "Italian"@
    ||| l == "Hungarian"@
    ||| l == "French"@
    ||| l == "Chinese"@
}

/// Relies on `lingua::LanguageDetector::detect_language_of` over the fixed
/// supported-language set: a detected language is always one of the
/// configured ones. Which one, or whether any, is not claimed to be a
/// function of the text: the detector sums floating-point confidences in
/// hash-map order, so a borderline outcome can differ between calls.
#[verifier::external_body]
pub fn detect_language_name(text: &str) -> (r: Option<String>)
    ensures
        r matches Some(l) ==> spec_supported_language(l@),
{
    let languages = vec![
        lingua::Language::English, lingua::Language::Ukrainian, lingua::Language::Turkish,
        lingua::Language::Thai, lingua::Language::Swedish, lingua::Language::Spanish,
        lingua::Language::Slovene, lingua::Language::Slovak, lingua::Language::Russian,
        lingua::Language::Romanian, lingua::Language::Portuguese, lingua::Language::Polish,
        lingua::Language::Korean, lingua::Language::Japanese, lingua::Language::Italian,
        lingua::Language::Hungarian, lingua::Language::French, lingua::Language::Chinese,
    ];
    let detector = lingua::LanguageDetectorBuilder::from_languages(&languages).build();
    detector.detect_language_of(text).map(|l| l.to_string())
}

/// The title the parser keeps: the first `<title>` text, or empty.
pub open spec fn spec_title(body: Seq<char>) -> Seq<char> {
    match title_of(body) {
        Some(t) => t,
        None => Seq::empty(),
    }
}

/// Whether the page is rejected by the language policy: a title was found,
/// the detector reported a language for it, and that language is not
/// English.
pub open spec fn spec_lang_rejected(body: Seq<char>, detected: Option<Seq<char>>) -> bool {
    &&& title_of(body) is Some
    &&& detected matches Some(l) && l != "English"@
}

/// The text content the parser keeps: non-empty heading texts, then
/// non-empty paragraph texts.
pub open spec fn spec_content(body: Seq<char>) -> Seq<Seq<char>> {
    headings_of(body).filter(|t: Seq<char>| t.len() > 0) + paragraphs_of(body).filter(
        |t: Seq<char>| t.len() > 0,
    )
}

/// The meta description the parser keeps, or empty.
pub open spec fn spec_description(body: Seq<char>) -> Seq<char> {
    match meta_desc_of(body) {
        Some(d) => d,
        None => Seq::empty(),
    }
}

/// The image references the parser keeps: the first `MAX_IMAGES` of them.
pub open spec fn spec_images(body: Seq<char>) -> Seq<Seq<char>> {
    let all = image_srcs_of(body);
    if all.len() <= MAX_IMAGES as nat {
        all
    } else {
        all.take(MAX_IMAGES as int)
    }
}

/// What parsing one crawl result yields, given the language-detection
/// outcome for its title: `None` when the page is rejected (language
/// policy, or an empty URL, body, title or content), otherwise the
/// document.
pub open spec fn spec_parse_one(cr: CrawlResultView, detected: Option<Seq<char>>) -> Option<
    DocumentView,
> {
    if spec_lang_rejected(cr.body, detected) {
        None
    } else {
        let d = DocumentView {
            url: cr.url,
            title: spec_title(cr.body),
            description: spec_description(cr.body),
            content: spec_content(cr.body),
            images: spec_images(cr.body),
            links: cr.new_urls,
        };
        if cr.url.len() == 0 || cr.body.len() == 0 || d.title.len() == 0 || d.content.len() == 0 {
            None
        } else {
            Some(d)
        }
    }
}

/// Parses one crawl result, with the language-detection outcome for its
/// title handed in as a value; the result is a function of the arguments.
pub fn parse_crawl_result_with(cr: &CrawlResult, detected: Option<String>) -> (r: Option<Document>)
    ensures
        r.deep_view() == spec_parse_one(cr@, detected.deep_view()),
{
    let title: String = match extract_title(cr.body.as_str()) {
        Some(t) => {
            match &detected {
                Some(lang) => {
                    if !str_eq(lang.as_str(), "English") {
                        // the page's reported language is not English
                        return None;
                    }
                },
                None => {},
            }
            t
        },
        None => String::new(),
    };
    let headings = keep_nonempty(extract_headings(cr.body.as_str()));
    let mut content = headings;
    let mut paragraphs = keep_nonempty(extract_paragraphs(cr.body.as_str()));
    let ghost content_before = content.deep_view();
    let ghost paragraphs_view = paragraphs.deep_view();
    content.append(&mut paragraphs);
    proof {
        assert(content.deep_view() =~= content_before + paragraphs_view);
        assert(content.deep_view() == spec_content(cr.body@));
    }
    let description: String = match extract_meta_description(cr.body.as_str()) {
        Some(d) => d,
        None => String::new(),
    };
    let mut images = extract_image_sources(cr.body.as_str());
    if images.len() > MAX_IMAGES {
        let ghost all = images.deep_view();
        images.truncate(MAX_IMAGES);
        proof {
            assert(images.deep_view() =~= all.take(MAX_IMAGES as int));
        }
    }
    if cr.url.as_str().is_empty() || cr.body.as_str().is_empty() || title.as_str().is_empty()
        || content.len() == 0 {
        return None;
    }
    let doc = Document {
        url: cr.url.clone(),
        title,
        description,
        content,
        images,
        links: clone_strings(&cr.new_urls),
    };
    proof {
        assert(doc@ =~= spec_parse_one(cr@, detected.deep_view()).unwrap());
    }
    Some(doc)
}

/// Parses one crawl result into a document, or rejects it. The rejection
/// decision reads the detector's outcome, which is not a function of the
/// text, so the result is fixed relative to some outcome of the configured
/// language set.
pub fn parse_crawl_result(cr: &CrawlResult) -> (r: Option<Document>)
    ensures
        exists|detected: Option<Seq<char>>|
            #![auto]
            (detected matches Some(l) ==> spec_supported_language(l)) && r.deep_view()
                == spec_parse_one(cr@, detected),
{
    let detected: Option<String> = match extract_title(cr.body.as_str()) {
        Some(t) => detect_language_name(t.as_str()),
        None => None,
    };
    let ghost outcome = detected.deep_view();
    let r = parse_crawl_result_with(cr, detected);
    proof {
        assert((outcome matches Some(l) ==> spec_supported_language(l)) && r.deep_view()
            == spec_parse_one(cr@, outcome));
    }
    r
}

/// What parsing a batch yields, given one detection outcome per result:
/// the documents of the accepted results, in order; rejected results are
/// dropped.
pub open spec fn spec_parse_batch(
    crs: Seq<CrawlResultView>,
    detections: Seq<Option<Seq<char>>>,
) -> Seq<DocumentView>
    decreases crs.len(),
{
    if crs.len() == 0 {
        Seq::empty()
    } else {
        spec_parse_batch(crs.drop_last(), detections.drop_last()) + match spec_parse_one(
            crs.last(),
            if detections.len() > 0 {
                detections.last()
            } else {
                None
            },
        ) {
            Some(d) => seq![d],
            None => Seq::empty(),
        }
    }
}

/// Parses all crawl results, silently dropping any that fail to parse. The
/// result is fixed relative to one detection outcome per result, each from
/// the configured language set.
#[verifier::loop_isolation(false)]
pub fn parse_crawl_results(crawl_results: Vec<CrawlResult>) -> (r: Vec<Document>)
    ensures
        exists|detections: Seq<Option<Seq<char>>>|
            #![auto]
            detections.len() == crawl_results@.len() && (forall|i: int|
                0 <= i < detections.len() ==> (#[trigger] detections[i] matches Some(l)
                    ==> spec_supported_language(l))) && r.deep_view() == spec_parse_batch(
                crawl_results.deep_view(),
                detections,
            ),
{
    let mut out: Vec<Document> = Vec::new();
    let mut i: usize = 0;
    let ghost crs = crawl_results.deep_view();
    let ghost mut detections: Seq<Option<Seq<char>>> = Seq::empty();
    proof {
        assert(crs.take(0) =~= Seq::<CrawlResultView>::empty());
        assert(out.deep_view() =~= spec_parse_batch(crs.take(0), detections));
    }
    while i < crawl_results.len()
        invariant
            i <= crawl_results@.len(),
            detections.len() == i,
            forall|k: int|
                0 <= k < detections.len() ==> (#[trigger] detections[k] matches Some(l)
                    ==> spec_supported_language(l)),
            out.deep_view() == spec_parse_batch(crs.take(i as int), detections),
        decreases crawl_results@.len() - i,
    {
        let parsed = parse_crawl_result(&crawl_results[i]);
        proof {
            let outcome = choose|outcome: Option<Seq<char>>|
                #![auto]
                (outcome matches Some(l) ==> spec_supported_language(l))
                    && parsed.deep_view() == spec_parse_one(crawl_results@[i as int]@, outcome);
            let prev_detections = detections;
            detections = detections.push(outcome);
            assert(detections.drop_last() =~= prev_detections);
            assert(detections.last() == outcome);
            assert(crs.take(i + 1).drop_last() =~= crs.take(i as int));
            assert(crs.take(i + 1).last() == crawl_results@[i as int]@);
        }
        match parsed {
            Some(doc) => {
                let ghost prev = out.deep_view();
                out.push(doc);
                proof {
                    assert(out.deep_view() =~= prev.push(doc@));
                    assert(out.deep_view() =~= spec_parse_batch(crs.take(i + 1), detections));
                }
            },
            None => {
                proof {
                    assert(out.deep_view() =~= spec_parse_batch(crs.take(i + 1), detections));
                }
            },
        }
        i = i + 1;
    }
    proof {
        assert(crs.take(crawl_results@.len() as int) =~= crs);
    }
    out
}

} // verus!
