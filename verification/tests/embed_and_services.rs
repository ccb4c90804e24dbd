use search_core::auth::{add_history, login, AuthResult, Credentials, SearchHistory};
use search_core::config::Config;
use search_core::config::SearchParams;
use search_core::discover::{get_domains_and_webpages, EduDomain};
use search_core::embed::{
    accept_reduced, classify_embed_outcome, collect_terms, embed_documents, fit_query_vector,
    generate_clusters, get_average_vector, centroid_distance, plan_embeddings, select_cluster, Cluster,
    ClusterOutcome, EmbedOutcome, QueryFit, RawCluster,
};
use search_core::index::{ForwardIndex, Indexer, InvertedIndex};
use search_core::meta::{MetaSearchRequest, SearchResponse};
use search_core::parse::Document;
use search_core::services::{
    answer_query_bm25, fill_indices, select_backend, select_seeds, IndexLoadState, RankMethod,
    ServiceError,
};
use search_core::ErrorCode;

fn strings(v: Vec<&str>) -> Vec<String> {
    let mut out = Vec::new();
    for s in v {
        out.push(s.to_string());
    }
    out
}

fn doc(url: &str, content: Vec<&str>) -> Document {
    Document {
        url: url.to_string(),
        title: format!("title {}", url),
        description: String::new(),
        content: strings(content),
        images: vec![],
        links: vec![],
    }
}

#[test]
fn embedding_signal_one_is_a_vocabulary_miss() {
    // the embedding subprocess answering the JSON integer 1 maps to
    // VocabularyMiss, not to the catch-all code
    let r = classify_embed_outcome(&EmbedOutcome::Signal(1));
    assert_eq!(r.unwrap_err(), ErrorCode::VocabularyMiss);
    let other = classify_embed_outcome(&EmbedOutcome::Signal(3));
    assert_eq!(other.unwrap_err(), ErrorCode::Unspecified);
    let failed = classify_embed_outcome(&EmbedOutcome::Failure);
    assert_eq!(failed.unwrap_err(), ErrorCode::EmbeddingScriptError);
}

#[test]
fn embed_documents_with_no_usable_outcome_is_a_vocabulary_miss() {
    let fwd = ForwardIndex {
        entries: match Indexer::TermIndex(ForwardIndex { entries: Vec::new() }).new(&vec![doc(
            "a",
            vec!["alpha beta gamma delta"],
        )]) {
            Indexer::TermIndex(f) => f.entries,
            _ => panic!("wrong shape"),
        },
    };
    let jobs = plan_embeddings(&fwd, 5);
    assert_eq!(jobs.len(), 1);
    let outcomes = vec![EmbedOutcome::Signal(1)];
    let r = embed_documents(&jobs, &outcomes, RankMethod::WordVector);
    assert_eq!(r.unwrap_err(), ErrorCode::VocabularyMiss);
}

#[test]
fn plan_skips_documents_with_too_few_terms() {
    let docs = vec![doc("short", vec!["alpha beta"]), doc("long", vec!["alpha beta gamma"])];
    let fwd = match Indexer::TermIndex(ForwardIndex { entries: Vec::new() }).new(&docs) {
        Indexer::TermIndex(f) => f,
        _ => panic!("wrong shape"),
    };
    let jobs = plan_embeddings(&fwd, 2);
    assert_eq!(jobs.len(), 1);
    assert_eq!(jobs[0].document.url, "long");
    // the first two index terms, then the title words
    assert_eq!(jobs[0].terms, strings(vec!["alpha", "beta", "title", "long"]));
}

#[test]
fn average_vector_is_componentwise() {
    let vs = vec![vec![2i64, 4, 6], vec![4i64, 8, 10]];
    assert_eq!(get_average_vector(&vs).unwrap(), vec![3i64, 6, 8]);
    let ragged = vec![vec![1i64], vec![1i64, 2]];
    assert!(get_average_vector(&ragged).is_none());
}

#[test]
fn embed_documents_averages_word_vectors() {
    let fwd = match Indexer::TermIndex(ForwardIndex { entries: Vec::new() }).new(&vec![doc(
        "a",
        vec!["alpha beta gamma"],
    )]) {
        Indexer::TermIndex(f) => f,
        _ => panic!("wrong shape"),
    };
    let jobs = plan_embeddings(&fwd, 3);
    let outcomes = vec![EmbedOutcome::Vectors(vec![vec![1i64, 2], vec![3i64, 6]])];
    let es = embed_documents(&jobs, &outcomes, RankMethod::WordVector).unwrap();
    assert_eq!(es.len(), 1);
    assert_eq!(es[0].embedding, vec![2i64, 4]);
    // the sentence back end keeps the first vector instead
    let outcomes2 = vec![EmbedOutcome::Vectors(vec![vec![1i64, 2], vec![3i64, 6]])];
    let es2 = embed_documents(&jobs, &outcomes2, RankMethod::SentenceTransformer).unwrap();
    assert_eq!(es2[0].embedding, vec![1i64, 2]);
}

#[test]
fn clusters_are_assembled_by_exact_vector_equality() {
    let fwd = match Indexer::TermIndex(ForwardIndex { entries: Vec::new() }).new(&vec![
        doc("a", vec!["alpha beta gamma"]),
        doc("b", vec!["delta epsilon zeta"]),
    ]) {
        Indexer::TermIndex(f) => f,
        _ => panic!("wrong shape"),
    };
    let jobs = plan_embeddings(&fwd, 3);
    let outcomes = vec![
        EmbedOutcome::Vectors(vec![vec![1i64, 1]]),
        EmbedOutcome::Vectors(vec![vec![9i64, 9]]),
    ];
    let es = embed_documents(&jobs, &outcomes, RankMethod::SentenceTransformer).unwrap();
    let raw = vec![
        RawCluster { centroid: vec![0i64, 0], members: vec![vec![1i64, 1]] },
        RawCluster { centroid: vec![10i64, 10], members: vec![vec![9i64, 9]] },
    ];
    let clusters = generate_clusters(&es, ClusterOutcome::Clusters(raw)).unwrap();
    assert_eq!(clusters.len(), 2);
    assert_eq!(clusters[0].documents.len(), 1);
    assert_eq!(clusters[0].documents[0].document.url, "a");
    assert_eq!(clusters[1].documents[0].document.url, "b");
    let failed = generate_clusters(&es, ClusterOutcome::Failure);
    assert_eq!(failed.unwrap_err(), ErrorCode::ClusteringScriptError);
}

#[test]
fn query_vector_fitting_pads_or_asks_for_reduction() {
    // shorter: zero-padded to the centroid length
    match fit_query_vector(vec![5i64], 3) {
        QueryFit::Ready(v) => assert_eq!(v, vec![5i64, 0, 0]),
        QueryFit::NeedsReduction => panic!("no reduction expected"),
    }
    // longer: the reduction step is invoked, and what it returns must have
    // exactly the centroid length
    match fit_query_vector(vec![1i64, 2, 3, 4], 2) {
        QueryFit::Ready(_) => panic!("reduction expected"),
        QueryFit::NeedsReduction => {},
    }
    let reduced = accept_reduced(vec![7i64, 8], 2).unwrap();
    assert_eq!(reduced.len(), 2);
    assert_eq!(accept_reduced(vec![7i64, 8, 9], 2).unwrap_err(), ErrorCode::Unspecified);
}

#[test]
fn nearest_centroid_wins() {
    let mk = |url: &str, v: Vec<i64>| Cluster {
        centroid: v,
        documents: vec![search_core::embed::EmbeddedDocument {
            document: doc(url, vec!["x"]),
            embedding: vec![0i64],
        }],
    };
    let clusters = vec![mk("far", vec![100i64, 100]), mk("near", vec![1i64, 1])];
    let docs = select_cluster(&clusters, &vec![0i64, 0]).unwrap();
    assert_eq!(docs.len(), 1);
    assert_eq!(docs[0].url, "near");
    assert_eq!(
        select_cluster(&Vec::new(), &vec![0i64]).unwrap_err(),
        ErrorCode::NoResults
    );
}

#[test]
fn squared_distance_values() {
    assert_eq!(centroid_distance(&vec![0i64, 0], &vec![3i64, 4]), 25);
    assert_eq!(centroid_distance(&vec![1i64], &vec![1i64]), 0);
    // symmetric, and zero exactly on equal prefixes
    assert_eq!(
        centroid_distance(&vec![2i64, 7], &vec![5i64, 3]),
        centroid_distance(&vec![5i64, 3], &vec![2i64, 7])
    );
}

#[test]
fn collect_terms_accepts_only_the_forward_shape() {
    assert!(collect_terms(Indexer::TermIndex(ForwardIndex { entries: Vec::new() })).is_some());
    assert!(collect_terms(Indexer::InvertedIndex(InvertedIndex { entries: Vec::new() })).is_none());
}

#[test]
fn refresh_plan_rebuilds_what_is_missing() {
    assert_eq!(
        fill_indices(IndexLoadState::Present, IndexLoadState::Missing).unwrap(),
        search_core::services::RefreshPlan { build_forward: false, build_inverted: true }
    );
    assert_eq!(
        fill_indices(IndexLoadState::WrongShape, IndexLoadState::Present).unwrap_err(),
        ServiceError::IndexTypeError
    );
    assert_eq!(
        fill_indices(IndexLoadState::Missing, IndexLoadState::Missing).unwrap(),
        search_core::services::RefreshPlan { build_forward: true, build_inverted: true }
    );
}

#[test]
fn seed_selection_takes_a_prefix() {
    let seeds = select_seeds(strings(vec!["a", "b", "c"]), 2);
    assert_eq!(seeds, strings(vec!["a", "b"]));
    let all = select_seeds(strings(vec!["a"]), 5);
    assert_eq!(all, strings(vec!["a"]));
}

#[test]
fn backend_selection_follows_the_selector() {
    assert_eq!(select_backend("").unwrap(), RankMethod::Bm25);
    assert_eq!(select_backend("scripts/embedding.py").unwrap(), RankMethod::WordVector);
    assert_eq!(
        select_backend("scripts/sentence_transform.py").unwrap(),
        RankMethod::SentenceTransformer
    );
    assert_eq!(select_backend("other.py").unwrap_err(), ErrorCode::EmbeddingScriptError);
}

#[test]
fn bm25_answer_carries_the_indexed_count() {
    let docs = vec![doc("a", vec!["alpha beta"]), doc("b", vec!["beta gamma"])];
    let forward = match Indexer::TermIndex(ForwardIndex { entries: Vec::new() }).new(&docs) {
        Indexer::TermIndex(f) => f,
        _ => panic!("wrong shape"),
    };
    let inverted = match Indexer::InvertedIndex(InvertedIndex { entries: Vec::new() }).new(&docs) {
        Indexer::InvertedIndex(v) => v,
        _ => panic!("wrong shape"),
    };
    match answer_query_bm25(forward, inverted, "beta".to_string()).unwrap() {
        SearchResponse::Search(dr) => {
            assert_eq!(dr.results.len(), 2);
            // the count of documents indexed at query time
            assert_eq!(dr.indexed, docs.len());
        },
        SearchResponse::MetaSearch(_) => panic!("wrong response kind"),
    }
}

#[test]
fn login_checks_the_stored_password() {
    let stored = Credentials::new("ada", "secret", &vec![SearchHistory {
        url: "u".to_string(),
        title: "t".to_string(),
        date: "d".to_string(),
        query: "q".to_string(),
    }]);
    let attempt = Credentials::new("ada", "secret", &Vec::new());
    match login(&attempt, Some(stored)) {
        AuthResult::LoginConfirm(resp) => {
            assert_eq!(resp.username, "ada");
            assert_eq!(resp.search_histories.len(), 1);
            assert_eq!(resp.search_histories[0].query, "q");
        },
        _ => panic!("the login should succeed"),
    }
    let wrong = Credentials::new("ada", "nope", &Vec::new());
    let stored2 = Credentials::new("ada", "secret", &Vec::new());
    match login(&wrong, Some(stored2)) {
        AuthResult::Error(m) => assert_eq!(m, "Invalid password."),
        _ => panic!("the login should fail"),
    }
    match login(&wrong, None) {
        AuthResult::Error(m) => assert_eq!(m, "User not found"),
        _ => panic!("the login should fail"),
    }
}

#[test]
fn history_update_appends() {
    let entry = |q: &str| SearchHistory {
        url: "u".to_string(),
        title: "t".to_string(),
        date: "d".to_string(),
        query: q.to_string(),
    };
    let cred = Credentials::new("ada", "secret", &vec![entry("new")]);
    let (merged, confirm) = add_history(Some(vec![entry("old")]), &cred);
    assert!(matches!(confirm, AuthResult::UpdateConfirm));
    assert_eq!(merged.len(), 2);
    assert_eq!(merged[0].query, "old");
    assert_eq!(merged[1].query, "new");
    let (fresh, _) = add_history(None, &cred);
    assert_eq!(fresh.len(), 1);
}

#[test]
fn config_defaults_the_connection_string() {
    let user = Credentials::new("ada", "secret", &Vec::new());
    let params = SearchParams {
        crawl_depth: 1,
        number_of_seeds: 2,
        search_method: 0,
        browsers: vec![("DuckDuckGo".to_string(), true)],
        index_type: 1,
        q: "query".to_string(),
    };
    let c = Config::new(user, String::new(), params);
    assert_eq!(c.redis_connection_str, "redis://127.0.0.1:6379");
    assert_eq!(c.user.redis_key(), "user:ada");
    let user2 = Credentials::new("ada", "secret", &Vec::new());
    let params2 = SearchParams {
        crawl_depth: 1,
        number_of_seeds: 2,
        search_method: 0,
        browsers: vec![],
        index_type: 1,
        q: String::new(),
    };
    let c2 = Config::new(user2, "redis://other:1".to_string(), params2);
    assert_eq!(c2.redis_connection_str, "redis://other:1");
}

#[test]
fn catalogue_flattening_keeps_record_order() {
    let record = |n: &str, d: Vec<&str>, w: Vec<&str>| EduDomain {
        name: n.to_string(),
        domains: strings(d),
        web_pages: strings(w),
        country: "X".to_string(),
        alpha_two_code: "XX".to_string(),
        state_province: None,
    };
    let records = vec![
        record("one", vec!["a.edu"], vec!["https://a.edu", "https://a.edu/about"]),
        record("two", vec!["b.edu", "b2.edu"], vec!["https://b.edu"]),
    ];
    let (seeds, domains) = get_domains_and_webpages(&records);
    assert_eq!(seeds, strings(vec!["https://a.edu", "https://a.edu/about", "https://b.edu"]));
    assert_eq!(domains, strings(vec!["a.edu", "b.edu", "b2.edu"]));
}

#[test]
fn meta_rows_are_parsed_from_tool_output() {
    let req = MetaSearchRequest::new("DuckDuckGo".to_string(), "db".to_string());
    let raw = "1. First result [example.com/page] A short description here\n";
    let rows = req.process_with_expression(raw, "DuckDuckGo");
    assert_eq!(rows.len(), 1);
    match &rows[0] {
        SearchResponse::MetaSearch(m) => {
            assert_eq!(m.url, "https://example.com/page");
            assert_eq!(m.engine, "DuckDuckGo");
            assert!(m.title.contains("First result"));
            assert!(m.description.contains("description"));
        },
        SearchResponse::Search(_) => panic!("wrong response kind"),
    }
}
