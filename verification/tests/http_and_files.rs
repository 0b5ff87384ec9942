use ragloom::pipeline::points::check_embedding_count;
use ragloom::sink::qdrant::{
    after_failed_create, collection_url, create_body_result, create_status_error, existence_error, existence_of,
    is_loopback_host, should_bypass_proxy, upsert_body_result, upsert_status_error, upsert_url, Existence,
};
use ragloom::state::ndjson::{split_records, NdjsonLine};
use ragloom::{RagloomError, RagloomErrorKind};

#[test]
fn bypasses_proxy_for_loopback_endpoints() {
    assert!(should_bypass_proxy("http://127.0.0.1:6333"));
    assert!(should_bypass_proxy("http://localhost:8080/v1/embeddings"));
    assert!(!should_bypass_proxy("https://api.openai.com/v1/embeddings"));
}

#[test]
fn bypasses_proxy_for_loopback_qdrant_urls() {
    assert!(should_bypass_proxy("http://127.0.0.1:6333"));
    assert!(should_bypass_proxy("http://localhost:6333/"));
    assert!(!should_bypass_proxy("https://qdrant.example.com:6333"));
}

#[test]
fn unparsable_urls_do_not_bypass_the_proxy() {
    assert!(!should_bypass_proxy("not a url"));
    assert!(!should_bypass_proxy(""));
    assert!(is_loopback_host(&Some("::1".to_string())));
    assert!(!is_loopback_host(&Some("[::1]".to_string())));
    assert!(!is_loopback_host(&None));
}

#[test]
fn qdrant_urls_drop_trailing_slashes_of_the_base() {
    assert_eq!(collection_url("http://q:6333//", "docs"), "http://q:6333/collections/docs");
    assert_eq!(upsert_url("http://q:6333", "docs"), "http://q:6333/collections/docs/points?wait=true");
}

#[test]
fn existence_follows_the_status_code() {
    assert_eq!(existence_of(200), Existence::Exists);
    assert_eq!(existence_of(204), Existence::Exists);
    assert_eq!(existence_of(404), Existence::Missing);
    assert_eq!(existence_of(500), Existence::Unexpected);
    assert_eq!(existence_of(300), Existence::Unexpected);
}

#[test]
fn reply_errors_describe_url_status_and_body() {
    let e = existence_error("u", "500 Internal Server Error", "b");
    assert_eq!(e.kind, RagloomErrorKind::Sink);
    assert_eq!(
        e.contexts,
        vec!["qdrant bootstrap existence-check returned unexpected status (url=u, status=500 Internal Server Error, body=b)".to_string()]
    );
    let e = create_status_error("u", "409 Conflict", "x");
    assert!(e.message().contains("bootstrap"));
    assert!(e.message().contains("create"));
    let e = upsert_status_error("u", "500 Internal Server Error", "oops");
    assert!(e.message().contains("non-success"));
}

#[test]
fn reply_bodies_must_report_ok() {
    assert!(upsert_body_result("u", "ok").is_ok());
    let e = upsert_body_result("u", "error").expect_err("non-ok");
    assert!(e.message().contains("non-ok"));
    assert!(create_body_result("u", "ok").is_ok());
    assert!(create_body_result("u", "acknowledged").is_err());
}

#[test]
fn failed_create_is_forgiven_when_the_collection_now_exists() {
    let create_error = RagloomError::from_kind(RagloomErrorKind::Sink).with_context("create failed".to_string());
    assert!(after_failed_create(create_error.clone(), Ok(true)).is_ok());
    let err = after_failed_create(create_error.clone(), Ok(false)).expect_err("still missing");
    assert_eq!(err.contexts, create_error.contexts);
    let err = after_failed_create(create_error.clone(), Err(RagloomError::from_kind(RagloomErrorKind::Io))).expect_err("x");
    assert_eq!(err.kind, RagloomErrorKind::Sink);
}

#[test]
fn embedding_count_must_match() {
    assert!(check_embedding_count(2, 2).is_ok());
    let e = check_embedding_count(2, 1).expect_err("count");
    assert_eq!(e.kind, RagloomErrorKind::Internal);
    assert_eq!(e.contexts, vec!["embedding provider returned wrong count".to_string()]);
}

fn line(number: usize, text: &str) -> NdjsonLine {
    NdjsonLine { number, text: text.to_string() }
}

#[test]
fn ndjson_records_are_the_non_blank_lines() {
    let out = split_records("{\"a\":1}\n\n  \r\n{\"b\":2}\r\n{\"c\":3}");
    assert_eq!(out, vec![line(1, "{\"a\":1}"), line(4, "{\"b\":2}"), line(5, "{\"c\":3}")]);
    assert!(split_records("").is_empty());
    assert!(split_records("\n\n").is_empty());
    assert_eq!(split_records("x\r"), vec![line(1, "x\r")]);
    assert_eq!(split_records("x\n"), vec![line(1, "x")]);
}

#[test]
fn ndjson_framing_matches_str_lines() {
    let text = "a\r\n\r\nb\n \n\tc\r\rd\n";
    let expected: Vec<NdjsonLine> = text
        .lines()
        .enumerate()
        .filter(|(_, l)| !l.trim().is_empty())
        .map(|(i, l)| line(i + 1, l))
        .collect();
    assert_eq!(split_records(text), expected);
}

#[test]
fn qdrant_config_builds_its_urls() {
    let cfg = ragloom::sink::qdrant::QdrantConfig {
        base_url: "http://127.0.0.1:6333/".to_string(),
        collection: "kb".to_string(),
        timeout: std::time::Duration::from_secs(30),
    };
    assert_eq!(cfg.collection_url(), "http://127.0.0.1:6333/collections/kb");
    assert_eq!(cfg.clone().upsert_url(), "http://127.0.0.1:6333/collections/kb/points?wait=true");
}
