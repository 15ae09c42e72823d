use semdesk::errors::ServiceError;
use semdesk::ingest::{
    record_for, validate_item, validate_query, IngestAction, IngestItem, IngestSession, Source,
};
use semdesk::models::{token_texts, tokenize_plain, IndexResponse, Models};

fn item(title: &str, content: &str) -> IngestItem {
    IngestItem {
        title: title.to_string(),
        content: content.to_string(),
        source: Source { name: "s".to_string(), url: None },
    }
}

fn expect_insert(a: IngestAction, title: &str, text: &str) {
    match a {
        IngestAction::Insert { record } => {
            assert_eq!(record.title, title);
            assert_eq!(record.text, text);
            assert_eq!(record.source, "s");
            assert_eq!(record.url, None);
        }
        _ => panic!("expected an insert"),
    }
}

fn expect_index(a: IngestAction, key: u64, text: &str) {
    match a {
        IngestAction::Index { key: k, text: t } => {
            assert_eq!(k, key);
            assert_eq!(t, text);
        }
        _ => panic!("expected an index step"),
    }
}

#[test]
fn batch_commits_in_input_order() {
    let items = vec![item("X", "x text"), item("Y", "y text"), item("Z", "z text")];
    let (mut s, a) = IngestSession::start(items);
    expect_insert(a, "X", "x text");
    expect_index(s.on_inserted(Ok(5)), 5, "x text");
    expect_insert(s.on_indexed(Ok(())), "Y", "y text");
    expect_index(s.on_inserted(Ok(6)), 6, "y text");
    expect_insert(s.on_indexed(Ok(())), "Z", "z text");
    expect_index(s.on_inserted(Ok(7)), 7, "z text");
    match s.on_indexed(Ok(())) {
        IngestAction::Done { count } => assert_eq!(count, 3),
        _ => panic!("expected done"),
    }
    assert_eq!(s.committed_keys(), vec![5, 6, 7]);
}

#[test]
fn single_item_ingest() {
    let (mut s, a) = IngestSession::start(vec![item("T", "the quick brown fox")]);
    expect_insert(a, "T", "the quick brown fox");
    assert!(s.is_awaiting_insert());
    expect_index(s.on_inserted(Ok(1)), 1, "the quick brown fox");
    assert!(s.is_awaiting_index());
    match s.on_indexed(Ok(())) {
        IngestAction::Done { count } => assert_eq!(count, 1),
        _ => panic!("expected done"),
    }
    assert_eq!(s.committed_keys(), vec![1]);
}

#[test]
fn non_increasing_id_fails() {
    let (mut s, _) = IngestSession::start(vec![item("A", "a"), item("B", "b")]);
    s.on_inserted(Ok(4));
    s.on_indexed(Ok(()));
    match s.on_inserted(Ok(4)) {
        IngestAction::Fail { error } => assert_eq!(error, ServiceError::Storage),
        _ => panic!("expected a failure"),
    }
    assert_eq!(s.committed_keys(), vec![4]);
    assert!(!s.is_awaiting_insert() && !s.is_awaiting_index());
}

#[test]
fn failed_index_leaves_row_uncommitted() {
    let (mut s, _) = IngestSession::start(vec![item("A", "a"), item("B", "b")]);
    s.on_inserted(Ok(1));
    match s.on_indexed(Err(ServiceError::Embedding)) {
        IngestAction::Fail { error } => assert_eq!(error, ServiceError::Embedding),
        _ => panic!("expected a failure"),
    }
    assert!(s.committed_keys().is_empty());
}

#[test]
fn storage_failure_ends_request() {
    let (mut s, _) = IngestSession::start(vec![item("A", "a")]);
    match s.on_inserted(Err(ServiceError::Storage)) {
        IngestAction::Fail { error } => assert_eq!(error, ServiceError::Storage),
        _ => panic!("expected a failure"),
    }
}

#[test]
fn empty_request_is_done_at_once() {
    match IngestSession::start(vec![]).1 {
        IngestAction::Done { count } => assert_eq!(count, 0),
        _ => panic!("expected done"),
    }
}

#[test]
fn invalid_item_rejects_whole_request() {
    let (s, a) = IngestSession::start(vec![item("A", "a"), item("B", "")]);
    match a {
        IngestAction::Fail { error } => assert_eq!(error, ServiceError::BadRequest),
        _ => panic!("expected a bad request"),
    }
    assert!(s.committed_keys().is_empty());
}

#[test]
fn validation_rules() {
    assert!(validate_item(&item("T", "c")).is_ok());
    assert_eq!(validate_item(&item("", "c")), Err(ServiceError::BadRequest));
    assert_eq!(validate_item(&item("T", "")), Err(ServiceError::BadRequest));
    let mut nameless = item("T", "c");
    nameless.source.name = String::new();
    assert_eq!(validate_item(&nameless), Err(ServiceError::BadRequest));
    assert!(validate_query(&"hello".to_string()).is_ok());
    assert_eq!(validate_query(&String::new()), Err(ServiceError::BadRequest));
}

#[test]
fn record_is_stamped_with_time() {
    let mut it = item("T", "body");
    it.source.url = Some("http://x".to_string());
    let r = record_for(&it);
    assert_eq!(r.title, "T");
    assert_eq!(r.text, "body");
    assert_eq!(r.url, Some("http://x".to_string()));
    assert!(r.created_at.len() >= 20);
    assert!(r.created_at.ends_with("+00:00"));
}

#[test]
fn plain_tokens_round_trip() {
    let texts = vec!["hello".to_string(), "".to_string(), "world".to_string()];
    let toks = tokenize_plain(&texts);
    assert_eq!(toks.len(), 3);
    assert_eq!(toks[2].as_text(), "world");
    assert_eq!(token_texts(&toks), texts);
    let _m = Models::new();
    assert_eq!(IndexResponse::IndexResult, IndexResponse::IndexResult);
}
