use ez_shark::headers::{Header, Headers};
use ez_shark::traffic::{strip_encoding_ext, IdAllocator, Traffic, TransactionState};

fn fresh(uri: &str, method: &str) -> Traffic {
    let mut ids = IdAllocator::new();
    Traffic::new(uri, method, "s1", &mut ids)
}

fn collection(pairs: &[(&str, &str)]) -> Headers {
    let items: Vec<Header> = pairs.iter().map(|(n, v)| Header::new(n, v)).collect();
    Headers::new(items)
}

#[test]
fn id_allocation_is_monotonic() {
    let mut ids = IdAllocator::new();
    let a = Traffic::new("u", "GET", "s", &mut ids);
    let b = Traffic::new("u", "GET", "s", &mut ids);
    assert_eq!(a.gid, 1);
    assert_eq!(b.gid, 2);
}

#[test]
fn new_record_is_empty_and_pending() {
    let t = fresh("http://x/y", "GET");
    assert_eq!(t.transaction_state, TransactionState::Pending);
    assert!(t.req_headers.is_none());
    assert!(t.status.is_none());
    assert!(t.start_time.is_none());
    assert!(t.error.is_none());
    assert!(t.valid);
}

#[test]
fn add_error_joins_with_newline() {
    let mut t = fresh("u", "GET");
    t.add_error("first".to_string());
    t.add_error("second".to_string());
    assert_eq!(t.error.as_deref(), Some("first\nsecond"));
}

#[test]
fn finish_zero_clears_body_reference() {
    let mut t = fresh("u", "GET");
    t.set_res_body_file("/tmp/body");
    t.done_res_body(0);
    assert!(t.res_body_file.is_none());
    assert_eq!(t.res_body_size, Some(0));
    assert!(t.end_time.is_some());
}

#[test]
fn finish_with_error_leaves_timing_unset() {
    let mut t = fresh("u", "GET");
    t.set_start_time();
    t.add_error("boom".to_string());
    t.done_res_body(10);
    assert!(t.end_time.is_none());
    assert!(t.res_body_size.is_none());
}

#[test]
fn elapsed_needs_both_timestamps() {
    let mut t = fresh("u", "GET");
    assert_eq!(t.time(), None);
    t.start_time = Some(1_000_000_000);
    assert_eq!(t.time(), None);
    t.end_time = Some(3_500_000_000);
    assert_eq!(t.time(), Some(2500));
    t.start_time = None;
    assert_eq!(t.time(), None);
}

#[test]
fn summary_projection_substitutes_ids() {
    let mut t = fresh("http://x/y", "POST");
    t.set_res_status(404);
    t.res_body_size = Some(9);
    t.set_res_headers(collection(&[("content-type", "text/plain; v=1")]));
    let head = t.head(77, "other-session".to_string());
    assert_eq!(head.id, 77);
    assert_eq!(head.session_id, "other-session");
    assert_eq!(head.method, "POST");
    assert_eq!(head.status, Some(404));
    assert_eq!(head.size, Some(9));
    assert_eq!(head.mime, "text/plain");
    assert_eq!(head.transaction_state, TransactionState::Pending);
}

#[test]
fn filter_matches_projection_text() {
    let mut t = fresh("http://x/y", "GET");
    t.set_res_status(200);
    t.set_res_headers(collection(&[("content-type", "text/plain")]));
    let head = t.head(1, "s".to_string());
    assert!(head.test_filter("x/y GET 200"));
    assert!(head.test_filter("text/plain"));
    assert!(!head.test_filter("POST"));
    let bare = fresh("u", "GET").head(1, "s".to_string());
    assert!(bare.test_filter("null"));
}

#[test]
fn oneline_with_and_without_status() {
    let mut t = fresh("http://x/y", "GET");
    assert_eq!(t.oneline(), "GET http://x/y");
    t.set_res_status(200);
    assert_eq!(t.oneline(), "GET http://x/y 200");
}

#[test]
fn check_match_is_a_no_op() {
    let mut t = fresh("u", "GET");
    t.set_res_status(1);
    let before_status = t.status;
    t.check_match();
    assert_eq!(t.status, before_status);
    assert!(t.valid);
}

#[test]
fn setters_overwrite() {
    let mut t = fresh("u", "GET");
    t.set_http_version("HTTP/1.1");
    t.set_http_version("HTTP/2.0");
    assert_eq!(t.http_version.as_deref(), Some("HTTP/2.0"));
    t.set_transaction_state(TransactionState::Requesting);
    t.set_transaction_state(TransactionState::Failed);
    assert_eq!(t.transaction_state, TransactionState::Failed);
}

#[test]
fn head_jsons_follow_headers() {
    let mut t = fresh("u", "GET");
    assert!(t.req_head_json().is_none());
    t.set_req_headers(collection(&[("a", "1")]));
    assert_eq!(t.req_head_json().unwrap(), "{\n  \"a\": 1\n}");
    assert!(t.res_head_json().is_none());
}

#[test]
fn encoding_suffix_table_lookup() {
    let exts = vec![
        ("gzip".to_string(), ".gz".to_string()),
        ("br".to_string(), ".br".to_string()),
    ];
    let hit = strip_encoding_ext("/tmp/body.gz", &exts).unwrap();
    assert_eq!(hit.0, "gzip");
    assert_eq!(hit.1, "/tmp/body");
    assert!(strip_encoding_ext("/tmp/body.txt", &exts).is_none());

    let mut t = fresh("u", "GET");
    t.set_res_body_file("/tmp/out.br");
    let plan = t.uncompress_res_file_target(&exts).unwrap();
    assert_eq!(plan.0, "br");
    assert_eq!(plan.1, "/tmp/out");
}

#[test]
fn response_read_path_strips_marker() {
    let mut t = fresh("u", "GET");
    assert!(t.res_read_path().is_none());
    t.set_res_body_file("/tmp/a.enc.gz");
    assert_eq!(t.res_read_path().as_deref(), Some("/tmp/a"));
    t.set_res_body_file("/tmp/a.bin");
    assert_eq!(t.res_read_path().as_deref(), Some("/tmp/a.bin"));
}
