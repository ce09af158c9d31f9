use ez_shark::body::Body;
use ez_shark::export::ExportError;
use ez_shark::har::{har_headers, wrap_entries};
use ez_shark::headers::{Header, Headers};
use ez_shark::traffic::{render_body, render_error, render_header, IdAllocator, Traffic};

fn fresh(uri: &str, method: &str) -> Traffic {
    let mut ids = IdAllocator::new();
    Traffic::new(uri, method, "s1", &mut ids)
}

fn collection(pairs: &[(&str, &str)]) -> Headers {
    let items: Vec<Header> = pairs.iter().map(|(n, v)| Header::new(n, v)).collect();
    Headers::new(items)
}

fn scenario() -> Traffic {
    // A record created with method GET, uri http://x/y?q=1, status 200,
    // response header content-type: text/plain, response body "hello".
    let mut t = fresh("http://x/y?q=1", "GET");
    t.set_res_status(200);
    t.set_res_headers(collection(&[("content-type", "text/plain")]));
    t.set_res_body_file("/tmp/res");
    t.done_res_body(5);
    t
}

#[test]
fn curl_skips_content_length_and_host() {
    let mut t = fresh("http://x/y", "POST");
    t.set_req_headers(collection(&[
        ("content-length", "42"),
        ("host", "x"),
        ("x-token", "it's"),
    ]));
    let cmd = t.curl(&None);
    assert_eq!(
        cmd,
        "curl http://x/y \\\n  -X POST \\\n  -H 'x-token: it'\\''s'"
    );
    assert!(!cmd.contains("content-length"));
    assert!(!cmd.contains("host:"));
}

#[test]
fn curl_get_without_method_flag() {
    let t = fresh("http://x/y", "GET");
    assert_eq!(t.curl(&None), "curl http://x/y");
}

#[test]
fn curl_text_body_quoted() {
    let t = fresh("http://x/y", "GET");
    let body = Some(Body::text("a b"));
    assert_eq!(t.curl(&body), "curl http://x/y \\\n  -d 'a b'");
}

#[test]
fn curl_binary_body_by_path() {
    let t = fresh("http://x/y", "GET");
    let body = Some(Body::path("/tmp/blob"));
    assert_eq!(t.curl(&body), "curl http://x/y \\\n  -t /tmp/blob");
}

#[test]
fn markdown_document_layout() {
    let mut t = fresh("http://x/y", "GET");
    t.set_res_status(200);
    t.set_res_headers(collection(&[("content-type", "text/plain")]));
    t.add_error("oops".to_string());
    let body = Some(Body::text("hello"));
    let md = t.markdown(&None, &body);
    assert_eq!(
        md,
        "\n# GET http://x/y 200\n\nRESPONSE HEADERS\n```\ncontent-type: text/plain\n```\n\nRESPONSE BODY\n```plain\nhello\n```\n\nERROR: oops"
    );
}

#[test]
fn render_blocks() {
    let h = collection(&[("a", "1"), ("b", "2")]);
    assert_eq!(render_header("T", &h), "T\n```\na: 1\nb: 2\n```");
    let binary = Body::path("/p");
    assert_eq!(render_body("B", &binary, &None), "B\n\n[BINARY DATA](/p)");
    assert_eq!(render_error("one"), "ERROR: one");
    assert_eq!(render_error("one\ntwo"), "ERROR\n```\none\ntwo\n```");
}

#[test]
fn har_headers_array_shape() {
    let h = Some(collection(&[("a", "1")]));
    assert_eq!(har_headers(&h), "[{\"name\": \"a\", \"value\": \"1\"}]");
    assert_eq!(har_headers(&None), "[]");
}

#[test]
fn har_request_cookie_pairs() {
    // Header value "a=1; b=2" parses into two name/value pairs.
    let mut t = fresh("http://x/y", "GET");
    t.set_req_headers(collection(&[("cookie", "a=1; b=2")]));
    let har = t.har(&None, &None);
    let doc: serde_json::Value = serde_json::from_str(&har).unwrap();
    let cookies = &doc["log"]["entries"][0]["request"]["cookies"];
    assert_eq!(cookies[0]["name"], "a");
    assert_eq!(cookies[0]["value"], "1");
    assert_eq!(cookies[1]["name"], "b");
    assert_eq!(cookies[1]["value"], "2");
    assert_eq!(cookies.as_array().unwrap().len(), 2);
}

#[test]
fn har_response_cookie_attributes() {
    let mut t = fresh("http://x/y", "GET");
    t.set_res_headers(collection(&[(
        "set-cookie",
        "id=7; Path=/; Secure; HttpOnly",
    )]));
    let har = t.har(&None, &None);
    let doc: serde_json::Value = serde_json::from_str(&har).unwrap();
    let c = &doc["log"]["entries"][0]["response"]["cookies"][0];
    assert_eq!(c["name"], "id");
    assert_eq!(c["value"], "7");
    assert_eq!(c["path"], "/");
    assert_eq!(c["httpOnly"], true);
    assert_eq!(c["secure"], true);
}

#[test]
fn har_query_string_pairs() {
    let t = fresh("http://x/y?q=1&r=two", "GET");
    let har = t.har(&None, &None);
    let doc: serde_json::Value = serde_json::from_str(&har).unwrap();
    let q = &doc["log"]["entries"][0]["request"]["queryString"];
    assert_eq!(q[0]["name"], "q");
    assert_eq!(q[0]["value"], "1");
    assert_eq!(q[1]["name"], "r");
    assert_eq!(q[1]["value"], "two");
}

#[test]
fn har_query_string_percent_decoded() {
    let t = fresh("http://x/y?a=1%202&b=c+d", "GET");
    let har = t.har(&None, &None);
    let doc: serde_json::Value = serde_json::from_str(&har).unwrap();
    let q = &doc["log"]["entries"][0]["request"]["queryString"];
    assert_eq!(q[0]["value"], "1 2");
    assert_eq!(q[1]["value"], "c d");
}

#[test]
fn markdown_language_hint_from_mime() {
    let mut t = fresh("http://x/y", "GET");
    t.set_res_headers(collection(&[("content-type", "application/ld+json")]));
    let body = Some(Body::text("{}"));
    let md = t.markdown(&None, &body);
    assert!(md.contains("RESPONSE BODY\n```json\n{}\n```"));
}

#[test]
fn har_envelope() {
    let doc: serde_json::Value =
        serde_json::from_str(&wrap_entries(Vec::new())).unwrap();
    assert_eq!(doc["log"]["version"], "1.2");
    assert_eq!(doc["log"]["creator"]["name"], "ez-shark");
    assert_eq!(doc["log"]["pages"], serde_json::Value::Array(Vec::new()));
    assert_eq!(doc["log"]["entries"].as_array().unwrap().len(), 0);
}

#[test]
fn scenario_structured_export() {
    let t = scenario();
    let data = Some(b"hello".to_vec());
    let (text, mime) = t.export("", &None, &data).unwrap();
    assert_eq!(mime, "application/json; charset=UTF-8");
    let doc: serde_json::Value = serde_json::from_str(&text).unwrap();
    assert_eq!(doc["res_body"]["value"], "hello");
    assert_eq!(doc["res_body"]["encode"], "utf8");
    assert_eq!(doc["method"], "GET");
    assert_eq!(doc["uri"], "http://x/y?q=1");
    assert_eq!(doc["status"], 200);
    assert_eq!(doc["req_body"], serde_json::Value::Null);
}

#[test]
fn scenario_har_content() {
    let t = scenario();
    let data = Some(b"hello".to_vec());
    let (text, _) = t.export("har", &None, &data).unwrap();
    let doc: serde_json::Value = serde_json::from_str(&text).unwrap();
    let content = &doc["log"]["entries"][0]["response"]["content"];
    assert_eq!(content["size"], 5);
    assert_eq!(content["mimeType"], "text/plain");
    assert_eq!(content["text"], "hello");
    assert!(content.get("encoding").is_none());
    assert_eq!(content["compression"], 0);
    assert_eq!(doc["log"]["entries"][0]["response"]["status"], 200);
}

#[test]
fn export_unsupported_format() {
    let t = fresh("u", "GET");
    let err = t.export("bogus-format", &None, &None).unwrap_err();
    match &err {
        ExportError::UnsupportedFormat(f) => assert_eq!(f, "bogus-format"),
        other => panic!("wrong error: {:?}", other),
    }
    assert_eq!(err.message(), "Unsupported format: bogus-format");
}

#[test]
fn export_body_without_data() {
    let t = fresh("u", "GET");
    let err = t.export("req-body", &None, &None).unwrap_err();
    match &err {
        ExportError::NoData(f) => assert_eq!(f, "req-body"),
        other => panic!("wrong error: {:?}", other),
    }
    assert_eq!(err.message(), "No req-body data");
}

#[test]
fn export_body_formats_return_text() {
    let mut t = fresh("u", "POST");
    t.set_req_body_file("/tmp/req");
    let data = Some(b"payload".to_vec());
    let (text, mime) = t.export("req-body", &data, &None).unwrap();
    assert_eq!(text, "payload");
    assert_eq!(mime, "text/plain; charset=UTF-8");
}

#[test]
fn export_markdown_and_curl_dispatch() {
    let t = scenario();
    let data = Some(b"hello".to_vec());
    let (md, md_mime) = t.export("markdown", &None, &data).unwrap();
    assert!(md.starts_with("\n# GET http://x/y?q=1 200"));
    assert_eq!(md_mime, "text/markdown; charset=UTF-8");
    let (cmd, curl_mime) = t.export("curl", &None, &None).unwrap();
    assert_eq!(cmd, "curl http://x/y?q=1");
    assert_eq!(curl_mime, "text/plain; charset=UTF-8");
}

#[test]
fn export_har_ignores_unparsable_uri() {
    let t = fresh("not a uri", "GET");
    let (text, _) = t.export("har", &None, &None).unwrap();
    let doc: serde_json::Value = serde_json::from_str(&text).unwrap();
    let q = &doc["log"]["entries"][0]["request"]["queryString"];
    assert_eq!(q.as_array().unwrap().len(), 0);
}

#[test]
fn structured_export_includes_timing_fields() {
    let mut t = scenario();
    t.start_time = Some(1_700_000_000_000_000_000);
    t.end_time = Some(1_700_000_001_000_000_000);
    let (text, _) = t.export("", &None, &None).unwrap();
    let doc: serde_json::Value = serde_json::from_str(&text).unwrap();
    assert_eq!(doc["start_time"], "2023-11-14T22:13:20Z");
    assert_eq!(doc["end_time"], "2023-11-14T22:13:21Z");
    let (har, _) = t.export("har", &None, &None).unwrap();
    let hdoc: serde_json::Value = serde_json::from_str(&har).unwrap();
    assert_eq!(hdoc["log"]["entries"][0]["time"], 1000);
    assert_eq!(
        hdoc["log"]["entries"][0]["startedDateTime"],
        "2023-11-14T22:13:20Z"
    );
}
