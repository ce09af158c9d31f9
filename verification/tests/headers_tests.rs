use ez_shark::body::Body;
use ez_shark::headers::{extract_mime, get_header_value, har_size, Header, Headers};

fn collection(pairs: &[(&str, &str)]) -> Headers {
    let items: Vec<Header> = pairs.iter().map(|(n, v)| Header::new(n, v)).collect();
    Headers::new(items)
}

#[test]
fn size_formula_exact() {
    let h = collection(&[("host", "x.io"), ("accept", "*/*")]);
    // (4 + 4 + 12) + (6 + 3 + 12) + 7
    assert_eq!(h.size, 20 + 21 + 7);
}

#[test]
fn size_formula_empty() {
    let h = collection(&[]);
    assert_eq!(h.size, 7);
}

#[test]
fn to_json_merges_cookies_last() {
    let h = collection(&[("cookie", "x=1"), ("a", "abc"), ("cookie", "y=2")]);
    assert_eq!(h.to_json(), "{\n  \"a\": \"abc\",\n  \"cookie\": \"x=1;y=2\"\n}");
}

#[test]
fn to_json_merges_set_cookies() {
    let h = collection(&[("set-cookie", "x=1"), ("set-cookie", "y=2")]);
    assert_eq!(h.to_json(), "{\n  \"cookie\": \"x=1;y=2\"\n}");
}

#[test]
fn to_json_merges_mixed_cookie_names() {
    let h = collection(&[("set-cookie", "x=1"), ("a", "abc"), ("cookie", "y=2")]);
    assert_eq!(h.to_json(), "{\n  \"a\": \"abc\",\n  \"cookie\": \"x=1;y=2\"\n}");
}

#[test]
fn to_json_number_like_unquoted() {
    let h = collection(&[("n", "200"), ("s", "abc")]);
    assert_eq!(h.to_json(), "{\n  \"n\": 200,\n  \"s\": \"abc\"\n}");
}

#[test]
fn to_json_literal_words_unquoted() {
    let h = collection(&[("t", "true"), ("f", "false"), ("z", "null"), ("w", "nan")]);
    assert_eq!(h.to_json(), "{\n  \"t\": true,\n  \"f\": false,\n  \"z\": null,\n  \"w\": nan\n}");
}

#[test]
fn to_json_float_grammar() {
    let h = collection(&[("a", "1.5e-3"), ("b", "1e"), ("c", ".5"), ("d", "+inf")]);
    assert_eq!(
        h.to_json(),
        "{\n  \"a\": 1.5e-3,\n  \"b\": \"1e\",\n  \"c\": .5,\n  \"d\": +inf\n}"
    );
}

#[test]
fn to_json_escapes_quotes() {
    let h = collection(&[("q", "a\"b")]);
    assert_eq!(h.to_json(), "{\n  \"q\": \"a\\\"b\"\n}");
}

#[test]
fn to_json_empty() {
    let h = collection(&[]);
    assert_eq!(h.to_json(), "{\n\n}");
}

#[test]
fn header_value_first_match() {
    let headers = Some(collection(&[("x", "1"), ("x", "2")]));
    assert_eq!(get_header_value(&headers, "x"), Some("1".to_string()));
    assert_eq!(get_header_value(&headers, "y"), None);
    assert_eq!(get_header_value(&None, "x"), None);
}

#[test]
fn mime_trims_parameters() {
    let headers = Some(collection(&[("content-type", "text/html; charset=utf-8")]));
    assert_eq!(extract_mime(&headers), "text/html");
    let bare = Some(collection(&[("content-type", "application/json")]));
    assert_eq!(extract_mime(&bare), "application/json");
    assert_eq!(extract_mime(&None), "");
}

#[test]
fn har_size_defaults() {
    assert_eq!(har_size(Some(42), -1), 42);
    assert_eq!(har_size(None, -1), -1);
    assert_eq!(har_size(None, 0), 0);
}

#[test]
fn body_classification() {
    let t = Body::text("hello");
    assert_eq!(t.encode, "utf8");
    assert_eq!(t.value, "hello");
    assert_eq!(t.size, 5);
    assert!(t.is_utf8());

    let b = Body::bytes(&[0xff, 0x00]);
    assert_eq!(b.encode, "base64");
    assert_eq!(b.value, "data:application/octet-stream;base64,/wA=");
    assert_eq!(b.size, 2);
    assert!(!b.is_utf8());

    let p = Body::path("/tmp/blob");
    assert_eq!(p.encode, "path");
    assert_eq!(p.size, 0);
}

#[test]
fn body_base64_padding() {
    let one = Body::bytes(&[0xc3, 0x28]);
    assert!(one.value.ends_with("wyg="));
    let three = Body::bytes(&[0xc3, 0x28, 0x00, 0x01]);
    assert!(three.value.ends_with("wygAAQ=="));
}

#[test]
fn body_read_cases() {
    assert!(Body::read(&None, &Some(b"hi".to_vec()), false).is_none());
    assert!(Body::read(&Some("p".into()), &None, false).is_none());
    assert!(Body::read(&Some("p".into()), &Some(Vec::new()), false).is_none());

    let text = Body::read(&Some("p".into()), &Some(b"hi".to_vec()), false).unwrap();
    assert_eq!(text.encode, "utf8");
    assert_eq!(text.value, "hi");

    let by_path = Body::read(&Some("p".into()), &Some(vec![0xff]), false).unwrap();
    assert_eq!(by_path.encode, "path");
    assert_eq!(by_path.value, "p");
    assert_eq!(by_path.size, 0);

    let inline = Body::read(&Some("p".into()), &Some(vec![0xff]), true).unwrap();
    assert_eq!(inline.encode, "base64");
    assert_eq!(inline.size, 1);
}
