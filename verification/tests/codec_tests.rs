use apibot::codec::{clone_bytes, headers_to_string, string_to_headers};
use apibot::command::{parse_http_version, parse_resource_type, ResourceType};
use apibot::db::{db_name, path_to_db};
use apibot::http::{from_http_version, is_valid_method, normalize_url, Version};
use apibot::model::make_request;
use apibot::ApibotError;

fn bytes(s: &str) -> Vec<u8> {
    s.as_bytes().to_vec()
}

#[test]
fn version_tags_encode_exactly() {
    assert_eq!(from_http_version(Version::Http09), "0.9");
    assert_eq!(from_http_version(Version::Http10), "1.0");
    assert_eq!(from_http_version(Version::Http11), "1.1");
    assert_eq!(from_http_version(Version::Http2), "2.0");
    assert_eq!(from_http_version(Version::Http3), "3.0");
}

#[test]
fn version_tags_decode_back() {
    assert_eq!(parse_http_version("0.9"), Ok(Version::Http09));
    assert_eq!(parse_http_version("1.0"), Ok(Version::Http10));
    assert_eq!(parse_http_version("1.1"), Ok(Version::Http11));
    assert_eq!(parse_http_version("2.0"), Ok(Version::Http2));
    assert_eq!(parse_http_version("3.0"), Ok(Version::Http3));
}

#[test]
fn version_outside_closed_set_is_rejected() {
    for s in ["", "1.2", "2", "HTTP/1.1", "1.1 ", "0.9.0", "3"] {
        assert_eq!(parse_http_version(s), Err(ApibotError::UnknownProtocolVersion));
    }
}

#[test]
fn header_blob_is_canonical_json_object() {
    let hs = vec![(bytes("a"), bytes("b"))];
    assert_eq!(headers_to_string(&hs), bytes("{\"a\":\"b\"}"));
    let empty: Vec<(Vec<u8>, Vec<u8>)> = Vec::new();
    assert_eq!(headers_to_string(&empty), bytes("{}"));
}

#[test]
fn header_blob_escapes_quotes_backslashes_and_controls() {
    let hs = vec![(bytes("k"), bytes("a\"b\\c\nd"))];
    let blob = headers_to_string(&hs);
    assert_eq!(blob, bytes("{\"k\":\"a\\\"b\\\\c\\u000ad\"}"));
    let back = string_to_headers(&blob).unwrap();
    assert_eq!(back, hs);
}

#[test]
fn header_round_trip_many_pairs() {
    let hs = vec![
        (bytes("content-type"), bytes("application/json")),
        (bytes("x-empty"), bytes("")),
        (bytes("x-odd"), bytes("sp ace\ttab")),
    ];
    let blob = headers_to_string(&hs);
    assert_eq!(string_to_headers(&blob).unwrap(), hs);
}

#[test]
fn malformed_header_blobs_are_rejected() {
    for s in [
        "", "{", "}", "[]", "null", "{\"a\":1}", "{\"a\":\"b\",}", "{\"a\"}", "{a:\"b\"}",
        "{\"a\":\"b\"} ", "{\"a\":\"\\x\"}",
    ] {
        assert_eq!(
            string_to_headers(&bytes(s)),
            Err(ApibotError::MalformedHeaderRecord),
            "accepted: {:?}",
            s
        );
    }
}

#[test]
fn method_tokens() {
    assert!(is_valid_method("GET"));
    assert!(is_valid_method("PATCH"));
    assert!(is_valid_method("custom-verb"));
    assert!(!is_valid_method(""));
    assert!(!is_valid_method("GE T"));
    assert!(!is_valid_method("GET/1"));
}

#[test]
fn urls_gain_http_prefix_when_bare() {
    assert_eq!(normalize_url(String::from("example.com/x")), "http://example.com/x");
    assert_eq!(normalize_url(String::from("http://a.b")), "http://a.b");
    assert_eq!(normalize_url(String::from("https://a.b")), "https://a.b");
}

#[test]
fn make_request_collapses_headers_last_write_wins() {
    let headers = vec![
        (bytes("x-a"), bytes("1")),
        (bytes("x-b"), bytes("2")),
        (bytes("x-a"), bytes("3")),
    ];
    let q = make_request(
        String::from("http://h"),
        String::from("GET"),
        headers,
        Version::Http11,
        None,
    )
    .unwrap();
    assert_eq!(q.headers, vec![(bytes("x-a"), bytes("3")), (bytes("x-b"), bytes("2"))]);
}

#[test]
fn make_request_rejects_invalid_method() {
    let r = make_request(
        String::from("http://h"),
        String::from("GE T"),
        Vec::new(),
        Version::Http11,
        None,
    );
    assert_eq!(r.err(), Some(ApibotError::InvalidMethod));
}

#[test]
fn empty_body_becomes_empty_bytes() {
    let q = make_request(
        String::from("http://h"),
        String::from("GET"),
        Vec::new(),
        Version::Http11,
        None,
    )
    .unwrap();
    assert_eq!(q.body, Vec::<u8>::new());
}

#[test]
fn resource_type_words() {
    assert_eq!(parse_resource_type("req"), Some(ResourceType::Request));
    assert_eq!(parse_resource_type("request"), Some(ResourceType::Request));
    assert_eq!(parse_resource_type("resp"), Some(ResourceType::Response));
    assert_eq!(parse_resource_type("response"), Some(ResourceType::Response));
    assert_eq!(parse_resource_type("script"), Some(ResourceType::Script));
    assert_eq!(parse_resource_type("requests"), None);
    assert_eq!(parse_resource_type(""), None);
}

#[test]
fn db_path_parts() {
    assert_eq!(db_name(), "apibot_db");
    assert_eq!(path_to_db("/home/u"), "/home/u/.apibot/apibot_db");
}

#[test]
fn clone_bytes_copies() {
    let v = vec![97u8, 0, 255, 10, 98];
    assert_eq!(clone_bytes(&v), v);
}
