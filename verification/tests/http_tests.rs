use edl::net::http::{
    extract_filename, metadata_from_response, parse_content_disposition, parse_headers, HeaderError,
};

#[test]
fn test_parse_content_disposition() {
    assert_eq!(
        parse_content_disposition("attachment; filename=\"test.zip\""),
        Some("test.zip".to_string())
    );
    assert_eq!(
        parse_content_disposition("attachment; filename*=UTF-8''%E6%B5%8B%E8%AF%95.zip"),
        Some("测试.zip".to_string())
    );
}

#[test]
fn test_parse_content_disposition_no_filename() {
    assert_eq!(parse_content_disposition("inline"), None);
}

#[test]
fn test_parse_content_disposition_unquoted() {
    assert_eq!(
        parse_content_disposition("attachment; filename=test.zip"),
        Some("test.zip".to_string())
    );
}

#[test]
fn test_parse_headers_basic() {
    let headers = vec![
        "Authorization: Bearer token123".to_string(),
        "Accept: application/json".to_string(),
    ];
    let map = parse_headers(&headers, None).unwrap();
    assert_eq!(map.get("authorization").unwrap(), "Bearer token123");
    assert_eq!(map.get("accept").unwrap(), "application/json");
}

#[test]
fn test_parse_headers_with_cookie() {
    let headers: Vec<String> = vec![];
    let map = parse_headers(&headers, Some("sid=abc; token=xyz")).unwrap();
    assert_eq!(map.get("cookie").unwrap(), "sid=abc; token=xyz");
}

#[test]
fn test_parse_headers_cookie_and_custom() {
    let headers = vec!["X-Custom: value".to_string()];
    let map = parse_headers(&headers, Some("session=123")).unwrap();
    assert_eq!(map.get("x-custom").unwrap(), "value");
    assert_eq!(map.get("cookie").unwrap(), "session=123");
}

#[test]
fn test_parse_headers_invalid_format() {
    let headers = vec!["no-colon-here".to_string()];
    assert!(parse_headers(&headers, None).is_err());
}

#[test]
fn test_parse_headers_empty() {
    let map = parse_headers(&[], None).unwrap();
    assert!(map.is_empty());
}

#[test]
fn cookie_argument_replaces_cookie_header() {
    let headers = vec!["Cookie: old=1".to_string(), "X-A: b".to_string()];
    let map = parse_headers(&headers, Some("new=2")).unwrap();
    assert_eq!(map.get("cookie").unwrap(), "new=2");
    assert_eq!(map.len(), 2);
}

#[test]
fn header_errors() {
    assert!(matches!(parse_headers(&["no-colon-here".to_string()], None), Err(HeaderError::InvalidFormat(_))));
    assert!(matches!(parse_headers(&["Bad Name: x".to_string()], None), Err(HeaderError::InvalidName(_))));
    assert!(matches!(parse_headers(&["X-A: a\nb".to_string()], None), Err(HeaderError::InvalidValue(_))));
    assert!(matches!(parse_headers(&[], Some("a\nb")), Err(HeaderError::InvalidCookie)));
}

#[test]
fn header_names_and_values_are_trimmed() {
    let map = parse_headers(&["  Referer :  https://example.com  ".to_string()], None).unwrap();
    assert_eq!(map.get("referer").unwrap(), "https://example.com");
}

#[test]
fn filename_falls_back_to_url() {
    assert_eq!(extract_filename(None, "https://example.com/dir/file%20name.zip?x=1"), Some("file name.zip".to_string()));
    assert_eq!(extract_filename(Some("attachment; filename=\"a.bin\""), "https://e.com/b.bin"), Some("a.bin".to_string()));
    assert_eq!(extract_filename(None, "https://example.com/"), None);
}

#[test]
fn metadata_from_head_response() {
    let m = metadata_from_response(
        "http://a/x",
        "http://b/y.iso",
        Some("4096"),
        Some("bytes"),
        None,
        Some("\"abc\""),
    );
    assert_eq!(m.content_length, Some(4096));
    assert!(m.supports_range);
    assert_eq!(m.filename.as_deref(), Some("y.iso"));
    assert_eq!(m.etag.as_deref(), Some("\"abc\""));
    assert_eq!(m.final_url.as_deref(), Some("http://b/y.iso"));
    let same = metadata_from_response("http://a/x", "http://a/x", Some("x"), Some("none"), None, None);
    assert_eq!(same.content_length, None);
    assert!(!same.supports_range);
    assert_eq!(same.final_url, None);
}

#[test]
fn task_headers_only_when_given() {
    assert!(edl::net::http::task_headers(&[], None).is_none());
    let l = edl::net::http::task_headers(&["X-A: 1".to_string()], Some("c=1")).unwrap();
    assert_eq!(l.len(), 2);
    let bad = edl::net::http::task_headers(&["broken".to_string()], None).unwrap();
    assert!(bad.is_empty());
}

#[test]
fn header_names_follow_the_http_crate() {
    let long_ok = "x".repeat(65535);
    assert!(parse_headers(&[format!("{}: v", long_ok)], None).is_ok());
    let too_long = "x".repeat(65536);
    assert!(matches!(parse_headers(&[format!("{}: v", too_long)], None), Err(HeaderError::InvalidName(_))));
    let map = parse_headers(&["CONTENT-TYPE: text/plain".to_string(), "X-Ünïcode: v".to_string()], None);
    assert!(matches!(map, Err(HeaderError::InvalidName(_))));
    let map = parse_headers(&["CONTENT-TYPE: tëxt".to_string()], None).unwrap();
    assert_eq!(map.get("content-type").unwrap(), "tëxt");
}
