use mini_http::request::{Body, Method, Request};

#[test]
fn test_parse_simple_get() {
    let raw = b"GET / HTTP/1.1\r\nHost: localhost:8080\r\n\r\n";
    let req = Request::parse(raw).unwrap();

    assert_eq!(req.method, Method::GET);
    assert_eq!(req.path, "/");
    assert_eq!(req.http_version, "HTTP/1.1");
    assert_eq!(req.header("host"), Some("localhost:8080"));
}

#[test]
fn test_parse_get_with_query_params() {
    let raw = b"GET /search?q=rust&page=2&tag=web&tag=http HTTP/1.1\r\n\r\n";
    let req = Request::parse(raw).unwrap();

    assert_eq!(req.path, "/search");
    assert_eq!(req.query_param("q"), Some("rust"));
    assert_eq!(req.query_param("page"), Some("2"));

    let tags = req.query_params("tag").unwrap();
    assert_eq!(tags.len(), 2);
    assert!(tags.contains(&"web".to_string()));
    assert!(tags.contains(&"http".to_string()));
}

#[test]
fn test_parse_post_with_json_body() {
    let body = r#"{"name":"Alice","age":30}"#;
    let raw = format!(
        "POST /api/users HTTP/1.1\r\nContent-Type: application/json\r\nContent-Length: {}\r\n\r\n{}",
        body.len(), body
    );
    let req = Request::parse(raw.as_bytes()).unwrap();

    assert_eq!(req.method, Method::POST);
    assert_eq!(req.path, "/api/users");

    match &req.body {
        Body::Json(v) => {
            assert_eq!(v["name"], "Alice");
            assert_eq!(v["age"], 30);
        }
        _ => panic!("Expected JSON body"),
    }
}

#[test]
fn test_parse_post_with_form_body() {
    let body = "username=alice&password=s3cret&remember=on";
    let raw = format!(
        "POST /login HTTP/1.1\r\nContent-Type: application/x-www-form-urlencoded\r\nContent-Length: {}\r\n\r\n{}",
        body.len(), body
    );
    let req = Request::parse(raw.as_bytes()).unwrap();

    assert_eq!(req.form_field("username"), Some("alice"));
    assert_eq!(req.form_field("password"), Some("s3cret"));
    assert_eq!(req.form_field("remember"), Some("on"));
}

#[test]
fn request_tests_test_parse_cookies() {
    let raw = b"GET / HTTP/1.1\r\nCookie: session_id=abc123; theme=dark; lang=en\r\n\r\n";
    let req = Request::parse(raw).unwrap();

    assert_eq!(req.cookie("session_id"), Some("abc123"));
    assert_eq!(req.cookie("theme"), Some("dark"));
    assert_eq!(req.cookie("lang"), Some("en"));
    assert_eq!(req.cookie("nonexistent"), None);
}

#[test]
fn test_parse_all_methods() {
    for (method_str, expected) in [
        ("GET", Method::GET),
        ("POST", Method::POST),
        ("PUT", Method::PUT),
        ("DELETE", Method::DELETE),
        ("PATCH", Method::PATCH),
        ("HEAD", Method::HEAD),
        ("OPTIONS", Method::OPTIONS),
    ] {
        let raw = format!("{} /test HTTP/1.1\r\n\r\n", method_str);
        let req = Request::parse(raw.as_bytes()).unwrap();
        assert_eq!(req.method, expected, "Failed for {}", method_str);
    }
}

#[test]
fn test_content_type_detection() {
    let raw = b"GET / HTTP/1.1\r\nContent-Type: application/json\r\n\r\n";
    let req = Request::parse(raw).unwrap();
    assert_eq!(req.content_type(), Some("application/json"));
}

#[test]
fn test_accepts_header() {
    let raw = b"GET / HTTP/1.1\r\nAccept: text/html, application/json\r\n\r\n";
    let req = Request::parse(raw).unwrap();

    assert!(req.accepts("text/html"));
    assert!(req.accepts("application/json"));
    assert!(!req.accepts("text/xml"));
}

#[test]
fn test_websocket_upgrade_detection() {
    let raw = b"GET /ws HTTP/1.1\r\nUpgrade: websocket\r\nConnection: Upgrade\r\nSec-WebSocket-Key: dGhlIHNhbXBsZSBub25jZQ==\r\n\r\n";
    let req = Request::parse(raw).unwrap();
    assert!(req.is_websocket_upgrade());

    let raw = b"GET / HTTP/1.1\r\n\r\n";
    let req = Request::parse(raw).unwrap();
    assert!(!req.is_websocket_upgrade());
}

#[test]
fn test_url_encoded_query_params() {
    let raw = b"GET /search?q=hello%20world&tag=rust%26web HTTP/1.1\r\n\r\n";
    let req = Request::parse(raw).unwrap();

    assert_eq!(req.query_param("q"), Some("hello world"));
    assert_eq!(req.query_param("tag"), Some("rust&web"));
}

#[test]
fn test_empty_body() {
    let raw = b"GET / HTTP/1.1\r\n\r\n";
    let req = Request::parse(raw).unwrap();
    assert!(matches!(req.body, Body::Empty));
}

// Tests that sat beside the request implementation.

#[test]
fn test_parse_get_request() {
    let raw = b"GET /hello?name=world HTTP/1.1\r\nHost: localhost\r\n\r\n";
    let req = Request::parse(raw).unwrap();
    assert_eq!(req.method, Method::GET);
    assert_eq!(req.path, "/hello");
    assert_eq!(req.query_param("name"), Some("world"));
    assert_eq!(req.http_version, "HTTP/1.1");
}

#[test]
fn test_parse_post_json() {
    let body = r#"{"name":"test"}"#;
    let raw = format!(
        "POST /api/users HTTP/1.1\r\nContent-Type: application/json\r\nContent-Length: {}\r\n\r\n{}",
        body.len(),
        body
    );
    let req = Request::parse(raw.as_bytes()).unwrap();
    assert_eq!(req.method, Method::POST);
    assert_eq!(req.path, "/api/users");
    match &req.body {
        Body::Json(v) => assert_eq!(v["name"], "test"),
        _ => panic!("Expected JSON body"),
    }
}

#[test]
fn test_parse_form_body() {
    let body = "username=john&password=secret";
    let raw = format!(
        "POST /login HTTP/1.1\r\nContent-Type: application/x-www-form-urlencoded\r\nContent-Length: {}\r\n\r\n{}",
        body.len(),
        body
    );
    let req = Request::parse(raw.as_bytes()).unwrap();
    assert_eq!(req.form_field("username"), Some("john"));
    assert_eq!(req.form_field("password"), Some("secret"));
}

#[test]
fn request_test_parse_cookies() {
    let raw = b"GET / HTTP/1.1\r\nCookie: session=abc123; theme=dark\r\n\r\n";
    let req = Request::parse(raw).unwrap();
    assert_eq!(req.cookie("session"), Some("abc123"));
    assert_eq!(req.cookie("theme"), Some("dark"));
}

#[test]
fn test_parse_url_with_multiple_query_params() {
    let raw = b"GET /search?tag=rust&tag=web&page=1 HTTP/1.1\r\n\r\n";
    let req = Request::parse(raw).unwrap();
    assert_eq!(req.path, "/search");
    let tags = req.query_params("tag").unwrap();
    assert_eq!(tags.len(), 2);
    assert_eq!(req.query_param("page"), Some("1"));
}

#[test]
fn test_method_display() {
    assert_eq!(Method::GET.to_string(), "GET");
    assert_eq!(Method::POST.to_string(), "POST");
    assert_eq!(Method::DELETE.to_string(), "DELETE");
}

// Further cases.

#[test]
fn incomplete_request_is_a_parse_error() {
    let err = Request::parse(b"GET / HTTP/1.1\r\nHost: x\r\n").unwrap_err();
    assert_eq!(err.status_code(), 400);
    assert_eq!(err.to_string(), "Parse error: Incomplete HTTP request");
}

#[test]
fn malformed_request_is_a_parse_error() {
    let err = Request::parse(b"GET / HTTP/9.9\r\n\r\n").unwrap_err();
    assert_eq!(err.status_code(), 400);
    assert!(err.to_string().starts_with("Parse error: "));
}

#[test]
fn method_names_any_case_and_unknown() {
    assert_eq!(Method::from_str("post"), Method::POST);
    assert_eq!(Method::from_str("Trace"), Method::TRACE);
    assert_eq!(Method::from_str("BREW"), Method::GET);
    assert_eq!(Method::CONNECT.as_str(), "CONNECT");
}

#[test]
fn body_is_cut_at_content_length() {
    let raw = b"POST /x HTTP/1.0\r\nContent-Type: text/plain\r\nContent-Length: 3\r\n\r\nabcdef";
    let req = Request::parse(raw).unwrap();
    assert_eq!(req.http_version, "HTTP/1.0");
    assert_eq!(req.raw_body, b"abc");
    assert_eq!(req.text(), "abc");
    assert!(matches!(req.body, Body::Text(ref t) if t == "abc"));
}

#[test]
fn body_without_content_length_is_ignored() {
    let raw = b"POST /x HTTP/1.1\r\nContent-Type: text/plain\r\n\r\nabc";
    let req = Request::parse(raw).unwrap();
    assert!(req.raw_body.is_empty());
    assert!(matches!(req.body, Body::Empty));
}

#[test]
fn bad_json_body_becomes_text_and_unknown_type_binary() {
    let raw = b"POST /x HTTP/1.1\r\nContent-Type: application/json\r\nContent-Length: 4\r\n\r\n{oops";
    let req = Request::parse(raw).unwrap();
    assert!(matches!(req.body, Body::Text(ref t) if t == "{oop"));

    let raw = b"POST /x HTTP/1.1\r\nContent-Type: image/png\r\nContent-Length: 2\r\n\r\n\x01\x02";
    let req = Request::parse(raw).unwrap();
    assert!(matches!(req.body, Body::Binary(ref b) if b == &vec![1u8, 2u8]));
}

#[test]
fn multipart_body_fields() {
    let body = "--XyZ\r\nContent-Disposition: form-data; name=\"title\"\r\n\r\nHello\r\n--XyZ\r\nContent-Disposition: form-data; name=\"file\"; filename=\"a.txt\"\r\nContent-Type: text/plain\r\n\r\nfile data\r\n--XyZ--\r\n";
    let raw = format!(
        "POST /up HTTP/1.1\r\nContent-Type: multipart/form-data; boundary=\"XyZ\"\r\nContent-Length: {}\r\n\r\n{}",
        body.len(),
        body
    );
    let req = Request::parse(raw.as_bytes()).unwrap();
    let fields = req.multipart_fields().unwrap();
    assert_eq!(fields.len(), 2);
    assert_eq!(fields[0].name, "title");
    assert_eq!(fields[0].data, b"Hello");
    assert_eq!(fields[0].filename, None);
    let f = req.multipart_field("file").unwrap();
    assert_eq!(f.filename.as_deref(), Some("a.txt"));
    assert_eq!(f.content_type.as_deref(), Some("text/plain"));
    assert_eq!(f.data, b"file data");
    assert!(req.multipart_field("nope").is_none());
}

#[test]
fn multipart_without_boundary_is_binary() {
    let raw = b"POST /up HTTP/1.1\r\nContent-Type: multipart/form-data\r\nContent-Length: 2\r\n\r\nab";
    let req = Request::parse(raw).unwrap();
    assert!(matches!(req.body, Body::Binary(_)));
}

#[test]
fn query_edge_cases() {
    let raw = b"GET /p?a&&b=1=2&%zz=%41 HTTP/1.1\r\n\r\n";
    let req = Request::parse(raw).unwrap();
    assert_eq!(req.uri, "/p?a&&b=1=2&%zz=%41");
    assert_eq!(req.query_param("a"), Some(""));
    assert_eq!(req.query_param("b"), Some("1=2"));
    assert_eq!(req.query_param("%zz"), Some("A"));
}

#[test]
fn header_names_are_case_insensitive_and_last_wins() {
    let raw = b"GET / HTTP/1.1\r\nX-Thing: one\r\nx-thing: two\r\n\r\n";
    let req = Request::parse(raw).unwrap();
    assert_eq!(req.header("X-THING"), Some("two"));
    assert_eq!(req.headers.len(), 1);
}

#[test]
fn request_to_string() {
    let req = Request::parse(b"DELETE /a/b?x=1 HTTP/1.1\r\n\r\n").unwrap();
    assert_eq!(req.to_string(), "DELETE /a/b HTTP/1.1");
}

#[test]
fn test_extensions() {
    let mut req = Request::parse(b"GET / HTTP/1.1\r\n\r\n").unwrap();

    req.set_extension("user_id", 42u64);
    assert_eq!(req.get_extension::<u64>("user_id"), Some(&42));

    req.set_extension("name", "Alice".to_string());
    assert_eq!(
        req.get_extension::<String>("name"),
        Some(&"Alice".to_string())
    );
}

#[test]
fn extension_mut_and_state() {
    let mut req = Request::parse(b"GET / HTTP/1.1\r\n\r\n").unwrap();
    assert!(req.app_state().is_none());
    req.set_extension("hits", 1u32);
    if let Some(h) = req.get_extension_mut::<u32>("hits") {
        *h += 1;
    }
    assert_eq!(req.get_extension::<u32>("hits"), Some(&2));
    assert_eq!(req.get_extension::<u64>("hits"), None);
    req.state = Some(mini_http::context::new_shared_state());
    assert!(req.app_state().is_some());
}

#[test]
fn method_names_parse_back() {
    for m in [
        Method::GET,
        Method::POST,
        Method::PUT,
        Method::DELETE,
        Method::PATCH,
        Method::HEAD,
        Method::OPTIONS,
        Method::CONNECT,
        Method::TRACE,
    ] {
        assert_eq!(Method::from_str(m.as_str()), m);
    }
}
