use mini_http::cookie::{CookieBuilder, SameSite};
use mini_http::response::{status_text, Response};

#[test]
fn response_tests_test_text_response() {
    let mut res = Response::new();
    res.send("Hello, World!");

    assert_eq!(res.status_code, 200);
    assert_eq!(res.body, b"Hello, World!");
    assert!(res
        .headers
        .get("content-type")
        .unwrap()
        .contains("text/plain"));
    assert!(res.sent);
}

#[test]
fn response_tests_test_html_response() {
    let mut res = Response::new();
    res.html("<h1>Hello</h1>");

    assert!(res
        .headers
        .get("content-type")
        .unwrap()
        .contains("text/html"));
    assert_eq!(res.body, b"<h1>Hello</h1>");
}

#[test]
fn test_status_code_chaining() {
    let mut res = Response::new();
    res.status(201).send("Created");

    assert_eq!(res.status_code, 201);
    assert_eq!(res.body, b"Created");
}

#[test]
fn test_custom_headers() {
    let mut res = Response::new();
    res.header("X-Custom", "value123")
        .header("X-Another", "abc")
        .send("OK");

    assert_eq!(res.headers.get("X-Custom").unwrap(), "value123");
    assert_eq!(res.headers.get("X-Another").unwrap(), "abc");
}

#[test]
fn response_tests_test_redirect() {
    let mut res = Response::new();
    res.redirect("/new-location");

    assert_eq!(res.status_code, 302);
    assert_eq!(res.headers.get("location").unwrap(), "/new-location");
}

#[test]
fn test_permanent_redirect() {
    let mut res = Response::new();
    res.status(301).redirect("/permanent");

    assert_eq!(res.status_code, 301);
    assert_eq!(res.headers.get("location").unwrap(), "/permanent");
}

#[test]
fn test_send_status_only() {
    let mut res = Response::new();
    res.send_status(204);

    assert_eq!(res.status_code, 204);
    assert!(res.body.is_empty());
}

#[test]
fn test_set_cookie() {
    let mut res = Response::new();
    res.set_cookie(CookieBuilder::new("session", "abc123").path("/").http_only());

    assert_eq!(res.set_cookies.len(), 1);
    let cookie = &res.set_cookies[0];
    assert!(cookie.contains("session=abc123"));
    assert!(cookie.contains("Path=/"));
    assert!(cookie.contains("HttpOnly"));
}

#[test]
fn test_remove_cookie() {
    let mut res = Response::new();
    res.remove_cookie("session");

    assert_eq!(res.set_cookies.len(), 1);
    let cookie = &res.set_cookies[0];
    assert!(cookie.contains("session="));
    assert!(cookie.contains("Max-Age=0"));
}

#[test]
fn test_to_bytes_format() {
    let mut res = Response::new();
    res.status(200).send("OK");

    let bytes = res.to_bytes();
    let text = String::from_utf8_lossy(&bytes);

    assert!(text.starts_with("HTTP/1.1 200 OK\r\n"));
    assert!(text.contains("Content-Length: 2\r\n"));
    assert!(text.contains("\r\n\r\nOK"));
}

#[test]
fn test_cookie_builder() {
    let cookie = CookieBuilder::new("token", "xyz")
        .path("/api")
        .domain("example.com")
        .max_age(3600)
        .secure()
        .http_only()
        .same_site(SameSite::Strict)
        .build();

    assert!(cookie.contains("token=xyz"));
    assert!(cookie.contains("Path=/api"));
    assert!(cookie.contains("Domain=example.com"));
    assert!(cookie.contains("Max-Age=3600"));
    assert!(cookie.contains("Secure"));
    assert!(cookie.contains("HttpOnly"));
    assert!(cookie.contains("SameSite=Strict"));
}

#[test]
fn test_to_bytes_includes_cookies() {
    let mut res = Response::new();
    res.set_cookie(CookieBuilder::new("a", "1"));
    res.set_cookie(CookieBuilder::new("b", "2"));
    res.send("OK");

    let bytes = res.to_bytes();
    let text = String::from_utf8_lossy(&bytes);

    assert!(text.contains("Set-Cookie: a=1\r\n"));
    assert!(text.contains("Set-Cookie: b=2\r\n"));
}

// Tests that sat beside the response implementation.

#[test]
fn response_test_text_response() {
    let mut res = Response::new();
    res.send("Hello");
    assert_eq!(res.status_code, 200);
    assert_eq!(res.body, b"Hello");
    assert!(res.headers.get("content-type").unwrap().contains("text/plain"));
}

#[test]
fn response_test_html_response() {
    let mut res = Response::new();
    res.html("<h1>Hello</h1>");
    assert!(res.headers.get("content-type").unwrap().contains("text/html"));
}

#[test]
fn response_test_redirect() {
    let mut res = Response::new();
    res.redirect("/login");
    assert_eq!(res.status_code, 302);
    assert_eq!(res.headers.get("location").unwrap(), "/login");
}

#[test]
fn test_status_chain() {
    let mut res = Response::new();
    res.status(201).send("Created");
    assert_eq!(res.status_code, 201);
}

#[test]
fn test_to_bytes() {
    let mut res = Response::new();
    res.send("OK");
    let bytes = res.to_bytes();
    let response_str = String::from_utf8_lossy(&bytes);
    assert!(response_str.starts_with("HTTP/1.1 200 OK\r\n"));
    assert!(response_str.contains("Content-Length: 2"));
    assert!(response_str.ends_with("OK"));
}

// Further cases.

#[test]
fn to_bytes_exact_wire_format() {
    let mut res = Response::new();
    res.status(404).header("X-A", "1").send("nope");
    let bytes = res.to_bytes();
    assert_eq!(
        String::from_utf8(bytes).unwrap(),
        "HTTP/1.1 404 Not Found\r\nX-A: 1\r\ncontent-type: text/plain; charset=utf-8\r\nContent-Length: 4\r\n\r\nnope"
    );
}

#[test]
fn to_bytes_keeps_explicit_content_length() {
    let mut res = Response::new();
    res.header("content-length", "10");
    res.send_status(200);
    let text = String::from_utf8(res.to_bytes()).unwrap();
    assert_eq!(text, "HTTP/1.1 200 OK\r\ncontent-length: 10\r\n\r\n");
}

#[test]
fn to_bytes_content_length_is_case_insensitive() {
    let mut res = Response::new();
    res.header("Content-LENGTH", "3");
    res.send_bytes(vec![1, 2, 3]);
    let text = String::from_utf8_lossy(&res.to_bytes()).to_string();
    assert!(!text.contains("Content-Length: 3"));
    assert!(text.contains("Content-LENGTH: 3"));
}

#[test]
fn send_keeps_existing_content_type() {
    let mut res = Response::new();
    res.header("content-type", "text/csv");
    res.send("a,b");
    assert_eq!(res.headers.get("content-type").unwrap(), "text/csv");
}

#[test]
fn send_bytes_defaults_to_octet_stream() {
    let mut res = Response::new();
    res.send_bytes(vec![0, 255]);
    assert_eq!(res.headers.get("content-type").unwrap(), "application/octet-stream");
    assert_eq!(res.body, vec![0, 255]);
}

#[test]
fn header_replaces_value() {
    let mut res = Response::new();
    res.header("X", "1").header("X", "2");
    assert_eq!(res.headers.get("X").unwrap(), "2");
    assert_eq!(res.headers.len(), 1);
}

#[test]
fn redirect_keeps_non_200_status() {
    let mut res = Response::new();
    res.status(307).redirect("/t");
    assert_eq!(res.status_code, 307);
    assert!(res.body.is_empty());
}

#[test]
fn json_bytes_ok_and_error() {
    let mut res = Response::new();
    res.json_bytes(Ok(b"{\"ok\":true}".to_vec()));
    assert_eq!(res.status_code, 200);
    assert_eq!(res.headers.get("content-type").unwrap(), "application/json; charset=utf-8");
    assert_eq!(res.body, b"{\"ok\":true}");

    let mut res = Response::new();
    res.json_bytes(Err("boom".to_string()));
    assert_eq!(res.status_code, 500);
    assert_eq!(res.body, b"{\"error\":\"JSON serialization failed: boom\"}");
}

#[test]
fn send_file_contents_guesses_type() {
    let mut res = Response::new();
    res.send_file_contents("site/index.html", Some(b"<p>".to_vec()));
    assert_eq!(res.headers.get("content-type").unwrap(), "text/html");
    assert_eq!(res.body, b"<p>");

    let mut res = Response::new();
    res.send_file_contents("missing.txt", None);
    assert_eq!(res.status_code, 404);
    assert_eq!(res.headers.get("content-type").unwrap(), "text/plain");
    assert_eq!(res.body, b"File not found");
}

#[test]
fn status_text_table() {
    assert_eq!(status_text(200), "OK");
    assert_eq!(status_text(404), "Not Found");
    assert_eq!(status_text(429), "Too Many Requests");
    assert_eq!(status_text(504), "Gateway Timeout");
    assert_eq!(status_text(999), "Unknown");
}

#[test]
fn cookie_all_attributes_in_order() {
    let cookie = CookieBuilder::new("id", "7")
        .same_site(SameSite::NoRestriction)
        .http_only()
        .secure()
        .expires("Wed, 21 Oct 2015 07:28:00 GMT")
        .max_age(-5)
        .domain("d.org")
        .path("/p")
        .build();
    assert_eq!(
        cookie,
        "id=7; Path=/p; Domain=d.org; Max-Age=-5; Expires=Wed, 21 Oct 2015 07:28:00 GMT; Secure; HttpOnly; SameSite=None"
    );
}

#[test]
fn cookie_removal_text() {
    assert_eq!(CookieBuilder::removal("s").build(), "s=; Path=/; Max-Age=0");
    assert_eq!(CookieBuilder::new("a", "b").same_site(SameSite::Lax).build(), "a=b; SameSite=Lax");
}
