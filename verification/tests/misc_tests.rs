use mini_http::cookie::{CookieBuilder, SameSite};
use mini_http::error::Error;
use mini_http::strmap::StrMap;
use mini_http::template::TemplateEngine;
use mini_http::url::{parse_cookie_header, parse_form, parse_url};

#[test]
fn template_render_and_errors() {
    let mut engine = TemplateEngine::from_tera(tera::Tera::default());
    engine.add_template("hello", "Hello, {{ name }}!").unwrap();
    let mut data = StrMap::new();
    data.insert("name".to_string(), "World".to_string());
    assert_eq!(engine.render("hello", &data).unwrap(), "Hello, World!");
    match engine.render("missing", &data) {
        Err(Error::Template(m)) => assert!(m.starts_with("Render error: ")),
        _ => panic!("expected a template error"),
    }
    match engine.add_template("bad", "{% if %}") {
        Err(Error::Template(m)) => assert!(m.starts_with("Failed to add template: ")),
        _ => panic!("expected a template error"),
    }
}

#[test]
fn template_load_error_is_labelled() {
    match TemplateEngine::load_error("no such glob".to_string()) {
        Error::Template(m) => assert_eq!(m, "Failed to load templates: no such glob"),
        _ => panic!("expected a template error"),
    }
}

#[test]
fn error_codes_and_texts() {
    let cases: Vec<(Error, u16, &str, &str)> = vec![
        (Error::Parse("x".to_string()), 400, "Bad Request", "Parse error: x"),
        (Error::NotFound("/a".to_string()), 404, "Not Found", "Not found: /a"),
        (Error::MethodNotAllowed("POST".to_string()), 405, "Method Not Allowed", "Method not allowed: POST"),
        (Error::PayloadTooLarge, 413, "Payload Too Large", "Payload too large"),
        (Error::Timeout, 408, "Request Timeout", "Request timeout"),
        (Error::Internal("boom".to_string()), 500, "Internal Server Error", "Internal error: boom"),
        (Error::BadRequest("b".to_string()), 400, "Bad Request", "Bad request: b"),
        (Error::Tls("t".to_string()), 500, "Internal Server Error", "TLS error: t"),
        (Error::Template("p".to_string()), 500, "Internal Server Error", "Template error: p"),
        (Error::WebSocket("w".to_string()), 500, "Internal Server Error", "WebSocket error: w"),
    ];
    for (e, code, reason, text) in cases {
        assert_eq!(e.status_code(), code);
        assert_eq!(e.status_text(), reason);
        assert_eq!(e.to_string(), text);
    }
}

#[test]
fn same_site_none_renders_as_none() {
    let c = CookieBuilder::new("a", "b").same_site(SameSite::NoRestriction).secure().build();
    assert_eq!(c, "a=b; Secure; SameSite=None");
    let c = CookieBuilder::new("a", "b").expires("Wed, 21 Oct 2026 07:28:00 GMT").max_age(-1).build();
    assert_eq!(c, "a=b; Max-Age=-1; Expires=Wed, 21 Oct 2026 07:28:00 GMT");
}

#[test]
fn url_helpers() {
    let (path, query) = parse_url("/a%20b?x=1&x=2&y=%C3%A9");
    assert_eq!(path, "/a%20b");
    assert_eq!(query.get("x").unwrap(), &vec!["1".to_string(), "2".to_string()]);
    assert_eq!(query.first("y").unwrap(), "\u{e9}");
    let form = parse_form("a=1+2&b=%41&c");
    assert_eq!(form.get("a").unwrap(), "1+2");
    assert_eq!(form.get("b").unwrap(), "A");
    assert!(form.get("c").is_none());
    let cookies = parse_cookie_header("a=1; b = 2;c=x=y; bad");
    assert_eq!(cookies.get("a").unwrap(), "1");
    assert_eq!(cookies.get("b").unwrap(), "2");
    assert_eq!(cookies.get("c").unwrap(), "x=y");
    assert!(cookies.get("bad").is_none());
}

