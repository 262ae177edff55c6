use flate2::read::GzDecoder;
use mini_http::error::Error;
use mini_http::middleware::{
    contained, CompressionMiddleware, Cors, DefaultErrorHandler, LogFormat, Logger, RateLimiter,
    StaticFiles,
};
use mini_http::request::{PeerAddr, Request};
use mini_http::response::Response;
use std::io::Read;
use std::time::Duration;

fn parse(raw: &str) -> Request {
    Request::parse(raw.as_bytes()).unwrap()
}

#[test]
fn cors_adds_headers_and_answers_preflight() {
    let cors = Cors::permissive();
    let req = parse("GET / HTTP/1.1\r\nOrigin: http://a.example\r\n\r\n");
    let mut res = Response::new();
    assert!(cors.before(&req, &mut res));
    assert_eq!(res.headers.get("Access-Control-Allow-Origin").unwrap(), "*");
    assert_eq!(res.headers.get("Access-Control-Max-Age").unwrap(), "86400");

    let req = parse("OPTIONS /x HTTP/1.1\r\n\r\n");
    let mut res = Response::new();
    assert!(!cors.before(&req, &mut res));
    assert_eq!(res.status_code, 204);
    assert!(res.body.is_empty());
    assert!(res.sent);
}

#[test]
fn cors_grants_no_origin_by_default() {
    let cors = Cors::new().allow_credentials(true).expose_headers("X-Total");
    let req = parse("GET / HTTP/1.1\r\nOrigin: https://evil.example\r\n\r\n");
    let mut res = Response::new();
    assert!(cors.before(&req, &mut res));
    assert!(res.headers.get("Access-Control-Allow-Origin").is_none());
    assert_eq!(res.headers.get("Access-Control-Allow-Credentials").unwrap(), "true");
    assert_eq!(res.headers.get("Access-Control-Expose-Headers").unwrap(), "X-Total");
    assert_eq!(res.headers.get("Access-Control-Allow-Methods").unwrap(), "GET, HEAD, OPTIONS");
    assert!(res.headers.get("Access-Control-Max-Age").is_none());
    let cors = Cors::new().allow_origin("https://b.example").allow_methods("GET").allow_headers("X").max_age(60);
    let mut res = Response::new();
    assert!(cors.before(&req, &mut res));
    assert_eq!(res.headers.get("Access-Control-Allow-Origin").unwrap(), "https://b.example");
    assert_eq!(res.headers.get("Access-Control-Max-Age").unwrap(), "60");
}

#[test]
fn rate_limiter_counts_per_client_and_window() {
    let mut rl = RateLimiter::new(2, Duration::from_secs(60));
    let mut req = parse("GET / HTTP/1.1\r\n\r\n");
    req.remote_addr = Some(PeerAddr { ip: "10.0.0.1".to_string(), port: 5000 });
    let mut res = Response::new();
    assert!(rl.before(&req, &mut res, 0));
    assert_eq!(res.headers.get("X-RateLimit-Limit").unwrap(), "2");
    assert_eq!(res.headers.get("X-RateLimit-Remaining").unwrap(), "1");
    assert_eq!(res.headers.get("X-RateLimit-Reset").unwrap(), "60");
    let mut res = Response::new();
    assert!(rl.before(&req, &mut res, 10_000));
    assert_eq!(res.headers.get("X-RateLimit-Remaining").unwrap(), "0");
    assert_eq!(res.headers.get("X-RateLimit-Reset").unwrap(), "50");
    let mut res = Response::new();
    assert!(!rl.before(&req, &mut res, 20_000));
    assert_eq!(res.status_code, 429);
    assert_eq!(res.headers.get("Retry-After").unwrap(), "40");
    assert_eq!(
        String::from_utf8(res.body).unwrap(),
        r#"{"error":{"code":429,"message":"Too Many Requests","retry_after":40}}"#
    );
    let mut other = parse("GET / HTTP/1.1\r\nX-Forwarded-For: 1.2.3.4\r\n\r\n");
    other.remote_addr = None;
    let mut res = Response::new();
    assert!(rl.before(&other, &mut res, 20_000));
    let mut res = Response::new();
    assert!(rl.before(&req, &mut res, 60_000));
    assert_eq!(res.headers.get("X-RateLimit-Remaining").unwrap(), "1");
}

#[test]
fn rate_limiter_presets_and_cleanup() {
    let mut rl = RateLimiter::per_second(1);
    let req = parse("GET / HTTP/1.1\r\n\r\n");
    let mut res = Response::new();
    assert!(rl.before(&req, &mut res, 0));
    let mut res = Response::new();
    assert!(!rl.before(&req, &mut res, 999));
    rl.cleanup(1000);
    let mut res = Response::new();
    assert!(rl.before(&req, &mut res, 1000));
    let _ = RateLimiter::per_minute(5);
    let _ = RateLimiter::per_hour(5);
    assert_eq!(RateLimiter::client_key(&req), "unknown");
}

#[test]
fn logger_lines() {
    let mut req = parse("GET /a?b=1 HTTP/1.1\r\nUser-Agent: curl\r\n\r\n");
    let mut res = Response::new();
    res.send("hello");
    let std_logger = Logger::new();
    assert_eq!(std_logger.format(), LogFormat::Standard);
    assert_eq!(std_logger.timestamp_pattern(), "%Y-%m-%d %H:%M:%S");
    assert_eq!(
        std_logger.line(&req, &res, "2025-01-15 10:30:00", "5.00"),
        "[2025-01-15 10:30:00] GET /a?b=1 -> 200 (5.00ms)"
    );
    let minimal = Logger::with_format(LogFormat::Minimal);
    assert_eq!(minimal.line(&req, &res, "", "1.25"), "GET /a?b=1 200 1.25ms");
    req.remote_addr = Some(PeerAddr { ip: "127.0.0.1".to_string(), port: 8080 });
    let combined = Logger::with_format(LogFormat::Combined);
    assert_eq!(
        combined.line(&req, &res, "15/Jan/2025:10:30:00 +0000", "0.50"),
        "127.0.0.1:8080 - - [15/Jan/2025:10:30:00 +0000] \"GET /a?b=1 HTTP/1.1\" 200 5 \"-\" \"curl\" 0.50ms"
    );
    req.remote_addr = Some(PeerAddr { ip: "::1".to_string(), port: 80 });
    assert!(combined.line(&req, &res, "t", "0").starts_with("[::1]:80 - - [t]"));
}

#[test]
fn static_files_paths() {
    let sf = StaticFiles::new("/static/", "public").index_file("index.html").cache_control("max-age=60");
    assert_eq!(sf.relative_path("/static/css/site.css"), Some("css/site.css".to_string()));
    assert_eq!(sf.relative_path("/static"), Some(String::new()));
    assert_eq!(sf.relative_path("/static/"), Some(String::new()));
    assert_eq!(sf.relative_path("/staticfile.txt"), None);
    assert_eq!(sf.relative_path("/staticsecret.txt"), None);
    assert_eq!(sf.relative_path("/static/../secret"), None);
    assert_eq!(sf.relative_path("/static/a\\b"), Some("a/b".to_string()));
    assert_eq!(sf.relative_path("/other/x"), None);
    assert_eq!(sf.candidate("css/site.css"), Some("public/css/site.css".to_string()));
    assert_eq!(sf.candidate(""), Some("public/index.html".to_string()));
    assert_eq!(sf.directory_index("public/docs"), Some("public/docs/index.html".to_string()));
    let bare = StaticFiles::new("/s", "/srv/");
    assert_eq!(bare.candidate(""), None);
    assert_eq!(bare.candidate("a.txt"), Some("/srv/a.txt".to_string()));
    assert_eq!(bare.directory_index("/srv/d"), None);
}

#[test]
fn static_files_serve() {
    let sf = StaticFiles::new("/static", "public").cache_control("no-cache");
    let req = parse("GET /static/a.css HTTP/1.1\r\n\r\n");
    assert!(sf.handles(&req));
    assert!(!sf.handles(&parse("POST /static/a.css HTTP/1.1\r\n\r\n")));
    let mut res = Response::new();
    sf.serve(&mut res, "public/a.css", b"body{}".to_vec(), Some("Wed, 15 Jan 2025 10:30:00 GMT"), false);
    assert_eq!(res.headers.get("content-type").unwrap(), "text/css");
    assert_eq!(res.headers.get("cache-control").unwrap(), "no-cache");
    assert_eq!(res.headers.get("last-modified").unwrap(), "Wed, 15 Jan 2025 10:30:00 GMT");
    assert_eq!(res.body, b"body{}");
    let mut res = Response::new();
    sf.serve(&mut res, "public/a.css", b"body{}".to_vec(), None, true);
    assert_eq!(res.headers.get("content-length").unwrap(), "6");
    assert!(res.body.is_empty());
    assert_eq!(res.status_code, 200);
}

#[test]
fn compression_of_large_text() {
    let c = CompressionMiddleware::new();
    let req = parse("GET / HTTP/1.1\r\nAccept-Encoding: gzip, deflate\r\n\r\n");
    let mut res = Response::new();
    let text = "hello world ".repeat(200);
    res.send(&text);
    c.after(&req, &mut res);
    assert_eq!(res.headers.get("Content-Encoding").unwrap(), "gzip");
    assert_eq!(res.headers.get("Vary").unwrap(), "Accept-Encoding");
    let mut d = GzDecoder::new(&res.body[..]);
    let mut out = String::new();
    d.read_to_string(&mut out).unwrap();
    assert_eq!(out, text);
}

#[test]
fn compression_skipped() {
    let c = CompressionMiddleware::with_min_size(10).level(9);
    let no_gzip = parse("GET / HTTP/1.1\r\n\r\n");
    let mut res = Response::new();
    res.send(&"x".repeat(100));
    c.after(&no_gzip, &mut res);
    assert!(res.headers.get("Content-Encoding").is_none());
    let gz = parse("GET / HTTP/1.1\r\nAccept-Encoding: gzip\r\n\r\n");
    let mut res = Response::new();
    res.send("short");
    c.after(&gz, &mut res);
    assert_eq!(res.body, b"short");
    let mut res = Response::new();
    res.send_bytes(vec![0u8; 100]);
    res.header("content-type", "image/png");
    c.after(&gz, &mut res);
    assert_eq!(res.body, vec![0u8; 100]);
    assert!(CompressionMiddleware::is_compressible("application/json"));
    assert!(CompressionMiddleware::is_compressible("text/plain"));
    assert!(!CompressionMiddleware::is_compressible("image/png"));
}

#[test]
fn default_error_handler_json() {
    let req = parse("GET / HTTP/1.1\r\n\r\n");
    let mut res = Response::new();
    DefaultErrorHandler.handle_error(&Error::NotFound("/x".to_string()), &req, &mut res);
    assert_eq!(res.status_code, 404);
    assert_eq!(
        String::from_utf8(res.body).unwrap(),
        r#"{"error":{"code":404,"message":"Not found: /x"}}"#
    );
}

#[test]
fn compressed_body_used_only_when_smaller() {
    let mut res = Response::new();
    res.send("abcdef");
    CompressionMiddleware::use_compressed(&mut res, Some(vec![1, 2, 3]));
    assert_eq!(res.body, vec![1, 2, 3]);
    assert_eq!(res.headers.get("Content-Encoding").unwrap(), "gzip");
    let mut res = Response::new();
    res.send("ab");
    CompressionMiddleware::use_compressed(&mut res, Some(vec![1, 2, 3]));
    assert_eq!(res.body, b"ab");
    assert!(res.headers.get("Content-Encoding").is_none());
    CompressionMiddleware::use_compressed(&mut res, None);
    assert_eq!(res.body, b"ab");
}

#[test]
fn error_messages_are_json_escaped() {
    let req = parse("GET / HTTP/1.1\r\n\r\n");
    let mut res = Response::new();
    let msg = "say \"hi\"\\\n\t\u{1}\u{7f}é".to_string();
    DefaultErrorHandler.handle_error(&Error::BadRequest(msg), &req, &mut res);
    assert_eq!(res.status_code, 400);
    assert_eq!(
        String::from_utf8(res.body).unwrap(),
        "{\"error\":{\"code\":400,\"message\":\"Bad request: say \\\"hi\\\"\\\\\\n\\t\\u0001\u{7f}é\"}}"
    );
}

#[test]
fn containment_compares_whole_components() {
    assert!(contained("/srv/www", "/srv/www/a.txt"));
    assert!(contained("/srv/www", "/srv/www"));
    assert!(!contained("/srv/www", "/srv/www2/a.txt"));
    assert!(!contained("/srv/www", "/srv"));
    assert!(contained("/", "/etc/passwd"));
    assert!(contained("/srv/www/", "/srv/www/x"));
}

#[test]
fn last_modified_is_an_http_date() {
    assert_eq!(StaticFiles::last_modified(0).unwrap(), "Thu, 01 Jan 1970 00:00:00 GMT");
    assert_eq!(StaticFiles::last_modified(1736937000).unwrap(), "Wed, 15 Jan 2025 10:30:00 GMT");
    assert!(StaticFiles::last_modified(i64::MAX).is_none());
}
