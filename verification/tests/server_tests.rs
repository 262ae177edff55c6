use mini_http::error::Error;
use mini_http::middleware::Middleware;
use mini_http::request::{Method, Request};
use mini_http::response::Response;
use mini_http::router::{Handler, Router};
use mini_http::server::{
    bad_request, declared_content_length, find_header_end, next_action, not_found, respond, Action,
    EndStep, ReadEnd,
    set_connection_headers, should_keep_alive, websocket_target, ws_not_found, ReadStep,
    RequestReader,
};

struct Reply(&'static str);

impl Handler for Reply {
    fn call(&self, _req: &mut Request, res: &mut Response) {
        res.send(self.0);
    }
}

struct Stop;

impl Middleware for Stop {
    fn before(&self, _req: &mut Request, res: &mut Response) -> bool {
        res.status(401).send("Unauthorized");
        false
    }

    fn after(&self, _req: &mut Request, _res: &mut Response) {}
}

struct Mark(&'static str);

impl Middleware for Mark {
    fn before(&self, _req: &mut Request, res: &mut Response) -> bool {
        let prev = res.headers.get("x-before").cloned().unwrap_or_default();
        res.header("x-before", &format!("{}{}", prev, self.0));
        true
    }

    fn after(&self, _req: &mut Request, res: &mut Response) {
        let prev = res.headers.get("x-after").cloned().unwrap_or_default();
        res.header("x-after", &format!("{}{}", prev, self.0));
    }
}

struct AnyMw(Box<dyn Middleware>);

impl Middleware for AnyMw {
    fn before(&self, req: &mut Request, res: &mut Response) -> bool {
        self.0.before(req, res)
    }

    fn after(&self, req: &mut Request, res: &mut Response) {
        self.0.after(req, res)
    }
}

fn parse(raw: &str) -> Request {
    Request::parse(raw.as_bytes()).unwrap()
}

#[test]
fn header_end_is_first_blank_line() {
    assert_eq!(find_header_end(b"GET / HTTP/1.1\r\nHost: a\r\n\r\nbody\r\n\r\n"), Some(23));
    assert_eq!(find_header_end(b"\r\n\r\n"), Some(0));
    assert_eq!(find_header_end(b"GET / HTTP/1.1\r\n"), None);
    assert_eq!(find_header_end(b"\r\n\r"), None);
    assert_eq!(find_header_end(b""), None);
}

#[test]
fn content_length_from_headers() {
    assert_eq!(declared_content_length(b"POST / HTTP/1.1\r\nContent-Length: 12"), 12);
    assert_eq!(declared_content_length(b"POST / HTTP/1.1\r\ncontent-length:  7 "), 7);
    assert_eq!(declared_content_length(b"POST / HTTP/1.1\r\nCONTENT-LENGTH: 3\r\nContent-Length: 5"), 5);
    assert_eq!(declared_content_length(b"POST / HTTP/1.1\r\nContent-Length: abc"), 0);
    assert_eq!(declared_content_length(b"POST / HTTP/1.1\r\nHost: x"), 0);
}

#[test]
fn reader_waits_for_body() {
    let mut r = RequestReader::new(1024);
    assert!(r.is_empty());
    assert_eq!(r.on_data(b"POST /x HTTP/1.1\r\nContent-"), ReadStep::Continue);
    assert_eq!(r.on_data(b"Length: 4\r\n\r\nab"), ReadStep::Continue);
    assert_eq!(r.on_data(b"cd"), ReadStep::Done);
    assert_eq!(r.into_bytes(), b"POST /x HTTP/1.1\r\nContent-Length: 4\r\n\r\nabcd".to_vec());
}

#[test]
fn reader_done_without_body_and_too_large() {
    let mut r = RequestReader::new(1024);
    assert_eq!(r.on_data(b"GET / HTTP/1.1\r\n\r\n"), ReadStep::Done);
    let mut r = RequestReader::new(10);
    assert_eq!(r.on_data(b"GET / HTTP/1.1\r\n"), ReadStep::TooLarge);
}

#[test]
fn keep_alive_decision() {
    let req = parse("GET / HTTP/1.1\r\nHost: a\r\n\r\n");
    assert!(should_keep_alive(true, &req));
    assert!(!should_keep_alive(false, &req));
    let req = parse("GET / HTTP/1.1\r\nConnection: Close\r\n\r\n");
    assert!(!should_keep_alive(true, &req));
    let req = parse("GET / HTTP/1.0\r\n\r\n");
    assert!(!should_keep_alive(true, &req));
}

#[test]
fn connection_headers() {
    let mut res = Response::new();
    set_connection_headers(&mut res, true, 5);
    assert_eq!(res.headers.get("Connection").unwrap(), "keep-alive");
    assert_eq!(res.headers.get("Keep-Alive").unwrap(), "timeout=5");
    let mut res = Response::new();
    set_connection_headers(&mut res, false, 5);
    assert_eq!(res.headers.get("Connection").unwrap(), "close");
    assert!(res.headers.get("Keep-Alive").is_none());
}

#[test]
fn own_answers() {
    let req = parse("DELETE /nothing HTTP/1.1\r\n\r\n");
    let mut res = Response::new();
    not_found(&req, &mut res);
    assert_eq!(res.status_code, 404);
    assert_eq!(
        String::from_utf8(res.body.clone()).unwrap(),
        r#"{"error":{"code":404,"message":"Cannot DELETE /nothing"}}"#
    );
    assert_eq!(res.headers.get("content-type").unwrap(), "application/json; charset=utf-8");

    let res = bad_request(&Error::Parse("Incomplete request".to_string()));
    assert_eq!(res.status_code, 400);
    assert_eq!(res.body, b"Bad Request: Parse error: Incomplete request");

    let res = ws_not_found();
    assert_eq!(res.status_code, 404);
    assert_eq!(res.body, b"WebSocket endpoint not found");
}

#[test]
fn respond_runs_middleware_around_handler() {
    let mut router: Router<Reply> = Router::new();
    router.add(Method::GET, "/hi", Reply("hello"));
    let mw = vec![Mark("a"), Mark("b")];
    let mut req = parse("GET /hi HTTP/1.1\r\n\r\n");
    let (res, keep, _) = respond(&router, &mw, &mut req, true, 5);
    assert!(keep);
    assert_eq!(res.body, b"hello");
    assert_eq!(res.headers.get("x-before").unwrap(), "ab");
    assert_eq!(res.headers.get("x-after").unwrap(), "ba");
    assert_eq!(res.headers.get("Connection").unwrap(), "keep-alive");
}

#[test]
fn respond_stops_at_declining_middleware() {
    let mut router: Router<Reply> = Router::new();
    router.add(Method::GET, "/hi", Reply("hello"));
    let mw = vec![Stop];
    let mut req = parse("GET /hi HTTP/1.1\r\nConnection: close\r\n\r\n");
    let (res, keep, _) = respond(&router, &mw, &mut req, true, 5);
    assert!(!keep);
    assert_eq!(res.status_code, 401);
    assert_eq!(res.body, b"Unauthorized");
    assert_eq!(res.headers.get("Connection").unwrap(), "close");
}

#[test]
fn declined_chain_runs_no_after_hooks() {
    let mut router: Router<Reply> = Router::new();
    router.add(Method::GET, "/hi", Reply("hello"));
    let mw = vec![AnyMw(Box::new(Mark("a"))), AnyMw(Box::new(Stop)), AnyMw(Box::new(Mark("c")))];
    let mut req = parse("GET /hi HTTP/1.1\r\n\r\n");
    let (res, _, _) = respond(&router, &mw, &mut req, true, 5);
    assert_eq!(res.status_code, 401);
    assert_eq!(res.body, b"Unauthorized");
    assert_eq!(res.headers.get("x-before").unwrap(), "a");
    assert!(res.headers.get("x-after").is_none());
}

#[test]
fn respond_not_found_and_method_not_allowed() {
    let mut router: Router<Reply> = Router::new();
    router.add(Method::GET, "/only-get", Reply("ok"));
    let mw: Vec<Mark> = Vec::new();
    let mut req = parse("POST /only-get HTTP/1.1\r\n\r\n");
    let (res, _, _) = respond(&router, &mw, &mut req, true, 5);
    assert_eq!(res.status_code, 405);
    assert_eq!(res.body, b"Method Not Allowed");
    let mut req = parse("GET /missing HTTP/1.1\r\n\r\n");
    let (res, _, _) = respond(&router, &mw, &mut req, true, 5);
    assert_eq!(res.status_code, 404);
    assert_eq!(
        String::from_utf8(res.body).unwrap(),
        r#"{"error":{"code":404,"message":"Cannot GET /missing"}}"#
    );
}

#[test]
fn handle_sets_path_params() {
    struct Echo;
    impl Handler for Echo {
        fn call(&self, req: &mut Request, res: &mut Response) {
            let id = req.param("id").unwrap_or("none").to_string();
            res.send(&id);
        }
    }
    let mut router: Router<Echo> = Router::new();
    router.add(Method::GET, "/users/:id", Echo);
    let mut req = parse("GET /users/42 HTTP/1.1\r\n\r\n");
    let mut res = Response::new();
    assert!(router.handle(&mut req, &mut res));
    assert_eq!(res.body, b"42");
    let mut req = parse("GET /nope HTTP/1.1\r\n\r\n");
    let mut res = Response::new();
    assert!(!router.handle(&mut req, &mut res));
    assert_eq!(res.status_code, 200);
}

#[test]
fn websocket_target_needs_upgrade_key_and_route() {
    let mut router: Router<Reply, &'static str> = Router::new();
    router.add_ws("/chat/:room", "chat");
    let up = "GET /chat/lobby HTTP/1.1\r\nUpgrade: websocket\r\nConnection: Upgrade\r\nSec-WebSocket-Key: abc\r\n\r\n";
    let req = parse(up);
    let (h, params, key) = websocket_target(&router, &req).unwrap();
    assert_eq!(*h, "chat");
    assert_eq!(params.get("room").unwrap(), "lobby");
    assert_eq!(key, "abc");
    let req = parse("GET /chat/lobby HTTP/1.1\r\nUpgrade: websocket\r\nConnection: Upgrade\r\n\r\n");
    assert!(websocket_target(&router, &req).is_none());
    let req = parse("GET /other HTTP/1.1\r\nUpgrade: websocket\r\nConnection: Upgrade\r\nSec-WebSocket-Key: abc\r\n\r\n");
    assert!(websocket_target(&router, &req).is_none());
}

#[test]
fn next_action_decides_per_request() {
    let mut router: Router<Reply, &'static str> = Router::new();
    router.add(Method::GET, "/hi", Reply("hello"));
    router.add_ws("/chat", "chat");
    let mw: Vec<Mark> = Vec::new();

    match next_action(&router, &mw, Request::parse(b"G\x01T / HTTP/1.1\r\n\r\n"), None, None, true, 5) {
        Action::Close(res) => assert_eq!(res.status_code, 400),
        _ => panic!("expected close"),
    }

    let up = "GET /nowhere HTTP/1.1\r\nUpgrade: websocket\r\nConnection: Upgrade\r\nSec-WebSocket-Key: dGhlIHNhbXBsZSBub25jZQ==\r\n\r\n";
    match next_action(&router, &mw, Request::parse(up.as_bytes()), None, None, true, 5) {
        Action::Close(res) => {
            assert_eq!(res.status_code, 404);
            assert_eq!(res.body, b"WebSocket endpoint not found");
        }
        _ => panic!("expected close"),
    }

    let up = "GET /chat HTTP/1.1\r\nUpgrade: websocket\r\nConnection: Upgrade\r\nSec-WebSocket-Key: dGhlIHNhbXBsZSBub25jZQ==\r\n\r\n";
    match next_action(&router, &mw, Request::parse(up.as_bytes()), None, None, true, 5) {
        Action::Upgrade(h, hs) => {
            assert_eq!(*h, "chat");
            assert!(String::from_utf8(hs).unwrap().contains("s3pPLMBiTxaQ9kYGzzhZRbK+xOo="));
        }
        _ => panic!("expected upgrade"),
    }

    match next_action(&router, &mw, Request::parse(b"GET /hi HTTP/1.1\r\n\r\n"), None, None, true, 5) {
        Action::Reply(res, keep) => {
            assert!(keep);
            assert_eq!(res.body, b"hello");
        }
        _ => panic!("expected reply"),
    }
}

#[test]
fn reader_end_of_stream() {
    let mut reader = RequestReader::new(1024);
    assert_eq!(reader.on_end(ReadEnd::Closed), EndStep::NoRequest);
    assert_eq!(reader.on_end(ReadEnd::WouldBlock), EndStep::NoRequest);
    assert_eq!(reader.on_end(ReadEnd::TimedOut), EndStep::NoRequest);
    let _ = reader.on_data(b"GET / HT");
    assert_eq!(reader.on_end(ReadEnd::WouldBlock), EndStep::KeepWaiting);
    assert_eq!(reader.on_end(ReadEnd::TimedOut), EndStep::Timeout);
    assert_eq!(reader.on_end(ReadEnd::Closed), EndStep::NoRequest);
}
