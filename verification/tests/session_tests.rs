use mini_http::request::Request;
use mini_http::response::Response;
use mini_http::session::{Session, SessionStore};
use std::time::Duration;

fn request_with_cookie(cookie: &str) -> Request {
    let raw = format!("GET / HTTP/1.1\r\nCookie: {}\r\n\r\n", cookie);
    Request::parse(raw.as_bytes()).unwrap()
}

#[test]
fn session_data_set_get_remove_clear() {
    let mut store = SessionStore::new();
    let mut s: Session = store.create_session_with_id("abc".to_string(), 1000);
    assert_eq!(s.id, "abc");
    assert_eq!(s.get("user"), None);
    s.set("user", "alice");
    s.set("role", "admin");
    assert_eq!(s.get("user"), Some("alice"));
    s.set("user", "bob");
    assert_eq!(s.get("user"), Some("bob"));
    assert_eq!(s.remove("user"), Some("bob".to_string()));
    assert_eq!(s.remove("user"), None);
    s.clear();
    assert_eq!(s.get("role"), None);
}

#[test]
fn session_expiry_uses_last_access() {
    let mut store = SessionStore::new().max_age_ms(1000);
    let s = store.create_session_with_id("id1".to_string(), 5000);
    assert_eq!(s.created_at, 5000);
    assert_eq!(s.last_accessed, 5000);
    assert!(!s.is_expired(5000));
    assert!(!s.is_expired(6000));
    assert!(s.is_expired(6001));
    assert!(!s.is_expired(100));
}

#[test]
fn saved_session_is_found_until_expired() {
    let mut store = SessionStore::new().max_age_ms(10_000);
    let mut s = store.create_session_with_id("k1".to_string(), 0);
    s.set("cart", "3 items");
    store.save_session(&s);
    let got = store.get_session("k1", 5_000).unwrap();
    assert_eq!(got.get("cart"), Some("3 items"));
    assert!(store.get_session("k1", 10_001).is_none());
    assert!(store.get_session("missing", 0).is_none());
}

#[test]
fn destroyed_session_is_gone() {
    let mut store = SessionStore::new();
    store.create_session_with_id("a".to_string(), 0);
    store.create_session_with_id("b".to_string(), 0);
    assert_eq!(store.count(0), 2);
    store.destroy_session("a");
    assert!(store.get_session("a", 0).is_none());
    assert!(store.get_session("b", 0).is_some());
    assert_eq!(store.count(0), 1);
}

#[test]
fn cleanup_and_count_ignore_expired() {
    let mut store = SessionStore::new().max_age_ms(100);
    store.create_session_with_id("old".to_string(), 0);
    store.create_session_with_id("new".to_string(), 1000);
    assert_eq!(store.count(1050), 1);
    store.cleanup(1050);
    assert!(store.get_session("old", 0).is_none());
    assert!(store.get_session("new", 1050).is_some());
    assert_eq!(store.count(1050), 1);
}

#[test]
fn random_session_ids_look_like_uuids() {
    let mut store = SessionStore::new();
    let s = store.create_session(0).unwrap();
    assert_eq!(s.id.len(), 36);
    let b = s.id.as_bytes();
    assert_eq!(b[8], b'-');
    assert_eq!(b[13], b'-');
    assert_eq!(b[14], b'4');
    let t = store.create_session(0).unwrap();
    assert_ne!(s.id, t.id);
    assert!(store.get_session(&s.id, 0).is_some());
}

#[test]
fn before_reuses_cookie_session() {
    let mut store = SessionStore::new().cookie_name("my_session");
    store.create_session_with_id("known".to_string(), 0);
    let mut req = request_with_cookie("my_session=known");
    let mut res = Response::new();
    let s = store.before(&mut req, &mut res, 10).unwrap();
    assert_eq!(s.id, "known");
    assert!(res.set_cookies.is_empty());
    let attached: &Session = req.get_extension("session").unwrap();
    assert_eq!(attached.id, "known");
}

#[test]
fn before_creates_session_and_sets_cookie() {
    let mut store = SessionStore::new()
        .cookie_name("sid")
        .cookie_path("/app")
        .cookie_secure(true)
        .max_age(Duration::from_secs(7200));
    let mut req = request_with_cookie("other=1");
    let mut res = Response::new();
    let s = store.before(&mut req, &mut res, 0).unwrap();
    let attached: &Session = req.get_extension("session").unwrap();
    assert_eq!(attached.id, s.id);
    assert_eq!(res.set_cookies.len(), 1);
    let c = &res.set_cookies[0];
    assert_eq!(
        c,
        &format!("sid={}; Path=/app; Max-Age=7200; Secure; HttpOnly; SameSite=Lax", s.id)
    );
    assert!(store.get_session(&s.id, 0).is_some());
    assert_eq!(s.max_age, 7_200_000);
}

#[test]
fn before_replaces_expired_session() {
    let mut store = SessionStore::new().max_age_ms(10);
    store.create_session_with_id("stale".to_string(), 0);
    let mut req = request_with_cookie("sid=stale");
    let mut res = Response::new();
    let s = store.before(&mut req, &mut res, 100).unwrap();
    assert_ne!(s.id, "stale");
    assert_eq!(res.set_cookies.len(), 1);
}
