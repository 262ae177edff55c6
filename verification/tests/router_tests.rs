use mini_http::request::{Method, Request};
use mini_http::response::Response;
use mini_http::router::{path_params, RouteGroup, Router};

type H = Box<dyn Fn(&mut Request, &mut Response) + Send + Sync>;

fn h(f: impl Fn(&mut Request, &mut Response) + Send + Sync + 'static) -> H {
    Box::new(f)
}
#[test]
fn test_static_route() {
    let mut router: Router<H> = Router::new();
    router.add(Method::GET, "/hello", h(|_req, res| res.send("Hello")));

    assert!(router.match_route(&Method::GET, "/hello").is_some());
    assert!(router.match_route(&Method::GET, "/world").is_none());
    assert!(router.match_route(&Method::POST, "/hello").is_none());
}

#[test]
fn router_tests_test_root_route() {
    let mut router: Router<H> = Router::new();
    router.add(Method::GET, "/", h(|_req, res| res.send("Root")));

    assert!(router.match_route(&Method::GET, "/").is_some());
    assert!(router.match_route(&Method::GET, "/anything").is_none());
}

#[test]
fn test_single_path_param() {
    let mut router: Router<H> = Router::new();
    router.add(Method::GET, "/users/:id", h(|_req, res| res.send("User")));

    let (_, params) = router.match_route(&Method::GET, "/users/42").unwrap();
    assert_eq!(params.get("id"), Some(&"42".to_string()));

    let (_, params) = router.match_route(&Method::GET, "/users/alice").unwrap();
    assert_eq!(params.get("id"), Some(&"alice".to_string()));

    assert!(router.match_route(&Method::GET, "/users").is_none());
    assert!(router.match_route(&Method::GET, "/users/42/extra").is_none());
}

#[test]
fn router_tests_test_multiple_path_params() {
    let mut router: Router<H> = Router::new();
    router.add(Method::GET, "/users/:uid/posts/:pid", h(|_req, res| {
        res.send("Post")
    }));

    let (_, params) = router
        .match_route(&Method::GET, "/users/10/posts/20")
        .unwrap();
    assert_eq!(params.get("uid"), Some(&"10".to_string()));
    assert_eq!(params.get("pid"), Some(&"20".to_string()));
}

#[test]
fn router_tests_test_wildcard_route() {
    let mut router: Router<H> = Router::new();
    router.add(Method::GET, "/files/*path", h(|_req, res| res.send("File")));

    let (_, params) = router
        .match_route(&Method::GET, "/files/docs/readme.md")
        .unwrap();
    assert_eq!(params.get("path"), Some(&"docs/readme.md".to_string()));

    let (_, params) = router
        .match_route(&Method::GET, "/files/image.png")
        .unwrap();
    assert_eq!(params.get("path"), Some(&"image.png".to_string()));
}

#[test]
fn test_method_matching() {
    let mut router: Router<H> = Router::new();
    router.add(Method::GET, "/resource", h(|_req, res| res.send("GET")));
    router.add(Method::POST, "/resource", h(|_req, res| res.send("POST")));
    router.add(Method::PUT, "/resource", h(|_req, res| res.send("PUT")));
    router.add(Method::DELETE, "/resource", h(|_req, res| res.send("DELETE")));

    assert!(router.match_route(&Method::GET, "/resource").is_some());
    assert!(router.match_route(&Method::POST, "/resource").is_some());
    assert!(router.match_route(&Method::PUT, "/resource").is_some());
    assert!(router.match_route(&Method::DELETE, "/resource").is_some());
    assert!(router.match_route(&Method::PATCH, "/resource").is_none());
}

#[test]
fn test_path_exists_for_405() {
    let mut router: Router<H> = Router::new();
    router.add(Method::GET, "/only-get", h(|_req, res| res.send("OK")));

    assert!(router.path_exists("/only-get"));
    assert!(!router.path_exists("/not-here"));
    assert!(router.match_route(&Method::POST, "/only-get").is_none());
}

#[test]
fn router_tests_test_route_group() {
    let mut router: Router<H> = Router::new();

    let mut api: RouteGroup<H> = RouteGroup::new("/api/v1");
    api.get("/users", h(|_req, res| res.send("Users")));
    api.post("/users", h(|_req, res| res.send("Create")));
    api.get("/users/:id", h(|_req, res| res.send("User")));

    router.add_group(api);

    assert!(router.match_route(&Method::GET, "/api/v1/users").is_some());
    assert!(router.match_route(&Method::POST, "/api/v1/users").is_some());

    let (_, params) = router
        .match_route(&Method::GET, "/api/v1/users/42")
        .unwrap();
    assert_eq!(params.get("id"), Some(&"42".to_string()));

    // Should NOT match without prefix
    assert!(router.match_route(&Method::GET, "/users").is_none());
}

#[test]
fn test_route_priority_first_match_wins() {
    let mut router: Router<H> = Router::new();
    router.add(Method::GET, "/users/me", h(|_req, res| res.send("Me")));
    router.add(Method::GET, "/users/:id", h(|_req, res| res.send("User")));

    // Static route registered first should match first
    let (handler, params) = router.match_route(&Method::GET, "/users/me").unwrap();
    assert!(params.is_empty()); // Static match, no params

    // Dynamic route matches other values
    let (_, params) = router.match_route(&Method::GET, "/users/42").unwrap();
    assert_eq!(params.get("id"), Some(&"42".to_string()));

    let _ = handler; // suppress unused warning
}

#[test]
fn test_nested_route_groups() {
    let mut router: Router<H> = Router::new();

    let mut v1: RouteGroup<H> = RouteGroup::new("/api/v1");
    v1.get("/health", h(|_req, res| res.send("ok")));

    let mut v2: RouteGroup<H> = RouteGroup::new("/api/v2");
    v2.get("/health", h(|_req, res| res.send("ok")));

    router.add_group(v1);
    router.add_group(v2);

    assert!(router.match_route(&Method::GET, "/api/v1/health").is_some());
    assert!(router.match_route(&Method::GET, "/api/v2/health").is_some());
}

#[test]
fn test_static_route_matching() {
    let mut router: Router<H> = Router::new();
    router.add(Method::GET, "/hello", h(|_req, res| {
        res.send("Hello!");
    }));

    let (_, params) = router.match_route(&Method::GET, "/hello").unwrap();
    assert!(params.is_empty());
    assert!(router.match_route(&Method::GET, "/world").is_none());
}

#[test]
fn test_path_param_matching() {
    let mut router: Router<H> = Router::new();
    router.add(Method::GET, "/users/:id", h(|_req, res| {
        res.send("User");
    }));

    let (_, params) = router.match_route(&Method::GET, "/users/123").unwrap();
    assert_eq!(params.get("id").unwrap(), "123");
    assert!(router.match_route(&Method::GET, "/users").is_none());
}

#[test]
fn router_test_multiple_path_params() {
    let mut router: Router<H> = Router::new();
    router.add(Method::GET, "/users/:user_id/posts/:post_id", h(|_req, res| {
        res.send("Post");
    }));

    let (_, params) = router
        .match_route(&Method::GET, "/users/42/posts/7")
        .unwrap();
    assert_eq!(params.get("user_id").unwrap(), "42");
    assert_eq!(params.get("post_id").unwrap(), "7");
}

#[test]
fn router_test_wildcard_route() {
    let mut router: Router<H> = Router::new();
    router.add(Method::GET, "/files/*path", h(|_req, res| {
        res.send("File");
    }));

    let (_, params) = router
        .match_route(&Method::GET, "/files/docs/readme.md")
        .unwrap();
    assert_eq!(params.get("path").unwrap(), "docs/readme.md");
}

#[test]
fn test_method_not_allowed() {
    let mut router: Router<H> = Router::new();
    router.add(Method::GET, "/resource", h(|_req, res| {
        res.send("OK");
    }));

    assert!(router.match_route(&Method::POST, "/resource").is_none());
    assert!(router.path_exists("/resource"));
}

#[test]
fn router_test_route_group() {
    let mut router: Router<H> = Router::new();
    let mut group: RouteGroup<H> = RouteGroup::new("/api/v1");
    group.get("/users", h(|_req, res| {
        res.send("Users");
    }));
    router.add_group(group);

    assert!(router.match_route(&Method::GET, "/api/v1/users").is_some());
    assert!(router.match_route(&Method::GET, "/users").is_none());
}

#[test]
fn router_test_root_route() {
    let mut router: Router<H> = Router::new();
    router.add(Method::GET, "/", h(|_req, res| {
        res.send("Root");
    }));

    assert!(router.match_route(&Method::GET, "/").is_some());
}

#[test]
fn later_routes_do_not_change_earlier_matches() {
    let mut router: Router<H> = Router::new();
    router.add(Method::GET, "/items/:id", h(|_req, res| res.send("first")));
    let before = router.match_route(&Method::GET, "/items/7").unwrap().1.get("id").cloned();
    router.add(Method::GET, "/items/*rest", h(|_req, res| res.send("second")));
    router.add(Method::POST, "/items/7", h(|_req, res| res.send("post")));
    let (_, params) = router.match_route(&Method::GET, "/items/7").unwrap();
    assert_eq!(params.get("id").cloned(), before);
    assert!(params.get("rest").is_none());
    let (_, params) = router.match_route(&Method::POST, "/items/7").unwrap();
    assert!(params.is_empty());
}

#[test]
fn literal_segments_are_escaped() {
    let mut router: Router<H> = Router::new();
    router.add(Method::GET, "/files/a.b+c", h(|_req, res| res.send("x")));
    assert!(router.match_route(&Method::GET, "/files/a.b+c").is_some());
    assert!(router.match_route(&Method::GET, "/files/aXb+c").is_none());
    assert!(router.match_route(&Method::GET, "/files/a.bbc").is_none());
}

#[test]
fn capture_groups_become_params() {
    let names = vec!["a".to_string(), "b".to_string(), "c".to_string()];
    let caps = vec![
        Some("/x/y".to_string()),
        Some("x".to_string()),
        None,
    ];
    let m = path_params(&names, &caps);
    assert_eq!(m.get("a").unwrap(), "x");
    assert!(m.get("b").is_none());
    assert!(m.get("c").is_none());
    assert_eq!(m.len(), 1);
}

#[test]
fn wildcard_matches_empty_rest() {
    let mut router: Router<H> = Router::new();
    router.add(Method::GET, "/files/*path", h(|_req, res| {
        res.send("File");
    }));

    let (_, params) = router.match_route(&Method::GET, "/files/").unwrap();
    assert_eq!(params.get("path").unwrap(), "");
    assert!(router.match_route(&Method::GET, "/files").is_none());
}
