use http_router::{Config, Decision, Endpoint, HttpHandler, HttpRequest, HttpResponse, Method, Router, RouterError};

/// A handler that answers 200 and echoes the captured parameters in its body
/// as `;name=value` pairs after a tag identifying the handler.
enum EchoHandler {
    List,
    Get,
    Create,
}

impl HttpHandler for EchoHandler {
    fn handle(&self, req: HttpRequest) -> HttpResponse {
        let tag = match self {
            EchoHandler::List => "list",
            EchoHandler::Get => "get",
            EchoHandler::Create => "create",
        };
        let mut body = String::from(tag);
        for (k, v) in &req.params {
            body.push(';');
            body.push_str(k);
            body.push('=');
            body.push_str(v);
        }
        HttpResponse::new(200, body.into_bytes())
    }
}

fn entry(method: Method, path: &str, controller: &str) -> Endpoint {
    Endpoint {
        method,
        path: path.to_string(),
        controller: controller.to_string(),
        description: String::new(),
    }
}

fn request(method: Method, path: &str) -> HttpRequest {
    HttpRequest {
        uri: path.to_string(),
        method,
        headers: Vec::new(),
        params: Vec::new(),
        body: Vec::new(),
    }
}

fn build_router(entries: Vec<Endpoint>) -> Router<EchoHandler> {
    Router::new(Config { endpoints: entries }).expect("table builds")
}

#[test]
fn duplicate_pattern_same_method_fails() {
    let r: Result<Router<EchoHandler>, RouterError> = Router::new(Config {
        endpoints: vec![
            entry(Method::Get, "/users", "a"),
            entry(Method::Get, "/users", "b"),
        ],
    });
    assert!(r.is_err());
}

#[test]
fn same_shape_parameter_patterns_fail() {
    let r: Result<Router<EchoHandler>, RouterError> = Router::new(Config {
        endpoints: vec![
            entry(Method::Get, "/a/:x", "a"),
            entry(Method::Get, "/a/:y", "b"),
        ],
    });
    assert!(r.is_err());
}

#[test]
fn same_pattern_different_methods_coexist() {
    let router = build_router(vec![
        entry(Method::Get, "/users", "a"),
        entry(Method::Post, "/users", "b"),
    ]);
    let mut router = router;
    router.register("a".to_string(), EchoHandler::List);
    router.register("b".to_string(), EchoHandler::Create);
    assert_eq!(router.route(request(Method::Get, "/users")).status, 200);
    assert_eq!(router.route(request(Method::Post, "/users")).status, 200);
}

#[test]
fn lookup_is_deterministic() {
    let mut router = build_router(vec![entry(Method::Get, "/users/:id", "get")]);
    router.register("get".to_string(), EchoHandler::Get);
    let first = router.route(request(Method::Get, "/users/7"));
    let second = router.route(request(Method::Get, "/users/7"));
    assert_eq!(first.status, second.status);
    assert_eq!(first.body, second.body);
    assert_eq!(first.headers, second.headers);
}

#[test]
fn parameter_roundtrip_binds_segment() {
    let mut router = build_router(vec![entry(Method::Get, "/a/:x/b", "get")]);
    router.register("get".to_string(), EchoHandler::Get);
    let resp = router.route(request(Method::Get, "/a/123/b"));
    assert_eq!(resp.status, 200);
    assert_eq!(resp.body, b"get;x=123".to_vec());
}

#[test]
fn literal_beats_parameter() {
    let mut router = build_router(vec![
        entry(Method::Get, "/users/me", "list"),
        entry(Method::Get, "/users/:id", "get"),
    ]);
    router.register("list".to_string(), EchoHandler::List);
    router.register("get".to_string(), EchoHandler::Get);
    let resp = router.route(request(Method::Get, "/users/me"));
    assert_eq!(resp.status, 200);
    assert_eq!(resp.body, b"list".to_vec());
    let other = router.route(request(Method::Get, "/users/42"));
    assert_eq!(other.body, b"get;id=42".to_vec());
}

#[test]
fn wrong_method_is_405_with_allow() {
    let mut router = build_router(vec![entry(Method::Get, "/users", "list")]);
    router.register("list".to_string(), EchoHandler::List);
    let resp = router.route(request(Method::Post, "/users"));
    assert_eq!(resp.status, 405);
    assert_eq!(resp.headers.len(), 1);
    assert_eq!(resp.headers[0].0, "Allow");
    assert_eq!(resp.headers[0].1, "GET");
    assert!(resp.body.is_empty());
}

#[test]
fn unknown_path_is_404() {
    let mut router = build_router(vec![entry(Method::Get, "/users", "list")]);
    router.register("list".to_string(), EchoHandler::List);
    let resp = router.route(request(Method::Get, "/unknown"));
    assert_eq!(resp.status, 404);
    assert!(resp.headers.is_empty());
    assert!(resp.body.is_empty());
}

#[test]
fn missing_handler_is_501_naming_controller() {
    let router = build_router(vec![entry(Method::Get, "/users", "create")]);
    let resp = router.route(request(Method::Get, "/users"));
    assert_eq!(resp.status, 501);
    assert_eq!(
        resp.body,
        b"Error: Handler for 'create' is not implemented.".to_vec()
    );
}

#[test]
fn end_to_end_scenario() {
    let mut router = build_router(vec![
        entry(Method::Get, "/users", "list"),
        entry(Method::Get, "/users/:id", "get"),
        entry(Method::Post, "/users", "create"),
    ]);
    router.register("list".to_string(), EchoHandler::List);
    router.register("get".to_string(), EchoHandler::Get);

    let list = router.route(request(Method::Get, "/users"));
    assert_eq!(list.status, 200);
    assert_eq!(list.body, b"list".to_vec());

    let get = router.route(request(Method::Get, "/users/42"));
    assert_eq!(get.status, 200);
    assert_eq!(get.body, b"get;id=42".to_vec());

    let create = router.route(request(Method::Post, "/users"));
    assert_eq!(create.status, 501);
    assert_eq!(
        create.body,
        b"Error: Handler for 'create' is not implemented.".to_vec()
    );

    let delete = router.route(request(Method::Delete, "/users"));
    assert_eq!(delete.status, 405);
    assert_eq!(delete.headers.len(), 1);
    assert_eq!(delete.headers[0].0, "Allow");
    assert_eq!(delete.headers[0].1, "GET, POST");

    let orders = router.route(request(Method::Get, "/orders"));
    assert_eq!(orders.status, 404);
}

#[test]
fn last_registration_wins() {
    let mut router = build_router(vec![entry(Method::Get, "/users", "list")]);
    router.register("list".to_string(), EchoHandler::Create);
    router.register("list".to_string(), EchoHandler::List);
    let resp = router.route(request(Method::Get, "/users"));
    assert_eq!(resp.body, b"list".to_vec());
}

#[test]
fn trailing_slash_is_trimmed() {
    let mut router = build_router(vec![entry(Method::Get, "/users", "list")]);
    router.register("list".to_string(), EchoHandler::List);
    let resp = router.route(request(Method::Get, "/users/"));
    assert_eq!(resp.status, 200);
}

#[test]
fn root_path_routes() {
    let mut router = build_router(vec![entry(Method::Get, "/", "list")]);
    router.register("list".to_string(), EchoHandler::List);
    assert_eq!(router.route(request(Method::Get, "/")).status, 200);
    assert_eq!(router.route(request(Method::Get, "/users")).status, 404);
}

#[test]
fn extension_method_routes_like_any_other() {
    let mut router = build_router(vec![entry(
        Method::Other("PURGE".to_string()),
        "/cache",
        "list",
    )]);
    router.register("list".to_string(), EchoHandler::List);
    let ok = router.route(request(Method::Other("PURGE".to_string()), "/cache"));
    assert_eq!(ok.status, 200);
    let wrong = router.route(request(Method::Get, "/cache"));
    assert_eq!(wrong.status, 405);
    assert_eq!(wrong.headers[0].1, "PURGE");
}

#[test]
fn decide_names_the_dispatched_controller() {
    let mut router = build_router(vec![entry(Method::Get, "/users/:id", "get")]);
    router.register("get".to_string(), EchoHandler::Get);
    match router.decide(&Method::Get, "/users/9") {
        Decision::Dispatched(controller, params) => {
            assert_eq!(controller, "get");
            assert_eq!(params, vec![("id".to_string(), "9".to_string())]);
        }
        _ => panic!("expected a dispatch"),
    }
    match router.decide(&Method::Post, "/users/9") {
        Decision::MethodNotAllowed(allow) => {
            assert!(allow == vec![Method::Get]);
        }
        _ => panic!("expected a 405 decision"),
    }
}
