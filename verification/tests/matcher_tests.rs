use http_router::error::ConflictError;
use http_router::matcher::PathMatcher;
use http_router::method::Method;
use http_router::{Config, Endpoint, HttpHandler, HttpRequest, HttpResponse, Router};

#[test]
fn insert_and_lookup_literal() {
    let mut m = PathMatcher::new();
    assert!(m.insert("/users", "list".to_string()).is_ok());
    let (controller, params) = m.lookup("/users").expect("matches");
    assert_eq!(controller, "list");
    assert!(params.is_empty());
    assert!(m.lookup("/other").is_none());
}

#[test]
fn duplicate_insert_reports_existing_controller() {
    let mut m = PathMatcher::new();
    assert!(m.insert("/users", "first".to_string()).is_ok());
    match m.insert("/users", "second".to_string()) {
        Err(ConflictError::Duplicate { existing_controller }) => {
            assert_eq!(existing_controller, "first");
        }
        other => panic!("expected a duplicate conflict, got {:?}", other.is_ok()),
    }
    let (controller, _) = m.lookup("/users").expect("still matches");
    assert_eq!(controller, "first");
}

#[test]
fn ambiguous_parameter_reports_existing_name() {
    let mut m = PathMatcher::new();
    assert!(m.insert("/a/:x", "first".to_string()).is_ok());
    match m.insert("/a/:y/b", "second".to_string()) {
        Err(ConflictError::Ambiguous { existing_name }) => {
            assert_eq!(existing_name, "x");
        }
        other => panic!("expected an ambiguous conflict, got {:?}", other.is_ok()),
    }
}

#[test]
fn parameter_lookup_binds_each_name() {
    let mut m = PathMatcher::new();
    assert!(m.insert("/a/:x/:y", "pair".to_string()).is_ok());
    let (controller, params) = m.lookup("/a/1/2").expect("matches");
    assert_eq!(controller, "pair");
    assert!(params.contains(&("x".to_string(), "1".to_string())));
    assert!(params.contains(&("y".to_string(), "2".to_string())));
    assert_eq!(params.len(), 2);
}

#[test]
fn backtracks_to_parameter_when_literal_dead_ends() {
    let mut m = PathMatcher::new();
    assert!(m.insert("/a/b/c", "deep".to_string()).is_ok());
    assert!(m.insert("/a/:x", "shallow".to_string()).is_ok());
    let (controller, params) = m.lookup("/a/b").expect("matches via the parameter");
    assert_eq!(controller, "shallow");
    assert_eq!(params, vec![("x".to_string(), "b".to_string())]);
}

#[test]
fn segment_count_must_match() {
    let mut m = PathMatcher::new();
    assert!(m.insert("/a/:x/b", "r".to_string()).is_ok());
    assert!(m.lookup("/a/1").is_none());
    assert!(m.lookup("/a/1/b/c").is_none());
}

#[test]
fn method_token_parsing() {
    assert!(Method::from_token("GET") == Method::Get);
    assert!(Method::from_token("get") == Method::Get);
    assert!(Method::from_token("Post") == Method::Post);
    assert!(Method::from_token("PURGE") == Method::Other("PURGE".to_string()));
    assert_eq!(Method::Delete.as_str(), "DELETE");
    assert_eq!(Method::Other("PURGE".to_string()).as_str(), "PURGE");
}

#[test]
fn conflict_error_message_names_the_route() {
    struct NoHandler;
    impl HttpHandler for NoHandler {
        fn handle(&self, _req: HttpRequest) -> HttpResponse {
            HttpResponse::new(200, Vec::new())
        }
    }
    let entries = vec![
        Endpoint {
            method: Method::Get,
            path: "/users".to_string(),
            controller: "a".to_string(),
            description: String::new(),
        },
        Endpoint {
            method: Method::Get,
            path: "/users".to_string(),
            controller: "b".to_string(),
            description: String::new(),
        },
    ];
    let err = match Router::<NoHandler>::new(Config { endpoints: entries }) {
        Err(e) => e,
        Ok(_) => panic!("expected a conflict"),
    };
    assert_eq!(
        err.message(),
        "conflicting route GET /users: pattern already registered to 'a'"
    );
}
