use http_router::{Config, HttpHandler, HttpRequest, HttpResponse, Method, Router};

struct NeverCalled;

impl HttpHandler for NeverCalled {
    fn handle(&self, _req: HttpRequest) -> HttpResponse {
        HttpResponse::new(200, Vec::new())
    }
}

#[test]
fn new_response_has_no_headers() {
    let r = HttpResponse::new(204, Vec::new());
    assert_eq!(r.status, 204);
    assert!(r.headers.is_empty());
    assert!(r.body.is_empty());
}

#[test]
fn with_headers_keeps_given_headers() {
    let headers = vec![("Content-Type".to_string(), "text/plain".to_string())];
    let r = HttpResponse::with_headers(200, headers.clone(), b"ok".to_vec());
    assert_eq!(r.status, 200);
    assert_eq!(r.headers, headers);
    assert_eq!(r.body, b"ok".to_vec());
}

#[test]
fn add_header_keeps_distinct_names_in_order() {
    let mut r = HttpResponse::new(200, Vec::new());
    r.add_header("A".to_string(), "1".to_string());
    r.add_header("B".to_string(), "2".to_string());
    assert_eq!(
        r.headers,
        vec![
            ("A".to_string(), "1".to_string()),
            ("B".to_string(), "2".to_string()),
        ]
    );
}

#[test]
fn add_header_replaces_prior_value_of_same_name() {
    let mut r = HttpResponse::new(200, Vec::new());
    r.add_header("A".to_string(), "1".to_string());
    r.add_header("B".to_string(), "2".to_string());
    r.add_header("A".to_string(), "3".to_string());
    assert_eq!(
        r.headers,
        vec![
            ("B".to_string(), "2".to_string()),
            ("A".to_string(), "3".to_string()),
        ]
    );
}

#[test]
fn add_header_drops_invalid_value_silently() {
    let mut r = HttpResponse::new(200, b"body".to_vec());
    r.add_header("A".to_string(), "ok value\twith tab".to_string());
    r.add_header("B".to_string(), "bad\nvalue".to_string());
    assert_eq!(
        r.headers,
        vec![("A".to_string(), "ok value\twith tab".to_string())]
    );
    assert_eq!(r.status, 200);
    assert_eq!(r.body, b"body".to_vec());
}

#[test]
fn empty_route_table_answers_404() {
    let router: Router<NeverCalled> =
        Router::new(Config { endpoints: Vec::new() }).expect("an empty table builds");
    let resp = router.route(HttpRequest {
        uri: "/anything".to_string(),
        method: Method::Get,
        headers: Vec::new(),
        params: Vec::new(),
        body: Vec::new(),
    });
    assert_eq!(resp.status, 404);
    assert!(resp.body.is_empty());
    assert!(resp.headers.is_empty());
}
