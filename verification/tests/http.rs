use delay_mirror::http::{HttpError, HttpRequest, HttpResponse};

#[test]
fn a_request_starts_without_headers() {
    let req = HttpRequest::new("GET", "/npm/lodash");
    assert_eq!(req.method, "GET");
    assert_eq!(req.path, "/npm/lodash");
    assert!(req.headers.is_empty());
    assert!(req.query.is_empty());
    assert_eq!(req.path_segments(), ["npm", "lodash"]);
}

#[test]
fn request_headers_are_found_by_their_small_name() {
    let mut req = HttpRequest::new("GET", "/");
    req.headers.insert("x-forwarded-for", "10.0.0.1".to_string());
    assert_eq!(req.header("X-Forwarded-For"), Some(&"10.0.0.1".to_string()));
    assert_eq!(req.header("Accept"), None);
}

#[test]
fn a_set_header_is_kept_under_its_small_name() {
    let resp = HttpResponse::new(200).with_header("X-Delay-Info", "yes");
    assert_eq!(resp.headers.get("x-delay-info"), Some(&"yes".to_string()));
    assert_eq!(resp.headers.get("X-Delay-Info"), None);
}

#[test]
fn a_header_set_twice_keeps_the_second_value() {
    let resp = HttpResponse::new(200)
        .with_header("A", "1")
        .with_header("a", "2");
    assert_eq!(resp.headers.len(), 1);
    assert_eq!(resp.headers.get("a"), Some(&"2".to_string()));
}

#[test]
fn a_json_response_says_so() {
    let resp = HttpResponse::json(201, Ok(b"{}".to_vec())).unwrap();
    assert_eq!(resp.status, 201);
    assert_eq!(resp.body, b"{}");
    assert_eq!(
        resp.headers.get("content-type"),
        Some(&"application/json".to_string())
    );
}

#[test]
fn a_json_response_fails_where_writing_failed() {
    match HttpResponse::json(200, Err("bad".to_string())) {
        Err(e) => {
            assert!(matches!(&e, HttpError::Json(m) if m == "bad"));
            assert_eq!(e.to_string(), "JSON error: bad");
        }
        Ok(_) => panic!("Expected an error"),
    }
}

#[test]
fn text_and_redirect_responses() {
    let resp = HttpResponse::text(200, "hé");
    assert_eq!(resp.body, "hé".as_bytes());
    assert_eq!(
        resp.headers.get("content-type"),
        Some(&"text/plain; charset=utf-8".to_string())
    );
    let resp = HttpResponse::redirect(307, "https://example.com/");
    assert_eq!(resp.status, 307);
    assert!(resp.body.is_empty());
    assert_eq!(
        resp.headers.get("location"),
        Some(&"https://example.com/".to_string())
    );
}

#[test]
fn cross_origin_requests_are_allowed() {
    let resp = HttpResponse::new(204).with_cors();
    assert_eq!(
        resp.headers.get("access-control-allow-origin"),
        Some(&"*".to_string())
    );
}

#[test]
fn errors_of_http_in_words() {
    assert_eq!(HttpError::Fetch("x".to_string()).to_string(), "Fetch error: x");
    assert_eq!(
        HttpError::InvalidRequest("x".to_string()).to_string(),
        "Invalid request: x"
    );
}
