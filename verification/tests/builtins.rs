use djs::builtins::{
    fetch_request, http_delete, http_get, http_patch, http_post, http_put, http_request, parse_request,
    received_response, response_text, status_error_response, status_text, trim_line_end,
    FetchResponse, ServerHandle, ServerRequest,
};

fn pair(a: &str, b: &str) -> (String, String) {
    (a.to_string(), b.to_string())
}

#[test]
fn get_and_delete_send_no_headers() {
    let r = http_get("http://x/a");
    assert_eq!(r.method, "GET");
    assert_eq!(r.url, "http://x/a");
    assert!(r.headers.is_empty());
    assert!(r.body.is_none());
    let d = http_delete("http://x/a");
    assert_eq!(d.method, "DELETE");
    assert!(d.headers.is_empty());
}

#[test]
fn post_put_patch_send_json() {
    for (r, m) in [
        (http_post("u", "{}"), "POST"),
        (http_put("u", "{}"), "PUT"),
        (http_patch("u", "{}"), "PATCH"),
    ] {
        assert_eq!(r.method, m);
        assert_eq!(r.headers, vec![pair("Content-Type", "application/json")]);
        assert_eq!(r.body.as_deref(), Some("{}"));
    }
}

#[test]
fn body_without_content_type_gets_json_type() {
    let r = fetch_request("u", "POST", &vec![pair("X-A", "1")], Some("b"));
    assert_eq!(r.headers, vec![pair("X-A", "1"), pair("Content-Type", "application/json")]);
    let r = http_request("u", "POST", &vec![pair("Content-Type", "text/plain")], Some("b"));
    assert_eq!(r.headers, vec![pair("Content-Type", "text/plain")]);
    let r = fetch_request("u", "GET", &vec![pair("X-A", "1")], None);
    assert_eq!(r.headers, vec![pair("X-A", "1")]);
    let r = fetch_request("u", "POST", &vec![pair("content-type", "x")], Some("b"));
    assert_eq!(r.headers.len(), 2);
}

#[test]
fn responses() {
    let ok = received_response(204, "No Content".into(), vec![], String::new());
    assert!(ok.ok);
    let redirect = received_response(301, "Moved".into(), vec![], String::new());
    assert!(!redirect.ok);
    let low = received_response(199, "x".into(), vec![], String::new());
    assert!(!low.ok);
    let err = status_error_response(404, "missing".into());
    assert_eq!(err.status, 404);
    assert_eq!(err.status_text, "HTTP 404");
    assert!(!err.ok);
    assert!(err.headers.is_empty());
    assert_eq!(err.text(), "missing");
}

#[test]
fn text_gives_the_body() {
    let r = FetchResponse {
        status: 200,
        status_text: "OK".into(),
        ok: true,
        body: "hello".into(),
        headers: vec![],
    };
    assert_eq!(r.text(), "hello");
}

#[test]
fn request_head_parsing() {
    let lines = vec![
        "POST /items HTTP/1.1".to_string(),
        "Host: example".to_string(),
        "Content-Length: 12".to_string(),
        "X-Bad-Line".to_string(),
        "Host: other".to_string(),
    ];
    let (req, n): (ServerRequest, usize) = parse_request(&lines).unwrap();
    assert_eq!(req.method, "POST");
    assert_eq!(req.url, "/items");
    assert_eq!(req.headers, vec![pair("Host", "other"), pair("Content-Length", "12")]);
    assert_eq!(req.body, "");
    assert_eq!(n, 12);
}

#[test]
fn request_head_defaults_and_lengths() {
    assert!(parse_request(&vec![]).is_none());
    let (req, n) = parse_request(&vec!["   ".to_string()]).unwrap();
    assert_eq!((req.method.as_str(), req.url.as_str(), n), ("GET", "/", 0));
    let (_, n) = parse_request(&vec!["GET /".to_string(), "content-LENGTH: +7".to_string()]).unwrap();
    assert_eq!(n, 7);
    let (_, n) = parse_request(&vec!["GET /".to_string(), "Content-Length: x".to_string()]).unwrap();
    assert_eq!(n, 0);
    let (_, n) = parse_request(&vec![
        "GET /".to_string(),
        "Content-Length: 99999999999999999999999".to_string(),
    ])
    .unwrap();
    assert_eq!(n, 0);
}

#[test]
fn line_ends_are_trimmed() {
    assert_eq!(trim_line_end("GET / HTTP/1.1\r\n"), "GET / HTTP/1.1");
    assert_eq!(trim_line_end("\r\n"), "");
    assert_eq!(trim_line_end("a\n\r\n"), "a");
    assert_eq!(trim_line_end("a b"), "a b");
}

#[test]
fn status_texts() {
    assert_eq!(status_text(200), "OK");
    assert_eq!(status_text(201), "Created");
    assert_eq!(status_text(204), "No Content");
    assert_eq!(status_text(400), "Bad Request");
    assert_eq!(status_text(404), "Not Found");
    assert_eq!(status_text(500), "Internal Server Error");
    assert_eq!(status_text(418), "Unknown");
}

#[test]
fn response_text_counts_bytes() {
    assert_eq!(
        response_text(200, "text/plain", "héllo"),
        "HTTP/1.1 200 OK\r\nContent-Type: text/plain\r\nContent-Length: 6\r\nConnection: close\r\n\r\nhéllo"
    );
}

#[test]
fn server_handle_holds_port() {
    let h = ServerHandle { port: 8080 };
    assert_eq!(h.port, 8080);
}
