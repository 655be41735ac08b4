use http_server::request::{Request, StatusLine};
use http_server::response::{reason, Response};
use http_server::text_map::TextMap;

#[test]
fn request_with_headers_and_body() {
    let req = Request::from_string(
        "POST /submit HTTP/1.1\r\nHost: example\r\nContent-Type: text/plain\r\n\r\nhello".to_string(),
    );
    assert_eq!(req.status_line.method, "POST");
    assert_eq!(req.status_line.path, "/submit");
    assert_eq!(req.status_line.http_version, "HTTP/1.1");
    assert_eq!(req.headers.get("Host").unwrap(), "example");
    assert_eq!(req.headers.get("Content-Type").unwrap(), "text/plain");
    assert_eq!(req.headers.len(), 2);
    assert_eq!(req.body, "hello");
    assert!(req.params.is_empty());
}

#[test]
fn request_header_last_write_wins_and_splits_once() {
    let req = Request::from_string("GET / HTTP/1.1\nX: 1\nX: a: b\nnot a header\n\n".to_string());
    assert_eq!(req.headers.get("X").unwrap(), "a: b");
    assert_eq!(req.headers.len(), 1);
    assert_eq!(req.body, "");
}

#[test]
fn request_of_one_line_has_no_body() {
    let req = Request::from_string("GET /only".to_string());
    assert_eq!(req.status_line.method, "GET");
    assert_eq!(req.status_line.path, "/only");
    assert_eq!(req.status_line.http_version, "");
    assert!(req.headers.is_empty());
    assert_eq!(req.body, "");
}

#[test]
fn request_of_two_lines_has_a_body_and_no_headers() {
    let req = Request::from_string("GET / HTTP/1.1\r\nrest".to_string());
    assert!(req.headers.is_empty());
    assert_eq!(req.body, "rest");
}

#[test]
fn status_line_tokens() {
    let st = StatusLine::new("DELETE /item/3 HTTP/1.0".to_string());
    assert_eq!(st.method, "DELETE");
    assert_eq!(st.path, "/item/3");
    assert_eq!(st.http_version, "HTTP/1.0");
    let empty = StatusLine::new(String::new());
    assert_eq!(empty.method, "");
    assert_eq!(empty.path, "");
}

#[test]
fn response_serialization_counts_bytes() {
    let resp = Response::text(&"hi".to_string());
    let wire = resp.to_http();
    assert!(wire.contains("Content-Length: 2\r\n"));
    assert!(wire.ends_with("hi"));
    assert_eq!(wire, "HTTP/1.1 200 OK\r\nContent-Length: 2\r\nContent-Type: text/plain\r\n\r\nhi");
}

#[test]
fn response_content_length_is_utf8_bytes() {
    let wire = Response::text(&"é€".to_string()).to_http();
    assert!(wire.contains("Content-Length: 5\r\n"));
}

#[test]
fn response_reason_follows_status() {
    let wire = Response::text(&"404 Not Found".to_string()).with_status(404).to_http();
    assert!(wire.starts_with("HTTP/1.1 404 Not Found\r\n"));
    assert_eq!(reason(500), "Internal Server Error");
    assert_eq!(reason(299), "");
    let odd = Response::text(&String::new()).with_status(299).to_http();
    assert_eq!(odd, "HTTP/1.1 299 \r\nContent-Length: 0\r\nContent-Type: text/plain\r\n\r\n");
}

#[test]
fn with_status_keeps_body() {
    let resp = Response::text(&"body".to_string()).with_status(201);
    assert_eq!(resp.status, 201);
    assert_eq!(resp.body, "body");
}

#[test]
fn text_map_insert_replaces() {
    let mut m = TextMap::new();
    assert!(m.is_empty());
    m.insert("a".to_string(), "1".to_string());
    m.insert("b".to_string(), "2".to_string());
    m.insert("a".to_string(), "3".to_string());
    assert_eq!(m.get("a").unwrap(), "3");
    assert_eq!(m.get("b").unwrap(), "2");
    assert!(m.get("c").is_none());
    assert!(m.contains_key("b"));
    assert_eq!(m.len(), 2);
}
