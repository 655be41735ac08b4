use http_server::compression::{compress_string, decompress_string};
use http_server::request::Request;
use http_server::response::Response;
use http_server::router::Router;
use http_server::server::{check_pool_size, handle_request, ServerError, TCP_BUFFER_SIZE};
use http_server::text::{chars_of, split_chars, text_eq};

type Handler = Box<dyn Fn(Request) -> Response + Send + Sync>;

#[test]
fn pool_of_zero_is_refused() {
    match check_pool_size(0) {
        Err(ServerError::PoolCreationError(msg)) => {
            assert_eq!(msg, "The size of thread pool must be greater than 0.")
        }
        _ => panic!("expected a pool creation error"),
    }
}

#[test]
fn pool_of_four_is_accepted() {
    assert!(matches!(check_pool_size(4), Ok(4)));
    assert_eq!(TCP_BUFFER_SIZE, 1024);
}

#[test]
fn connection_bytes_become_a_response() {
    let mut router: Router<Handler> = Router::new();
    assert!(router
        .add_route("GET", "/user/:id", Box::new(|req: Request| Response::text(req.params.get("id").unwrap())))
        .is_ok());
    let out = handle_request(&router, b"GET /user/42 HTTP/1.1\r\nHost: x\r\n\r\n");
    match out {
        Ok(text) => assert_eq!(
            text,
            "HTTP/1.1 200 OK\r\nContent-Length: 2\r\nContent-Type: text/plain\r\n\r\n42"
        ),
        Err(_) => panic!("expected a response"),
    }
    match handle_request(&router, b"GET /none HTTP/1.1\r\n\r\n") {
        Ok(text) => assert!(text.starts_with("HTTP/1.1 404 Not Found\r\n")),
        Err(_) => panic!("expected a response"),
    }
}

#[test]
fn invalid_utf8_is_a_read_error() {
    let router: Router<Handler> = Router::new();
    match handle_request(&router, &[0x47, 0xff, 0xfe]) {
        Err(ServerError::ReadTCPStreamError(msg)) => assert_eq!(msg, "Invalid UTF-8 sequence"),
        _ => panic!("expected a read error"),
    }
}

#[test]
fn gzip_round_trip() {
    let packed = compress_string("hello hello hello").ok().unwrap();
    assert_eq!(packed[0], 0x1f);
    assert_eq!(packed[1], 0x8b);
    assert_ne!(packed, b"hello hello hello".to_vec());
    assert_eq!(decompress_string(&packed).ok().unwrap(), "hello hello hello");
}

#[test]
fn gzip_rejects_garbage() {
    assert!(decompress_string(b"not gzip").is_err());
}

#[test]
fn split_keeps_empty_pieces() {
    let pieces = split_chars(&chars_of("/a//b/"), '/');
    assert_eq!(pieces.len(), 5);
    assert!(pieces[0].is_empty());
    assert_eq!(pieces[1], vec!['a']);
    assert!(pieces[2].is_empty());
    assert!(text_eq("abc", "abc"));
    assert!(!text_eq("abc", "abd"));
}

#[test]
fn path_segments_skip_empty_pieces() {
    let segs = http_server::radix_tree::path_segments_of("//user/42/");
    assert_eq!(segs, vec!["user".to_string(), "42".to_string()]);
    assert!(http_server::radix_tree::path_segments_of("/").is_empty());
}
