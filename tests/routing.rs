use http_server::radix_tree::{RadixTree, RouterError};
use http_server::request::{Method, Request};
use http_server::response::Response;
use http_server::router::{string_to_method, Router};

type Handler = Box<dyn Fn(Request) -> Response + Send + Sync>;

fn request(method: &str, path: &str) -> Request {
    Request::from_string(format!("{} {} HTTP/1.1\r\nHost: local\r\n\r\n", method, path))
}

#[test]
fn insert_then_match_returns_last_handler() {
    let mut tree: RadixTree<u32> = RadixTree::new();
    tree.root.insert("/about", Method::GET, 1);
    tree.root.insert("/about/team", Method::GET, 2);
    tree.root.insert("/about", Method::POST, 3);
    tree.root.insert("/about", Method::GET, 4);
    let found = tree.root.match_route("/about", Method::GET).ok().unwrap();
    assert_eq!(*found.handler, 4);
    assert!(found.params.is_empty());
    assert_eq!(*tree.root.match_route("/about", Method::POST).ok().unwrap().handler, 3);
    assert_eq!(*tree.root.match_route("/about/team", Method::GET).ok().unwrap().handler, 2);
}

#[test]
fn slashes_at_the_ends_do_not_matter() {
    let mut tree: RadixTree<u32> = RadixTree::new();
    tree.root.insert("a/b/", Method::PUT, 9);
    assert_eq!(*tree.root.match_route("//a//b", Method::PUT).ok().unwrap().handler, 9);
}

#[test]
fn root_path_has_its_own_handler() {
    let mut tree: RadixTree<u32> = RadixTree::new();
    tree.root.insert("/", Method::GET, 5);
    assert_eq!(*tree.root.match_route("", Method::GET).ok().unwrap().handler, 5);
    assert_eq!(*tree.root.match_route("/", Method::GET).ok().unwrap().handler, 5);
}

#[test]
fn parameter_segment_is_captured() {
    let mut tree: RadixTree<u32> = RadixTree::new();
    tree.root.insert("/user/:id", Method::GET, 7);
    let found = tree.root.match_route("/user/42", Method::GET).ok().unwrap();
    assert_eq!(*found.handler, 7);
    assert_eq!(found.params.get("id").unwrap(), "42");
    assert_eq!(found.params.len(), 1);
}

#[test]
fn literal_child_wins_over_parameter() {
    let mut tree: RadixTree<u32> = RadixTree::new();
    tree.root.insert("/user/:id", Method::GET, 7);
    tree.root.insert("/user/me", Method::GET, 8);
    let found = tree.root.match_route("/user/me", Method::GET).ok().unwrap();
    assert_eq!(*found.handler, 8);
    assert!(found.params.is_empty());
    assert_eq!(*tree.root.match_route("/user/5", Method::GET).ok().unwrap().handler, 7);
}

#[test]
fn segments_after_a_parameter_fail() {
    let mut tree: RadixTree<u32> = RadixTree::new();
    tree.root.insert("/user/:id", Method::GET, 7);
    match tree.root.match_route("/user/42/extra", Method::GET) {
        Err(RouterError::MatchingRouteError(msg)) => {
            assert_eq!(msg, "path continues past a parameter segment, unsupported")
        }
        _ => panic!("expected a route error"),
    }
}

#[test]
fn unknown_path_is_a_route_error() {
    let mut tree: RadixTree<u32> = RadixTree::new();
    tree.root.insert("/about", Method::GET, 1);
    match tree.root.match_route("/contact", Method::GET) {
        Err(RouterError::MatchingRouteError(msg)) => {
            assert_eq!(msg, "Route not found in segment 'contact'")
        }
        _ => panic!("expected a route error"),
    }
}

#[test]
fn unknown_method_is_a_handler_error() {
    let mut tree: RadixTree<u32> = RadixTree::new();
    tree.root.insert("/about", Method::GET, 1);
    match tree.root.match_route("/about", Method::DELETE) {
        Err(RouterError::MatchingHandlerError(msg)) => assert_eq!(msg, "DELETE"),
        _ => panic!("expected a handler error"),
    }
}

#[test]
fn parameter_route_later_overwrites_the_node_handler() {
    let mut tree: RadixTree<u32> = RadixTree::new();
    tree.root.insert("/user", Method::GET, 1);
    tree.root.insert("/user/:id", Method::GET, 2);
    assert_eq!(*tree.root.match_route("/user", Method::GET).ok().unwrap().handler, 2);
}

#[test]
fn method_names_ignore_case() {
    assert!(matches!(string_to_method("get"), Ok(Method::GET)));
    assert!(matches!(string_to_method("Patch"), Ok(Method::PATCH)));
    assert!(matches!(string_to_method("CONNECT"), Ok(Method::CONNECT)));
    match string_to_method("FETCH") {
        Err(msg) => assert_eq!(msg, "Unsupported HTTP method: FETCH"),
        Ok(_) => panic!("expected an error"),
    }
}

#[test]
fn method_from_name_is_exact() {
    assert!(matches!(Method::from_name("OPTIONS"), Some(Method::OPTIONS)));
    assert!(Method::from_name("options").is_none());
    assert_eq!(Method::TRACE.name(), "TRACE");
}

#[test]
fn router_passes_parameters_to_the_handler() {
    let mut router: Router<Handler> = Router::new();
    let added = router.add_route(
        "GET",
        "/user/:id",
        Box::new(|req: Request| match req.params.get("id") {
            Some(id) => Response::text(id),
            None => Response::text(&"Missing user id".to_string()).with_status(400),
        }),
    );
    assert!(added.is_ok());
    let resp = router.route(request("GET", "/user/42"));
    assert_eq!(resp.status, 200);
    assert_eq!(resp.body, "42");
}

#[test]
fn router_answers_404_for_missing_route_and_method() {
    let mut router: Router<Handler> = Router::new();
    assert!(router
        .add_route("get", "/about", Box::new(|_req: Request| Response::text(&"about".to_string())))
        .is_ok());
    let resp = router.route(request("GET", "/about"));
    assert_eq!(resp.status, 200);
    assert_eq!(resp.body, "about");
    let missing = router.route(request("GET", "/nowhere"));
    assert_eq!(missing.status, 404);
    assert_eq!(missing.body, "404 Not Found");
    let wrong_method = router.route(request("POST", "/about"));
    assert_eq!(wrong_method.status, 404);
    assert_eq!(wrong_method.body, "404 Not Found");
}

#[test]
fn router_answers_400_for_unknown_method() {
    let router: Router<Handler> = Router::new();
    let resp = router.route(request("BREW", "/pot"));
    assert_eq!(resp.status, 400);
    assert_eq!(resp.body, "400 Bad Request - Invalid Method");
}

#[test]
fn add_route_rejects_unknown_method() {
    let mut router: Router<Handler> = Router::new();
    match router.add_route("FETCH", "/x", Box::new(|_req: Request| Response::text(&String::new()))) {
        Err(msg) => assert_eq!(msg, "Unsupported HTTP method: FETCH"),
        Ok(()) => panic!("expected an error"),
    }
    assert_eq!(router.route(request("GET", "/x")).status, 404);
}

#[test]
fn router_lowercase_request_method_is_accepted() {
    let mut router: Router<Handler> = Router::new();
    assert!(router
        .add_route("POST", "/items", Box::new(|req: Request| Response::text(&req.body)))
        .is_ok());
    let resp = router.route(Request::from_string("post /items HTTP/1.1\r\n\r\npayload".to_string()));
    assert_eq!(resp.status, 200);
    assert_eq!(resp.body, "payload");
}
