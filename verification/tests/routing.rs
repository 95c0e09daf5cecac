use lazy_sock::lifecycle::{step, Action, Event, Phase};
use lazy_sock::{codec, route_request, HeaderMap, Method, Request, Response, Router};

type Handler = fn(Request) -> Response;

fn hello(_req: Request) -> Response {
    Response::json("{\"message\":\"Hello, World!\",\"status\":\"success\"}")
}

fn echo(req: Request) -> Response {
    match req.body_string() {
        Ok(body) if !body.is_empty() => Response::json(&format!("{{\"echo\": \"{}\"}}", body)),
        Ok(_) => Response::new(400).with_text("Request body is empty"),
        Err(_) => Response::new(400).with_text("Invalid UTF-8 in request body"),
    }
}

fn serve(router: &Router<Handler>, raw: &[u8]) -> Option<Vec<u8>> {
    let req = codec::decode_request(raw).ok()?;
    let response = match route_request(router, &req) {
        Some(handler) => handler(req),
        None => Response::not_found("Route not found"),
    };
    Some(response.to_http_response())
}

#[test]
fn lookup_finds_exact_match_only() {
    let mut router: Router<i32> = Router::new();
    router.add_route(Method::Get, "/a", 1);
    router.add_route(Method::Post, "/a", 2);
    router.add_route(Method::Get, "/a/b", 3);
    assert_eq!(router.find_handler(&Method::Get, "/a"), Some(&1));
    assert_eq!(router.find_handler(&Method::Post, "/a"), Some(&2));
    assert_eq!(router.find_handler(&Method::Get, "/a/b"), Some(&3));
    assert_eq!(router.find_handler(&Method::Put, "/a"), None);
    assert_eq!(router.find_handler(&Method::Get, "/a/"), None);
    assert_eq!(router.find_handler(&Method::Get, "/"), None);
}

#[test]
fn reregistration_replaces_handler() {
    let mut router: Router<i32> = Router::new();
    router.add_route(Method::Get, "/a", 1);
    router.add_route(Method::Get, "/b", 2);
    router.add_route(Method::Get, "/a", 3);
    assert_eq!(router.find_handler(&Method::Get, "/a"), Some(&3));
    assert_eq!(router.find_handler(&Method::Get, "/b"), Some(&2));
}

#[test]
fn dispatch_strips_query_before_lookup() {
    let mut router: Router<i32> = Router::new();
    router.add_route(Method::Get, "/items", 7);
    let req = codec::decode_request(b"GET /items?id=3 HTTP/1.1\r\n\r\n").unwrap();
    assert_eq!(route_request(&router, &req), Some(&7));
}

#[test]
fn unmatched_route_yields_fixed_not_found() {
    let router: Router<Handler> = Router::new();
    let bytes = serve(&router, b"GET /missing HTTP/1.1\r\n\r\n").unwrap();
    let expected = b"HTTP/1.1 404 Not Found\r\nContent-Type: text/plain; charset=utf-8\r\nContent-Length: 15\r\n\r\nRoute not found";
    assert_eq!(bytes, expected.to_vec());
}

#[test]
fn malformed_request_gets_no_response() {
    let mut router: Router<Handler> = Router::new();
    router.add_route(Method::Get, "/", hello);
    assert_eq!(serve(&router, b"GARBAGE\r\n\r\n"), None);
    assert_eq!(serve(&router, b"PATCH / HTTP/1.1\r\n\r\n"), None);
}

#[test]
fn hello_world_scenario() {
    let mut router: Router<Handler> = Router::new();
    router.add_route(Method::Get, "/", hello);
    let bytes = serve(&router, b"GET / HTTP/1.1\r\n\r\n").unwrap();
    let text = String::from_utf8(bytes).unwrap();
    let (head, body) = text.split_once("\r\n\r\n").unwrap();
    assert!(head.starts_with("HTTP/1.1 200 OK\r\n"));
    assert!(head.contains("Content-Type: application/json"));
    assert_eq!(body, "{\"message\":\"Hello, World!\",\"status\":\"success\"}");
}

#[test]
fn echo_empty_body_scenario() {
    let mut router: Router<Handler> = Router::new();
    router.add_route(Method::Post, "/echo", echo);
    let bytes = serve(&router, b"POST /echo HTTP/1.1\r\nContent-Length: 0\r\n\r\n").unwrap();
    let text = String::from_utf8(bytes).unwrap();
    let (head, body) = text.split_once("\r\n\r\n").unwrap();
    assert!(head.starts_with("HTTP/1.1 400 Bad Request\r\n"));
    assert_eq!(body, "Request body is empty");
}

#[test]
fn echo_returns_body() {
    let mut router: Router<Handler> = Router::new();
    router.add_route(Method::Post, "/echo", echo);
    let bytes = serve(&router, b"POST /echo HTTP/1.1\r\nContent-Length: 2\r\n\r\nhi").unwrap();
    let text = String::from_utf8(bytes).unwrap();
    let (_, body) = text.split_once("\r\n\r\n").unwrap();
    assert_eq!(body, "{\"echo\": \"hi\"}");
}

#[test]
fn header_map_insert_get_len() {
    let mut m = HeaderMap::new();
    assert_eq!(m.len(), 0);
    m.insert("A".to_string(), "1".to_string());
    m.insert("B".to_string(), "2".to_string());
    assert_eq!(m.len(), 2);
    m.insert("A".to_string(), "3".to_string());
    assert_eq!(m.len(), 2);
    assert_eq!(m.get("A").unwrap().as_str(), "3");
    assert_eq!(m.get("B").unwrap().as_str(), "2");
    assert_eq!(m.get("C"), None);
}

#[test]
fn request_accessors() {
    let mut headers = HeaderMap::new();
    headers.insert("K".to_string(), "v".to_string());
    let req = Request::new(Method::Put, "/x?q=1".to_string(), headers, vec![1, 2]);
    assert_eq!(*req.method(), Method::Put);
    assert_eq!(req.path(), "/x?q=1");
    assert_eq!(req.path_without_query(), "/x");
    assert_eq!(req.header("K").unwrap().as_str(), "v");
    assert_eq!(req.body(), &[1, 2]);
    let copy = req.clone();
    assert_eq!(copy.path(), "/x?q=1");
    assert_eq!(copy.body(), &[1, 2]);
}

#[test]
fn preflight_cancellation_aborts_without_removal() {
    // Stale file present: activation prompts and races the delay against
    // cancellation.
    let (phase, action) = step(Phase::Idle, Event::ActivateOnExistingPath);
    assert_eq!(phase, Phase::PreflightCheck);
    assert_eq!(action, Action::PromptAndRace);
    // Cancellation wins: the activation fails as aborted, nothing is
    // removed and nothing binds.
    let (phase, action) = step(Phase::PreflightCheck, Event::Cancelled);
    assert_eq!(phase, Phase::Stopped);
    assert_eq!(action, Action::FailAborted);
}

#[test]
fn preflight_delay_removes_stale_file_and_binds() {
    let (phase, action) = step(Phase::PreflightCheck, Event::DelayElapsed);
    assert_eq!(phase, Phase::PreflightCheck);
    assert_eq!(action, Action::RemoveStaleAndBind);
    let (phase, action) = step(phase, Event::BindSucceeded);
    assert_eq!(phase, Phase::Listening);
    assert_eq!(action, Action::Accept);
}

#[test]
fn activation_without_stale_file_binds_directly() {
    let (phase, action) = step(Phase::Idle, Event::ActivateOnFreePath);
    assert_eq!(phase, Phase::PreflightCheck);
    assert_eq!(action, Action::Bind);
}

#[test]
fn bind_failure_is_fatal() {
    let (phase, action) = step(Phase::PreflightCheck, Event::BindFailed);
    assert_eq!(phase, Phase::Stopped);
    assert_eq!(action, Action::FailBind);
}

#[test]
fn accept_loop_survives_errors_until_cancelled() {
    let (phase, action) = step(Phase::Listening, Event::AcceptFailed);
    assert_eq!((phase, action), (Phase::Listening, Action::LogAndContinue));
    let (phase, action) = step(Phase::Listening, Event::ConnectionAccepted);
    assert_eq!((phase, action), (Phase::Listening, Action::SpawnHandler));
    let (phase, action) = step(Phase::Listening, Event::Cancelled);
    assert_eq!((phase, action), (Phase::ShuttingDown, Action::Cleanup));
    let (phase, action) = step(Phase::ShuttingDown, Event::CleanupDone);
    assert_eq!((phase, action), (Phase::Stopped, Action::Finish));
}
