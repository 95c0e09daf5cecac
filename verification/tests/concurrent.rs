use lazy_sock::{codec, route_request, Method, Request, Response, Router};
use std::sync::mpsc;
use std::sync::Arc;

type Handler = Arc<dyn Fn(Request) -> Response + Send + Sync>;

fn serve(router: &Router<Handler>, raw: &[u8]) -> Option<Vec<u8>> {
    let req = codec::decode_request(raw).ok()?;
    let response = match route_request(router, &req) {
        Some(handler) => handler(req),
        None => Response::not_found("Route not found"),
    };
    Some(response.to_http_response())
}

/// A handler blocked on one route never delays a response on another: the
/// fast route completes while the slow one still waits, and the routing
/// table serves any number of simultaneous lookups.
#[test]
fn blocked_handler_does_not_delay_other_routes() {
    let (release_tx, release_rx) = mpsc::channel::<()>();
    let (entered_tx, entered_rx) = mpsc::channel::<()>();
    let release_rx = std::sync::Mutex::new(release_rx);

    let mut router: Router<Handler> = Router::new();
    let slow: Handler = Arc::new(move |_req| {
        entered_tx.send(()).unwrap();
        release_rx.lock().unwrap().recv().unwrap();
        Response::text("slow done")
    });
    let fast: Handler = Arc::new(|_req| Response::text("fast done"));
    router.add_route(Method::Get, "/slow", slow);
    router.add_route(Method::Get, "/fast", fast);
    let router = Arc::new(router);

    let rt = tokio::runtime::Builder::new_multi_thread()
        .worker_threads(4)
        .build()
        .unwrap();
    rt.block_on(async {
        let r1 = Arc::clone(&router);
        let slow_task = tokio::task::spawn_blocking(move || {
            serve(&r1, b"GET /slow HTTP/1.1\r\n\r\n").unwrap()
        });
        // Wait until the slow handler is truly inside its call.
        entered_rx.recv().unwrap();
        // The fast route answers while the slow handler still blocks.
        let r2 = Arc::clone(&router);
        let fast_task = tokio::task::spawn_blocking(move || {
            serve(&r2, b"GET /fast HTTP/1.1\r\n\r\n").unwrap()
        });
        let fast_bytes = fast_task.await.unwrap();
        let fast_text = String::from_utf8(fast_bytes).unwrap();
        assert!(fast_text.ends_with("fast done"));
        // Only now let the slow handler finish.
        release_tx.send(()).unwrap();
        let slow_bytes = slow_task.await.unwrap();
        let slow_text = String::from_utf8(slow_bytes).unwrap();
        assert!(slow_text.ends_with("slow done"));
    });
}

/// Independent concurrent requests to distinct routes all complete with
/// their own route's answer.
#[test]
fn concurrent_requests_complete_independently() {
    let mut router: Router<Handler> = Router::new();
    for i in 0..8u32 {
        let body = format!("route {}", i);
        let handler: Handler = Arc::new(move |_req| Response::text(&body));
        router.add_route(Method::Get, &format!("/r{}", i), handler);
    }
    let router = Arc::new(router);

    let rt = tokio::runtime::Builder::new_multi_thread()
        .worker_threads(4)
        .build()
        .unwrap();
    rt.block_on(async {
        let mut tasks = Vec::new();
        for i in 0..8u32 {
            let r = Arc::clone(&router);
            tasks.push(tokio::task::spawn_blocking(move || {
                let raw = format!("GET /r{} HTTP/1.1\r\n\r\n", i);
                (i, serve(&r, raw.as_bytes()).unwrap())
            }));
        }
        for t in tasks {
            let (i, bytes) = t.await.unwrap();
            let text = String::from_utf8(bytes).unwrap();
            assert!(text.starts_with("HTTP/1.1 200 OK\r\n"));
            assert!(text.ends_with(&format!("route {}", i)));
        }
    });
}
