use lazy_sock::decimal::{dec_string, parse_dec};
use lazy_sock::{codec, DecodeError, Method, Request, Response};

fn decode(bytes: &[u8]) -> Result<Request, DecodeError> {
    codec::decode_request(bytes)
}

#[test]
fn method_from_str_is_case_insensitive() {
    assert_eq!(Method::from_str("GET"), Some(Method::Get));
    assert_eq!(Method::from_str("get"), Some(Method::Get));
    assert_eq!(Method::from_str("gEt"), Some(Method::Get));
    assert_eq!(Method::from_str("POST"), Some(Method::Post));
    assert_eq!(Method::from_str("put"), Some(Method::Put));
    assert_eq!(Method::from_str("Delete"), Some(Method::Delete));
    assert_eq!(Method::from_str("PATCH"), None);
    assert_eq!(Method::from_str(""), None);
    assert_eq!(Method::from_str("GETX"), None);
}

#[test]
fn method_as_str_is_upper_case() {
    assert_eq!(Method::Get.as_str(), "GET");
    assert_eq!(Method::Post.as_str(), "POST");
    assert_eq!(Method::Put.as_str(), "PUT");
    assert_eq!(Method::Delete.as_str(), "DELETE");
}

#[test]
fn decimal_renders_and_parses_back() {
    assert_eq!(dec_string(0), "0");
    assert_eq!(dec_string(7), "7");
    assert_eq!(dec_string(10), "10");
    assert_eq!(dec_string(65535), "65535");
    assert_eq!(parse_dec("0"), Some(0));
    assert_eq!(parse_dec("123"), Some(123));
    assert_eq!(parse_dec("+7"), Some(7));
    assert_eq!(parse_dec(""), None);
    assert_eq!(parse_dec("+"), None);
    assert_eq!(parse_dec("-3"), None);
    assert_eq!(parse_dec("12a"), None);
    assert_eq!(parse_dec(" 12"), None);
    assert_eq!(parse_dec("999999999999999999999999999999"), None);
}

#[test]
fn decode_simple_get() {
    let req = decode(b"GET / HTTP/1.1\r\n\r\n").unwrap();
    assert_eq!(*req.method(), Method::Get);
    assert_eq!(req.path(), "/");
    assert_eq!(req.body(), b"");
    assert_eq!(req.headers().len(), 0);
}

#[test]
fn decode_method_case_insensitively() {
    let req = decode(b"get /x HTTP/1.1\r\n\r\n").unwrap();
    assert_eq!(*req.method(), Method::Get);
    let req = decode(b"pOsT /x HTTP/1.1\r\n\r\n").unwrap();
    assert_eq!(*req.method(), Method::Post);
}

#[test]
fn decode_headers_trimmed_and_last_wins() {
    let req = decode(b"GET / HTTP/1.1\r\nHost:  here \r\nA: 1\r\nA: 2\r\n\r\n").unwrap();
    assert_eq!(req.header("Host").unwrap().as_str(), "here");
    assert_eq!(req.header("A").unwrap().as_str(), "2");
    assert_eq!(req.header("a"), None);
    assert_eq!(req.headers().len(), 2);
}

#[test]
fn decode_ignores_header_line_without_colon() {
    let req = decode(b"GET / HTTP/1.1\r\nnonsense line\r\nA: 1\r\n\r\n").unwrap();
    assert_eq!(req.headers().len(), 1);
    assert_eq!(req.header("A").unwrap().as_str(), "1");
}

#[test]
fn decode_reads_exactly_content_length_bytes() {
    let req = decode(b"POST /e HTTP/1.1\r\nContent-Length: 5\r\n\r\nhelloEXTRA").unwrap();
    assert_eq!(req.body(), b"hello");
}

#[test]
fn decode_body_empty_when_content_length_absent() {
    let req = decode(b"POST /e HTTP/1.1\r\n\r\ntrailing bytes").unwrap();
    assert_eq!(req.body(), b"");
}

#[test]
fn decode_body_empty_when_content_length_invalid() {
    let req = decode(b"POST /e HTTP/1.1\r\nContent-Length: abc\r\n\r\ntrailing").unwrap();
    assert_eq!(req.body(), b"");
}

#[test]
fn decode_body_empty_when_content_length_zero() {
    let req = decode(b"POST /e HTTP/1.1\r\nContent-Length: 0\r\n\r\ntrailing").unwrap();
    assert_eq!(req.body(), b"");
}

#[test]
fn decode_rejects_short_request_line() {
    assert_eq!(decode(b"GET\r\n\r\n").unwrap_err(), DecodeError::MalformedRequest);
    assert_eq!(decode(b"\r\n\r\n").unwrap_err(), DecodeError::MalformedRequest);
    assert_eq!(decode(b"").unwrap_err(), DecodeError::MalformedRequest);
}

#[test]
fn decode_rejects_unknown_method() {
    assert_eq!(
        decode(b"PATCH / HTTP/1.1\r\n\r\n").unwrap_err(),
        DecodeError::UnsupportedMethod
    );
}

#[test]
fn decode_rejects_invalid_text() {
    assert_eq!(
        decode(b"GET /a\xff HTTP/1.1\r\n\r\n").unwrap_err(),
        DecodeError::InvalidText
    );
    assert_eq!(
        decode(b"GET / HTTP/1.1\r\nA: b\xffc\r\n\r\n").unwrap_err(),
        DecodeError::InvalidText
    );
}

#[test]
fn decode_rejects_truncated_body() {
    assert_eq!(
        decode(b"POST /e HTTP/1.1\r\nContent-Length: 5\r\n\r\nab").unwrap_err(),
        DecodeError::TruncatedBody
    );
}

#[test]
fn needs_more_follows_head_and_body() {
    assert!(codec::needs_more(b""));
    assert!(codec::needs_more(b"GET / HTTP/1.1"));
    assert!(codec::needs_more(b"GET / HTTP/1.1\r\n"));
    assert!(codec::needs_more(b"GET / HTTP/1.1\r\nA: 1\r\n"));
    assert!(!codec::needs_more(b"GET / HTTP/1.1\r\n\r\n"));
    assert!(codec::needs_more(
        b"POST /e HTTP/1.1\r\nContent-Length: 5\r\n\r\nab"
    ));
    assert!(!codec::needs_more(
        b"POST /e HTTP/1.1\r\nContent-Length: 5\r\n\r\nhello"
    ));
}

#[test]
fn path_without_query_stops_at_question_mark() {
    let req = decode(b"GET /items?id=3 HTTP/1.1\r\n\r\n").unwrap();
    assert_eq!(req.path(), "/items?id=3");
    assert_eq!(req.path_without_query(), "/items");
    let req = decode(b"GET /plain HTTP/1.1\r\n\r\n").unwrap();
    assert_eq!(req.path_without_query(), "/plain");
}

#[test]
fn query_params_decode_pairs_last_wins() {
    let req = decode(b"GET /p?a=1&b=2&a=3 HTTP/1.1\r\n\r\n").unwrap();
    let q = req.query_params();
    assert_eq!(q.get("a").unwrap().as_str(), "3");
    assert_eq!(q.get("b").unwrap().as_str(), "2");
    assert_eq!(q.get("c"), None);
}

#[test]
fn query_params_percent_decode() {
    let req = decode(b"GET /p?a%20b=1+2%25 HTTP/1.1\r\n\r\n").unwrap();
    let q = req.query_params();
    assert_eq!(q.get("a b").unwrap().as_str(), "1 2%");
}

#[test]
fn query_params_empty_without_query() {
    let req = decode(b"GET /p HTTP/1.1\r\n\r\n").unwrap();
    assert_eq!(req.query_params().len(), 0);
}

#[test]
fn body_string_requires_valid_text() {
    let req = decode(b"POST /e HTTP/1.1\r\nContent-Length: 2\r\n\r\nok").unwrap();
    assert_eq!(req.body_string().unwrap(), "ok");
    let req = decode(b"POST /e HTTP/1.1\r\nContent-Length: 2\r\n\r\n\xff\xfe").unwrap();
    assert_eq!(req.body_string(), Err(DecodeError::InvalidText));
}

#[test]
fn response_encoding_exact_bytes() {
    let r = Response::new(404).with_text("Route not found");
    let bytes = r.to_http_response();
    let expected = b"HTTP/1.1 404 Not Found\r\nContent-Type: text/plain; charset=utf-8\r\nContent-Length: 15\r\n\r\nRoute not found";
    assert_eq!(bytes, expected.to_vec());
}

#[test]
fn response_reason_phrases() {
    let cases: Vec<(u16, &str)> = vec![
        (200, "OK"),
        (201, "Created"),
        (204, "No Content"),
        (400, "Bad Request"),
        (401, "Unauthorized"),
        (403, "Forbidden"),
        (404, "Not Found"),
        (500, "Internal Server Error"),
        (418, "Unknown"),
        (0, "Unknown"),
    ];
    for (code, reason) in cases {
        let bytes = Response::new(code).to_http_response();
        let text = String::from_utf8(bytes).unwrap();
        let expected = format!("HTTP/1.1 {} {}\r\n\r\n", code, reason);
        assert_eq!(text, expected);
    }
}

#[test]
fn response_binary_body_is_untouched() {
    let payload: Vec<u8> = vec![0, 159, 146, 150, 255];
    let r = Response::ok().with_binary(payload.clone(), "application/octet-stream");
    let bytes = r.to_http_response();
    assert_eq!(&bytes[bytes.len() - payload.len()..], &payload[..]);
    assert_eq!(
        r.headers().get("Content-Length").unwrap(),
        &payload.len().to_string()
    );
}

/// A standards-compliant client-side read of the encoding: the status code,
/// a Content-Length equal to the body's byte length, and the body itself
/// all come back unchanged.
#[test]
fn response_round_trip_through_client() {
    let body = "{\"k\":\"v\"}";
    let r = Response::new(201)
        .with_header("X-Extra", "yes")
        .with_json(body);
    let bytes = r.to_http_response();
    let head_end = bytes
        .windows(4)
        .position(|w| w == b"\r\n\r\n")
        .expect("blank line")
        + 4;
    let head = std::str::from_utf8(&bytes[..head_end]).unwrap();
    let mut lines = head.split("\r\n");
    let status_line = lines.next().unwrap();
    let mut parts = status_line.split(' ');
    assert_eq!(parts.next().unwrap(), "HTTP/1.1");
    let code: u16 = parts.next().unwrap().parse().unwrap();
    let mut content_length: Option<usize> = None;
    for line in lines {
        if let Some((k, v)) = line.split_once(':') {
            if k.trim() == "Content-Length" {
                content_length = Some(v.trim().parse().unwrap());
            }
        }
    }
    let got_body = &bytes[head_end..];
    assert_eq!(code, 201);
    assert_eq!(content_length, Some(body.len()));
    assert_eq!(got_body, body.as_bytes());
}

#[test]
fn response_builders_set_type_and_length() {
    let r = Response::text("hi");
    assert_eq!(r.status_code(), 200);
    assert_eq!(
        r.headers().get("Content-Type").unwrap().as_str(),
        "text/plain; charset=utf-8"
    );
    assert_eq!(r.headers().get("Content-Length").unwrap().as_str(), "2");
    let r = Response::json("{}");
    assert_eq!(
        r.headers().get("Content-Type").unwrap().as_str(),
        "application/json"
    );
    let r = Response::html("<p>x</p>");
    assert_eq!(
        r.headers().get("Content-Type").unwrap().as_str(),
        "text/html; charset=utf-8"
    );
    assert_eq!(r.headers().get("Content-Length").unwrap().as_str(), "8");
    let r = Response::internal_error("boom");
    assert_eq!(r.status_code(), 500);
    assert_eq!(r.body(), b"boom");
}

#[test]
fn response_with_header_overwrites() {
    let r = Response::ok().with_header("A", "1").with_header("A", "2");
    assert_eq!(r.headers().get("A").unwrap().as_str(), "2");
    assert_eq!(r.headers().len(), 1);
}
