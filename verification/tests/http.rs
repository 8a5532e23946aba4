use akai_net::http::{
    content_length, http_response, model_header, read_request, reason, received_enough,
    request_complete, route, split_request, unsent_response, Route,
};

fn chars(s: &str) -> Vec<char> {
    s.chars().collect()
}

#[test]
fn declared_lengths() {
    let length = |s: &str| content_length(&chars(s));
    assert_eq!(length("POST / HTTP/1.1\r\nContent-Length: 12"), 12);
    assert_eq!(length("POST /\r\ncontent-length:7\r\nContent-Length: 12"), 7);
    assert_eq!(length("POST /\r\nCONTENT-LENGTH: 5"), 0);
    assert_eq!(length("POST /\r\nContent-Length: x"), 0);
    assert_eq!(length("POST /\r\nX-Content-Length: 9"), 0);
    assert_eq!(length("GET /"), 0);
    assert_eq!(length("POST /\r\n\u{c4}: \u{c4}\r\nContent-Length: \t3 "), 3);
}

#[test]
fn a_request_ends_with_its_body() {
    let head = "POST /x HTTP/1.1\r\nContent-Length: 4\r\n\r\n";
    assert_eq!(request_complete(b"POST /x"), Some(false));
    assert_eq!(request_complete(head.as_bytes()), Some(false));
    assert_eq!(request_complete(format!("{}abc", head).as_bytes()), Some(false));
    assert_eq!(request_complete(format!("{}abcd", head).as_bytes()), Some(true));
    assert_eq!(request_complete(format!("{}abcde", head).as_bytes()), Some(true));
    assert_eq!(request_complete(b"GET / HTTP/1.1\r\n\r\n"), Some(true));
    assert!(received_enough("GET / HTTP/1.1\r\n\r\n", 18));
    assert!(!received_enough(head, head.len() + 3));
    assert!(received_enough(head, head.len() + 4));
}

#[test]
fn lengths_are_counted_in_bytes() {
    let head = "POST /\u{20ac} HTTP/1.1\r\nContent-Length: 3\r\n\r\n";
    assert_eq!(request_complete(format!("{}ab", head).as_bytes()), Some(false));
    assert_eq!(request_complete(format!("{}\u{20ac}", head).as_bytes()), Some(true));
}

#[test]
fn a_full_buffer_ends_a_request() {
    assert_eq!(request_complete(&vec![b'a'; 65534]), Some(false));
    assert_eq!(request_complete(&vec![b'a'; 65535]), Some(true));
}

#[test]
fn bytes_that_grow_as_text() {
    assert_eq!(request_complete(b"\xff\xff\r\n\r\n"), None);
    assert_eq!(request_complete(b"\xff\xff\r\n\r\nabcd"), Some(true));
    let r = read_request(b"GET /health\xff\r\n\r\n x\xff ");
    assert_eq!(r.line, "GET /health\u{fffd}");
    assert_eq!(r.body, "x\u{fffd}");
}

#[test]
fn the_parts_of_a_request() {
    let r = split_request("POST /a HTTP/1.1\r\nHost: h\r\n\r\n  {\"a\":1}\r\n\r\nx\n");
    assert_eq!(r.line, "POST /a HTTP/1.1");
    assert_eq!(r.body, "{\"a\":1}\r\n\r\nx");
    let r = split_request("GET /a\nHost: h");
    assert_eq!(r.line, "GET /a");
    assert_eq!(r.body, "");
    let r = split_request("");
    assert_eq!((r.line.as_str(), r.body.as_str()), ("", ""));
    let r = read_request("GET /\u{20ac}\r\n\r\n\u{20ac}".as_bytes());
    assert_eq!((r.line.as_str(), r.body.as_str()), ("GET /\u{20ac}", "\u{20ac}"));
}

#[test]
fn routes() {
    assert!(route("GET /health HTTP/1.1") == Route::Health);
    assert!(route("GET /healthy") == Route::Health);
    assert!(route("GET /v1/models") == Route::Models);
    assert!(route("POST /workers/register") == Route::RegisterWorker);
    assert!(route("POST /auth/register") == Route::AuthRegister);
    assert!(route("POST /auth/login?x=1") == Route::AuthLogin);
    assert!(route("POST /auth/vpn") == Route::AuthVpn);
    assert!(route("POST /admin/model") == Route::AdminModel);
    assert!(route("GET /tunnel/certs") == Route::TunnelCerts);
    assert!(route("GET /pipeline/status") == Route::PipelineStatus);
    assert!(route("GET /model/download") == Route::ModelDownload);
    assert!(route("POST /v1/chat/completions") == Route::Chat);
    assert!(route("POST /v1/completions") == Route::Completions);
    assert!(route("POST /health") == Route::Unknown);
    assert!(route("get /health") == Route::Unknown);
    assert!(route("") == Route::Unknown);
}

#[test]
fn framed_replies() {
    assert_eq!(
        http_response(200, "{}"),
        "HTTP/1.1 200 OK\r\nContent-Type: application/json\r\nContent-Length: 2\r\n\r\n{}"
    );
    assert_eq!(
        http_response(404, "\u{20ac}"),
        "HTTP/1.1 404 Not Found\r\nContent-Type: application/json\r\nContent-Length: 3\r\n\r\n\u{20ac}"
    );
    assert_eq!(
        unsent_response(""),
        "HTTP/1.1 500 OK\r\nContent-Type: application/json\r\nContent-Length: 0\r\n\r\n"
    );
    assert_eq!(
        model_header(12, "ab"),
        "HTTP/1.1 200 OK\r\nContent-Type: application/octet-stream\r\nContent-Length: 12\r\nX-Model-Hash: ab\r\n\r\n"
    );
}

#[test]
fn reasons() {
    let words: Vec<String> =
        [200, 400, 403, 404, 500, 502, 503, 504, 418].iter().map(|s| reason(*s)).collect();
    assert_eq!(
        words,
        vec![
            "OK",
            "Bad Request",
            "Forbidden",
            "Not Found",
            "Internal Server Error",
            "Bad Gateway",
            "Service Unavailable",
            "Gateway Timeout",
            "OK",
        ]
    );
}
