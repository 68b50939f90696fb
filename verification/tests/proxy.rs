use proxy_server::http::headers::{Header, Headers};
use proxy_server::http::request::{Request, Socket};
use proxy_server::http::status::Status as TableStatus;
use proxy_server::http::{read_body, read_headers, tunnel, body_to_string};
use proxy_server::prelude::constants::{PROXY_ADDRESS, TARGET_ADDRESS, TTL_DEFAULT};
use proxy_server::prelude::{encode_chunked, space_bef_cap};
use proxy_server::{Builder, ClientDecision, Handler};

fn socket() -> Socket {
    Socket {
        host: PROXY_ADDRESS.to_string(),
        peer_addr: PROXY_ADDRESS.to_string(),
        ttl: TTL_DEFAULT,
        error: "".to_string(),
    }
}

#[test]
fn test_builder_defaults_and_setters() {
    let b = Builder::new();
    assert_eq!(b.address, PROXY_ADDRESS);
    assert_eq!(b.target, TARGET_ADDRESS);
    assert_eq!(b.threads, 4);

    let b = Builder::new()
        .with_address("127.0.0.1:4000")
        .with_target("127.0.0.1:4001")
        .with_threads(2);
    assert_eq!(b.address, "127.0.0.1:4000");
    assert_eq!(b.target, "127.0.0.1:4001");
    assert_eq!(b.threads, 2);
}

#[test]
fn test_space_bef_cap() {
    assert_eq!(space_bef_cap("BadRequest".to_string()), " Bad Request");
    assert_eq!(space_bef_cap("OK".to_string()), " OK");
    assert_eq!(space_bef_cap("plain".to_string()), "plain");
}

#[test]
fn test_missing_host_is_rejected_with_400() {
    let handler = Handler::new(Builder::new());
    let block = b"GET / HTTP/1.1\r\nAccept: text\r\n\r\n".to_vec();
    match handler.on_client_headers(socket(), block) {
        ClientDecision::Reject { response } => {
            assert!(response.starts_with("HTTP/1.1 400"));
            assert_eq!(
                response,
                "HTTP/1.1 400 Bad Request\r\nContent-Length: 0\r\n\r\n"
            );
        }
        ClientDecision::Forward { .. } => panic!("a Host-less block must be rejected"),
    }
}

#[test]
fn test_empty_block_is_rejected_with_400() {
    let handler = Handler::new(Builder::new());
    match handler.on_client_headers(socket(), Vec::new()) {
        ClientDecision::Reject { response } => {
            assert!(response.starts_with("HTTP/1.1 400"));
        }
        ClientDecision::Forward { .. } => panic!("an empty block must be rejected"),
    }
}

#[test]
fn test_connect_failure_yields_502() {
    let handler = Handler::new(Builder::new());
    let response = handler.on_connect_failed();
    assert!(response.starts_with("HTTP/1.1 502"));
    assert_eq!(
        response,
        "HTTP/1.1 502 Bad Gateway\r\nContent-Length: 0\r\n\r\n"
    );
}

#[test]
fn test_forward_rewrites_host() {
    let handler = Handler::new(Builder::new());
    let block = b"GET / HTTP/1.1\r\nHost: 127.0.0.1:3000\r\n\r\n".to_vec();
    match handler.on_client_headers(socket(), block) {
        ClientDecision::Forward { request } => {
            assert_eq!(request.host, TARGET_ADDRESS);
            assert_eq!(
                request.headers.raw,
                format!("GET / HTTP/1.1\r\nhost: {}\r\n\r\n", TARGET_ADDRESS)
            );
        }
        ClientDecision::Reject { .. } => panic!("a block with a Host must be forwarded"),
    }
}

/// The whole request cycle on in-memory streams: the client posts a body,
/// the echo target answers it chunked, the relay forwards it, and the
/// client reconstructs the literal body.
#[test]
fn test_proxy_server() {
    let handler = Handler::new(Builder::new());

    // The client's request: headers, then the body "echo".
    let raw_headers = Headers::new_request(
        "POST / HTTP/1.1",
        vec![
            Header {
                name: "Host".to_string(),
                value: PROXY_ADDRESS.to_string(),
            },
            Header {
                name: "Content-Length".to_string(),
                value: "4".to_string(),
            },
        ],
    )
    .raw;
    let mut client_stream = raw_headers.as_bytes().to_vec();
    client_stream.extend_from_slice(b"echo");

    // The proxy reads the header block and decides.
    let block = read_headers(&client_stream);
    let rest = client_stream[block.len()..].to_vec();
    let request = match handler.on_client_headers(socket(), block) {
        ClientDecision::Forward { request } => request,
        ClientDecision::Reject { .. } => panic!("the request carries a Host"),
    };
    assert_eq!(request.content_length, 4);

    // The proxy forwards the rewritten headers, the body, and a zero byte.
    let body = read_body(&rest, request.content_length, request.chunked);
    assert_eq!(body, b"echo".to_vec());
    let mut upstream_stream = request.headers.raw.as_bytes().to_vec();
    upstream_stream.extend_from_slice(&body);
    upstream_stream.push(0);

    // The echo target reads the request and answers chunked.
    let target_block = read_headers(&upstream_stream);
    let target_rest = upstream_stream[target_block.len()..].to_vec();
    let target_req = Request::new(socket(), target_block).unwrap();
    assert_eq!(target_req.content_length, 4);
    let target_body = read_body(&target_rest, target_req.content_length, target_req.chunked);
    assert_eq!(target_body, b"echo".to_vec());

    let response_heads = Headers::new_response(
        &TableStatus::new(200),
        vec![
            Header {
                name: "Content-Type".to_string(),
                value: "plain/text".to_string(),
            },
            Header {
                name: "Transfer-Encoding".to_string(),
                value: "chunked".to_string(),
            },
            Header {
                name: "Server".to_string(),
                value: "echo-rs".to_string(),
            },
        ],
    );
    let mut response_stream = response_heads.raw.as_bytes().to_vec();
    response_stream.extend_from_slice(encode_chunked(&target_body).as_bytes());
    response_stream.extend_from_slice(b"0\r\n\r\n");

    // The proxy forwards the response headers and tunnels the rest.
    let response_block = read_headers(&response_stream);
    let tunneled = tunnel(&response_stream[response_block.len()..].to_vec());

    // The client reads the response and reconstructs the body.
    let client_resp = Request::new(socket(), response_block).unwrap();
    assert!(client_resp.chunked);
    let received = read_body(&tunneled, client_resp.content_length, client_resp.chunked);
    let rec_body = body_to_string(received).unwrap();

    assert_eq!("echo", rec_body);
}
