use proxy_server::http::headers::{Header, Headers};
use proxy_server::http::request::{Request, Socket};
use proxy_server::http::status::Status;
use proxy_server::prelude::constants::{PROXY_ADDRESS, TARGET_ADDRESS, TTL_DEFAULT};

fn socket() -> Socket {
    Socket {
        host: PROXY_ADDRESS.to_string(),
        peer_addr: PROXY_ADDRESS.to_string(),
        ttl: TTL_DEFAULT,
        error: "".to_string(),
    }
}

#[test]
fn test_change_header_host() {
    let status = Status {
        code: 200,
        text: "OK".to_string(),
    };
    let headers = Headers::new_response(
        &status,
        vec![Header {
            name: "Host".to_string(),
            value: PROXY_ADDRESS.to_string(),
        }],
    );
    let mut req = Request::create(socket(), headers);
    req.change_host(TARGET_ADDRESS).unwrap();

    assert_eq!(
        req.headers.raw,
        format!(
            "{}\r\nhost: {}\r\n\r\n",
            status.to_full_string(),
            TARGET_ADDRESS
        )
    );
}

#[test]
fn test_from_string_parses_lines() {
    let h = Headers::from_string("GET / HTTP/1.1\r\nHost: a\r\nX-Test: BIG\r\n\r\n".to_string());
    assert_eq!(h.list.len(), 2);
    assert_eq!(h.list[0].name, "Host");
    assert_eq!(h.list[0].value, "a");
    assert_eq!(h.list[1].name, "X-Test");
    assert_eq!(h.list[1].value, "big");
}

#[test]
fn test_from_string_skips_lines_without_separator() {
    let h = Headers::from_string("HTTP/1.1 200 OK\r\nplain\r\nA: b\r\n\r\n".to_string());
    assert_eq!(h.list.len(), 1);
    assert_eq!(h.list[0].name, "A");
}

#[test]
fn test_from_string_empty() {
    let h = Headers::new();
    assert_eq!(h.raw, "");
    assert_eq!(h.list.len(), 0);
}

#[test]
fn test_to_string_renders_lowercase() {
    let rendered = Headers::to_string(vec![
        Header {
            name: "Host".to_string(),
            value: "EXAMPLE".to_string(),
        },
        Header {
            name: "Content-Length".to_string(),
            value: "4".to_string(),
        },
    ]);
    assert_eq!(rendered, "host: example\r\ncontent-length: 4\r\n\r\n");
}

#[test]
fn test_serialize_parse_round_trip() {
    let rendered = Headers::to_string(vec![
        Header {
            name: "Host".to_string(),
            value: "A: B".to_string(),
        },
        Header {
            name: "X-Empty".to_string(),
            value: "".to_string(),
        },
    ]);
    let parsed = Headers::from_string(rendered);
    assert_eq!(parsed.list.len(), 2);
    assert_eq!(parsed.list[0].name, "host");
    assert_eq!(parsed.list[0].value, "a: b");
    assert_eq!(parsed.list[1].name, "x-empty");
    assert_eq!(parsed.list[1].value, "");
}

#[test]
fn test_set_header_appends_when_missing() {
    let h = Headers::from_string("GET / HTTP/1.1\r\nAccept: text\r\n\r\n".to_string());
    let h2 = h.set_header("Host", "example").unwrap();
    assert_eq!(h2.raw, "GET / HTTP/1.1\r\naccept: text\r\nhost: example\r\n\r\n");
    assert_eq!(h2.list.len(), 2);
    assert_eq!(h2.list[1].name, "host");
    assert_eq!(h2.list[1].value, "example");
}

#[test]
fn test_set_header_replaces_first_match_only() {
    let h = Headers::from_string("GET / HTTP/1.1\r\nHost: a\r\nOther: x\r\n\r\n".to_string());
    let h2 = h.set_header("HOST", "b").unwrap();
    assert_eq!(h2.raw, "GET / HTTP/1.1\r\nhost: b\r\nother: x\r\n\r\n");
}

#[test]
fn test_set_header_without_prefix_line_fails() {
    let h = Headers::from_string("no line end at all".to_string());
    assert!(h.set_header("host", "b").is_err());
}

#[test]
fn test_get_content_length_case_insensitive() {
    assert_eq!(
        Headers::get_content_length(&"content-length: 4\r\n".to_string()),
        Some(4)
    );
    assert_eq!(
        Headers::get_content_length(&"Content-Length: 4\r\n".to_string()),
        Some(4)
    );
    assert_eq!(
        Headers::get_content_length(&"CONTENT-LENGTH:\t 123\r\n".to_string()),
        Some(123)
    );
}

#[test]
fn test_get_content_length_absent_or_malformed() {
    assert_eq!(
        Headers::get_content_length(&"GET / HTTP/1.1\r\nHost: a\r\n\r\n".to_string()),
        None
    );
    assert_eq!(
        Headers::get_content_length(&"Content-Length: abc\r\n".to_string()),
        None
    );
    assert_eq!(
        Headers::get_content_length(&"Content-Length: 99999999999\r\n".to_string()),
        None
    );
}

#[test]
fn test_get_content_length_takes_first_parsable() {
    assert_eq!(
        Headers::get_content_length(&"Content-Length: x\r\nContent-Length: 7\r\n".to_string()),
        Some(7)
    );
}

#[test]
fn test_get_url() {
    assert_eq!(
        Headers::get_url(&"GET /a/b-c?x=1 HTTP/1.1\r\n".to_string()),
        "/a/b-c"
    );
    assert_eq!(Headers::get_url(&"no path here".to_string()), "/");
}

#[test]
fn test_get_query() {
    assert_eq!(
        Headers::get_query(&"GET /a?x=1&y=2 HTTP/1.1\r\n".to_string()),
        "?x=1&y=2"
    );
    assert_eq!(Headers::get_query(&"GET / HTTP/1.1\r\n".to_string()), "");
}

#[test]
fn test_get_method() {
    assert_eq!(
        Headers::get_method(&"POST / HTTP/1.1\r\n".to_string()),
        "POST"
    );
    assert_eq!(Headers::get_method(&"???".to_string()), "OPTIONS");
}

#[test]
fn test_get_protocol() {
    assert_eq!(
        Headers::get_protocol(&"GET / HTTP/1.1\r\n".to_string()),
        "HTTP/1.1"
    );
    assert_eq!(
        Headers::get_protocol(&"x HTTPS/2.0 y".to_string()),
        "HTTPS/2.0"
    );
    assert_eq!(Headers::get_protocol(&"HTTP/x".to_string()), "OPTIONS");
}

#[test]
fn test_get_chunked() {
    assert!(Headers::get_chunked(
        &"HTTP/1.1 200 OK\r\nTransfer-Encoding: chunked\r\n\r\n".to_string()
    ));
    assert!(Headers::get_chunked(
        &"transfer-encoding:  CHUNKED\r\n".to_string()
    ));
    assert!(!Headers::get_chunked(
        &"Transfer-Encoding: gzip\r\n".to_string()
    ));
    assert!(!Headers::get_chunked(&"HTTP/1.1 200 OK\r\n\r\n".to_string()));
}

#[test]
fn test_from_bytes_rejects_invalid_utf8() {
    let bytes: Vec<u8> = vec![0x48, 0xff, 0xfe];
    assert!(Headers::from_bytes(&bytes).is_err());
}

#[test]
fn test_from_bytes_parses_valid_utf8() {
    let bytes = b"GET / HTTP/1.1\r\nHost: a\r\n\r\n".to_vec();
    let h = Headers::from_bytes(&bytes).unwrap();
    assert_eq!(h.raw, "GET / HTTP/1.1\r\nHost: a\r\n\r\n");
    assert_eq!(h.list.len(), 1);
}

#[test]
fn test_new_request_trims_prefix() {
    let h = Headers::new_request(
        "POST / HTTP/1.1   \r\n",
        vec![Header {
            name: "Host".to_string(),
            value: "a".to_string(),
        }],
    );
    assert_eq!(h.raw, "POST / HTTP/1.1\r\nhost: a\r\n\r\n");
}

#[test]
fn test_request_create_derives_fields() {
    let headers = Headers::from_string(
        "POST /p?q=1 HTTP/1.1\r\nHost: a\r\nContent-Length: 4\r\n\r\n".to_string(),
    );
    let req = Request::create(socket(), headers);
    assert_eq!(req.url, "/p");
    assert_eq!(req.query, "?q=1");
    assert_eq!(req.method, "POST");
    assert_eq!(req.protocol, "HTTP/1.1");
    assert_eq!(req.content_length, 4);
    assert!(!req.chunked);
    assert_eq!(req.body, "");
}
