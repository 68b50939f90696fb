use proxy_server::headers::{get_content_length, Headers};
use proxy_server::log::{relay_error_level, Log, LogLevel};
use proxy_server::request::Request;

#[test]
fn test_parse_lowercases_value_and_keeps_name() {
    let h = Headers::from_string("GET / HTTP/1.1\r\nHost: BIG\r\n\r\n".to_string());
    assert_eq!(h.parsed.len(), 1);
    assert_eq!(h.parsed[0].name, "Host");
    assert_eq!(h.parsed[0].value, "big");
}

#[test]
fn test_headers_new_records_content_length() {
    let h = Headers::new(b"POST / HTTP/1.1\r\nContent-Length: 11\r\n\r\n".to_vec());
    assert_eq!(h.content_length, 11);
}

#[test]
fn test_headers_new_invalid_utf8_gives_empty_block() {
    let h = Headers::new(vec![0xff, 0xfe]);
    assert_eq!(h.raw, "");
    assert_eq!(h.parsed.len(), 0);
    assert_eq!(h.content_length, 0);
}

#[test]
fn test_change_host_splices_first_host_line() {
    let h = Headers::from_string(
        "GET / HTTP/1.1\r\nHost: old\r\nAccept: text\r\n\r\n".to_string(),
    );
    let h2 = h.change_host("127.0.0.1:3001");
    assert_eq!(
        h2.raw,
        "GET / HTTP/1.1\r\nHost: 127.0.0.1:3001\r\nAccept: text\r\n\r\n"
    );
}

#[test]
fn test_change_host_without_host_line_keeps_block() {
    let h = Headers::from_string("GET / HTTP/1.1\r\nAccept: text\r\n\r\n".to_string());
    let h2 = h.change_host("127.0.0.1:3001");
    assert_eq!(h2.raw, "GET / HTTP/1.1\r\nAccept: text\r\n\r\n");
}

#[test]
fn test_legacy_get_content_length() {
    assert_eq!(get_content_length(&"Content-Length: 42\r\n".to_string()), Some(42));
    assert_eq!(get_content_length(&"no length".to_string()), None);
}

#[test]
fn test_legacy_get_content_length_full_word_range() {
    // A length beyond 32 bits still parses here, as a machine word.
    assert_eq!(
        get_content_length(&"Content-Length: 4294967296\r\n".to_string()),
        Some(4294967296)
    );
}

#[test]
fn test_request_from_string_reads_status() {
    let req = Request::from_string("HTTP/1.1 404 Not Found\r\nHost: a\r\n\r\n".to_string());
    assert_eq!(req.status, 404);
    assert_eq!(req.status_text, "Not");
    assert_eq!(req.protocol, "HTTP/1.1");
    assert_eq!(req.method, "HTTP");
}

#[test]
fn test_request_from_string_defaults() {
    let req = Request::from_string("...\r\n".to_string());
    assert_eq!(req.status, 500);
    assert_eq!(req.status_text, "Internal Server Error");
    assert_eq!(req.method, "OPTIONS");
    assert_eq!(req.protocol, "OPTIONS");
}

#[test]
fn test_request_change_host() {
    let mut req = Request::from_string("GET / HTTP/1.1\r\nHost: a\r\n\r\n".to_string());
    req.change_host("b");
    assert_eq!(req.headers_raw, "GET / HTTP/1.1\r\nHost: b\r\n\r\n");
    assert_eq!(req.headers.len(), 1);
    assert_eq!(req.headers[0].value, "b");
}

#[test]
fn test_log_levels() {
    let level = LogLevel::Warn;
    let log = Log::new(&level);
    assert!(!log.enabled(LogLevel::Info));
    assert!(log.enabled(LogLevel::Warn));
    assert!(log.enabled(LogLevel::Error));
}

#[test]
fn test_relay_error_level() {
    assert_eq!(relay_error_level(true), LogLevel::Info);
    assert_eq!(relay_error_level(false), LogLevel::Error);
}
