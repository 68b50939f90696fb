use proxy_server::http::{
    body_to_string, content_length_line, end_line, filter_zero_bytes, read_body, read_headers,
    status_line, tunnel, zero_byte_marker, HttpError, Status,
};
use proxy_server::prelude::constants::CHUNK_SIZE;

#[test]
fn test_read_headers_stops_at_blank_line() {
    let stream = b"GET / HTTP/1.1\r\nHost: a\r\n\r\nBODYBYTES".to_vec();
    let block = read_headers(&stream);
    assert_eq!(block, b"GET / HTTP/1.1\r\nHost: a\r\n\r\n".to_vec());
}

#[test]
fn test_read_headers_accepts_bare_newlines() {
    let stream = b"GET / HTTP/1.1\nHost: a\n\nrest".to_vec();
    let block = read_headers(&stream);
    assert_eq!(block, b"GET / HTTP/1.1\nHost: a\n\n".to_vec());
}

#[test]
fn test_read_headers_takes_all_when_peer_closes_early() {
    let stream = b"GET / HT".to_vec();
    let block = read_headers(&stream);
    assert_eq!(block, stream);
}

#[test]
fn test_read_body_empty_when_no_body_announced() {
    let stream = b"some bytes".to_vec();
    assert_eq!(read_body(&stream, 0, false), Vec::<u8>::new());
}

#[test]
fn test_read_body_stops_at_zero_byte() {
    let mut stream = b"echo".to_vec();
    stream.push(0);
    stream.extend_from_slice(b"tail");
    assert_eq!(read_body(&stream, 4, false), b"echo".to_vec());
}

#[test]
fn test_read_body_chunked_takes_all_without_zero() {
    let stream = b"1\r\ne\r\n0\r\n\r\n".to_vec();
    assert_eq!(read_body(&stream, 0, true), stream);
}

#[test]
fn test_filter_zero_bytes() {
    let chunk = vec![1u8, 0, 2, 0, 0, 3];
    assert_eq!(filter_zero_bytes(&chunk), vec![1u8, 2, 3]);
}

#[test]
fn test_tunnel_relays_nonzero_bytes() {
    let mut stream = b"hello".to_vec();
    stream.push(0);
    stream.push(0);
    let relayed = tunnel(&stream);
    assert_eq!(relayed, b"hello".to_vec());
}

#[test]
fn test_tunnel_stops_at_all_zero_chunk() {
    let mut stream = vec![0u8; CHUNK_SIZE];
    stream.extend_from_slice(b"after");
    assert_eq!(tunnel(&stream), Vec::<u8>::new());
}

#[test]
fn test_tunnel_crosses_chunk_boundaries() {
    let stream = vec![7u8; CHUNK_SIZE + 100];
    assert_eq!(tunnel(&stream).len(), CHUNK_SIZE + 100);
}

#[test]
fn test_body_to_string_strips_chunk_markers() {
    let body = b"1\r\ne\r\n1\r\nc\r\n1\r\nh\r\n1\r\no\r\n0\r\n\r\n".to_vec();
    assert_eq!(body_to_string(body).unwrap(), "echo");
}

#[test]
fn test_body_to_string_keeps_plain_text() {
    let body = b"plain text".to_vec();
    assert_eq!(body_to_string(body).unwrap(), "plain text");
}

#[test]
fn test_body_to_string_strips_trailing_zero_marker() {
    let body = b"abc\r\n0".to_vec();
    assert_eq!(body_to_string(body).unwrap(), "abc");
}

#[test]
fn test_body_to_string_rejects_invalid_utf8() {
    let body = vec![0xffu8, 0xfe];
    assert_eq!(body_to_string(body), Err(HttpError::InvalidData));
}

#[test]
fn test_status_line_renders_spaced_name() {
    assert_eq!(status_line(&Status::BadGateway), "HTTP/1.1 502 Bad Gateway\r\n");
    assert_eq!(status_line(&Status::BadRequest), "HTTP/1.1 400 Bad Request\r\n");
    assert_eq!(status_line(&Status::OK), "HTTP/1.1 200 OK\r\n");
}

#[test]
fn test_framing_writers() {
    assert_eq!(content_length_line(0), "Content-Length: 0\r\n");
    assert_eq!(content_length_line(1234), "Content-Length: 1234\r\n");
    assert_eq!(end_line(), "\r\n");
    assert_eq!(zero_byte_marker(), "0\r\n\r\n");
}
