use proxy_server::http::status::Status;

#[test]
fn test_lookup_known_codes() {
    let s = Status::new(200);
    assert_eq!(s.code, 200);
    assert_eq!(s.text, "OK");

    let s = Status::new(404);
    assert_eq!(s.code, 404);
    assert_eq!(s.text, "Not Found");

    let s = Status::new(418);
    assert_eq!(s.code, 418);
    assert_eq!(s.text, "I'm a teapot");

    let s = Status::new(502);
    assert_eq!(s.code, 502);
    assert_eq!(s.text, "Bad Gateway");
}

#[test]
fn test_lookup_unknown_code_falls_back() {
    let s = Status::new(9999);
    assert_eq!(s.code, 501);
    assert_eq!(s.text, "Not Implemented");

    let s = Status::new(0);
    assert_eq!(s.code, 501);
    assert_eq!(s.text, "Not Implemented");
}

#[test]
fn test_status_to_string() {
    let s = Status::new(200);
    assert_eq!(s.to_string(), "200 OK");
    assert_eq!(s.to_full_string(), "HTTP/1.1 200 OK");
}

#[test]
fn test_status_to_string_of_handmade_status() {
    let s = Status {
        code: 307,
        text: "Temporary Redirect".to_string(),
    };
    assert_eq!(s.to_full_string(), "HTTP/1.1 307 Temporary Redirect");
}
