use observatory::wire::{build_http_response, parse_http_request, parse_query_string};

fn lookup(pairs: &[(Vec<u8>, Vec<u8>)], key: &str) -> Option<String> {
    let mut found = None;
    for (k, v) in pairs {
        if k.as_slice() == key.as_bytes() {
            found = Some(String::from_utf8(v.clone()).unwrap());
        }
    }
    found
}

#[test]
fn test_parse_http_request_post() {
    let raw = b"POST /hook?event=PreToolUse HTTP/1.1\r\nContent-Type: application/json\r\nContent-Length: 21\r\n\r\n{\"tool_name\": \"Bash\"}";
    let req = parse_http_request(raw);
    assert_eq!(String::from_utf8(req.method.clone()).unwrap(), "POST");
    assert_eq!(
        String::from_utf8(req.path.clone()).unwrap(),
        "/hook?event=PreToolUse"
    );
    assert_eq!(
        String::from_utf8(req.body.clone()).unwrap(),
        "{\"tool_name\": \"Bash\"}"
    );
    assert_eq!(
        lookup(&req.headers, "content-type").unwrap(),
        "application/json"
    );
    assert_eq!(lookup(&req.headers, "content-length").unwrap(), "21");
}

#[test]
fn test_parse_http_request_get() {
    let raw = b"GET /health HTTP/1.1\r\nHost: localhost\r\n\r\n";
    let req = parse_http_request(raw);
    assert_eq!(String::from_utf8(req.method.clone()).unwrap(), "GET");
    assert_eq!(String::from_utf8(req.path.clone()).unwrap(), "/health");
    assert_eq!(String::from_utf8(req.body.clone()).unwrap(), "");
}

#[test]
fn test_parse_http_request_empty_body() {
    let raw = b"POST /hook?event=Stop HTTP/1.1\r\nContent-Length: 0\r\n\r\n";
    let req = parse_http_request(raw);
    assert_eq!(String::from_utf8(req.method.clone()).unwrap(), "POST");
    assert_eq!(
        String::from_utf8(req.path.clone()).unwrap(),
        "/hook?event=Stop"
    );
    assert_eq!(String::from_utf8(req.body.clone()).unwrap(), "");
}

#[test]
fn test_parse_http_request_no_request_line() {
    let req = parse_http_request(b"");
    assert_eq!(String::from_utf8(req.method.clone()).unwrap(), "");
    assert_eq!(String::from_utf8(req.path.clone()).unwrap(), "/");
    assert!(req.headers.is_empty());
}

#[test]
fn test_parse_http_request_duplicate_header_last_wins() {
    let raw = b"POST / HTTP/1.1\r\nX-A: one\r\nX-A: two\r\n\r\n";
    let req = parse_http_request(raw);
    assert_eq!(lookup(&req.headers, "x-a").unwrap(), "two");
}

#[test]
fn test_content_length_and_shortfall() {
    let raw = b"POST /hook HTTP/1.1\r\nContent-Length: 10\r\n\r\nabc";
    let mut req = parse_http_request(raw);
    assert_eq!(req.content_length(), Some(10));
    assert_eq!(req.body_shortfall(), 7);
    req.append_body(&b"defghij".to_vec());
    assert_eq!(req.body_shortfall(), 0);
    assert_eq!(String::from_utf8(req.body.clone()).unwrap(), "abcdefghij");
}

#[test]
fn test_build_http_response_200() {
    let resp = build_http_response(200, &Vec::new());
    let text = String::from_utf8(resp).unwrap();
    assert!(text.starts_with("HTTP/1.1 200 OK\r\n"));
    assert!(text.contains("Content-Length: 0"));
}

#[test]
fn test_build_http_response_200_with_body() {
    let resp = build_http_response(200, &b"{\"status\":\"ok\"}".to_vec());
    let text = String::from_utf8(resp).unwrap();
    assert!(text.contains("Content-Length: 15"));
    assert!(text.ends_with("{\"status\":\"ok\"}"));
}

#[test]
fn test_build_http_response_404() {
    let resp = build_http_response(404, &Vec::new());
    let text = String::from_utf8(resp).unwrap();
    assert!(text.starts_with("HTTP/1.1 404 Not Found"));
}

#[test]
fn test_build_http_response_other_status() {
    let resp = build_http_response(500, &Vec::new());
    let text = String::from_utf8(resp).unwrap();
    assert!(text.starts_with("HTTP/1.1 500 Unknown\r\n"));
}

#[test]
fn test_parse_query_string() {
    let params = parse_query_string(b"event=PreToolUse&foo=bar");
    assert_eq!(lookup(&params, "event").unwrap(), "PreToolUse");
    assert_eq!(lookup(&params, "foo").unwrap(), "bar");
}

#[test]
fn test_parse_query_string_single() {
    let params = parse_query_string(b"event=SessionStart");
    assert_eq!(lookup(&params, "event").unwrap(), "SessionStart");
    assert_eq!(params.len(), 1);
}

#[test]
fn test_parse_query_string_empty() {
    let params = parse_query_string(b"");
    assert!(params.is_empty());
}

#[test]
fn test_parse_query_string_duplicate_key_last_wins() {
    let params = parse_query_string(b"k=1&k=2&k=3");
    assert_eq!(lookup(&params, "k").unwrap(), "3");
}

#[test]
fn test_parse_query_string_malformed_segments_dropped() {
    let params = parse_query_string(b"alone&k=v&&novalue");
    assert_eq!(params.len(), 1);
    assert_eq!(lookup(&params, "k").unwrap(), "v");
}

#[test]
fn test_parse_query_string_value_keeps_equals() {
    let params = parse_query_string(b"k=a=b");
    assert_eq!(lookup(&params, "k").unwrap(), "a=b");
}
