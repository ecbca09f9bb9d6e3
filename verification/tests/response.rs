use http_server::{Headers, Response};

fn html_headers() -> Headers {
    let mut h = Headers::new();
    h.insert("Content-Type".to_owned(), "text/html".to_owned());
    h
}

#[test]
fn test_response_struct_creation_200() {
    let response_actual = Response::new(200, None, Some("body".to_owned()));
    let response_expected = Response {
        version: "HTTP/1.1",
        status_code: 200,
        status_text: "OK",
        headers: Some(html_headers()),
        body: Some("body".to_owned()),
    };
    assert_eq!(response_actual, response_expected);
}

#[test]
fn test_response_struct_creation_404() {
    let response_actual = Response::new(404, None, Some("body".into()));
    let response_expected = Response {
        version: "HTTP/1.1",
        status_code: 404,
        status_text: "Not Found",
        headers: Some(html_headers()),
        body: Some("body".to_owned()),
    };
    assert_eq!(response_actual, response_expected);
}

#[test]
fn test_http_response_creation() {
    let response_expected = Response {
        version: "HTTP/1.1",
        status_code: 404,
        status_text: "Not Found",
        headers: Some(html_headers()),
        body: Some("body".to_owned()),
    };
    let response_expected: String = response_expected.to_http_string();
    let response_actual =
        "HTTP/1.1 404 Not Found\r\nContent-Type:text/html\r\nContent-Length: 4\r\n\r\nbody";
    assert_eq!(response_expected, response_actual);
}

#[test]
fn status_texts() {
    assert_eq!(Response::new(400, None, None).status_text, "Bad Request");
    assert_eq!(Response::new(500, None, None).status_text, "Internal Server Error");
    assert_eq!(Response::new(201, None, None).status_text, "Not Found");
    assert_eq!(Response::new(201, None, None).status_code, 201);
}

#[test]
fn given_headers_are_kept() {
    let mut h = Headers::new();
    h.insert("A".to_owned(), "1".to_owned());
    h.insert("B".to_owned(), "2".to_owned());
    let r = Response::new(200, Some(h), None);
    assert_eq!(
        r.to_http_string(),
        "HTTP/1.1 200 OK\r\nA:1\r\nB:2\r\nContent-Length: 0\r\n\r\n"
    );
}

#[test]
fn content_length_counts_utf8_bytes() {
    let r = Response::new(200, None, Some("héllo €".to_owned()));
    let text = r.to_http_string();
    assert!(text.contains("Content-Length: 10\r\n"));
    assert!(text.ends_with("\r\n\r\nhéllo €"));
}

#[test]
fn send_response_appends_the_encoded_text() {
    let r = Response::new(404, None, Some("body".to_owned()));
    let mut out = b"prefix".to_vec();
    r.send_response(&mut out);
    assert_eq!(
        out,
        b"prefixHTTP/1.1 404 Not Found\r\nContent-Type:text/html\r\nContent-Length: 4\r\n\r\nbody".to_vec()
    );
}

#[test]
fn large_status_code_is_written_in_full() {
    let r = Response::new(65535, None, Some(String::new()));
    assert_eq!(
        r.to_http_string(),
        "HTTP/1.1 65535 Not Found\r\nContent-Type:text/html\r\nContent-Length: 0\r\n\r\n"
    );
}

#[test]
fn headers_insert_replaces_in_place() {
    let mut h = Headers::new();
    assert_eq!(h.insert("A".to_owned(), "1".to_owned()), None);
    assert_eq!(h.insert("B".to_owned(), "2".to_owned()), None);
    assert_eq!(h.insert("A".to_owned(), "3".to_owned()), Some("1".to_owned()));
    assert_eq!(h.len(), 2);
    assert_eq!(h.get(&"A".to_owned()), Some(&"3".to_owned()));
    assert_eq!(h.get(&"C".to_owned()), None);
    assert_eq!(h.entries()[0].0, "A");
}

#[test]
fn header_equality_ignores_order() {
    let mut a = Headers::new();
    a.insert("A".to_owned(), "1".to_owned());
    a.insert("B".to_owned(), "2".to_owned());
    let mut b = Headers::new();
    b.insert("B".to_owned(), "2".to_owned());
    b.insert("A".to_owned(), "1".to_owned());
    assert_eq!(a, b);
    b.insert("A".to_owned(), "9".to_owned());
    assert_ne!(a, b);
    let mut c = Headers::new();
    c.insert("A".to_owned(), "1".to_owned());
    assert_ne!(a, c);
    c.insert("C".to_owned(), "2".to_owned());
    assert_ne!(a, c);
}
