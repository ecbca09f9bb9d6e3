use std::collections::HashMap;

use http_server::{Method, Request, Resource, Version};

fn headers_of(req: &Request) -> HashMap<String, String> {
    req.headers.entries().iter().cloned().collect()
}

#[test]
fn test_method_into() {
    let m: Method = "GET".into();
    assert_eq!(m, Method::Get);
}

#[test]
fn test_version_into() {
    let v: Version = "HTTP/1.1".into();
    assert_eq!(v, Version::V1_1);
}

#[test]
fn test_read_http() {
    let req = String::from(
        "GET /orders HTTP/1.1\r\nHost: localhost:3000\r\nUser-Agent: curl/7.81.0\r\nAccept: */*\r\n\r\n",
    );
    let mut headers_expected = HashMap::new();
    headers_expected.insert("Host".to_owned(), " localhost".to_owned());
    headers_expected.insert("Accept".to_owned(), " */*".to_owned());
    headers_expected.insert("User-Agent".to_owned(), " curl/7.81.0".to_owned());
    let req: Request = Request::from(req);
    assert_eq!(Method::Get, req.method);
    assert_eq!(Version::V1_1, req.version);
    assert_eq!(Resource::Path("/orders".to_owned()), req.resource);
    assert_eq!(headers_expected, headers_of(&req));
}

#[test]
fn method_and_version_from_other_words() {
    let post: Method = "POST".into();
    assert_eq!(post, Method::Post);
    let other: Method = "get".into();
    assert_eq!(other, Method::Uninitialized);
    let put: Method = "PUT".into();
    assert_eq!(put, Method::Uninitialized);
    let old: Version = "HTTP/1.0".into();
    assert_eq!(old, Version::Uninitialized);
    let empty: Version = "".into();
    assert_eq!(empty, Version::Uninitialized);
}

#[test]
fn empty_text_gives_the_empty_request() {
    let req = Request::from(String::new());
    assert_eq!(req.method, Method::Uninitialized);
    assert_eq!(req.version, Version::V1_1);
    assert_eq!(req.resource, Resource::Path(String::new()));
    assert_eq!(req.headers.len(), 0);
    assert_eq!(req.body, "");
}

#[test]
fn body_lines_are_joined_without_line_ends() {
    let req = Request::from("POST /submit HTTP/1.1\r\nContent-Type: text/plain\r\n\r\nhello\r\nworld\n".to_owned());
    assert_eq!(req.method, Method::Post);
    assert_eq!(req.resource, Resource::Path("/submit".to_owned()));
    assert_eq!(req.body, "helloworld");
    assert_eq!(headers_of(&req).get("Content-Type").map(|s| s.as_str()), Some(" text/plain"));
}

#[test]
fn later_header_with_the_same_name_wins() {
    let req = Request::from("GET / HTTP/1.1\nX: 1\nY: 2\nX: 3\n".to_owned());
    assert_eq!(req.headers.len(), 2);
    let entries = req.headers.entries();
    assert_eq!(entries[0], ("X".to_owned(), " 3".to_owned()));
    assert_eq!(entries[1], ("Y".to_owned(), " 2".to_owned()));
}

#[test]
fn header_value_stops_at_the_second_colon() {
    let req = Request::from("Host: example.com:8080:x\n".to_owned());
    assert_eq!(headers_of(&req).get("Host").map(|s| s.as_str()), Some(" example.com"));
    let req = Request::from("Flag:\n".to_owned());
    assert_eq!(headers_of(&req).get("Flag").map(|s| s.as_str()), Some(""));
}

#[test]
fn lone_carriage_return_stays_in_the_last_line() {
    let req = Request::from("abc\r".to_owned());
    assert_eq!(req.body, "abc\r");
    let req = Request::from("abc\r\n".to_owned());
    assert_eq!(req.body, "abc");
}

#[test]
fn words_are_split_at_any_whitespace() {
    let req = Request::from("  GET\t/a/b \u{3000}HTTP/1.1  extra\n".to_owned());
    assert_eq!(req.method, Method::Get);
    assert_eq!(req.resource, Resource::Path("/a/b".to_owned()));
    assert_eq!(req.version, Version::V1_1);
}

#[test]
fn last_request_line_wins() {
    let req = Request::from("GET /a HTTP/1.1\nPOST /b HTTP/1.0\n".to_owned());
    assert_eq!(req.method, Method::Post);
    assert_eq!(req.resource, Resource::Path("/b".to_owned()));
    assert_eq!(req.version, Version::Uninitialized);
}

#[test]
fn parse_refuses_a_short_request_line() {
    assert!(Request::parse("GET HTTP/1.1\r\n\r\n").is_none());
    assert!(Request::parse("HTTP\n").is_none());
    assert!(Request::parse("GET / HTTP/1.1\nHost: a\n").is_some());
}

#[test]
fn final_line_ending_changes_nothing() {
    let texts = ["GET / HTTP/1.1\r\nA: b", "x\ny", "", "GET /a HTTP/1.1\n\n"];
    for t in texts {
        let a = Request::from(t.to_owned());
        let b = Request::from(format!("{}\n", t));
        assert_eq!(a.method, b.method);
        assert_eq!(a.version, b.version);
        assert_eq!(a.resource, b.resource);
        assert_eq!(a.headers, b.headers);
        assert_eq!(a.body, b.body);
    }
}
