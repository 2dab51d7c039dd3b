use roxy::bridge::{RequestHead, UrlParse, UrlParts};
use roxy::http::{request_progress, response_progress, ReadProgress, Request, RequestError, Response};

fn header(name: &str, value: &str) -> (String, String) {
    (name.to_string(), value.to_string())
}

fn request(method: &str, target: &str, headers: Vec<(String, String)>, body: &[u8]) -> Request {
    Request {
        method: method.to_string(),
        target: target.to_string(),
        version: 1,
        headers,
        body: body.to_vec(),
        host: "example.com".to_string(),
        port: 80,
    }
}

fn error_of(r: Result<Request, RequestError>) -> RequestError {
    match r {
        Ok(_) => panic!("expected an error"),
        Err(e) => e,
    }
}

#[test]
fn edited_request_sets_content_length() {
    let r = Request::from_edited("POST /a HTTP/1.1\r\nHost: x\r\n\r\nhello", "x".to_string(), 80);
    assert_eq!(r.method, "POST");
    assert_eq!(r.target, "/a");
    assert_eq!(r.version, 1);
    assert_eq!(r.headers, vec![header("Host", "x"), header("Content-Length", "5")]);
    assert_eq!(r.body, b"hello".to_vec());
}

#[test]
fn edited_request_replaces_a_stale_length() {
    let r = Request::from_edited(
        "POST / HTTP/1.0\r\ncontent-length: 99\r\nX: y\r\n\r\nab",
        "h".to_string(),
        8080,
    );
    assert_eq!(r.version, 0);
    assert_eq!(r.headers, vec![header("content-length", "2"), header("X", "y")]);
    assert_eq!(r.body, b"ab".to_vec());
    assert_eq!(r.host, "h");
    assert_eq!(r.port, 8080);
}

#[test]
fn edited_request_without_body_adds_no_length() {
    let r = Request::from_edited("GET / HTTP/1.1\r\nHost: a\r\n\r\n", "a".to_string(), 80);
    assert_eq!(r.headers, vec![header("Host", "a")]);
    assert!(r.body.is_empty());
}

#[test]
fn edited_request_trims_headers_and_skips_lines_without_colon() {
    let r = Request::from_edited("GET /x HTTP/1.1\r\n  Name :  value  \r\nnot a header", "a".to_string(), 1);
    assert_eq!(r.target, "/x");
    assert_eq!(r.headers, vec![header("Name", "value")]);
    assert!(r.body.is_empty());
}

#[test]
fn edited_request_defaults_the_version() {
    let r = Request::from_edited("GET /x HTTP/2", "a".to_string(), 1);
    assert_eq!(r.version, 1);
    let r = Request::from_edited("GET", "a".to_string(), 1);
    assert_eq!(r.method, "GET");
    assert_eq!(r.target, "");
    assert_eq!(r.version, 1);
    let r = Request::from_edited("GET / HTTP/1.300", "a".to_string(), 1);
    assert_eq!(r.version, 1);
    let r = Request::from_edited("GET / HTTP/1.+7", "a".to_string(), 1);
    assert_eq!(r.version, 7);
}

#[test]
fn to_bytes_writes_the_wire_form() {
    let r = request("GET", "/", vec![header("Host", "example.com"), header("A", "b")], b"hi");
    assert_eq!(r.to_bytes(), b"GET / HTTP/1.1\r\nHost: example.com\r\nA: b\r\n\r\nhi".to_vec());
    let r = request("GET", "/", vec![], b"");
    assert_eq!(r.to_bytes(), b"GET / HTTP/1.1\r\n\r\n".to_vec());
}

#[test]
fn to_str_replaces_invalid_utf8() {
    let r = request("POST", "/", vec![header("Content-Length", "2")], &[0xff, b'a']);
    assert_eq!(r.to_str(), "POST / HTTP/1.1\r\nContent-Length: 2\r\n\r\n\u{fffd}a");
}

#[test]
fn text_of_a_request_edits_back_to_it() {
    let r = request(
        "POST",
        "/submit?x=1",
        vec![header("Host", "example.com"), header("Content-Length", "11")],
        "hello\r\n\r\nyo".as_bytes(),
    );
    let back = Request::from_edited(&r.to_str(), r.host.clone(), r.port);
    assert_eq!(back.method, r.method);
    assert_eq!(back.target, r.target);
    assert_eq!(back.version, r.version);
    assert_eq!(back.headers, r.headers);
    assert_eq!(back.body, r.body);
    assert_eq!(back.host, r.host);
    assert_eq!(back.port, r.port);
}

#[test]
fn head_and_address_texts() {
    let r = request("GET", "/", vec![header("Host", "example.com")], b"x");
    let head: String = r.head_chars().into_iter().collect();
    assert_eq!(head, "GET / HTTP/1.1\r\nHost: example.com\r\n\r\n");
    assert_eq!(r.server_address(), "example.com:80");
    assert_eq!(r.host_title(), Some(" Host: example.com:80 ".to_string()));
    let mut no_host = r.clone();
    no_host.host = String::new();
    assert_eq!(no_host.host_title(), None);
}

#[test]
fn clone_keeps_every_field() {
    let r = request("PUT", "/p", vec![header("A", "1")], b"body");
    let c = r.clone();
    assert_eq!(c.method, "PUT");
    assert_eq!(c.target, "/p");
    assert_eq!(c.headers, vec![header("A", "1")]);
    assert_eq!(c.body, b"body".to_vec());
    assert_eq!(c.host, "example.com");
    assert_eq!(c.port, 80);
}

#[test]
fn connect_target_splits_at_last_colon() {
    let (h, p) = Request::parse_connect_target("example.com:443").ok().unwrap();
    assert_eq!((h.as_str(), p), ("example.com", 443));
    let (h, p) = Request::parse_connect_target("[::1]:8443").ok().unwrap();
    assert_eq!((h.as_str(), p), ("[::1]", 8443));
    assert!(matches!(Request::parse_connect_target("example.com"), Err(RequestError::InvalidConnectTarget)));
    assert!(matches!(Request::parse_connect_target("a:65536"), Err(RequestError::InvalidConnectPort)));
    assert!(matches!(Request::parse_connect_target("a:"), Err(RequestError::InvalidConnectPort)));
    let (_, p) = Request::parse_connect_target("a:+80").ok().unwrap();
    assert_eq!(p, 80);
}

#[test]
fn host_header_gives_the_address() {
    let hs = vec![header("X", "y"), header("host", "example.com:8080"), header("Host", "other")];
    let (h, p) = Request::parse_host(&hs).ok().unwrap();
    assert_eq!((h.as_str(), p), ("example.com", 8080));
    let (h, p) = Request::parse_host(&[header("HOST", "example.com")]).ok().unwrap();
    assert_eq!((h.as_str(), p), ("example.com", 80));
    assert!(matches!(Request::parse_host(&[header("X", "y")]), Err(RequestError::MissingHost)));
    assert!(matches!(Request::parse_host(&[header("Host", "a:b")]), Err(RequestError::InvalidPort)));
}

#[test]
fn host_header_round_trip() {
    let hs = vec![header("Host", &format!("{}:{}", "site.test", 65535))];
    let (h, p) = Request::parse_host(&hs).ok().unwrap();
    assert_eq!((h.as_str(), p), ("site.test", 65535));
}

#[test]
fn absolute_targets_become_origin_form() {
    let (t, h, p) = Request::normalize_target("http://example.com/path?x=1", &[]).ok().unwrap();
    assert_eq!((t.as_str(), h.as_str(), p), ("/path?x=1", "example.com", 80));
    let (t, h, p) = Request::normalize_target("http://example.com:8081", &[]).ok().unwrap();
    assert_eq!((t.as_str(), h.as_str(), p), ("/", "example.com", 8081));
    let (t, h, p) = Request::normalize_target("/local", &[header("Host", "a:1")]).ok().unwrap();
    assert_eq!((t.as_str(), h.as_str(), p), ("/local", "a", 1));
    match Request::normalize_target("http://", &[]) {
        Err(RequestError::InvalidUrl(e)) => assert_eq!(e, "empty host"),
        _ => panic!("expected an invalid URL"),
    }
}

#[test]
fn parsed_urls_give_target_host_and_port() {
    let parts = UrlParts {
        host: Some("h".to_string()),
        port: None,
        path: String::new(),
        query: Some("q".to_string()),
    };
    let (t, h, p) = Request::target_from_url(UrlParse::Parsed(parts)).ok().unwrap();
    assert_eq!((t.as_str(), h.as_str(), p), ("/?q", "h", 80));
    let parts = UrlParts { host: None, port: Some(1), path: "/x".to_string(), query: None };
    assert!(matches!(Request::target_from_url(UrlParse::Parsed(parts)), Err(RequestError::UrlWithoutHost)));
    match Request::target_from_url(UrlParse::Invalid("bad".to_string())) {
        Err(RequestError::InvalidUrl(e)) => assert_eq!(e, "bad"),
        _ => panic!("expected an invalid URL"),
    }
}

#[test]
fn from_bytes_reads_a_plain_request() {
    let r = Request::from_bytes(b"GET /index.html HTTP/1.1\r\nHost: example.com:8080\r\nX-A:  v \r\n\r\nbody")
        .ok()
        .unwrap();
    assert_eq!(r.method, "GET");
    assert_eq!(r.target, "/index.html");
    assert_eq!(r.version, 1);
    assert_eq!(r.headers, vec![header("Host", "example.com:8080"), header("X-A", "v")]);
    assert_eq!(r.body, b"body".to_vec());
    assert_eq!(r.host, "example.com");
    assert_eq!(r.port, 8080);
}

#[test]
fn from_bytes_reads_an_absolute_target() {
    let r = Request::from_bytes(b"GET http://example.com/a?b=c HTTP/1.0\r\n\r\n").ok().unwrap();
    assert_eq!(r.target, "/a?b=c");
    assert_eq!(r.version, 0);
    assert_eq!(r.host, "example.com");
    assert_eq!(r.port, 80);
}

#[test]
fn from_bytes_reads_connect() {
    let r = Request::from_bytes(b"connect example.com:443 HTTP/1.1\r\nHost: example.com:443\r\n\r\n")
        .ok()
        .unwrap();
    assert_eq!(r.method, "connect");
    assert_eq!(r.target, "example.com:443");
    assert_eq!(r.host, "example.com");
    assert_eq!(r.port, 443);
}

#[test]
fn from_bytes_errors() {
    assert!(matches!(
        error_of(Request::from_bytes(b"GET / HTTP/1.1\r\nHost: a")),
        RequestError::Incomplete
    ));
    assert!(matches!(error_of(Request::from_bytes(b"GET / HTTP/1.1\r\n\r\n")), RequestError::MissingHost));
    assert!(matches!(
        error_of(Request::from_bytes(b"GET / HTTP/1.1\r\nHost: a:x\r\n\r\n")),
        RequestError::InvalidPort
    ));
    assert!(matches!(
        error_of(Request::from_bytes(b"CONNECT a HTTP/1.1\r\n\r\n")),
        RequestError::InvalidConnectTarget
    ));
    assert!(matches!(
        error_of(Request::from_bytes(b"CONNECT a:70000 HTTP/1.1\r\n\r\n")),
        RequestError::InvalidConnectPort
    ));
    match error_of(Request::from_bytes(b"GET / HTTP/2.0\r\n\r\n")) {
        RequestError::Malformed(e) => assert_eq!(e, "invalid HTTP version"),
        _ => panic!("expected a malformed request"),
    }
}

#[test]
fn from_head_reports_missing_parts() {
    let head = |m: Option<&str>, p: Option<&str>, v: Option<u8>| RequestHead {
        size: 0,
        method: m.map(str::to_string),
        path: p.map(str::to_string),
        version: v,
        headers: vec![("Host".to_string(), b" h:9 ".to_vec())],
    };
    assert!(matches!(
        error_of(Request::from_head(head(None, Some("/"), Some(1)), b"")),
        RequestError::MissingMethod
    ));
    assert!(matches!(
        error_of(Request::from_head(head(Some("GET"), None, Some(1)), b"")),
        RequestError::MissingTarget
    ));
    assert!(matches!(
        error_of(Request::from_head(head(Some("GET"), Some("/"), None), b"")),
        RequestError::MissingVersion
    ));
    let r = Request::from_head(head(Some("GET"), Some("/"), Some(1)), b"xyz").ok().unwrap();
    assert_eq!(r.headers, vec![header("Host", "h:9")]);
    assert_eq!(r.body, b"xyz".to_vec());
    assert_eq!((r.host.as_str(), r.port), ("h", 9));
}

#[test]
fn error_messages() {
    assert_eq!(RequestError::Malformed("invalid token".to_string()).message(), "Invalid HTTP request: invalid token");
    assert_eq!(RequestError::Incomplete.message(), "Incomplete HTTP request");
    assert_eq!(RequestError::MissingMethod.message(), "Missing HTTP method");
    assert_eq!(RequestError::MissingTarget.message(), "Missing request target");
    assert_eq!(RequestError::MissingVersion.message(), "Missing HTTP version");
    assert_eq!(RequestError::InvalidUrl("empty host".to_string()).message(), "Invalid URL: empty host");
    assert_eq!(RequestError::UrlWithoutHost.message(), "URL has no host");
    assert_eq!(RequestError::MissingHost.message(), "Missing Host");
    assert_eq!(RequestError::InvalidPort.message(), "Invalid port");
    assert_eq!(RequestError::InvalidConnectTarget.message(), "Invalid CONNECT target");
    assert_eq!(RequestError::InvalidConnectPort.message(), "Invalid CONNECT port");
}

#[test]
fn request_progress_waits_for_the_body() {
    assert!(matches!(request_progress(b"GET / HTTP/1.1\r\nHost: a"), ReadProgress::NeedMore));
    assert!(matches!(request_progress(b"GET / HTTP/1.1\r\nHost: a\r\n\r\n"), ReadProgress::Done));
    assert!(matches!(
        request_progress(b"POST / HTTP/1.1\r\ncontent-length: 5\r\n\r\nabc"),
        ReadProgress::NeedMore
    ));
    assert!(matches!(
        request_progress(b"POST / HTTP/1.1\r\ncontent-length: 5\r\n\r\nabcde"),
        ReadProgress::Done
    ));
    assert!(matches!(
        request_progress(b"POST / HTTP/1.1\r\nContent-Length: x\r\n\r\n"),
        ReadProgress::Done
    ));
    match request_progress(b"GET / HTTP/3.0\r\n\r\n") {
        ReadProgress::Failed(e) => assert_eq!(e, "invalid HTTP version"),
        _ => panic!("expected a failure"),
    }
}

#[test]
fn response_progress_matches_the_header_name_exactly() {
    assert!(matches!(response_progress(b"HTTP/1.1 200 OK\r\n"), ReadProgress::NeedMore));
    assert!(matches!(
        response_progress(b"HTTP/1.1 200 OK\r\nContent-Length: 4\r\n\r\nab"),
        ReadProgress::NeedMore
    ));
    assert!(matches!(
        response_progress(b"HTTP/1.1 200 OK\r\nContent-Length: 4\r\n\r\nabcd"),
        ReadProgress::Done
    ));
    assert!(matches!(
        response_progress(b"HTTP/1.1 200 OK\r\ncontent-length: 4\r\n\r\nab"),
        ReadProgress::Done
    ));
}

#[test]
fn response_text() {
    let r = Response { raw: b"HTTP/1.1 200 OK\r\n\r\n\xffok".to_vec() };
    assert_eq!(r.to_str(), "HTTP/1.1 200 OK\r\n\r\n\u{fffd}ok");
}

fn same_request(a: &Request, b: &Request) {
    assert_eq!(a.method, b.method);
    assert_eq!(a.target, b.target);
    assert_eq!(a.version, b.version);
    assert_eq!(a.headers, b.headers);
    assert_eq!(a.body, b.body);
    assert_eq!(a.host, b.host);
    assert_eq!(a.port, b.port);
}

#[test]
fn text_with_lone_carriage_returns_edits_back() {
    let r = request(
        "GE\rT",
        "/a\rb",
        vec![header("X\rY", "v\ru"), header("Content-Length", "3")],
        b"a\rb",
    );
    let back = Request::from_edited(&r.to_str(), r.host.clone(), r.port);
    same_request(&back, &r);
}

#[test]
fn rebuilding_from_its_own_text_changes_nothing() {
    let texts = [
        "POST /x\r HTTP/1.9\r\n  A :b\r\nnoise\r\n: empty name\r\ncontent-length: 1\r\n\r\nbody\r\n\r\nmore",
        "GET",
        "",
        "GET / HTTP/1.1\r\n\r\n",
        "PUT /p HTTP/1.0\r\nHost: h\r\n\r\nx",
    ];
    for t in texts {
        let once = Request::from_edited(t, "h".to_string(), 9);
        let twice = Request::from_edited(&once.to_str(), "h".to_string(), 9);
        same_request(&twice, &once);
    }
}

#[test]
fn text_bytes_are_the_wire_bytes_for_utf8_bodies() {
    let r = request("POST", "/", vec![header("Content-Length", "5")], "héllo".as_bytes());
    assert_eq!(r.to_str().as_bytes().to_vec(), r.to_bytes());
    let bad = request("POST", "/", vec![], &[0xc3]);
    assert!(bad.to_str().contains('\u{fffd}'));
}
