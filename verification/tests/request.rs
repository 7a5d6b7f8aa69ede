use tinyweb::request::{
    head_outcome,
    expects_continue, find_from, has_token, next_line, parse_head, parse_urlencoded, Error, Head, HeadScan, Header,
    Reader,
};
use tinyweb::types::{Method, StatusCode};

fn vals(v: Option<&Vec<String>>) -> Vec<String> {
    v.cloned().unwrap_or_default()
}

#[test]
fn test_find_from() {
    let sep = b"\r\n\r\n";
    assert_eq!(find_from(b"hello\r\n\r\nworld", sep, 0), Some(5));
    assert_eq!(find_from(b"\r\n\r\nhello", sep, 4), None);
    assert_eq!(find_from(b"abc\r\n\r\n", sep, 5), Some(3));
    assert_eq!(find_from(b"hello world", sep, 0), None);
    assert_eq!(find_from(b"", sep, 0), None);
}

#[test]
fn find_from_resumed_search_matches_full_search() {
    let data = b"GET / HTTP/1.1\r\nHost: x\r\n\r\nbody";
    let sep = b"\r\n\r\n";
    let full = find_from(data, sep, 0);
    for from in 0..=23 {
        assert_eq!(find_from(data, sep, from), full, "from {}", from);
    }
}

#[test]
fn test_parse_get_no_query() {
    let line = b"GET /hello HTTP/1.1";
    let req_line = Head::parse(line).unwrap();
    assert_eq!(req_line.method, Method::GET);
    assert_eq!(req_line.path, "/hello");
    assert!(req_line.query.is_empty());
}

#[test]
fn test_parse_get_with_query() {
    let line = b"GET /search?q=rust&lang=en HTTP/1.1";
    let req_line = Head::parse(line).unwrap();
    assert_eq!(req_line.method, Method::GET);
    assert_eq!(req_line.path, "/search");
    assert_eq!(vals(req_line.query.get("q")), ["rust"]);
    assert_eq!(vals(req_line.query.get("lang")), ["en"]);
}

#[test]
fn test_parse_query_plus_as_space() {
    let req_line = Head::parse(b"GET /search?q=hello+world HTTP/1.1").unwrap();
    assert_eq!(vals(req_line.query.get("q")), ["hello world"]);
    let req_line = Head::parse(b"GET /a+b HTTP/1.1").unwrap();
    assert_eq!(req_line.path, "/a+b");
}

#[test]
fn test_parse_repeated_query_key() {
    let line = b"GET /items?tag=a&tag=b HTTP/1.1";
    let req_line = Head::parse(line).unwrap();
    assert_eq!(vals(req_line.query.get("tag")), ["a", "b"]);
}

#[test]
fn test_parse_post() {
    let line = b"POST /submit HTTP/1.1";
    let req_line = Head::parse(line).unwrap();
    assert_eq!(req_line.method, Method::POST);
    assert_eq!(req_line.path, "/submit");
    assert!(req_line.query.is_empty());
}

#[test]
fn test_parse_invalid_method() {
    let line = b"FOO /bar HTTP/1.1";
    assert!(Head::parse(line).is_none());
}

#[test]
fn test_parse_invalid_version() {
    let line = b"GET / HTTP/1.0";
    assert!(Head::parse(line).is_none());
}

#[test]
fn test_parse_empty_query_key() {
    let line = b"GET /?=value HTTP/1.1";
    let req_line = Head::parse(line).unwrap();
    assert!(req_line.query.is_empty());
}

#[test]
fn test_parse_rejects_encoded_slash() {
    assert!(Head::parse(b"GET /foo%2Fbar HTTP/1.1").is_none());
    assert!(Head::parse(b"GET /foo%2fbar HTTP/1.1").is_none());
}

#[test]
fn test_parse_rejects_encoded_backslash() {
    assert!(Head::parse(b"GET /foo%5Cbar HTTP/1.1").is_none());
    assert!(Head::parse(b"GET /foo%5cbar HTTP/1.1").is_none());
}

#[test]
fn test_parse_rejects_encoded_null() {
    assert!(Head::parse(b"GET /foo%00bar HTTP/1.1").is_none());
}

#[test]
fn test_parse_rejects_dot_dot_segments() {
    assert!(Head::parse(b"GET /foo/../bar HTTP/1.1").is_none());
    assert!(Head::parse(b"GET /foo/.. HTTP/1.1").is_none());
    assert!(Head::parse(b"GET /../etc/passwd HTTP/1.1").is_none());
    assert!(Head::parse(b"GET /foo/%2e%2e/bar HTTP/1.1").is_none());
}

#[test]
fn test_parse_allows_triple_dot() {
    let req_line = Head::parse(b"GET /foo/.../bar HTTP/1.1").unwrap();
    assert_eq!(req_line.path, "/foo/.../bar");
}

#[test]
fn parse_rejects_relative_path_and_missing_parts() {
    assert!(Head::parse(b"GET foo HTTP/1.1").is_none());
    assert!(Head::parse(b"GET /").is_none());
    assert!(Head::parse(b"GET").is_none());
    assert!(Head::parse(b"GET /a%ZZ HTTP/1.1").is_none());
}

#[test]
fn test_header_parse_basic() {
    let h = Header::parse(b"Content-Type: text/html").unwrap();
    assert_eq!(h.key, "content-type");
    assert_eq!(h.value, "text/html");
}

#[test]
fn test_header_rejects_control_chars_in_value() {
    assert!(Header::parse(b"User-Agent: evil\x1b[2Jclear").is_none());
    assert!(Header::parse(b"User-Agent: evil\x08bs").is_none());
    assert!(Header::parse(b"User-Agent: evil\x7fdel").is_none());
    assert!(Header::parse(b"User-Agent: a\tb").is_some());
}

#[test]
fn header_parse_rejects_space_before_colon_and_empty_name() {
    assert!(Header::parse(b"Host : x").is_none());
    assert!(Header::parse(b": x").is_none());
    assert!(Header::parse(b"no colon").is_none());
    let h = Header::parse(b"X-A:   padded value  ").unwrap();
    assert_eq!(h.key, "x-a");
    assert_eq!(h.value, "padded value");
}

#[test]
fn test_parse_head_rejects_duplicate_host() {
    let buf = b"GET / HTTP/1.1\r\nHost: a\r\nHost: b\r\n";
    assert!(parse_head(buf).is_none());
}

#[test]
fn parse_head_joins_repeated_headers_and_needs_host() {
    let buf = b"GET / HTTP/1.1\r\nHost: a\r\nAccept: x\r\naccept: y\r\n";
    let h = parse_head(buf).unwrap();
    assert_eq!(h.headers.get("accept").map(|s| s.as_str()), Some("x, y"));
    assert_eq!(h.headers.get("host").map(|s| s.as_str()), Some("a"));
    assert!(parse_head(b"GET / HTTP/1.1\r\nAccept: x\r\n").is_none());
}

#[test]
fn next_line_splits_on_crlf_only() {
    assert_eq!(next_line(b"ab\r\ncd", 0), Some((2, 4)));
    assert_eq!(next_line(b"ab\ncd", 0), None);
    assert_eq!(next_line(b"ab\rcd", 0), None);
    assert_eq!(next_line(b"abcd", 0), None);
}

#[test]
fn test_parse_urlencoded_basic() {
    let map = parse_urlencoded(b"name=Alice&age=30").unwrap();
    assert_eq!(vals(map.get("name")), ["Alice"]);
    assert_eq!(vals(map.get("age")), ["30"]);
}

#[test]
fn test_parse_urlencoded_plus_as_space() {
    let map = parse_urlencoded(b"greeting=hello+world").unwrap();
    assert_eq!(vals(map.get("greeting")), ["hello world"]);
}

#[test]
fn test_parse_urlencoded_percent_encoded() {
    let map = parse_urlencoded(b"city=San%20Francisco").unwrap();
    assert_eq!(vals(map.get("city")), ["San Francisco"]);
}

#[test]
fn test_parse_urlencoded_repeated_key() {
    let map = parse_urlencoded(b"tag=a&tag=b&tag=c").unwrap();
    assert_eq!(vals(map.get("tag")), ["a", "b", "c"]);
}

#[test]
fn test_parse_urlencoded_empty_value() {
    let map = parse_urlencoded(b"key=").unwrap();
    assert_eq!(vals(map.get("key")), [""]);
}

#[test]
fn test_parse_urlencoded_empty_key_skipped() {
    let map = parse_urlencoded(b"=value&real=yes").unwrap();
    assert!(!map.contains_key(""));
    assert_eq!(vals(map.get("real")), ["yes"]);
}

#[test]
fn test_parse_urlencoded_invalid_percent() {
    assert!(parse_urlencoded(b"key=hello%ZZworld").is_none());
}

#[test]
fn test_parse_urlencoded_empty_input() {
    let map = parse_urlencoded(b"").unwrap();
    assert!(map.is_empty());
}

#[test]
fn has_token_splits_on_commas() {
    assert!(has_token("keep-alive, Close", "close"));
    assert!(!has_token("keep-alive", "close"));
    assert!(has_token(" Upgrade ", "upgrade"));
}

fn feed(r: &mut Reader, bytes: &[u8]) -> HeadScan {
    let free = r.rest_mut();
    free[..bytes.len()].copy_from_slice(bytes);
    r.received(bytes.len())
}

#[test]
fn reader_reads_a_form_post() {
    let mut r = Reader::new(1024, 1024);
    assert_eq!(r.scan(), HeadScan::NeedMore);
    assert!(!r.begin_wait());
    let req = b"POST /f HTTP/1.1\r\nHost: h\r\nContent-Type: application/x-www-form-urlencoded\r\nContent-Length: 21\r\n\r\nname=Alice&msg=a+b%21";
    let idx = match feed(&mut r, &req[..40]) {
        HeadScan::NeedMore => match feed(&mut r, &req[40..]) {
            HeadScan::Found(i) => i,
            other => panic!("{:?}", other),
        },
        other => panic!("{:?}", other),
    };
    let (head, n) = r.take_head(idx).ok().unwrap();
    assert_eq!(n, 21);
    assert!(!expects_continue(&head.headers));
    assert!(r.has_body(n));
    let request = r.take_body(head, n, 7, "127.0.0.1:9".to_string()).ok().unwrap();
    assert_eq!(request.id, 7);
    assert_eq!(request.method, Method::POST);
    assert_eq!(request.body, b"name=Alice&msg=a+b%21");
    assert_eq!(vals(request.form.get("msg")), ["a b!"]);
    assert_eq!(vals(request.form.get("name")), ["Alice"]);
    assert!(r.begin_wait());
}

fn head_result(raw: &[u8], max_body: usize) -> Result<usize, Error> {
    let mut r = Reader::new(1024, max_body);
    match feed(&mut r, raw) {
        HeadScan::Found(i) => r.take_head(i).map(|(_, n)| n),
        other => panic!("{:?}", other),
    }
}

#[test]
fn reader_refuses_bad_framing() {
    assert_eq!(
        head_result(b"POST /x HTTP/1.1\r\nHost: h\r\nContent-Length: +5\r\n\r\nhello", 100),
        Err(Error::Protocol(StatusCode::BadRequest))
    );
    assert_eq!(
        head_result(b"POST /x HTTP/1.1\r\nHost: h\r\nTransfer-Encoding: chunked\r\n\r\n", 100),
        Err(Error::Protocol(StatusCode::NotImplemented))
    );
    assert_eq!(
        head_result(b"POST /x HTTP/1.1\r\nHost: h\r\nContent-Length: 11\r\n\r\n", 10),
        Err(Error::Protocol(StatusCode::ContentTooLarge))
    );
    assert_eq!(
        head_result(b"GET / HTTP/1.1\r\nHost: localhost\r\nHost: evil\r\n\r\n", 10),
        Err(Error::Protocol(StatusCode::BadRequest))
    );
    assert_eq!(head_result(b"POST /x HTTP/1.1\r\nHost: h\r\nContent-Length: 0\r\n\r\n", 10), Ok(0));
}

#[test]
fn reader_reports_too_large_head() {
    let mut r = Reader::new(16, 16);
    assert_eq!(feed(&mut r, b"GET /aaaaaaaaaaa"), HeadScan::TooLarge);
}

#[test]
fn reader_rejects_bad_form_body() {
    let mut r = Reader::new(1024, 1024);
    let raw = b"POST /f HTTP/1.1\r\nHost: h\r\nContent-Type: application/x-www-form-urlencoded\r\nContent-Length: 3\r\n\r\n%ZZ";
    let idx = match feed(&mut r, raw) {
        HeadScan::Found(i) => i,
        other => panic!("{:?}", other),
    };
    let (head, n) = r.take_head(idx).ok().unwrap();
    assert!(matches!(r.take_body(head, n, 1, String::new()), Err(Error::Protocol(StatusCode::BadRequest))));
}

#[test]
fn expect_continue_is_detected() {
    let h = parse_head(b"POST / HTTP/1.1\r\nHost: h\r\nExpect: 100-Continue\r\n").unwrap();
    assert!(expects_continue(&h.headers));
}

#[test]
fn oversized_head_is_a_bad_request() {
    let mut r = Reader::new(16, 16);
    let scan = feed(&mut r, b"GET /aaaaaaaaaaa");
    assert_eq!(head_outcome(scan), Err(Error::Protocol(StatusCode::BadRequest)));
    assert_eq!(head_outcome(HeadScan::NeedMore), Ok(None));
    assert_eq!(head_outcome(HeadScan::Found(3)), Ok(Some(3)));
}
