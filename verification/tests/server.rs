use tinyweb::date::Date;
use tinyweb::request::parse_head;
use tinyweb::server::{clf_headers, clf_line, clf_request_line, keep_alive, sanitize_field, sse_closed_line, Config};
use tinyweb::sse::{data_event, lines_lf, named_event, sse_head};

#[test]
fn test_sanitize_field() {
    assert_eq!(sanitize_field("/foo?a=1"), "/foo?a=1");
    assert_eq!(sanitize_field("a\" 200 \"b"), "a\\x22 200 \\x22b");
    assert_eq!(sanitize_field("a\\x22"), "a\\x5Cx22");
    assert_eq!(sanitize_field("e\u{1b}[2J"), "e\\x1B[2J");
    assert_eq!(sanitize_field("caf\u{e9}"), "caf\\xC3\\xA9");
}

#[test]
fn sanitize_escapes_line_breaks_and_del() {
    assert_eq!(sanitize_field("a\r\nb\x7f"), "a\\x0D\\x0Ab\\x7F");
    assert_eq!(sanitize_field(""), "");
}

#[test]
fn clf_fields() {
    assert_eq!(clf_request_line("GET", "/x"), "GET /x HTTP/1.1");
    let h = parse_head(b"GET / HTTP/1.1\r\nHost: h\r\nUser-Agent: curl \"8\"\r\n").unwrap();
    let req = tinyweb::request::Request {
        id: 1,
        method: h.method,
        path: h.path,
        query: h.query,
        headers: h.headers,
        body: Vec::new(),
        form: tinyweb::fields::FieldMap::new(),
        peer_addr: String::new(),
    };
    let (referer, ua) = clf_headers(&req);
    assert_eq!(referer, "-");
    assert_eq!(ua, "curl \\x228\\x22");
}

#[test]
fn clf_line_format() {
    let line = clf_line("127.0.0.1:5", &Date::new(0), "GET / HTTP/1.1", 200, Some(12), "-", "ua", Some(3), 42);
    assert_eq!(line, "127.0.0.1:5 - - [01/Jan/1970:00:00:00 +0000] \"GET / HTTP/1.1\" 200 12 \"-\" \"ua\" 3ms #42");
    let line = clf_line("p", &Date::new(0), "-", 400, None, "-", "-", None, 7);
    assert_eq!(line, "p - - [01/Jan/1970:00:00:00 +0000] \"-\" 400 - \"-\" \"-\" #7");
    assert_eq!(sse_closed_line("p", "GET", "/e", 15, 9), "p GET /e SSE closed 15ms #9");
}

#[test]
fn keep_alive_decision() {
    let h = parse_head(b"GET / HTTP/1.1\r\nHost: h\r\nConnection: keep-alive, close\r\n").unwrap();
    assert!(!keep_alive(&h.headers, false));
    let h = parse_head(b"GET / HTTP/1.1\r\nHost: h\r\n").unwrap();
    assert!(keep_alive(&h.headers, false));
    assert!(!keep_alive(&h.headers, true));
}

#[test]
fn config_defaults_and_validation() {
    assert_eq!(Config::for_cpus(1).pool_size, 8);
    assert_eq!(Config::for_cpus(6).pool_size, 12);
    assert_eq!(Config::for_cpus(64).pool_size, 32);
    let mut c = Config::for_cpus(4);
    assert_eq!(c.max_header_size, 8192);
    assert_eq!(c.max_body_size, 65536);
    assert_eq!(c.validate(), Ok(()));
    c.idle_timeout = 0;
    assert_eq!(c.validate(), Err("idle_timeout must be > 0"));
    c.pool_size = 0;
    assert_eq!(c.validate(), Err("pool_size must be > 0"));
    let mut c = Config::for_cpus(4);
    c.write_timeout = 0;
    assert_eq!(c.validate(), Err("write_timeout must be > 0"));
    c.read_timeout = 0;
    assert_eq!(c.validate(), Err("read_timeout must be > 0"));
    c.max_body_size = 0;
    assert_eq!(c.validate(), Err("max_body_size must be > 0"));
    c.max_header_size = 0;
    assert_eq!(c.validate(), Err("max_header_size must be > 0"));
}

#[test]
fn test_lines_lf() {
    let v = |s| lines_lf(s);
    assert_eq!(v(""), [""]);
    assert_eq!(v("hello"), ["hello"]);
    assert_eq!(v("hello\n"), ["hello", ""]);
    assert_eq!(v("hello\nworld"), ["hello", "world"]);
    assert_eq!(v("hello\r\nworld\r\n"), ["hello", "world", ""]);
}

#[test]
fn lines_lf_round_trips_without_cr() {
    let s = "a\n\nb\n";
    assert_eq!(lines_lf(s).join("\n"), s);
    assert_eq!(lines_lf("x\r\r\n").len(), 2);
    assert_eq!(lines_lf("x\r\r\n")[0], "x");
}

#[test]
fn sse_event_text() {
    assert_eq!(data_event("a\nb"), "data:a\ndata:b\n\n");
    assert_eq!(data_event(""), "data:\n\n");
    assert_eq!(named_event("tick", "1").unwrap(), "event:tick\ndata:1\n\n");
    assert_eq!(named_event("a\nb", "1"), Err("SSE event name must not contain CR or LF"));
    assert_eq!(named_event("a\rb", "1"), Err("SSE event name must not contain CR or LF"));
}

#[test]
fn event_text_has_one_blank_line_at_its_end() {
    let t = named_event("e", "a\n\nb").unwrap();
    assert_eq!(t, "event:e\ndata:a\ndata:\ndata:b\n\n");
    assert_eq!(t.find("\n\n"), Some(t.len() - 2));
}

#[test]
fn sse_head_bytes() {
    let h = String::from_utf8(sse_head(&Date::new(0))).unwrap();
    assert_eq!(
        h,
        "HTTP/1.1 200 OK\r\nDate: Thu, 01 Jan 1970 00:00:00 GMT\r\nContent-Type: text/event-stream\r\n\
         Cache-Control: no-cache\r\nConnection: close\r\n\r\n"
    );
}

#[test]
fn sanitize_keeps_fields_apart() {
    assert_ne!(sanitize_field("\\x22"), sanitize_field("\""));
    assert_eq!(sanitize_field("\""), "\\x22");
    assert_eq!(sanitize_field("\\x22"), "\\x5Cx22");
}

#[test]
fn lines_lf_counts_line_feeds() {
    let v = lines_lf("a\r\nb\n\nc\r\r");
    assert_eq!(v.len(), 4);
    assert_eq!(v, ["a", "b", "", "c"]);
}
