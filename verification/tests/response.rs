use tinyweb::date::Date;
use tinyweb::response::{http_date, http_date_from, Response};
use tinyweb::types::{ContentType, HeaderName, HeaderValue, StatusCode};

fn text(r: &Response, keep_alive: Option<u64>, send_body: bool) -> String {
    String::from_utf8(r.to_bytes(keep_alive, send_body, &Date::new(0))).unwrap()
}

#[test]
fn test_http_date_from() {
    assert_eq!(http_date_from(0), "Thu, 01 Jan 1970 00:00:00 GMT");
    assert_eq!(http_date_from(86399), "Thu, 01 Jan 1970 23:59:59 GMT");
    assert_eq!(http_date_from(86400), "Fri, 02 Jan 1970 00:00:00 GMT");
    assert_eq!(http_date_from(951782400), "Tue, 29 Feb 2000 00:00:00 GMT");
    assert_eq!(http_date_from(1735732800), "Wed, 01 Jan 2025 12:00:00 GMT");
}

#[test]
fn http_date_now_has_the_fixed_format() {
    let s = http_date();
    assert_eq!(s.len(), 29);
    assert_eq!(&s[3..5], ", ");
}

#[test]
fn ok_response_bytes() {
    let r = Response::ok(ContentType::plain(), b"hi".to_vec());
    assert_eq!(
        text(&r, Some(30000), true),
        "HTTP/1.1 200 OK\r\nDate: Thu, 01 Jan 1970 00:00:00 GMT\r\nContent-Type: text/plain; charset=utf-8\r\n\
         Content-Length: 2\r\nConnection: keep-alive\r\nKeep-Alive: timeout=30\r\n\r\nhi"
    );
}

#[test]
fn close_and_head_requests() {
    let r = Response::ok(ContentType::html(), b"<p>".to_vec());
    let t = text(&r, None, false);
    assert!(t.contains("Content-Length: 3\r\nConnection: close\r\n\r\n"));
    assert!(t.ends_with("\r\n\r\n"));
    let t = text(&r, Some(0), true);
    assert!(t.contains("Connection: keep-alive\r\n\r\n<p>"));
    assert!(!t.contains("Keep-Alive"));
}

#[test]
fn no_content_suppresses_body_and_length() {
    let r = Response::new().with_status(StatusCode::NoContent).with_body(ContentType::plain(), b"leak".to_vec());
    let t = text(&r, None, true);
    assert!(t.starts_with("HTTP/1.1 204 No Content\r\n"));
    assert!(!t.to_lowercase().contains("content-length"));
    assert!(!t.contains("leak"));
    let t = text(&Response::error(StatusCode::NotModified), None, true);
    assert!(t.starts_with("HTTP/1.1 304 Not Modified\r\n"));
    assert!(!t.to_lowercase().contains("content-length"));
}

#[test]
fn server_managed_headers_are_ignored() {
    let r = Response::new()
        .with_header(HeaderName::new("Content-Length".to_string()).unwrap(), HeaderValue::new("99".to_string()).unwrap())
        .with_header(HeaderName::new("CONNECTION".to_string()).unwrap(), HeaderValue::new("x".to_string()).unwrap())
        .with_header(HeaderName::new("keep-alive".to_string()).unwrap(), HeaderValue::new("x".to_string()).unwrap())
        .with_header(HeaderName::new("Date".to_string()).unwrap(), HeaderValue::new("x".to_string()).unwrap())
        .with_header(HeaderName::new("content-type".to_string()).unwrap(), HeaderValue::new("a/b".to_string()).unwrap())
        .with_header(HeaderName::x_frame_options(), HeaderValue::from_static("DENY").unwrap());
    let t = text(&r, None, true);
    assert_eq!(
        t,
        "HTTP/1.1 200 OK\r\nDate: Thu, 01 Jan 1970 00:00:00 GMT\r\nContent-Type: a/b\r\nX-Frame-Options: DENY\r\n\
         Content-Length: 0\r\nConnection: close\r\n\r\n"
    );
}

#[test]
fn redirect_and_not_found() {
    let r = Response::redirect(HeaderValue::new("/next".to_string()).unwrap());
    assert_eq!(r.status_code(), StatusCode::TemporaryRedirect);
    assert!(text(&r, None, true).contains("\r\nLocation: /next\r\n"));
    let r = Response::not_found();
    assert_eq!(r.status_code(), StatusCode::NotFound);
    assert_eq!(r.body_len(), 0);
    assert!(text(&r, None, true).starts_with("HTTP/1.1 404 Not Found\r\n"));
}

#[test]
fn file_infers_mime_type() {
    let r = Response::file(Some("css"), b"a{}".to_vec());
    assert!(text(&r, None, true).contains("Content-Type: text/css"));
    let r = Response::file(Some("nope"), Vec::new());
    assert!(text(&r, None, true).contains("Content-Type: application/octet-stream\r\n"));
    let r = Response::file(None, Vec::new());
    assert!(text(&r, None, true).contains("Content-Type: application/octet-stream\r\n"));
}

#[test]
fn default_is_new() {
    let r = Response::default();
    assert_eq!(r.status_code(), StatusCode::OK);
    assert_eq!(r.body_len(), 0);
}

#[test]
fn head_ends_at_first_blank_line() {
    let r = Response::ok(ContentType::plain(), b"\r\n\r\nX".to_vec())
        .with_header(HeaderName::new("X-A".to_string()).unwrap(), HeaderValue::new("v".to_string()).unwrap());
    let bytes = r.to_bytes(Some(1000), true, &Date::new(0));
    let end = bytes.windows(4).position(|w| w == b"\r\n\r\n").unwrap();
    assert_eq!(&bytes[end + 4..], b"\r\n\r\nX");
}

#[test]
fn header_values_refuse_line_breaks() {
    assert_eq!(HeaderValue::new("a\r\nb".to_string()), Err("header value must not contain CR, LF, or NUL"));
    assert_eq!(HeaderValue::from_static("a\0"), Err("header value must not contain CR, LF, or NUL"));
    assert!(HeaderName::new("Bad Name".to_string()).is_err());
    assert!(HeaderName::new(String::new()).is_err());
}

#[test]
fn content_type_validation() {
    assert_eq!(ContentType::new(String::new()).err(), Some("MIME type must not be empty"));
    assert_eq!(ContentType::new("text".to_string()).err(), Some("MIME type must contain '/'"));
    assert_eq!(ContentType::new("/x".to_string()).err(), Some("MIME type must have a non-empty type before '/'"));
    assert_eq!(
        ContentType::new("text/ ; charset=x".to_string()).err(),
        Some("MIME type must have a non-empty subtype after '/'")
    );
    assert_eq!(ContentType::new("a\nb/c".to_string()).err(), Some("MIME type must not contain CR, LF, or NUL"));
    assert_eq!(ContentType::new("text/x; q=1".to_string()).unwrap().as_str(), "text/x; q=1");
    assert_eq!(ContentType::json().into_string(), "application/json");
}

#[test]
fn add_header_in_place() {
    let mut r = Response::new();
    r.add_header(HeaderName::new("DATE".to_string()).unwrap(), HeaderValue::new("x".to_string()).unwrap());
    r.add_header(HeaderName::new("Content-Type".to_string()).unwrap(), HeaderValue::new("a/b".to_string()).unwrap());
    r.add_header(HeaderName::vary(), HeaderValue::new("Accept".to_string()).unwrap());
    let t = text(&r, None, true);
    assert!(t.contains("\r\nContent-Type: a/b\r\nVary: Accept\r\n"));
    assert_eq!(t.matches("Date:").count(), 1);
}

#[test]
fn static_and_owned_values_compare_by_text() {
    let a = HeaderValue::from_static("nosniff").unwrap();
    let b = HeaderValue::new("nosniff".to_string()).unwrap();
    assert_eq!(a, b);
    assert_eq!(a.clone().into_string(), "nosniff");
    assert_ne!(a, HeaderValue::new("other".to_string()).unwrap());
}
