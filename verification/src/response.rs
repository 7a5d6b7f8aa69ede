//! Regular HTTP responses: building them and serialising them.

use vstd::prelude::*;
use vstd::utf8::{encode_utf8, is_ascii_chars, is_ascii_chars_encode_utf8};
use crate::date::{Date, CivilTime, describes, http_text, lemma_http_text_ascii, day_name, month_name, two_digits};
use crate::fmt::{decimal, push_decimal, lemma_decimal_ascii, zero_padded};
use crate::lines::{crlf, no_break_bytes, no_break_chars, whole_lines, lemma_utf8_concat, lemma_utf8_no_break, lemma_one_line, lemma_lines_concat, lemma_head_end};
use crate::request::{lower, eq_ignore_ascii_case, content_length_key, content_type_key, first_match_from, head_terminator};
use crate::text::{ascii_chars, push_str, push_slice, lemma_ascii_encode};
use crate::types::{ContentType, HeaderName, HeaderValue, StatusCode, known_count, known_ext, known_mime, known_header, valid_header_name, valid_header_value};

verus! {

/// `connection`.
pub open spec fn connection_key() -> Seq<char> {
    seq!['c', 'o', 'n', 'n', 'e', 'c', 't', 'i', 'o', 'n']
}

/// `keep-alive`.
pub open spec fn keep_alive_key() -> Seq<char> {
    seq!['k', 'e', 'e', 'p', '-', 'a', 'l', 'i', 'v', 'e']
}

/// `date`.
pub open spec fn date_key() -> Seq<char> {
    seq!['d', 'a', 't', 'e']
}

/// Header names that the server writes itself and that a handler cannot
/// set: `Content-Length`, `Connection`, `Keep-Alive` and `Date`, in any case.
pub open spec fn server_managed(name: Seq<char>) -> bool {
    let l = lower(name);
    l == content_length_key() || l == connection_key() || l == keep_alive_key() || l == date_key()
}

/// Whether `name` is `Content-Type`, in any case.
pub open spec fn is_content_type(name: Seq<char>) -> bool {
    lower(name) == content_type_key()
}

/// A header name that never stands in a response's list of extra headers.
pub open spec fn reserved(name: Seq<char>) -> bool {
    server_managed(name) || is_content_type(name)
}

/// What a response holds: its status, its `Content-Type` value, its other
/// headers in the order they were added, and its body.
pub struct ResponseView {
    pub status: StatusCode,
    pub content_type: Option<Seq<char>>,
    pub headers: Seq<(Seq<char>, Seq<char>)>,
    pub body: Seq<u8>,
}

/// The response after adding one header: a server-managed header is
/// dropped, `Content-Type` replaces the content type, any other is appended.
pub open spec fn add_header_spec(v: ResponseView, name: Seq<char>, value: Seq<char>) -> ResponseView {
    if server_managed(name) {
        v
    } else if is_content_type(name) {
        ResponseView { status: v.status, content_type: Some(value), headers: v.headers, body: v.body }
    } else {
        ResponseView { status: v.status, content_type: v.content_type, headers: v.headers.push((name, value)), body: v.body }
    }
}

/// No extra header of the response has a reserved name.
pub open spec fn no_reserved(headers: Seq<(Seq<char>, Seq<char>)>) -> bool {
    forall|i: int| 0 <= i < headers.len() ==> !reserved(#[trigger] headers[i].0)
}

/// `HTTP/1.1`, the code and the reason phrase: the first line of a response.
pub open spec fn status_line(s: StatusCode) -> Seq<u8> {
    encode_utf8("HTTP/1.1 "@) + decimal(s.code() as nat) + seq![32u8] + s.reason_bytes() + encode_utf8("\r\n"@)
}

/// One `Name: value` line.
pub open spec fn header_line(name: Seq<char>, value: Seq<char>) -> Seq<u8> {
    encode_utf8(name) + encode_utf8(": "@) + encode_utf8(value) + encode_utf8("\r\n"@)
}

/// The lines of a list of headers, in order.
pub open spec fn header_lines(h: Seq<(Seq<char>, Seq<char>)>) -> Seq<u8>
    decreases h.len(),
{
    if h.len() == 0 {
        Seq::empty()
    } else {
        header_lines(h.drop_last()) + header_line(h.last().0, h.last().1)
    }
}

/// Statuses whose responses carry neither a body nor a `Content-Length`.
pub open spec fn has_no_body(s: StatusCode) -> bool {
    s == StatusCode::NoContent || s == StatusCode::NotModified
}

/// The `Content-Type` line, if the response has a content type.
pub open spec fn content_type_line(c: Option<Seq<char>>) -> Seq<u8> {
    match c {
        Some(v) => encode_utf8("Content-Type: "@) + encode_utf8(v) + encode_utf8("\r\n"@),
        None => Seq::empty(),
    }
}

/// The `Content-Length` line, unless the status forbids a body.
pub open spec fn content_length_line(v: ResponseView) -> Seq<u8> {
    if has_no_body(v.status) {
        Seq::empty()
    } else {
        encode_utf8("Content-Length: "@) + decimal(v.body.len()) + encode_utf8("\r\n"@)
    }
}

/// `Connection: close`, or `Connection: keep-alive` with the idle timeout
/// (given in milliseconds) in whole seconds unless it is zero.
pub open spec fn connection_lines(keep_alive: Option<u64>) -> Seq<u8> {
    match keep_alive {
        None => encode_utf8("Connection: close\r\n"@),
        Some(ms) => encode_utf8("Connection: keep-alive\r\n"@) + if ms == 0 {
            Seq::empty()
        } else {
            encode_utf8("Keep-Alive: timeout="@) + decimal((ms / 1000) as nat) + encode_utf8("\r\n"@)
        },
    }
}

/// The head of a response sent at `date`.
pub open spec fn head_bytes(v: ResponseView, keep_alive: Option<u64>, date: CivilTime) -> Seq<u8> {
    status_line(v.status) + encode_utf8("Date: "@) + http_text(date) + encode_utf8("\r\n"@)
        + content_type_line(v.content_type) + header_lines(v.headers) + content_length_line(v)
        + connection_lines(keep_alive) + encode_utf8("\r\n"@)
}

/// The bytes of a response: its head, then its body when one is to be sent
/// and the status allows it.
pub open spec fn response_bytes(v: ResponseView, keep_alive: Option<u64>, send_body: bool, date: CivilTime) -> Seq<u8> {
    head_bytes(v, keep_alive, date) + if send_body && !has_no_body(v.status) {
        v.body
    } else {
        Seq::empty()
    }
}

/// Every header has a valid name and a value without CR, LF or NUL.
pub open spec fn valid_headers(h: Seq<(Seq<char>, Seq<char>)>) -> bool {
    forall|i: int| 0 <= i < h.len() ==> valid_header_name(#[trigger] h[i].0) && valid_header_value(h[i].1)
}

// ----------------------------------------------------------------------------
// The head ends once

proof fn lemma_crlf()
    ensures
        encode_utf8("\r\n"@) == crlf(),
{
    reveal_strlit("\r\n");
    assert(is_ascii_chars("\r\n"@));
    is_ascii_chars_encode_utf8("\r\n"@);
    assert(encode_utf8("\r\n"@) =~= crlf());
}

proof fn lemma_no_break_concat(a: Seq<u8>, b: Seq<u8>)
    requires
        no_break_bytes(a),
        no_break_bytes(b),
    ensures
        no_break_bytes(a + b),
{
    assert forall|i: int| 0 <= i < (a + b).len() implies #[trigger] (a + b)[i] != 13 && (a + b)[i] != 10 by {
        if i < a.len() {
            assert((a + b)[i] == a[i]);
        } else {
            assert((a + b)[i] == b[i - a.len()]);
        }
    }
}

proof fn lemma_decimal_no_break(n: nat)
    ensures
        no_break_bytes(decimal(n)),
{
    lemma_decimal_ascii(n);
}

proof fn lemma_value_no_break(v: Seq<char>)
    requires
        valid_header_value(v),
    ensures
        no_break_bytes(encode_utf8(v)),
{
    assert forall|i: int| 0 <= i < v.len() implies #[trigger] v[i] != '\r' && v[i] != '\n' by {
        if v[i] == '\r' || v[i] == '\n' {
            assert(crate::types::has_ctl(v));
        }
    }
    lemma_utf8_no_break(v);
}

proof fn lemma_padded_no_break(n: nat, w: nat)
    ensures
        no_break_bytes(zero_padded(decimal(n), w)),
{
    lemma_decimal_no_break(n);
    let d = decimal(n);
    if d.len() < w {
        let z = Seq::new((w - d.len()) as nat, |i: int| 48u8);
        assert(no_break_bytes(z));
        lemma_no_break_concat(z, d);
    }
}

/// An HTTP-date holds no CR or LF.
proof fn lemma_http_text_no_break(t: CivilTime)
    ensures
        no_break_bytes(http_text(t)),
{
    let dn = day_name(t.weekday);
    let mn = month_name(t.month);
    assert(no_break_bytes(dn)) by {
        assert(dn.len() == 3);
        assert forall|i: int| 0 <= i < 3 implies #[trigger] dn[i] != 13 && dn[i] != 10 by {
            assert(dn[i] >= 77 || dn[i] == 70 || dn[i] == 83 || dn[i] == 84 || dn[i] == 87 || dn[i] == 97 || dn[i] == 100
                || dn[i] == 101 || dn[i] == 104 || dn[i] == 105 || dn[i] == 110 || dn[i] == 114 || dn[i] == 116 || dn[i] == 117);
        }
    }
    assert(no_break_bytes(mn)) by {
        assert(mn.len() == 3);
        assert forall|i: int| 0 <= i < 3 implies #[trigger] mn[i] != 13 && mn[i] != 10 by {
            assert(mn[i] >= 65);
        }
    }
    lemma_padded_no_break(t.day as nat, 2);
    lemma_padded_no_break(t.hour as nat, 2);
    lemma_padded_no_break(t.minute as nat, 2);
    lemma_padded_no_break(t.second as nat, 2);
    lemma_decimal_no_break(t.year as nat);
    let sep1 = seq![44u8, 32u8];
    let sp = seq![32u8];
    let colon = seq![58u8];
    let gmt = seq![32u8, 71u8, 77u8, 84u8];
    assert(no_break_bytes(sep1));
    assert(no_break_bytes(sp));
    assert(no_break_bytes(colon));
    assert(no_break_bytes(gmt));
    let s1 = dn + sep1;
    lemma_no_break_concat(dn, sep1);
    let s2 = s1 + two_digits(t.day);
    lemma_no_break_concat(s1, two_digits(t.day));
    let s3 = s2 + sp;
    lemma_no_break_concat(s2, sp);
    let s4 = s3 + mn;
    lemma_no_break_concat(s3, mn);
    let s5 = s4 + sp;
    lemma_no_break_concat(s4, sp);
    let s6 = s5 + decimal(t.year as nat);
    lemma_no_break_concat(s5, decimal(t.year as nat));
    let s7 = s6 + sp;
    lemma_no_break_concat(s6, sp);
    let s8 = s7 + two_digits(t.hour);
    lemma_no_break_concat(s7, two_digits(t.hour));
    let s9 = s8 + colon;
    lemma_no_break_concat(s8, colon);
    let s10 = s9 + two_digits(t.minute);
    lemma_no_break_concat(s9, two_digits(t.minute));
    let s11 = s10 + colon;
    lemma_no_break_concat(s10, colon);
    let s12 = s11 + two_digits(t.second);
    lemma_no_break_concat(s11, two_digits(t.second));
    lemma_no_break_concat(s12, gmt);
    assert(http_text(t) == s12 + gmt);
}

/// A literal without CR or LF encodes to a non-empty line content.
proof fn lemma_lit_line(s: Seq<char>)
    requires
        s.len() > 0,
        no_break_chars(s),
    ensures
        no_break_bytes(encode_utf8(s)),
        encode_utf8(s).len() > 0,
{
    lemma_utf8_no_break(s);
    assert(encode_utf8(s).len() >= vstd::utf8::encode_scalar(s[0] as u32).len());
}

proof fn lemma_header_lines_whole(h: Seq<(Seq<char>, Seq<char>)>)
    requires
        valid_headers(h),
    ensures
        whole_lines(header_lines(h)),
    decreases h.len(),
{
    if h.len() == 0 {
        assert forall|j: int| !#[trigger] crate::request::matches_at(header_lines(h), head_terminator(), j) by {}
    } else {
        let p = h.drop_last();
        assert(valid_headers(p)) by {
            assert forall|i: int| 0 <= i < p.len() implies valid_header_name(#[trigger] p[i].0) && valid_header_value(p[i].1) by {
                assert(p[i] == h[i]);
            }
        }
        lemma_header_lines_whole(p);
        let n = h.last().0;
        let v = h.last().1;
        assert(valid_header_name(n) && valid_header_value(v)) by {
            assert(h[h.len() - 1] == h.last());
        }
        let en = encode_utf8(n);
        assert(no_break_bytes(en)) by {
            assert forall|i: int| 0 <= i < en.len() implies #[trigger] en[i] != 13 && en[i] != 10 by {
                assert(crate::types::is_tchar(en[i]));
            }
        }
        reveal_strlit(": ");
        lemma_lit_line(": "@);
        lemma_value_no_break(v);
        let c = en + encode_utf8(": "@) + encode_utf8(v);
        lemma_no_break_concat(en, encode_utf8(": "@));
        lemma_no_break_concat(en + encode_utf8(": "@), encode_utf8(v));
        lemma_one_line(c);
        lemma_crlf();
        assert(header_line(n, v) == c + crlf());
        lemma_lines_concat(header_lines(p), header_line(n, v));
    }
}

proof fn lemma_line_of(a: Seq<u8>, b: Seq<u8>)
    requires
        no_break_bytes(a),
        no_break_bytes(b),
        a.len() > 0,
    ensures
        whole_lines(a + b + crlf()),
{
    lemma_no_break_concat(a, b);
    lemma_one_line(a + b);
}

proof fn lemma_status_whole(st: StatusCode)
    ensures
        whole_lines(status_line(st)),
        status_line(st).len() > 0,
{
    lemma_crlf();
    reveal_strlit("HTTP/1.1 ");
    lemma_lit_line("HTTP/1.1 "@);
    lemma_decimal_no_break(st.code() as nat);
    crate::types::lemma_reason_ascii(st);
    let sp = seq![32u8];
    assert(no_break_bytes(sp));
    let reason = st.reason_bytes();
    assert(no_break_bytes(reason));
    let st1 = encode_utf8("HTTP/1.1 "@) + decimal(st.code() as nat);
    lemma_no_break_concat(encode_utf8("HTTP/1.1 "@), decimal(st.code() as nat));
    lemma_no_break_concat(st1, sp);
    lemma_line_of(st1 + sp, reason);
    assert(status_line(st) == st1 + sp + reason + crlf());
}

proof fn lemma_date_whole(date: CivilTime)
    ensures
        whole_lines(encode_utf8("Date: "@) + http_text(date) + encode_utf8("\r\n"@)),
{
    lemma_crlf();
    reveal_strlit("Date: ");
    lemma_lit_line("Date: "@);
    lemma_http_text_no_break(date);
    lemma_line_of(encode_utf8("Date: "@), http_text(date));
}

proof fn lemma_empty_whole(s: Seq<u8>)
    requires
        s.len() == 0,
    ensures
        whole_lines(s),
{
    assert forall|j: int| !#[trigger] crate::request::matches_at(s, head_terminator(), j) by {}
}

proof fn lemma_content_type_whole(c: Option<Seq<char>>)
    requires
        c matches Some(v) ==> valid_header_value(v),
    ensures
        whole_lines(content_type_line(c)),
{
    lemma_crlf();
    match c {
        Some(v) => {
            reveal_strlit("Content-Type: ");
            lemma_lit_line("Content-Type: "@);
            lemma_value_no_break(v);
            lemma_line_of(encode_utf8("Content-Type: "@), encode_utf8(v));
        },
        None => {
            lemma_empty_whole(content_type_line(c));
        },
    }
}

proof fn lemma_content_length_whole(v: ResponseView)
    ensures
        whole_lines(content_length_line(v)),
{
    lemma_crlf();
    if has_no_body(v.status) {
        lemma_empty_whole(content_length_line(v));
    } else {
        reveal_strlit("Content-Length: ");
        lemma_lit_line("Content-Length: "@);
        lemma_decimal_no_break(v.body.len());
        lemma_line_of(encode_utf8("Content-Length: "@), decimal(v.body.len()));
    }
}

proof fn lemma_lit_crlf_line(s: Seq<char>, t: Seq<char>)
    requires
        t.len() > 0,
        no_break_chars(t),
        s == t + "\r\n"@,
    ensures
        whole_lines(encode_utf8(s)),
{
    lemma_crlf();
    lemma_utf8_concat(t, "\r\n"@);
    lemma_lit_line(t);
    lemma_one_line(encode_utf8(t));
}

proof fn lemma_connection_whole(keep_alive: Option<u64>)
    ensures
        whole_lines(connection_lines(keep_alive)),
{
    lemma_crlf();
    reveal_strlit("\r\n");
    match keep_alive {
        None => {
            reveal_strlit("Connection: close\r\n");
            reveal_strlit("Connection: close");
            assert("Connection: close\r\n"@ =~= "Connection: close"@ + "\r\n"@);
            lemma_lit_crlf_line("Connection: close\r\n"@, "Connection: close"@);
        },
        Some(ms) => {
            reveal_strlit("Connection: keep-alive\r\n");
            reveal_strlit("Connection: keep-alive");
            assert("Connection: keep-alive\r\n"@ =~= "Connection: keep-alive"@ + "\r\n"@);
            lemma_lit_crlf_line("Connection: keep-alive\r\n"@, "Connection: keep-alive"@);
            let a = encode_utf8("Connection: keep-alive\r\n"@);
            if ms != 0 {
                reveal_strlit("Keep-Alive: timeout=");
                lemma_lit_line("Keep-Alive: timeout="@);
                lemma_decimal_no_break((ms / 1000) as nat);
                lemma_line_of(encode_utf8("Keep-Alive: timeout="@), decimal((ms / 1000) as nat));
                let b = encode_utf8("Keep-Alive: timeout="@) + decimal((ms / 1000) as nat) + encode_utf8("\r\n"@);
                lemma_lines_concat(a, b);
                assert(connection_lines(keep_alive) == a + b);
            } else {
                assert(connection_lines(keep_alive) =~= a);
            }
        },
    }
}

/// Every response head ends at its first blank line: no header, content
/// type or status can end it early or add a line to it, so a reader that
/// looks for CR LF CR LF finds the end of exactly this head, whatever
/// bytes follow.
pub proof fn lemma_head_ends_once(v: ResponseView, keep_alive: Option<u64>, date: CivilTime, rest: Seq<u8>)
    requires
        valid_headers(v.headers),
        v.content_type matches Some(c) ==> valid_header_value(c),
    ensures
        first_match_from(head_bytes(v, keep_alive, date) + rest, head_terminator(), 0) == Some(
            head_bytes(v, keep_alive, date).len() - 4,
        ),
{
    lemma_crlf();
    let l1 = status_line(v.status);
    let l2 = encode_utf8("Date: "@) + http_text(date) + encode_utf8("\r\n"@);
    let l3 = content_type_line(v.content_type);
    let l4 = header_lines(v.headers);
    let l5 = content_length_line(v);
    let l6 = connection_lines(keep_alive);
    lemma_status_whole(v.status);
    lemma_date_whole(date);
    lemma_content_type_whole(v.content_type);
    lemma_header_lines_whole(v.headers);
    lemma_content_length_whole(v);
    lemma_connection_whole(keep_alive);
    lemma_lines_concat(l1, l2);
    lemma_lines_concat(l1 + l2, l3);
    lemma_lines_concat(l1 + l2 + l3, l4);
    lemma_lines_concat(l1 + l2 + l3 + l4, l5);
    lemma_lines_concat(l1 + l2 + l3 + l4 + l5, l6);
    let x = l1 + l2 + l3 + l4 + l5 + l6;
    assert(head_bytes(v, keep_alive, date) =~= x + crlf());
    lemma_head_end(x, rest);
}

/// A regular HTTP response.
pub struct Response {
    status_code: StatusCode,
    content_type: Option<HeaderValue>,
    headers: Vec<(HeaderName, HeaderValue)>,
    body: Vec<u8>,
}

/// The names and values of a list of headers.
pub open spec fn header_pairs(h: Seq<(HeaderName, HeaderValue)>) -> Seq<(Seq<char>, Seq<char>)> {
    h.map_values(|p: (HeaderName, HeaderValue)| (p.0.name(), p.1.value()))
}

impl View for Response {
    type V = ResponseView;

    closed spec fn view(&self) -> ResponseView {
        ResponseView {
            status: self.status_code,
            content_type: match self.content_type {
                Some(v) => Some(v.value()),
                None => None,
            },
            headers: header_pairs(self.headers@),
            body: self.body@,
        }
    }
}

impl Response {
    #[verifier::type_invariant]
    spec fn inv(self) -> bool {
        &&& no_reserved(header_pairs(self.headers@))
        &&& valid_headers(header_pairs(self.headers@))
        &&& self.content_type matches Some(v) ==> valid_header_value(v.value())
    }

    /// Returns a `200 OK` response with no headers and an empty body.
    pub fn new() -> (r: Self)
        ensures
            r@ == (ResponseView { status: StatusCode::OK, content_type: None, headers: Seq::empty(), body: Seq::empty() }),
    {
        let r = Response { status_code: StatusCode::OK, content_type: None, headers: Vec::new(), body: Vec::new() };
        assert(r@.headers =~= Seq::empty());
        r
    }

    /// Returns the response with the status code updated.
    pub fn with_status(self, status_code: StatusCode) -> (r: Self)
        ensures
            r@ == (ResponseView { status: status_code, content_type: self@.content_type, headers: self@.headers, body: self@.body }),
            no_reserved(r@.headers),
    {
        proof {
            use_type_invariant(&self);
        }
        Response { status_code, content_type: self.content_type, headers: self.headers, body: self.body }
    }

    /// Returns the response with the given body and content type.
    pub fn with_body(self, content_type: ContentType, body: Vec<u8>) -> (r: Self)
        ensures
            r@ == (ResponseView { status: self@.status, content_type: Some(content_type.mime()), headers: self@.headers, body: body@ }),
            no_reserved(r@.headers),
    {
        proof {
            use_type_invariant(&self);
            use_type_invariant(&content_type);
        }
        Response {
            status_code: self.status_code,
            content_type: Some(HeaderValue::from_content_type(content_type)),
            headers: self.headers,
            body,
        }
    }

    /// Returns the response with an additional HTTP header.
    ///
    /// `Content-Length`, `Connection`, `Keep-Alive` and `Date` are written by
    /// the server and are ignored here; `Content-Type` replaces the content type.
    pub fn with_header(self, name: HeaderName, value: HeaderValue) -> (r: Self)
        ensures
            r@ == add_header_spec(self@, name.name(), value.value()),
            no_reserved(r@.headers),
    {
        let mut r = self;
        r.add_header(name, value);
        r
    }

    /// Adds an HTTP header: `Content-Length`, `Connection`, `Keep-Alive` and
    /// `Date` (in any case) are written by the server and are ignored;
    /// `Content-Type` replaces the content type; any other is appended.
    pub fn add_header(&mut self, name: HeaderName, value: HeaderValue)
        ensures
            final(self)@ == add_header_spec(old(self)@, name.name(), value.value()),
            no_reserved(final(self)@.headers),
    {
        proof {
            use_type_invariant(&*self);
            use_type_invariant(&name);
            use_type_invariant(&value);
            reveal_strlit("content-length");
            reveal_strlit("connection");
            reveal_strlit("keep-alive");
            reveal_strlit("date");
            reveal_strlit("content-type");
            assert(lower("content-length"@) =~= content_length_key());
            assert(lower("connection"@) =~= connection_key());
            assert(lower("keep-alive"@) =~= keep_alive_key());
            assert(lower("date"@) =~= date_key());
            assert(lower("content-type"@) =~= content_type_key());
        }
        let n = name.as_str();
        if eq_ignore_ascii_case(n, "content-length") || eq_ignore_ascii_case(n, "connection")
            || eq_ignore_ascii_case(n, "keep-alive") || eq_ignore_ascii_case(n, "date") {
            return;
        }
        if eq_ignore_ascii_case(n, "content-type") {
            self.content_type = Some(value);
            return;
        }
        let ghost before = self.headers@;
        let ghost nm = name.name();
        let ghost vl = value.value();
        let mut headers: Vec<(HeaderName, HeaderValue)> = Vec::new();
        std::mem::swap(&mut headers, &mut self.headers);
        headers.push((name, value));
        assert(header_pairs(headers@) =~= header_pairs(before).push((nm, vl)));
        self.headers = headers;
    }

    /// Returns a `404 Not Found` response with an empty body.
    pub fn not_found() -> (r: Self)
        ensures
            r@ == (ResponseView { status: StatusCode::NotFound, content_type: None, headers: Seq::empty(), body: Seq::empty() }),
    {
        Self::error(StatusCode::NotFound)
    }

    /// Returns a response with the given (error) status code and an empty body.
    pub fn error(status_code: StatusCode) -> (r: Self)
        ensures
            r@ == (ResponseView { status: status_code, content_type: None, headers: Seq::empty(), body: Seq::empty() }),
    {
        Self::new().with_status(status_code)
    }

    /// Returns a `200 OK` response with the given content type and body.
    pub fn ok(content_type: ContentType, body: Vec<u8>) -> (r: Self)
        ensures
            r@ == (ResponseView { status: StatusCode::OK, content_type: Some(content_type.mime()), headers: Seq::empty(), body: body@ }),
    {
        Self::new().with_body(content_type, body)
    }

    /// Returns a `200 OK` response with a MIME type inferred from `ext`, the
    /// file extension without a leading dot (e.g. `"html"`); an unknown
    /// extension gives `application/octet-stream`.
    pub fn file(ext: Option<&str>, body: Vec<u8>) -> (r: Self)
        ensures
            r@.status == StatusCode::OK,
            r@.headers == Seq::<(Seq<char>, Seq<char>)>::empty(),
            r@.body == body@,
            (exists|k: int| 0 <= k < known_count() && (ext matches Some(e) && e@ == ascii_chars(#[trigger] known_ext(k)))
                && r@.content_type == Some(ascii_chars(known_mime(k))))
            || ((forall|k: int| 0 <= k < known_count() ==> !(ext matches Some(e) && e@ == ascii_chars(#[trigger] known_ext(k))))
                && r@.content_type == Some(ascii_chars(known_mime(31)))),
    {
        let mime = match ContentType::from_extension(ext) {
            Some(t) => t,
            None => ContentType::default_type(),
        };
        Self::new().with_body(mime, body)
    }

    /// Returns a `307 Temporary Redirect` to `to`.
    pub fn redirect(to: HeaderValue) -> (r: Self)
        ensures
            r@ == (ResponseView {
                status: StatusCode::TemporaryRedirect,
                content_type: None,
                headers: seq![(ascii_chars(known_header(23)), to.value())],
                body: Seq::empty(),
            }),
    {
        let loc = HeaderName::location();
        proof {
            assert(lower(ascii_chars(known_header(23))).len() == 8);
        }
        Self::new().with_status(StatusCode::TemporaryRedirect).with_header(loc, to)
    }

    /// The bytes to send for this response: `keep_alive` is the idle timeout
    /// in milliseconds to keep the connection open, `None` to close it;
    /// `send_body` is false for `HEAD` requests.
    pub fn to_bytes(&self, keep_alive: Option<u64>, send_body: bool, date: &Date) -> (out: Vec<u8>)
        ensures
            out@ == response_bytes(self@, keep_alive, send_body, date@),
            first_match_from(out@, head_terminator(), 0) == Some(head_bytes(self@, keep_alive, date@).len() - 4),
    {
        proof {
            use_type_invariant(self);
            lemma_head_ends_once(self@, keep_alive, date@, if send_body && !has_no_body(self@.status) {
                self@.body
            } else {
                Seq::empty()
            });
        }
        let mut out: Vec<u8> = Vec::new();
        push_status_line(&mut out, self.status_code);
        push_date_line(&mut out, date);
        push_content_type_line(&mut out, &self.content_type);
        push_header_lines(&mut out, &self.headers);
        let ghost after_headers = out@;
        let no_body = self.status_code == StatusCode::NoContent || self.status_code == StatusCode::NotModified;
        if !no_body {
            push_str(&mut out, "Content-Length: ");
            push_decimal(&mut out, self.body.len() as u64);
            push_str(&mut out, "\r\n");
        }
        assert(out@ =~= after_headers + content_length_line(self@));
        push_connection_lines(&mut out, keep_alive);
        push_str(&mut out, "\r\n");
        assert(out@ =~= head_bytes(self@, keep_alive, date@));
        let ghost head = out@;
        if send_body && !no_body {
            push_slice(&mut out, self.body.as_slice());
        }
        assert(out@ =~= head + if send_body && !has_no_body(self@.status) { self@.body } else { Seq::empty() });
        out
    }

    /// The status code.
    pub fn status_code(&self) -> (s: StatusCode)
        ensures
            s == self@.status,
    {
        self.status_code
    }

    /// The length of the body.
    pub fn body_len(&self) -> (n: usize)
        ensures
            n == self@.body.len(),
    {
        self.body.len()
    }
}

impl Default for Response {
    fn default() -> (r: Self)
        ensures
            r@ == (ResponseView { status: StatusCode::OK, content_type: None, headers: Seq::empty(), body: Seq::empty() }),
    {
        Self::new()
    }
}

fn push_status_line(out: &mut Vec<u8>, s: StatusCode)
    ensures
        final(out)@ == old(out)@ + status_line(s),
{
    let ghost start = out@;
    push_str(out, "HTTP/1.1 ");
    push_decimal(out, s.as_u16() as u64);
    out.push(32u8);
    let reason = s.as_str();
    push_str(out, reason);
    proof {
        crate::types::lemma_reason_ascii(s);
        lemma_ascii_encode(reason@, s.reason_bytes());
    }
    push_str(out, "\r\n");
    assert(out@ =~= start + status_line(s));
}

fn push_date_line(out: &mut Vec<u8>, date: &Date)
    ensures
        final(out)@ == old(out)@ + encode_utf8("Date: "@) + http_text(date@) + encode_utf8("\r\n"@),
{
    let ghost start = out@;
    push_str(out, "Date: ");
    let d = date.http();
    push_str(out, d.as_str());
    proof {
        lemma_http_text_ascii(date@);
        lemma_ascii_encode(d@, http_text(date@));
    }
    push_str(out, "\r\n");
    assert(out@ =~= start + encode_utf8("Date: "@) + http_text(date@) + encode_utf8("\r\n"@));
}

fn push_content_type_line(out: &mut Vec<u8>, c: &Option<HeaderValue>)
    ensures
        final(out)@ == old(out)@ + content_type_line(match c {
            Some(v) => Some(v.value()),
            None => None,
        }),
{
    let ghost start = out@;
    match c {
        Some(ct) => {
            push_str(out, "Content-Type: ");
            push_str(out, ct.as_str());
            push_str(out, "\r\n");
            assert(out@ =~= start + content_type_line(Some(ct.value())));
        },
        None => {
            assert(out@ =~= start + Seq::<u8>::empty());
        },
    }
}

fn push_header_lines(out: &mut Vec<u8>, headers: &Vec<(HeaderName, HeaderValue)>)
    ensures
        final(out)@ == old(out)@ + header_lines(header_pairs(headers@)),
{
    let ghost start = out@;
    let ghost pairs = header_pairs(headers@);
    assert(pairs.take(0) =~= Seq::<(Seq<char>, Seq<char>)>::empty());
    assert(out@ =~= start + header_lines(pairs.take(0)));
    let mut i: usize = 0;
    while i < headers.len()
        invariant
            i <= headers@.len(),
            pairs == header_pairs(headers@),
            out@ == start + header_lines(pairs.take(i as int)),
        decreases headers@.len() - i,
    {
        let (name, value) = &headers[i];
        let ghost before = out@;
        push_str(out, name.as_str());
        push_str(out, ": ");
        push_str(out, value.as_str());
        push_str(out, "\r\n");
        assert(pairs.take(i + 1).drop_last() =~= pairs.take(i as int));
        assert(pairs[i as int] == (name.name(), value.value()));
        assert(out@ =~= before + header_line(name.name(), value.value()));
        i = i + 1;
    }
    assert(pairs.take(headers@.len() as int) =~= pairs);
}

fn push_connection_lines(out: &mut Vec<u8>, keep_alive: Option<u64>)
    ensures
        final(out)@ == old(out)@ + connection_lines(keep_alive),
{
    let ghost start = out@;
    match keep_alive {
        Some(ms) => {
            push_str(out, "Connection: keep-alive\r\n");
            if ms != 0 {
                push_str(out, "Keep-Alive: timeout=");
                push_decimal(out, ms / 1000);
                push_str(out, "\r\n");
            }
        },
        None => {
            push_str(out, "Connection: close\r\n");
        },
    }
    assert(out@ =~= start + connection_lines(keep_alive));
}

/// Formats `secs` seconds after the Unix epoch as an HTTP-date.
pub fn http_date_from(secs: u64) -> (s: String)
    ensures
        exists|t: CivilTime| describes(t, secs as int) && s@ == ascii_chars(#[trigger] http_text(t)),
{
    let d = Date::new(secs);
    let s = d.http();
    assert(describes(d@, secs as int) && s@ == ascii_chars(http_text(d@)));
    s
}

/// Formats the current time, as the system clock reads it, as an HTTP-date.
pub fn http_date() -> (s: String)
    ensures
        exists|secs: u64, t: CivilTime| #[trigger] describes(t, secs as int) && s@ == ascii_chars(http_text(t)),
{
    let d = Date::now();
    let s = d.http();
    let ghost t = d@;
    let ghost secs = choose|secs: u64| describes(t, secs as int);
    assert(describes(t, secs as int) && s@ == ascii_chars(http_text(t)));
    s
}

} // verus!
