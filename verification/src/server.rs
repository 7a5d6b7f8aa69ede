//! Server configuration and the decisions the connection loop makes:
//! whether to keep a connection open, and what the access log records.

use vstd::prelude::*;
use vstd::utf8::encode_utf8;
use crate::date::{Date, CivilTime, clf_text, lemma_clf_text_ascii};
use crate::fields::{HeaderMap, has_key, key_index};
use crate::fmt::{decimal, hex_upper, hex_digit, hex_digit_upper, push_decimal, lemma_decimal_ascii};
use crate::request::{Request, any_token, has_token, has_item, lemma_any_token_items};
use crate::response::connection_key;
use crate::text::{ascii_chars, all_ascii, ascii_string, chars_of, string_from_chars};

verus! {

/// Configuration of a server. Durations are in milliseconds.
pub struct Config {
    /// Number of threads in the pool. Default: `(cpus * 2).clamp(8, 32)`.
    pub pool_size: usize,
    /// Maximum size of the request line and headers in bytes; larger
    /// requests receive a `400 Bad Request` response. Default: 8192.
    pub max_header_size: usize,
    /// Maximum request body size in bytes; larger bodies are refused with
    /// `413 Content Too Large`. Default: 65536.
    pub max_body_size: usize,
    /// Timeout for reading the request head and body. Default: 5 seconds.
    pub read_timeout: u64,
    /// Idle timeout between keep-alive requests. Default: 30 seconds.
    pub idle_timeout: u64,
    /// Timeout for writing the response. Default: 5 seconds.
    pub write_timeout: u64,
    /// Whether to log a line for every completed request. Default: `true`.
    pub access_log: bool,
    /// Largest WebSocket message; a larger one closes the connection with
    /// status 1009. Default: 1 MiB.
    pub max_ws_message_size: usize,
    /// How long a graceful shutdown waits for open connections; `None` waits
    /// for all of them. Default: `None`.
    pub shutdown_timeout: Option<u64>,
}

/// The default pool size for a machine with `cpus` processors: twice the
/// processors, at least 8 and at most 32.
pub open spec fn pool_size_for(cpus: int) -> int {
    let n = 2 * cpus;
    if n < 8 {
        8
    } else if n > 32 {
        32
    } else {
        n
    }
}

impl Config {
    /// The default configuration for a machine with `cpus` processors.
    pub fn for_cpus(cpus: usize) -> (c: Self)
        ensures
            c.pool_size == pool_size_for(cpus as int),
            c.max_header_size == 8192,
            c.max_body_size == 65536,
            c.read_timeout == 5000,
            c.idle_timeout == 30000,
            c.write_timeout == 5000,
            c.access_log,
            c.max_ws_message_size == 1048576,
            c.shutdown_timeout is None,
    {
        let pool_size = if cpus >= 16 {
            32
        } else if cpus < 4 {
            8
        } else {
            cpus * 2
        };
        Config {
            pool_size,
            max_header_size: 8192,
            max_body_size: 65536,
            read_timeout: 5000,
            idle_timeout: 30000,
            write_timeout: 5000,
            access_log: true,
            max_ws_message_size: 1048576,
            shutdown_timeout: None,
        }
    }

    /// Checks that no size or timeout is zero; the error names the first
    /// field that is. A server refuses to start (it panics with this
    /// message) on a configuration that fails the check.
    pub fn validate(&self) -> (r: Result<(), &'static str>)
        ensures
            self.pool_size == 0 ==> r == Err::<(), &str>("pool_size must be > 0"),
            self.pool_size > 0 && self.max_header_size == 0 ==> r == Err::<(), &str>("max_header_size must be > 0"),
            self.pool_size > 0 && self.max_header_size > 0 && self.max_body_size == 0
                ==> r == Err::<(), &str>("max_body_size must be > 0"),
            self.pool_size > 0 && self.max_header_size > 0 && self.max_body_size > 0 && self.read_timeout == 0
                ==> r == Err::<(), &str>("read_timeout must be > 0"),
            self.pool_size > 0 && self.max_header_size > 0 && self.max_body_size > 0 && self.read_timeout > 0
                && self.idle_timeout == 0 ==> r == Err::<(), &str>("idle_timeout must be > 0"),
            self.pool_size > 0 && self.max_header_size > 0 && self.max_body_size > 0 && self.read_timeout > 0
                && self.idle_timeout > 0 && self.write_timeout == 0 ==> r == Err::<(), &str>("write_timeout must be > 0"),
            r is Ok <==> (self.pool_size > 0 && self.max_header_size > 0 && self.max_body_size > 0 && self.read_timeout > 0
                && self.idle_timeout > 0 && self.write_timeout > 0),
    {
        if self.pool_size == 0 {
            Err("pool_size must be > 0")
        } else if self.max_header_size == 0 {
            Err("max_header_size must be > 0")
        } else if self.max_body_size == 0 {
            Err("max_body_size must be > 0")
        } else if self.read_timeout == 0 {
            Err("read_timeout must be > 0")
        } else if self.idle_timeout == 0 {
            Err("idle_timeout must be > 0")
        } else if self.write_timeout == 0 {
            Err("write_timeout must be > 0")
        } else {
            Ok(())
        }
    }
}

// ----------------------------------------------------------------------------
// Keep-alive

/// Whether the connection stays open after answering a request: the client
/// did not ask to close it (a `close` token in `Connection`) and the server
/// is not shutting down.
pub open spec fn keep_alive_spec(h: Seq<(Seq<char>, Seq<char>)>, shutting_down: bool) -> bool {
    !(has_key(h, connection_key()) && any_token(h[key_index(h, connection_key())].1, "close"@)) && !shutting_down
}

/// Unless the server is shutting down, a connection is kept open exactly
/// when no comma-separated item of the request's `Connection` header,
/// trimmed, is `close` in any case: `keep-alive`, `Upgrade` or no header
/// at all keep it open.
pub proof fn lemma_keep_alive_close_token(h: Seq<(Seq<char>, Seq<char>)>, shutting_down: bool)
    ensures
        keep_alive_spec(h, shutting_down) == (!shutting_down && !(has_key(h, "connection"@) && has_item(
            h[key_index(h, "connection"@)].1,
            "close"@,
        ))),
{
    reveal_strlit("connection");
    assert("connection"@ =~= connection_key());
    if has_key(h, connection_key()) {
        lemma_any_token_items(h[key_index(h, connection_key())].1, "close"@);
    }
}

/// Decides `keep_alive_spec` for a request's headers.
pub fn keep_alive(headers: &HeaderMap, shutting_down: bool) -> (r: bool)
    ensures
        r == keep_alive_spec(headers@, shutting_down),
{
    proof {
        reveal_strlit("connection");
        assert("connection"@ =~= connection_key());
    }
    let close = match headers.get("connection") {
        None => false,
        Some(v) => has_token(v.as_str(), "close"),
    };
    !close && !shutting_down
}

// ----------------------------------------------------------------------------
// Access log

/// A byte that stands in a log field as itself: printable ASCII other than
/// the quoting characters `"` and `\`.
pub open spec fn kept_byte(b: u8) -> bool {
    32 <= b <= 126 && b != 34 && b != 92
}

/// A byte as it stands in a log field: itself, or `\x` and two upper-case
/// hexadecimal digits.
pub open spec fn escaped_byte(b: u8) -> Seq<u8> {
    if kept_byte(b) {
        seq![b]
    } else {
        seq![92u8, 120u8] + hex_upper(b)
    }
}

/// The bytes of a log field, each escaped.
pub open spec fn sanitize_bytes(s: Seq<u8>) -> Seq<u8>
    decreases s.len(),
{
    if s.len() == 0 {
        Seq::empty()
    } else {
        sanitize_bytes(s.drop_last()) + escaped_byte(s.last())
    }
}

/// A sanitized field is printable ASCII and holds no `"`: it cannot end a
/// quoted log field or forge another log line.
pub proof fn lemma_sanitized_printable(s: Seq<u8>)
    ensures
        forall|i: int| 0 <= i < sanitize_bytes(s).len() ==> 32 <= #[trigger] sanitize_bytes(s)[i] <= 126
            && sanitize_bytes(s)[i] != 34,
    decreases s.len(),
{
    if s.len() > 0 {
        lemma_sanitized_printable(s.drop_last());
        let b = s.last();
        let e = escaped_byte(b);
        assert(b / 16 < 16 && b % 16 < 16);
        assert forall|i: int| 0 <= i < e.len() implies 32 <= #[trigger] e[i] <= 126 && e[i] != 34 by {
            if !kept_byte(b) {
                assert(e =~= seq![92u8, 120u8, hex_digit_upper(b / 16), hex_digit_upper(b % 16)]);
            }
        }
        let p = sanitize_bytes(s.drop_last());
        assert(sanitize_bytes(s) =~= p + e);
        assert forall|i: int| 0 <= i < sanitize_bytes(s).len() implies 32 <= #[trigger] sanitize_bytes(s)[i] <= 126
            && sanitize_bytes(s)[i] != 34 by {
            if i < p.len() {
                assert(sanitize_bytes(s)[i] == p[i]);
            } else {
                assert(sanitize_bytes(s)[i] == e[i - p.len()]);
            }
        }
    }
}

/// A field of printable ASCII other than `"` and `\` is logged as it is.
pub proof fn lemma_sanitize_plain(s: Seq<u8>)
    requires
        forall|i: int| 0 <= i < s.len() ==> kept_byte(#[trigger] s[i]),
    ensures
        sanitize_bytes(s) == s,
    decreases s.len(),
{
    if s.len() > 0 {
        lemma_sanitize_plain(s.drop_last());
        assert(s.drop_last().push(s.last()) =~= s);
    }
}

/// Sanitizing a concatenation sanitizes each part.
pub proof fn lemma_sanitize_concat(a: Seq<u8>, b: Seq<u8>)
    ensures
        sanitize_bytes(a + b) == sanitize_bytes(a) + sanitize_bytes(b),
    decreases b.len(),
{
    if b.len() == 0 {
        assert(a + b =~= a);
        assert(sanitize_bytes(a) + sanitize_bytes(b) =~= sanitize_bytes(a));
    } else {
        assert((a + b).drop_last() =~= a + b.drop_last());
        assert((a + b).last() == b.last());
        lemma_sanitize_concat(a, b.drop_last());
        assert(sanitize_bytes(a + b) =~= sanitize_bytes(a) + sanitize_bytes(b));
    }
}

proof fn lemma_sanitize_first(s: Seq<u8>)
    requires
        s.len() > 0,
    ensures
        sanitize_bytes(s) == escaped_byte(s[0]) + sanitize_bytes(s.drop_first()),
{
    let first = seq![s[0]];
    assert(first + s.drop_first() =~= s);
    lemma_sanitize_concat(first, s.drop_first());
    assert(first.drop_last() =~= Seq::<u8>::empty());
    assert(first.drop_last().len() == 0);
    assert(sanitize_bytes(first.drop_last()) == Seq::<u8>::empty());
    assert(first.last() == s[0]);
    assert(sanitize_bytes(first) == sanitize_bytes(first.drop_last()) + escaped_byte(first.last()));
    assert(sanitize_bytes(first) =~= escaped_byte(s[0]));
}

proof fn lemma_sanitize_empty(s: Seq<u8>)
    ensures
        sanitize_bytes(s).len() == 0 <==> s.len() == 0,
    decreases s.len(),
{
    if s.len() > 0 {
        lemma_sanitize_empty(s.drop_last());
    }
}

/// Different fields are logged differently: the escaping can be undone.
pub proof fn lemma_sanitize_injective(a: Seq<u8>, b: Seq<u8>)
    requires
        sanitize_bytes(a) == sanitize_bytes(b),
    ensures
        a == b,
    decreases a.len(),
{
    lemma_sanitize_empty(a);
    lemma_sanitize_empty(b);
    if a.len() > 0 && b.len() > 0 {
        lemma_sanitize_first(a);
        lemma_sanitize_first(b);
        let x = a[0];
        let y = b[0];
        let ea = escaped_byte(x);
        let eb = escaped_byte(y);
        let ra = sanitize_bytes(a.drop_first());
        let rb = sanitize_bytes(b.drop_first());
        let t = sanitize_bytes(a);
        assert(t == ea + ra && t == eb + rb);
        assert(t[0] == ea[0] && t[0] == eb[0]);
        if kept_byte(x) && kept_byte(y) {
            assert(x == y);
            assert(ra =~= t.skip(1) && rb =~= t.skip(1));
        } else if kept_byte(x) {
            assert(false);
        } else if kept_byte(y) {
            assert(false);
        } else {
            assert(t[2] == ea[2] && t[2] == eb[2]);
            assert(t[3] == ea[3] && t[3] == eb[3]);
            assert(x / 16 < 16 && y / 16 < 16 && x % 16 < 16 && y % 16 < 16);
            assert(x / 16 == y / 16);
            assert(x % 16 == y % 16);
            assert(x == y);
            assert(ra =~= t.skip(4) && rb =~= t.skip(4));
        }
        lemma_sanitize_injective(a.drop_first(), b.drop_first());
        assert(a =~= seq![x] + a.drop_first());
        assert(b =~= seq![y] + b.drop_first());
    }
}

/// Two strings whose sanitized log fields are equal are equal.
pub proof fn lemma_sanitize_field_injective(s1: Seq<char>, s2: Seq<char>)
    requires
        ascii_chars(sanitize_bytes(encode_utf8(s1))) == ascii_chars(sanitize_bytes(encode_utf8(s2))),
    ensures
        s1 == s2,
{
    let x = sanitize_bytes(encode_utf8(s1));
    let y = sanitize_bytes(encode_utf8(s2));
    assert(x.len() == ascii_chars(x).len() && y.len() == ascii_chars(y).len());
    assert forall|i: int| 0 <= i < x.len() implies x[i] == y[i] by {
        assert(ascii_chars(x)[i] == ascii_chars(y)[i]);
    }
    assert(x =~= y);
    lemma_sanitize_injective(encode_utf8(s1), encode_utf8(s2));
    vstd::utf8::encode_utf8_decode_utf8(s1);
    vstd::utf8::encode_utf8_decode_utf8(s2);
}

/// Escapes the bytes of `s` that could forge log fields: controls,
/// non-ASCII bytes, and the quoting characters `"` and `\`.
pub fn sanitize_field(s: &str) -> (r: String)
    ensures
        r@ == ascii_chars(sanitize_bytes(encode_utf8(s@))),
{
    let b = s.as_bytes();
    let mut out: Vec<u8> = Vec::new();
    let mut i: usize = 0;
    while i < b.len()
        invariant
            i <= b@.len(),
            b@ == encode_utf8(s@),
            out@ == sanitize_bytes(b@.take(i as int)),
        decreases b@.len() - i,
    {
        let c = b[i];
        if 32 <= c && c <= 126 && c != 34 && c != 92 {
            out.push(c);
        } else {
            out.push(92u8);
            out.push(120u8);
            out.push(hex_digit(c / 16));
            out.push(hex_digit(c % 16));
        }
        assert(b@.take(i + 1).drop_last() =~= b@.take(i as int));
        i = i + 1;
    }
    assert(b@.take(b@.len() as int) =~= b@);
    proof {
        lemma_sanitized_printable(b@);
    }
    ascii_string(out)
}

/// Appends the characters of `s`.
fn push_chars(out: &mut Vec<char>, s: &str)
    ensures
        final(out)@ == old(out)@ + s@,
{
    let c = chars_of(s);
    let ghost start = out@;
    let mut i: usize = 0;
    while i < c.len()
        invariant
            i <= c@.len(),
            c@ == s@,
            out@ == start + c@.take(i as int),
        decreases c@.len() - i,
    {
        out.push(c[i]);
        assert(c@.take(i + 1) =~= c@.take(i as int).push(c@[i as int]));
        i = i + 1;
    }
    assert(c@.take(c@.len() as int) =~= c@);
}

/// Appends the characters of ASCII-valued bytes.
fn push_ascii(out: &mut Vec<char>, b: &[u8])
    requires
        all_ascii(b@),
    ensures
        final(out)@ == old(out)@ + ascii_chars(b@),
{
    let ghost start = out@;
    let mut i: usize = 0;
    while i < b.len()
        invariant
            i <= b@.len(),
            all_ascii(b@),
            out@ == start + ascii_chars(b@.take(i as int)),
        decreases b@.len() - i,
    {
        let x = b[i];
        assert(x < 128);
        out.push(x as char);
        assert(ascii_chars(b@.take(i + 1)) =~= ascii_chars(b@.take(i as int)).push(x as char));
        i = i + 1;
    }
    assert(b@.take(b@.len() as int) =~= b@);
}

/// Appends the decimal digits of `n`.
fn push_number(out: &mut Vec<char>, n: u64)
    ensures
        final(out)@ == old(out)@ + ascii_chars(decimal(n as nat)),
{
    let mut digits: Vec<u8> = Vec::new();
    push_decimal(&mut digits, n);
    assert(digits@ =~= decimal(n as nat));
    proof {
        lemma_decimal_ascii(n as nat);
    }
    push_ascii(out, digits.as_slice());
}

/// The request line as the access log shows it.
pub fn clf_request_line(method: &str, path: &str) -> (r: String)
    ensures
        r@ == method@ + " "@ + path@ + " HTTP/1.1"@,
{
    let mut out: Vec<char> = Vec::new();
    push_chars(&mut out, method);
    push_chars(&mut out, " ");
    push_chars(&mut out, path);
    push_chars(&mut out, " HTTP/1.1");
    string_from_chars(out.as_slice())
}

/// `-`, the log field of an absent value.
pub open spec fn dash() -> Seq<char> {
    seq!['-']
}

/// A header of the request as the access log shows it: sanitized, or `-`.
pub open spec fn clf_header_spec(h: Seq<(Seq<char>, Seq<char>)>, key: Seq<char>) -> Seq<char> {
    if has_key(h, key) {
        ascii_chars(sanitize_bytes(encode_utf8(h[key_index(h, key)].1)))
    } else {
        dash()
    }
}

fn clf_header(req: &Request, key: &str) -> (r: String)
    ensures
        r@ == clf_header_spec(req.headers@, key@),
{
    match req.headers.get(key) {
        Some(v) => sanitize_field(v.as_str()),
        None => {
            let d: [char; 1] = ['-'];
            assert(d@ =~= dash());
            string_from_chars(&d)
        },
    }
}

/// The `Referer` and `User-Agent` fields of the access log.
pub fn clf_headers(req: &Request) -> (r: (String, String))
    ensures
        r.0@ == clf_header_spec(req.headers@, "referer"@),
        r.1@ == clf_header_spec(req.headers@, "user-agent"@),
{
    (clf_header(req, "referer"), clf_header(req, "user-agent"))
}

/// A line of the access log in the Combined Log Format, followed by the
/// latency (when known) and the request id.
pub open spec fn clf_line_spec(
    peer: Seq<char>,
    date: CivilTime,
    request: Seq<char>,
    status: u16,
    bytes: Option<u64>,
    referer: Seq<char>,
    ua: Seq<char>,
    ms: Option<u64>,
    id: u64,
) -> Seq<char> {
    peer + " - - "@ + ascii_chars(clf_text(date)) + " \""@ + request + "\" "@ + ascii_chars(decimal(status as nat))
        + " "@ + match bytes {
        Some(n) => ascii_chars(decimal(n as nat)),
        None => dash(),
    } + " \""@ + referer + "\" \""@ + ua + "\" "@ + match ms {
        Some(m) => ascii_chars(decimal(m as nat)) + "ms "@,
        None => Seq::empty(),
    } + "#"@ + ascii_chars(decimal(id as nat))
}

/// Formats a line of the access log; `bytes` is `None` when the size of
/// the answer is not known (shown as `-`).
pub fn clf_line(
    peer: &str,
    date: &Date,
    request: &str,
    status: u16,
    bytes: Option<u64>,
    referer: &str,
    ua: &str,
    ms: Option<u64>,
    id: u64,
) -> (r: String)
    ensures
        r@ == clf_line_spec(peer@, date@, request@, status, bytes, referer@, ua@, ms, id),
{
    let mut out: Vec<char> = Vec::new();
    push_chars(&mut out, peer);
    push_chars(&mut out, " - - ");
    let d = date.clf();
    proof {
        lemma_clf_text_ascii(date@);
    }
    push_chars(&mut out, d.as_str());
    push_chars(&mut out, " \"");
    push_chars(&mut out, request);
    push_chars(&mut out, "\" ");
    push_number(&mut out, status as u64);
    push_chars(&mut out, " ");
    let ghost before_bytes = out@;
    match bytes {
        Some(n) => push_number(&mut out, n),
        None => push_chars(&mut out, "-"),
    }
    proof {
        reveal_strlit("-");
        assert(out@ =~= before_bytes + match bytes {
            Some(n) => ascii_chars(decimal(n as nat)),
            None => dash(),
        });
    }
    push_chars(&mut out, " \"");
    push_chars(&mut out, referer);
    push_chars(&mut out, "\" \"");
    push_chars(&mut out, ua);
    push_chars(&mut out, "\" ");
    let ghost before_ms = out@;
    match ms {
        Some(m) => {
            push_number(&mut out, m);
            push_chars(&mut out, "ms ");
        },
        None => {},
    }
    assert(out@ =~= before_ms + match ms {
        Some(m) => ascii_chars(decimal(m as nat)) + "ms "@,
        None => Seq::<char>::empty(),
    });
    push_chars(&mut out, "#");
    push_number(&mut out, id);
    assert(out@ =~= clf_line_spec(peer@, date@, request@, status, bytes, referer@, ua@, ms, id));
    string_from_chars(out.as_slice())
}

/// The access log line written when a Server-Sent Events stream ends.
pub fn sse_closed_line(peer: &str, method: &str, path: &str, ms: u64, id: u64) -> (r: String)
    ensures
        r@ == peer@ + " "@ + method@ + " "@ + path@ + " SSE closed "@ + ascii_chars(decimal(ms as nat)) + "ms #"@
            + ascii_chars(decimal(id as nat)),
{
    let mut out: Vec<char> = Vec::new();
    push_chars(&mut out, peer);
    push_chars(&mut out, " ");
    push_chars(&mut out, method);
    push_chars(&mut out, " ");
    push_chars(&mut out, path);
    push_chars(&mut out, " SSE closed ");
    push_number(&mut out, ms);
    push_chars(&mut out, "ms #");
    push_number(&mut out, id);
    string_from_chars(out.as_slice())
}

} // verus!
