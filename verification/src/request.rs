//! Parsing of HTTP/1.1 request heads and bodies.

use vstd::prelude::*;
use vstd::utf8::*;
use crate::enc::{percent_decode, percent_decode_spec};
use crate::fields::{FieldMap, HeaderMap, FieldsView, HeadersView, fields_add, headers_add, has_key, key_index, lemma_key_index, lemma_fields_add_distinct};
use crate::text::{str_eq, string_from_utf8, string_from_chars, chars_of, find_char, find_char_from, slice_chars, trim, trim_chars};
use crate::types::{Method, StatusCode, parse_method, lemma_from_bytes_is_parse};

verus! {

/// The index of the first `x` in `s` at or after `i`, or `s.len()` if there is none.
pub open spec fn find_byte_from(s: Seq<u8>, x: u8, i: int) -> int
    decreases s.len() - i,
{
    if i >= s.len() {
        s.len() as int
    } else if i >= 0 && s[i] == x {
        i
    } else {
        find_byte_from(s, x, i + 1)
    }
}

/// `find_byte_from` finds the first `x` at or after `i`, or gives the length.
pub proof fn lemma_find_byte_range(s: Seq<u8>, x: u8, i: int)
    requires
        0 <= i,
    ensures
        i <= s.len() ==> i <= find_byte_from(s, x, i) <= s.len(),
        find_byte_from(s, x, i) < s.len() ==> s[find_byte_from(s, x, i)] == x,
        forall|j: int| i <= j < find_byte_from(s, x, i) ==> s[j] != x,
    decreases s.len() - i,
{
    if i < s.len() && s[i] != x {
        lemma_find_byte_range(s, x, i + 1);
    }
}

/// Computes `find_byte_from`.
pub fn find_byte(s: &[u8], x: u8, start: usize) -> (r: usize)
    requires
        start <= s@.len(),
    ensures
        r == find_byte_from(s@, x, start as int),
        start <= s@.len() ==> start <= r <= s@.len(),
        r < s@.len() ==> s@[r as int] == x,
        forall|j: int| start <= j < r ==> s@[j] != x,
{
    let mut i = start;
    while i < s.len() && s[i] != x
        invariant
            start <= i <= s@.len(),
            find_byte_from(s@, x, start as int) == find_byte_from(s@, x, i as int),
            forall|j: int| start <= j < i ==> s@[j] != x,
        decreases s@.len() - i,
    {
        i = i + 1;
    }
    i
}

/// The bytes `s[lo..hi]` as a new vector.
pub fn copy_bytes(s: &[u8], lo: usize, hi: usize) -> (r: Vec<u8>)
    requires
        lo <= hi <= s@.len(),
    ensures
        r@ == s@.subrange(lo as int, hi as int),
{
    let mut r: Vec<u8> = Vec::new();
    let mut i = lo;
    while i < hi
        invariant
            lo <= i <= hi,
            hi <= s@.len(),
            r@ == s@.subrange(lo as int, i as int),
        decreases hi - i,
    {
        r.push(s[i]);
        assert(s@.subrange(lo as int, i + 1) =~= s@.subrange(lo as int, i as int).push(s@[i as int]));
        i = i + 1;
    }
    r
}

// ----------------------------------------------------------------------------
// Lines

/// The line that starts at `i`: the index of its CR and the index just after
/// its CRLF. `None` if a bare LF, a CR not followed by LF, or the end of the
/// buffer comes first.
pub open spec fn line_end(buf: Seq<u8>, i: int) -> Option<(int, int)>
    decreases buf.len() - i,
{
    if i < 0 || i >= buf.len() {
        None
    } else if buf[i] == 10 {
        None
    } else if buf[i] == 13 {
        if i + 1 < buf.len() && buf[i + 1] == 10 {
            Some((i, i + 2))
        } else {
            None
        }
    } else {
        line_end(buf, i + 1)
    }
}

/// Finds the CRLF-terminated line that starts at `pos`: returns the end of the
/// line and the start of the next one.
pub fn next_line(buf: &[u8], pos: usize) -> (r: Option<(usize, usize)>)
    ensures
        r matches Some((e, n)) ==> line_end(buf@, pos as int) == Some((e as int, n as int)) && pos <= e && n == e + 2
            && n <= buf@.len(),
        r is None ==> line_end(buf@, pos as int) is None,
{
    let n = buf.len();
    let mut i = pos;
    while i < n
        invariant
            pos <= i,
            n == buf@.len(),
            line_end(buf@, pos as int) == line_end(buf@, i as int),
        decreases n - i,
    {
        if buf[i] == 10 {
            return None;
        } else if buf[i] == 13 {
            if i + 1 < n && buf[i + 1] == 10 {
                return Some((i, i + 2));
            } else {
                return None;
            }
        }
        i = i + 1;
    }
    None
}

// ----------------------------------------------------------------------------
// Header lines

/// ASCII lower-casing of one character.
pub open spec fn ascii_lower(c: char) -> char {
    if 'A' <= c <= 'Z' {
        ((c as u8) + 32) as char
    } else {
        c
    }
}

/// ASCII lower-casing.
pub open spec fn lower(s: Seq<char>) -> Seq<char> {
    s.map_values(|c: char| ascii_lower(c))
}

/// A byte that a header value may not hold: a control byte other than HT, or DEL.
pub open spec fn bad_value_byte(b: u8) -> bool {
    (b < 32 && b != 9) || b == 127
}

/// The header that a line holds: `name: value`, with the name lower-cased and
/// the value trimmed. `None` if the line is not UTF-8, has no `:`, its name is
/// empty or has white space at either end, or its value holds a control byte
/// other than HT.
pub open spec fn header_spec(line: Seq<u8>) -> Option<(Seq<char>, Seq<char>)> {
    if !valid_utf8(line) {
        None
    } else {
        let c = decode_utf8(line);
        let colon = find_char_from(c, ':', 0);
        if colon >= c.len() {
            None
        } else {
            let key = c.take(colon);
            let value = trim(c.skip(colon + 1));
            if trim(key) != key || key.len() == 0 {
                None
            } else if exists|i: int| 0 <= i < encode_utf8(value).len() && bad_value_byte(#[trigger] encode_utf8(value)[i]) {
                None
            } else {
                Some((lower(key), value))
            }
        }
    }
}

/// Lower-casing twice is lower-casing once.
pub proof fn lemma_lower_idempotent(s: Seq<char>)
    ensures
        lower(lower(s)) == lower(s),
{
    assert(lower(lower(s)) =~= lower(s));
}

/// A parsed header name is lower-case, and its value holds no control byte
/// other than HT: nothing in it can rewrite a terminal or a log line.
pub proof fn lemma_header_parts(line: Seq<u8>)
    ensures
        header_spec(line) matches Some((k, v)) ==> lower(k) == k && k.len() > 0
            && forall|i: int| 0 <= i < encode_utf8(v).len() ==> !bad_value_byte(#[trigger] encode_utf8(v)[i]),
{
    if header_spec(line) is Some {
        let c = decode_utf8(line);
        let colon = find_char_from(c, ':', 0);
        lemma_lower_idempotent(c.take(colon));
    }
}

fn chars_eq(a: &Vec<char>, b: &Vec<char>) -> (r: bool)
    ensures
        r == (a@ == b@),
{
    if a.len() != b.len() {
        return false;
    }
    let mut i: usize = 0;
    while i < a.len()
        invariant
            i <= a@.len(),
            a@.len() == b@.len(),
            forall|j: int| 0 <= j < i ==> a@[j] == b@[j],
        decreases a@.len() - i,
    {
        if a[i] != b[i] {
            return false;
        }
        i = i + 1;
    }
    assert(a@ =~= b@);
    true
}

fn lower_chars(s: &Vec<char>) -> (r: Vec<char>)
    ensures
        r@ == lower(s@),
{
    let mut r: Vec<char> = Vec::new();
    let mut i: usize = 0;
    while i < s.len()
        invariant
            i <= s@.len(),
            r@ == lower(s@.take(i as int)),
        decreases s@.len() - i,
    {
        let c = s[i];
        let l = if 'A' <= c && c <= 'Z' {
            ((c as u8) + 32) as char
        } else {
            c
        };
        r.push(l);
        assert(lower(s@.take(i + 1)) =~= lower(s@.take(i as int)).push(ascii_lower(s@[i as int])));
        i = i + 1;
    }
    assert(s@.take(s@.len() as int) =~= s@);
    r
}

/// A request header.
pub struct Header {
    /// The lower-cased name.
    pub key: String,
    /// The trimmed value.
    pub value: String,
}

impl Header {
    /// Parses a header line.
    pub fn parse(line: &[u8]) -> (r: Option<Self>)
        ensures
            r matches Some(h) ==> header_spec(line@) == Some((h.key@, h.value@)),
            r is None ==> header_spec(line@) is None,
    {
        let bytes = copy_bytes(line, 0, line.len());
        assert(bytes@ =~= line@);
        let s = match string_from_utf8(bytes) {
            Some(s) => s,
            None => return None,
        };
        let c = chars_of(s.as_str());
        let colon = find_char(&c, ':', 0);
        if colon >= c.len() {
            return None;
        }
        let key = slice_chars(&c, 0, colon);
        let tk = trim_chars(&key);
        if !chars_eq(&tk, &key) || key.len() == 0 {
            proof {
                assert(key@ =~= c@.take(colon as int));
            }
            return None;
        }
        let rest = slice_chars(&c, colon + 1, c.len());
        let value = trim_chars(&rest);
        let vs = string_from_chars(value.as_slice());
        let vb = vs.as_str().as_bytes();
        proof {
            assert(key@ =~= c@.take(colon as int));
            assert(rest@ =~= c@.skip(colon + 1));
        }
        let mut i: usize = 0;
        while i < vb.len()
            invariant
                i <= vb@.len(),
                vb@ == encode_utf8(value@),
                forall|j: int| 0 <= j < i ==> !bad_value_byte(#[trigger] vb@[j]),
                (exists|j: int| 0 <= j < vb@.len() && bad_value_byte(#[trigger] vb@[j])) ==> header_spec(line@) is None,
                (forall|j: int| 0 <= j < vb@.len() ==> !bad_value_byte(#[trigger] vb@[j])) ==> header_spec(line@) == Some((lower(key@), value@)),
            decreases vb@.len() - i,
        {
            let b = vb[i];
            if (b < 32 && b != 9) || b == 127 {
                assert(bad_value_byte(vb@[i as int]));
                return None;
            }
            i = i + 1;
        }
        let lk = lower_chars(&key);
        let ks = string_from_chars(lk.as_slice());
        Some(Header { key: ks, value: vs })
    }
}

// ----------------------------------------------------------------------------
// URL-encoded fields

/// `+` replaced by a space, as `application/x-www-form-urlencoded` reads it.
pub open spec fn plus_to_space(s: Seq<u8>) -> Seq<u8> {
    s.map_values(|b: u8| if b == 43 { 32u8 } else { b })
}

/// The text a field name or value stands for: `+` is a space, then percent-decoding.
pub open spec fn decode_field_spec(s: Seq<u8>) -> Option<Seq<char>> {
    percent_decode_spec(plus_to_space(s))
}

/// The fields of `input` (pairs separated by `&`, each `key=value` or just
/// `key`) added to `acc` in order. Pairs with an empty key are skipped; `None`
/// if a key or value of another pair does not decode.
pub open spec fn urlencoded_from(input: Seq<u8>, acc: FieldsView) -> Option<FieldsView>
    decreases input.len(),
{
    let amp = find_byte_from(input, 38, 0);
    let pair = input.take(amp);
    let eq = find_byte_from(pair, 61, 0);
    let key = pair.take(eq);
    let value = if eq < pair.len() { pair.skip(eq + 1) } else { Seq::<u8>::empty() };
    let next = if key.len() == 0 {
        Some(acc)
    } else {
        match (decode_field_spec(key), decode_field_spec(value)) {
            (Some(k), Some(v)) => Some(fields_add(acc, k, v)),
            _ => None,
        }
    };
    match next {
        None => None,
        Some(a) => if amp >= input.len() {
            Some(a)
        } else {
            proof {
                lemma_find_byte_range(input, 38, 0);
            }
            urlencoded_from(input.skip(amp + 1), a)
        },
    }
}

/// The fields of an `application/x-www-form-urlencoded` text.
pub open spec fn urlencoded_spec(input: Seq<u8>) -> Option<FieldsView> {
    urlencoded_from(input, Seq::empty())
}

/// Decodes one field name or value: `+` is a space, then percent-decoding.
pub fn decode_field(input: &[u8]) -> (r: Option<String>)
    ensures
        r matches Some(s) ==> decode_field_spec(input@) == Some(s@),
        r is None ==> decode_field_spec(input@) is None,
{
    let mut replaced: Vec<u8> = Vec::new();
    let mut i: usize = 0;
    while i < input.len()
        invariant
            i <= input@.len(),
            replaced@ == plus_to_space(input@.take(i as int)),
        decreases input@.len() - i,
    {
        let b = input[i];
        replaced.push(if b == 43 { 32u8 } else { b });
        assert(plus_to_space(input@.take(i + 1)) =~= plus_to_space(input@.take(i as int)).push(if b == 43 { 32u8 } else { b }));
        i = i + 1;
    }
    assert(input@.take(input@.len() as int) =~= input@);
    percent_decode(replaced.as_slice())
}

/// Parses `application/x-www-form-urlencoded` fields; `+` decodes to a space.
pub fn parse_urlencoded(input: &[u8]) -> (r: Option<FieldMap>)
    ensures
        r matches Some(m) ==> urlencoded_spec(input@) == Some(m@),
        r is None ==> urlencoded_spec(input@) is None,
{
    let mut map = FieldMap::new();
    let n = input.len();
    let mut start: usize = 0;
    assert(input@.skip(0) =~= input@);
    loop
        invariant
            start <= n,
            n == input@.len(),
            urlencoded_spec(input@) == urlencoded_from(input@.skip(start as int), map@),
        decreases n - start,
    {
        let ghost rest = input@.skip(start as int);
        let amp = find_byte(input, 38, start);
        let pair = copy_bytes(input, start, amp);
        let eq = find_byte(pair.as_slice(), 61, 0);
        let key = copy_bytes(pair.as_slice(), 0, eq);
        let value = if eq < pair.len() {
            copy_bytes(pair.as_slice(), eq + 1, pair.len())
        } else {
            Vec::new()
        };
        proof {
            assert(find_byte_from(rest, 38, 0) == amp - start) by {
                lemma_find_byte_shift(input@, 38, start as int, start as int);
            }
            assert(pair@ =~= rest.take(amp - start));
            assert(key@ =~= pair@.take(eq as int));
            if eq < pair@.len() {
                assert(value@ =~= pair@.skip(eq + 1));
            } else {
                assert(value@ =~= Seq::<u8>::empty());
            }
        }
        if key.len() > 0 {
            let k = match decode_field(key.as_slice()) {
                Some(k) => k,
                None => return None,
            };
            let v = match decode_field(value.as_slice()) {
                Some(v) => v,
                None => return None,
            };
            map.add(k, v);
        }
        if amp >= n {
            return Some(map);
        }
        proof {
            assert(rest.skip(amp - start + 1) =~= input@.skip(amp + 1));
        }
        start = amp + 1;
    }
}

/// Searching from `start` in `s` is searching from 0 in `s.skip(start)`, shifted.
pub proof fn lemma_find_byte_shift(s: Seq<u8>, x: u8, start: int, i: int)
    requires
        0 <= start <= i <= s.len(),
    ensures
        find_byte_from(s.skip(start), x, i - start) == find_byte_from(s, x, i) - start,
    decreases s.len() - i,
{
    if i < s.len() {
        lemma_find_byte_shift(s, x, start, i + 1);
    }
}

// ----------------------------------------------------------------------------
// Request line

/// The bytes `HTTP/1.1`.
pub open spec fn http11() -> Seq<u8> {
    seq![72u8, 84u8, 84u8, 80u8, 47u8, 49u8, 46u8, 49u8]
}

/// Whether a raw path holds `%2F` or `%2f`, an encoded slash.
pub open spec fn has_encoded_slash(p: Seq<u8>) -> bool {
    exists|i: int| 0 <= i && i + 2 < p.len() && #[trigger] p[i] == 37 && p[i + 1] == 50 && (p[i + 2] == 70 || p[i + 2] == 102)
}

/// Whether a `/`-separated segment of `p` is `..`.
pub open spec fn has_dot_dot_segment(p: Seq<char>) -> bool {
    exists|i: int|
        0 <= i && i + 1 < p.len() && #[trigger] p[i] == '.' && p[i + 1] == '.' && (i == 0 || p[i - 1] == '/') && (i + 2
            == p.len() || p[i + 2] == '/')
}

/// Whether a decoded path could escape its root: it holds NUL, a backslash,
/// or a `..` segment.
pub open spec fn unsafe_path(p: Seq<char>) -> bool {
    p.contains('\0') || p.contains('\\') || has_dot_dot_segment(p)
}

/// The method, decoded path and query fields of a request line
/// `METHOD SP path[?query] SP HTTP/1.1`. `None` if the method is unknown, the
/// version is not `HTTP/1.1`, the path does not start with `/`, holds an
/// encoded slash, does not decode, or decodes to an unsafe path, or the query
/// does not decode.
pub open spec fn head_line_spec(line: Seq<u8>) -> Option<(Method, Seq<char>, FieldsView)> {
    let sp1 = find_byte_from(line, 32, 0);
    let sp2 = find_byte_from(line, 32, sp1 + 1);
    if sp1 >= line.len() || parse_method(line.take(sp1)) is None || sp2 >= line.len() {
        None
    } else {
        let pq = line.subrange(sp1 + 1, sp2);
        let q = find_byte_from(pq, 63, 0);
        let path = pq.take(q);
        let query = if q < pq.len() { pq.skip(q + 1) } else { Seq::<u8>::empty() };
        if line.skip(sp2 + 1) != http11() || path.len() == 0 || path[0] != 47 || has_encoded_slash(path) {
            None
        } else {
            match percent_decode_spec(path) {
                None => None,
                Some(p) => if unsafe_path(p) {
                    None
                } else {
                    match urlencoded_spec(query) {
                        None => None,
                        Some(qm) => Some((parse_method(line.take(sp1)).unwrap(), p, qm)),
                    }
                },
            }
        }
    }
}

/// A parsed request path holds no NUL, no backslash and no `..` segment,
/// so it cannot leave the tree it names.
pub proof fn lemma_parsed_path_safe(line: Seq<u8>)
    ensures
        head_line_spec(line) matches Some((m, p, q)) ==> !unsafe_path(p),
{
}

/// The request line and headers of a request.
pub struct Head {
    /// The HTTP method.
    pub method: Method,
    /// The percent-decoded request path.
    pub path: String,
    /// The query-string parameters.
    pub query: FieldMap,
    /// The request headers, names lower-cased.
    pub headers: HeaderMap,
}

fn has_encoded_slash_exec(p: &Vec<u8>) -> (r: bool)
    ensures
        r == has_encoded_slash(p@),
{
    let mut i: usize = 0;
    while p.len() >= 2 && i < p.len() - 2
        invariant
            forall|j: int| 0 <= j < i && j + 2 < p@.len() ==> !(#[trigger] p@[j] == 37 && p@[j + 1] == 50 && (p@[j + 2] == 70 || p@[j + 2] == 102)),
        decreases p@.len() - i,
    {
        if p[i] == 37 && p[i + 1] == 50 && (p[i + 2] == 70 || p[i + 2] == 102) {
            return true;
        }
        i = i + 1;
    }
    false
}

fn unsafe_path_exec(p: &Vec<char>) -> (r: bool)
    ensures
        r == unsafe_path(p@),
{
    let n = p.len();
    let mut i: usize = 0;
    while i < n
        invariant
            i <= n,
            n == p@.len(),
            forall|j: int| 0 <= j < i ==> p@[j] != '\0' && p@[j] != '\\',
            forall|j: int|
                0 <= j < i && j + 1 < n ==> !(#[trigger] p@[j] == '.' && p@[j + 1] == '.' && (j == 0 || p@[j - 1] == '/') && (
                j + 2 == n || p@[j + 2] == '/')),
        decreases n - i,
    {
        if p[i] == '\0' || p[i] == '\\' {
            assert(p@.contains(p@[i as int]));
            return true;
        }
        if i + 1 < n && p[i] == '.' && p[i + 1] == '.' && (i == 0 || p[i - 1] == '/') && (i + 2 == n || p[i + 2] == '/') {
            return true;
        }
        i = i + 1;
    }
    false
}

impl Head {
    /// Parses a request line.
    pub fn parse(line: &[u8]) -> (r: Option<Self>)
        ensures
            r matches Some(h) ==> head_line_spec(line@) == Some((h.method, h.path@, h.query@)) && h.headers@.len() == 0,
            r is None ==> head_line_spec(line@) is None,
    {
        let n = line.len();
        let sp1 = find_byte(line, 32, 0);
        if sp1 >= n {
            return None;
        }
        let mb = copy_bytes(line, 0, sp1);
        let m = Method::from_bytes(mb.as_slice());
        proof {
            assert(mb@ =~= line@.take(sp1 as int));
            lemma_from_bytes_is_parse(mb@, m);
        }
        let method = match m {
            Some(m) => m,
            None => return None,
        };
        let sp2 = find_byte(line, 32, sp1 + 1);
        if sp2 >= n {
            return None;
        }
        let pq = copy_bytes(line, sp1 + 1, sp2);
        let version = copy_bytes(line, sp2 + 1, n);
        let v11: [u8; 8] = [72, 84, 84, 80, 47, 49, 46, 49];
        proof {
            assert(version@ =~= line@.skip(sp2 + 1));
            assert(v11@ =~= http11());
        }
        if version.len() != 8 || version[0] != v11[0] || version[1] != v11[1] || version[2] != v11[2]
            || version[3] != v11[3] || version[4] != v11[4] || version[5] != v11[5] || version[6] != v11[6]
            || version[7] != v11[7] {
            return None;
        }
        proof {
            assert(version@ =~= http11());
        }
        let q = find_byte(pq.as_slice(), 63, 0);
        let path = copy_bytes(pq.as_slice(), 0, q);
        let query = if q < pq.len() {
            copy_bytes(pq.as_slice(), q + 1, pq.len())
        } else {
            Vec::new()
        };
        proof {
            assert(path@ =~= pq@.take(q as int));
            if q < pq@.len() {
                assert(query@ =~= pq@.skip(q + 1));
            } else {
                assert(query@ =~= Seq::<u8>::empty());
            }
        }
        if path.len() == 0 || path[0] != 47 {
            return None;
        }
        if has_encoded_slash_exec(&path) {
            return None;
        }
        let decoded = match percent_decode(path.as_slice()) {
            Some(d) => d,
            None => return None,
        };
        let dc = chars_of(decoded.as_str());
        if unsafe_path_exec(&dc) {
            return None;
        }
        let qm = match parse_urlencoded(query.as_slice()) {
            Some(qm) => qm,
            None => return None,
        };
        let headers = HeaderMap::new();
        Some(Head { method, path: decoded, query: qm, headers })
    }
}

/// The name `host`.
pub open spec fn host_key() -> Seq<char> {
    seq!['h', 'o', 's', 't']
}

/// The headers of the lines from `pos` on, added to `acc`, up to the first
/// position that does not start a CRLF-terminated line. `None` if a line is
/// not a header, or a second `Host` header comes.
pub open spec fn headers_from(buf: Seq<u8>, pos: int, acc: HeadersView) -> Option<HeadersView>
    decreases buf.len() - pos,
{
    match line_end(buf, pos) {
        None => Some(acc),
        Some((e, n)) => if n <= pos || pos < 0 || n > buf.len() || e < pos {
            None
        } else {
            match header_spec(buf.subrange(pos, e)) {
                None => None,
                Some((k, v)) => if k == host_key() && has_key(acc, host_key()) {
                    None
                } else {
                    headers_from(buf, n, headers_add(acc, k, v))
                },
            }
        },
    }
}

/// The request line and headers at the start of `buf`; `None` if either does
/// not parse or there is no `Host` header.
pub open spec fn head_spec(buf: Seq<u8>) -> Option<(Method, Seq<char>, FieldsView, HeadersView)> {
    match line_end(buf, 0) {
        None => None,
        Some((e, n)) => match head_line_spec(buf.take(e)) {
            None => None,
            Some((m, p, q)) => match headers_from(buf, n, Seq::empty()) {
                None => None,
                Some(h) => if has_key(h, host_key()) {
                    Some((m, p, q, h))
                } else {
                    None
                },
            },
        },
    }
}

proof fn lemma_line_end_bounds(buf: Seq<u8>, i: int)
    ensures
        line_end(buf, i) matches Some((e, n)) ==> i <= e && n == e + 2 && n <= buf.len(),
    decreases buf.len() - i,
{
    if 0 <= i < buf.len() && buf[i] != 10 && buf[i] != 13 {
        lemma_line_end_bounds(buf, i + 1);
    }
}

/// Parses the request line and headers from `buf`.
pub fn parse_head(buf: &[u8]) -> (r: Option<Head>)
    ensures
        r matches Some(h) ==> head_spec(buf@) == Some((h.method, h.path@, h.query@, h.headers@)),
        r is None ==> head_spec(buf@) is None,
{
    proof {
        reveal_strlit("host");
        assert("host"@ =~= host_key());
    }
    let (e, n) = match next_line(buf, 0) {
        Some(x) => x,
        None => return None,
    };
    let first = copy_bytes(buf, 0, e);
    assert(first@ =~= buf@.take(e as int));
    let mut head = match Head::parse(first.as_slice()) {
        Some(h) => h,
        None => return None,
    };
    let mut pos = n;
    assert(head.headers@ =~= Seq::<(Seq<char>, Seq<char>)>::empty());
    loop
        invariant
            pos <= buf@.len(),
            "host"@ == host_key(),
            line_end(buf@, 0) == Some((e as int, n as int)),
            head_line_spec(buf@.take(e as int)) == Some((head.method, head.path@, head.query@)),
            headers_from(buf@, n as int, Seq::empty()) == headers_from(buf@, pos as int, head.headers@),
        ensures
            head_line_spec(buf@.take(e as int)) == Some((head.method, head.path@, head.query@)),
            headers_from(buf@, n as int, Seq::empty()) == Some(head.headers@),
        decreases buf@.len() - pos,
    {
        proof {
            lemma_line_end_bounds(buf@, pos as int);
        }
        let (le, ln) = match next_line(buf, pos) {
            Some(x) => x,
            None => break,
        };
        let line = copy_bytes(buf, pos, le);
        let h = match Header::parse(line.as_slice()) {
            Some(h) => h,
            None => return None,
        };
        if str_eq(h.key.as_str(), "host") && head.headers.contains_key("host") {
            return None;
        }
        head.headers.add(h.key, h.value);
        pos = ln;
    }
    if !head.headers.contains_key("host") {
        return None;
    }
    Some(head)
}

// ----------------------------------------------------------------------------
// Searching

/// Whether `sep` occurs in `data` starting at `i`.
pub open spec fn matches_at(data: Seq<u8>, sep: Seq<u8>, i: int) -> bool {
    0 <= i && i + sep.len() <= data.len() && data.subrange(i, i + sep.len()) == sep
}

/// The first position at or after `i` where `sep` occurs in `data`.
pub open spec fn first_match_from(data: Seq<u8>, sep: Seq<u8>, i: int) -> Option<int>
    decreases data.len() - i,
{
    if i < 0 || i + sep.len() > data.len() || i >= data.len() {
        None
    } else if matches_at(data, sep, i) {
        Some(i)
    } else {
        first_match_from(data, sep, i + 1)
    }
}

/// Where a search that may skip `data[..search_from]` starts: `sep.len() - 1`
/// bytes before `search_from`, since an occurrence may straddle it.
pub open spec fn search_start(search_from: int, sep_len: int) -> int {
    let back = if sep_len >= 1 { sep_len - 1 } else { 0 };
    if search_from >= back { search_from - back } else { 0 }
}

fn matches_at_exec(data: &[u8], sep: &[u8], i: usize) -> (r: bool)
    requires
        i + sep@.len() <= data@.len(),
    ensures
        r == matches_at(data@, sep@, i as int),
{
    let mut k: usize = 0;
    while k < sep.len()
        invariant
            k <= sep@.len(),
            i + sep@.len() <= data@.len(),
            forall|j: int| 0 <= j < k ==> data@[i + j] == sep@[j],
        decreases sep@.len() - k,
    {
        assert(i + k < data@.len());
        assert(data@.len() == data.len());
        if data[i + k] != sep[k] {
            assert(data@.subrange(i as int, i + sep@.len())[k as int] != sep@[k as int]);
            return false;
        }
        k = k + 1;
    }
    assert(data@.subrange(i as int, i + sep@.len()) =~= sep@);
    true
}

/// Search for `sep` in `data` starting from `search_from`.
/// Returns the index of the start of `sep` if found.
/// Assumes that `sep` is not present in `data[..search_from]`.
pub fn find_from(data: &[u8], sep: &[u8], search_from: usize) -> (r: Option<usize>)
    requires
        sep@.len() > 0,
        search_start(search_from as int, sep@.len() as int) <= data@.len(),
    ensures
        r matches Some(i) ==> first_match_from(data@, sep@, search_start(search_from as int, sep@.len() as int)) == Some(i as int),
        r is None ==> first_match_from(data@, sep@, search_start(search_from as int, sep@.len() as int)) is None,
{
    let back = sep.len() - 1;
    let start = if search_from >= back { search_from - back } else { 0 };
    let mut i = start;
    while i <= data.len() && sep.len() <= data.len() - i
        invariant
            start <= i <= data@.len(),
            sep@.len() > 0,
            start == search_start(search_from as int, sep@.len() as int),
            first_match_from(data@, sep@, start as int) == first_match_from(data@, sep@, i as int),
        decreases data@.len() - i,
    {
        if matches_at_exec(data, sep, i) {
            return Some(i);
        }
        i = i + 1;
    }
    None
}

/// If no occurrence starts before `k`, the first occurrence from `k` is the first one.
pub proof fn lemma_first_match_skip(data: Seq<u8>, sep: Seq<u8>, i: int, k: int)
    requires
        0 <= i <= k,
        forall|j: int| i <= j < k ==> !matches_at(data, sep, j),
    ensures
        first_match_from(data, sep, i) == first_match_from(data, sep, k),
    decreases k - i,
{
    if i < k {
        lemma_first_match_skip(data, sep, i + 1, k);
    }
}

/// No first occurrence from `i` means no occurrence from `i` at all.
pub proof fn lemma_first_match_none(data: Seq<u8>, sep: Seq<u8>, i: int, j: int)
    requires
        0 <= i <= j,
        first_match_from(data, sep, i) is None,
        sep.len() > 0,
    ensures
        !matches_at(data, sep, j),
    decreases j - i,
{
    if i < j && i + sep.len() <= data.len() && i < data.len() {
        lemma_first_match_none(data, sep, i + 1, j);
    }
}

/// Starting the search late finds the first occurrence, when `sep` does not
/// occur in `data[..search_from]`: an incremental search over a growing
/// buffer finds what a search of the whole buffer finds.
pub proof fn lemma_find_from_skips_searched(data: Seq<u8>, sep: Seq<u8>, search_from: int)
    requires
        sep.len() > 0,
        0 <= search_from,
        forall|j: int| 0 <= j && j + sep.len() <= search_from ==> !matches_at(data, sep, j),
    ensures
        first_match_from(data, sep, search_start(search_from, sep.len() as int)) == first_match_from(data, sep, 0),
{
    lemma_first_match_skip(data, sep, 0, search_start(search_from, sep.len() as int));
}

// ----------------------------------------------------------------------------
// Buffer

/// A fixed-capacity receive buffer: the bytes received so far, then free space.
pub struct Buf {
    data: Vec<u8>,
    pos: usize,
}

impl Buf {
    /// The received bytes.
    pub closed spec fn contents(&self) -> Seq<u8> {
        self.data@.take(self.pos as int)
    }

    /// The capacity.
    pub closed spec fn capacity(&self) -> nat {
        self.data@.len()
    }

    /// The whole storage, received bytes and free space.
    pub closed spec fn storage(&self) -> Seq<u8> {
        self.data@
    }

    /// The received bytes fit in the storage.
    pub closed spec fn wf(&self) -> bool {
        self.pos <= self.data@.len()
    }

    /// The storage is as long as the capacity.
    pub proof fn lemma_storage_len(&self)
        ensures
            self.storage().len() == self.capacity(),
    {
    }

    /// An empty buffer of capacity `size`.
    pub fn new(size: usize) -> (b: Self)
        ensures
            b.wf(),
            b.contents().len() == 0,
            b.capacity() == size,
    {
        Buf { data: vec![0u8; size], pos: 0 }
    }

    /// The number of received bytes.
    pub fn pos(&self) -> (n: usize)
        requires
            self.wf(),
        ensures
            n == self.contents().len(),
    {
        self.pos
    }

    /// The received bytes.
    pub fn data(&self) -> (d: &[u8])
        requires
            self.wf(),
        ensures
            d@ == self.contents(),
    {
        vstd::slice::slice_subrange(self.data.as_slice(), 0, self.pos)
    }

    /// The first `max` received bytes, or all of them if fewer.
    pub fn data_up_to(&self, max: usize) -> (d: &[u8])
        requires
            self.wf(),
        ensures
            d@ == self.contents().take(if max < self.contents().len() { max as int } else { self.contents().len() as int }),
    {
        let end = if self.pos < max { self.pos } else { max };
        vstd::slice::slice_subrange(self.data.as_slice(), 0, end)
    }

    /// Drops the first `n` received bytes, moving the rest to the front.
    pub fn consume(&mut self, n: usize)
        requires
            old(self).wf(),
            n <= old(self).contents().len(),
        ensures
            final(self).wf(),
            final(self).contents() == old(self).contents().skip(n as int),
            final(self).capacity() == old(self).capacity(),
    {
        let pos = self.pos;
        let mut k: usize = 0;
        let ghost orig = self.data@;
        while k < pos - n
            invariant
                n <= pos <= orig.len(),
                pos == self.pos,
                k <= pos - n,
                self.data@.len() == orig.len(),
                forall|j: int| 0 <= j < k ==> self.data@[j] == orig[j + n],
                forall|j: int| k <= j < orig.len() ==> self.data@[j] == orig[j],
            decreases pos - n - k,
        {
            let b = self.data[k + n];
            self.data.set(k, b);
            k = k + 1;
        }
        self.pos = pos - n;
        assert(self.contents() =~= orig.take(pos as int).skip(n as int));
    }

    /// The free space after the received bytes, for reading into.
    pub fn rest_mut(&mut self) -> (r: &mut [u8])
        requires
            old(self).wf(),
        ensures
            r@.len() == old(self).capacity() - old(self).contents().len(),
            final(self).wf(),
            final(self).contents() == old(self).contents(),
            final(self).storage() == old(self).contents() + final(r)@,
            final(r)@.len() == r@.len() ==> final(self).capacity() == old(self).capacity(),
    {
        let pos = self.pos;
        let s = self.data.as_mut_slice();
        let (_, rest) = s.split_at_mut(pos);
        rest
    }

    /// Counts `n` more bytes of the storage as received.
    pub fn advance(&mut self, n: usize)
        requires
            old(self).wf(),
            old(self).contents().len() + n <= old(self).capacity(),
        ensures
            final(self).wf(),
            final(self).contents() == old(self).storage().take(old(self).contents().len() + n),
            final(self).capacity() == old(self).capacity(),
            final(self).storage() == old(self).storage(),
    {
        assert(self.data@.len() == self.data.len());
        self.pos = self.pos + n;
    }
}

// ----------------------------------------------------------------------------
// Reading requests

/// An incoming HTTP request.
pub struct Request {
    /// Unique request id (process-wide counter).
    pub id: u64,
    /// The HTTP method.
    pub method: Method,
    /// The percent-decoded request path (e.g. `/foo/bar`).
    pub path: String,
    /// Parsed query-string parameters, percent-decoded; `+` is treated as a space.
    /// If a key appears more than once, all values are collected in order.
    pub query: FieldMap,
    /// Request headers. Keys are lowercased (e.g. `"content-type"`).
    pub headers: HeaderMap,
    /// Raw request body bytes.
    pub body: Vec<u8>,
    /// Parsed `application/x-www-form-urlencoded` form fields.
    /// Only populated when `Content-Type: application/x-www-form-urlencoded`.
    pub form: FieldMap,
    /// The TCP peer address.
    pub peer_addr: String,
}

/// Why no request could be read.
#[derive(Debug, Clone, Copy, PartialEq, Eq, Structural)]
pub enum Error {
    /// The connection was closed.
    Closed,
    /// The request breaks the protocol; the status code to answer with.
    Protocol(StatusCode),
}

/// What the buffered bytes say about the end of a request head.
#[derive(Debug, Clone, Copy, PartialEq, Eq, Structural)]
pub enum HeadScan {
    /// The head ends at this index (the start of its final CRLF CRLF).
    Found(usize),
    /// No head end within the header size limit.
    TooLarge,
    /// No head end yet; more bytes are needed.
    NeedMore,
}

/// What a scan of the received bytes leads to: the index where the head
/// ends once it is found, nothing yet while more bytes are needed, and a
/// refusal with `400 Bad Request` when no head ends within the header size
/// limit.
pub open spec fn head_outcome_spec(s: HeadScan) -> Result<Option<usize>, Error> {
    match s {
        HeadScan::Found(i) => Ok(Some(i)),
        HeadScan::NeedMore => Ok(None),
        HeadScan::TooLarge => Err(Error::Protocol(StatusCode::BadRequest)),
    }
}

/// Decides `head_outcome_spec`.
pub fn head_outcome(s: HeadScan) -> (r: Result<Option<usize>, Error>)
    ensures
        r == head_outcome_spec(s),
{
    match s {
        HeadScan::Found(i) => Ok(Some(i)),
        HeadScan::NeedMore => Ok(None),
        HeadScan::TooLarge => Err(Error::Protocol(StatusCode::BadRequest)),
    }
}

/// The bytes CR LF CR LF that end a request head.
pub open spec fn head_terminator() -> Seq<u8> {
    seq![13u8, 10u8, 13u8, 10u8]
}

/// The first `max` bytes of `s`, or all of them if fewer.
pub open spec fn prefix_up_to(s: Seq<u8>, max: nat) -> Seq<u8> {
    if max < s.len() {
        s.take(max as int)
    } else {
        s
    }
}

/// Where the head ends in the received bytes, looking only at the first
/// `max` bytes; too large once `max` bytes have come without an end.
pub open spec fn head_scan_spec(contents: Seq<u8>, max: nat) -> HeadScan {
    match first_match_from(prefix_up_to(contents, max), head_terminator(), 0) {
        Some(i) => HeadScan::Found(i as usize),
        None => if contents.len() >= max {
            HeadScan::TooLarge
        } else {
            HeadScan::NeedMore
        },
    }
}

/// Once `max` bytes have come without the blank line that ends a head, the
/// request is refused with `400 Bad Request`.
pub proof fn lemma_oversized_head_refused(contents: Seq<u8>, max: nat)
    requires
        contents.len() >= max,
        first_match_from(prefix_up_to(contents, max), head_terminator(), 0) is None,
    ensures
        head_outcome_spec(head_scan_spec(contents, max)) == Err::<Option<usize>, Error>(Error::Protocol(StatusCode::BadRequest)),
{
}

/// `transfer-encoding`.
pub open spec fn transfer_encoding_key() -> Seq<char> {
    seq!['t', 'r', 'a', 'n', 's', 'f', 'e', 'r', '-', 'e', 'n', 'c', 'o', 'd', 'i', 'n', 'g']
}

/// `content-length`.
pub open spec fn content_length_key() -> Seq<char> {
    seq!['c', 'o', 'n', 't', 'e', 'n', 't', '-', 'l', 'e', 'n', 'g', 't', 'h']
}

/// `content-type`.
pub open spec fn content_type_key() -> Seq<char> {
    seq!['c', 'o', 'n', 't', 'e', 'n', 't', '-', 't', 'y', 'p', 'e']
}

/// `application/x-www-form-urlencoded`.
pub open spec fn form_type() -> Seq<char> {
    seq!['a', 'p', 'p', 'l', 'i', 'c', 'a', 't', 'i', 'o', 'n', '/', 'x', '-', 'w', 'w', 'w', '-', 'f', 'o', 'r', 'm', '-', 'u', 'r', 'l', 'e', 'n', 'c', 'o', 'd', 'e', 'd']
}

/// The value of decimal digits.
pub open spec fn digits_value(s: Seq<char>) -> nat
    decreases s.len(),
{
    if s.len() == 0 {
        0
    } else {
        digits_value(s.drop_last()) * 10 + ((s.last() as nat) - 48) as nat
    }
}

/// Whether every character is an ASCII digit.
pub open spec fn all_digits(s: Seq<char>) -> bool {
    forall|i: int| 0 <= i < s.len() ==> '0' <= #[trigger] s[i] <= '9'
}

/// The body length a request announces: 0 without `Content-Length`; a bad
/// request unless the value is one or more digits whose number fits a `usize`.
pub open spec fn content_length_spec(h: HeadersView) -> Result<nat, StatusCode> {
    if !has_key(h, content_length_key()) {
        Ok(0)
    } else {
        let v = h[key_index(h, content_length_key())].1;
        if v.len() == 0 || !all_digits(v) || digits_value(v) > usize::MAX {
            Err(StatusCode::BadRequest)
        } else {
            Ok(digits_value(v))
        }
    }
}

/// What a request head leads to: its parts and body length, or the status to
/// refuse it with.
pub open spec fn take_head_spec(head: Seq<u8>, body_limit: nat) -> Result<
    (Method, Seq<char>, FieldsView, HeadersView, nat),
    StatusCode,
> {
    match head_spec(head) {
        None => Err(StatusCode::BadRequest),
        Some((m, p, q, h)) => if has_key(h, transfer_encoding_key()) {
            Err(StatusCode::NotImplemented)
        } else {
            match content_length_spec(h) {
                Err(c) => Err(c),
                Ok(n) => if n > 0 && n > body_limit {
                    Err(StatusCode::ContentTooLarge)
                } else {
                    Ok((m, p, q, h, n))
                },
            }
        },
    }
}

/// Whether the headers declare a URL-encoded form body.
pub open spec fn is_form_spec(h: HeadersView) -> bool {
    has_key(h, content_type_key()) && h[key_index(h, content_type_key())].1.len() >= form_type().len()
        && h[key_index(h, content_type_key())].1.take(form_type().len() as int) == form_type()
}

/// The form fields of a request body of `n` bytes: parsed when there is a
/// body and it is declared a URL-encoded form, else none.
pub open spec fn form_spec(h: HeadersView, body: Seq<u8>) -> Option<FieldsView> {
    if body.len() > 0 && is_form_spec(h) {
        urlencoded_spec(body)
    } else {
        Some(Seq::empty())
    }
}

/// A non-empty body whose `Content-Type` is
/// `application/x-www-form-urlencoded`, followed by any parameters such as
/// `; charset=UTF-8`, is parsed as URL-encoded form fields.
pub proof fn lemma_form_body_parsed(h: HeadersView, body: Seq<u8>, params: Seq<char>)
    requires
        has_key(h, "content-type"@),
        h[key_index(h, "content-type"@)].1 == "application/x-www-form-urlencoded"@ + params,
        body.len() > 0,
    ensures
        form_spec(h, body) == urlencoded_spec(body),
{
    reveal_strlit("content-type");
    reveal_strlit("application/x-www-form-urlencoded");
    assert("content-type"@ =~= content_type_key());
    assert("application/x-www-form-urlencoded"@ =~= form_type());
    let v = h[key_index(h, content_type_key())].1;
    assert(v.take(form_type().len() as int) =~= form_type());
}

/// Any other body gets no form fields: an empty one, or one whose
/// `Content-Type` is missing or does not begin with
/// `application/x-www-form-urlencoded`.
pub proof fn lemma_other_body_no_form(h: HeadersView, body: Seq<u8>)
    requires
        body.len() == 0 || !has_key(h, "content-type"@) || forall|params: Seq<char>|
            h[key_index(h, "content-type"@)].1 != #[trigger] ("application/x-www-form-urlencoded"@ + params),
    ensures
        form_spec(h, body) == Some(Seq::<(Seq<char>, Seq<Seq<char>>)>::empty()),
{
    reveal_strlit("content-type");
    reveal_strlit("application/x-www-form-urlencoded");
    assert("content-type"@ =~= content_type_key());
    assert("application/x-www-form-urlencoded"@ =~= form_type());
    if body.len() > 0 && is_form_spec(h) {
        let v = h[key_index(h, content_type_key())].1;
        let p = v.skip(form_type().len() as int);
        assert(v =~= "application/x-www-form-urlencoded"@ + p);
    }
}


proof fn lemma_digits_monotone(s: Seq<char>, i: int)
    requires
        0 <= i <= s.len(),
        all_digits(s),
    ensures
        digits_value(s.take(i)) <= digits_value(s),
    decreases s.len() - i,
{
    if i < s.len() {
        lemma_digits_monotone(s, i + 1);
        assert(s.take(i + 1).drop_last() =~= s.take(i));
    } else {
        assert(s.take(i) =~= s);
    }
}

fn parse_content_length(v: &String) -> (r: Result<usize, StatusCode>)
    ensures
        r matches Ok(n) ==> v@.len() > 0 && all_digits(v@) && digits_value(v@) == n,
        r is Err ==> r == Err::<usize, StatusCode>(StatusCode::BadRequest) && (v@.len() == 0 || !all_digits(v@) || digits_value(v@) > usize::MAX),
{
    let c = chars_of(v.as_str());
    if c.len() == 0 {
        return Err(StatusCode::BadRequest);
    }
    let mut i: usize = 0;
    while i < c.len()
        invariant
            i <= c@.len(),
            c@ == v@,
            forall|j: int| 0 <= j < i ==> '0' <= #[trigger] c@[j] <= '9',
        decreases c@.len() - i,
    {
        if !('0' <= c[i] && c[i] <= '9') {
            return Err(StatusCode::BadRequest);
        }
        i = i + 1;
    }
    let mut n: usize = 0;
    let mut i: usize = 0;
    while i < c.len()
        invariant
            i <= c@.len(),
            c@ == v@,
            all_digits(c@),
            n == digits_value(c@.take(i as int)),
        decreases c@.len() - i,
    {
        let d = (c[i] as u32 - 48) as usize;
        assert(c@.take(i + 1).drop_last() =~= c@.take(i as int));
        match n.checked_mul(10) {
            None => {
                proof {
                    lemma_digits_monotone(c@, i + 1);
                }
                return Err(StatusCode::BadRequest);
            },
            Some(m) => match m.checked_add(d) {
                None => {
                    proof {
                        lemma_digits_monotone(c@, i + 1);
                    }
                    return Err(StatusCode::BadRequest);
                },
                Some(k) => {
                    n = k;
                },
            },
        }
        i = i + 1;
    }
    assert(c@.take(c@.len() as int) =~= c@);
    Ok(n)
}

/// Reads requests from the bytes of one connection.
pub struct Reader {
    max_header_size: usize,
    max_body_size: usize,
    first: bool,
    buf: Buf,
}

impl Reader {
    /// The buffer is sized for the larger limit.
    pub closed spec fn wf(&self) -> bool {
        self.buf.wf()
    }

    /// The bytes received and not yet used.
    pub closed spec fn contents(&self) -> Seq<u8> {
        self.buf.contents()
    }

    /// The received bytes followed by the free space.
    pub closed spec fn storage(&self) -> Seq<u8> {
        self.buf.storage()
    }

    /// The buffer capacity.
    pub closed spec fn capacity(&self) -> nat {
        self.buf.capacity()
    }

    /// The maximum size of a request head.
    pub closed spec fn header_limit(&self) -> nat {
        self.max_header_size as nat
    }

    /// The maximum size of a request body.
    pub closed spec fn body_limit(&self) -> nat {
        self.max_body_size as nat
    }

    /// Whether no request has been waited for yet.
    pub closed spec fn is_first(&self) -> bool {
        self.first
    }

    /// The storage is as long as the capacity.
    pub proof fn lemma_storage_len(&self)
        ensures
            self.storage().len() == self.capacity(),
    {
        self.buf.lemma_storage_len();
    }

    /// A reader for a new connection.
    pub fn new(max_header_size: usize, max_body_size: usize) -> (r: Self)
        ensures
            r.wf(),
            r.contents().len() == 0,
            r.capacity() == if max_header_size >= max_body_size { max_header_size } else { max_body_size },
            r.header_limit() == max_header_size,
            r.body_limit() == max_body_size,
            r.is_first(),
    {
        let buf_size = if max_header_size >= max_body_size { max_header_size } else { max_body_size };
        Reader { max_header_size, max_body_size, first: true, buf: Buf::new(buf_size) }
    }

    /// Looks for the end of a request head in what has been received.
    pub fn scan(&self) -> (r: HeadScan)
        requires
            self.wf(),
        ensures
            r == head_scan_spec(self.contents(), self.header_limit()),
    {
        let max = self.max_header_size;
        let sep: [u8; 4] = [13, 10, 13, 10];
        assert(sep@ =~= head_terminator());
        let window = self.buf.data_up_to(max);
        assert(window@ =~= prefix_up_to(self.contents(), self.header_limit()));
        match find_from(window, &sep, 0) {
            Some(idx) => HeadScan::Found(idx),
            None => if self.buf.pos() >= max {
                HeadScan::TooLarge
            } else {
                HeadScan::NeedMore
            },
        }
    }

    /// Starts waiting for bytes; tells whether the connection is idle (a
    /// later request with nothing received yet), which is given the idle
    /// timeout rather than the read timeout.
    pub fn begin_wait(&mut self) -> (idle: bool)
        requires
            old(self).wf(),
        ensures
            idle == (!old(self).is_first() && old(self).contents().len() == 0),
            final(self).wf(),
            !final(self).is_first(),
            final(self).contents() == old(self).contents(),
            final(self).storage() == old(self).storage(),
            final(self).capacity() == old(self).capacity(),
            final(self).header_limit() == old(self).header_limit(),
            final(self).body_limit() == old(self).body_limit(),
    {
        let idle = !self.first && self.buf.pos() == 0;
        self.first = false;
        idle
    }

    /// The free space to read into.
    pub fn rest_mut(&mut self) -> (r: &mut [u8])
        requires
            old(self).wf(),
        ensures
            r@.len() == old(self).capacity() - old(self).contents().len(),
            final(self).contents() == old(self).contents(),
            final(self).storage() == old(self).contents() + final(r)@,
            final(r)@.len() == r@.len() ==> final(self).capacity() == old(self).capacity(),
            final(self).header_limit() == old(self).header_limit(),
            final(self).body_limit() == old(self).body_limit(),
            final(self).is_first() == old(self).is_first(),
            final(self).wf(),
    {
        self.buf.rest_mut()
    }

    /// Counts `n` more bytes as received.
    pub fn advance(&mut self, n: usize)
        requires
            old(self).wf(),
            old(self).contents().len() + n <= old(self).capacity(),
        ensures
            final(self).wf(),
            final(self).contents() == old(self).storage().take(old(self).contents().len() + n),
            final(self).storage() == old(self).storage(),
            final(self).capacity() == old(self).capacity(),
            final(self).header_limit() == old(self).header_limit(),
            final(self).body_limit() == old(self).body_limit(),
            final(self).is_first() == old(self).is_first(),
    {
        self.buf.advance(n);
    }

    /// Counts `n` freshly read bytes as received while waiting for a head,
    /// and looks for the end of the head again, searching only where the
    /// new bytes can have completed it.
    pub fn received(&mut self, n: usize) -> (r: HeadScan)
        requires
            old(self).wf(),
            old(self).contents().len() + n <= old(self).capacity(),
            old(self).contents().len() < old(self).header_limit(),
            head_scan_spec(old(self).contents(), old(self).header_limit()) == HeadScan::NeedMore,
        ensures
            final(self).wf(),
            final(self).contents() == old(self).storage().take(old(self).contents().len() + n),
            final(self).capacity() == old(self).capacity(),
            final(self).header_limit() == old(self).header_limit(),
            final(self).body_limit() == old(self).body_limit(),
            final(self).is_first() == old(self).is_first(),
            r == head_scan_spec(final(self).contents(), final(self).header_limit()),
    {
        let search_from = self.buf.pos();
        let ghost old_contents = self.contents();
        self.buf.advance(n);
        let max = self.max_header_size;
        let sep: [u8; 4] = [13, 10, 13, 10];
        assert(sep@ =~= head_terminator());
        let window = self.buf.data_up_to(max);
        proof {
            let w = window@;
            assert(w =~= prefix_up_to(self.contents(), self.header_limit()));
            assert(old_contents == prefix_up_to(old_contents, self.header_limit()));
            assert forall|j: int| 0 <= j && j + 4 <= search_from implies !matches_at(w, head_terminator(), j) by {
                assert(w.subrange(j, j + 4) =~= old_contents.subrange(j, j + 4));
                if matches_at(w, head_terminator(), j) {
                    lemma_first_match_none(old_contents, head_terminator(), 0, j);
                    assert(matches_at(old_contents, head_terminator(), j));
                }
            }
            lemma_find_from_skips_searched(w, head_terminator(), search_from as int);
        }
        match find_from(window, &sep, search_from) {
            Some(idx) => HeadScan::Found(idx),
            None => if self.buf.pos() >= max {
                HeadScan::TooLarge
            } else {
                HeadScan::NeedMore
            },
        }
    }

    /// Takes the request head that ends at `idx`: parses it, checks its
    /// framing, and drops it from the buffer.
    pub fn take_head(&mut self, idx: usize) -> (r: Result<(Head, usize), Error>)
        requires
            old(self).wf(),
            idx + 4 <= old(self).contents().len(),
        ensures
            final(self).wf(),
            final(self).capacity() == old(self).capacity(),
            final(self).header_limit() == old(self).header_limit(),
            final(self).body_limit() == old(self).body_limit(),
            final(self).is_first() == old(self).is_first(),
            match r {
                Ok((h, n)) => take_head_spec(old(self).contents().take(idx + 2), old(self).body_limit())
                    == Ok::<_, StatusCode>((h.method, h.path@, h.query@, h.headers@, n as nat)),
                Err(Error::Protocol(c)) => take_head_spec(old(self).contents().take(idx + 2), old(self).body_limit())
                    == Err::<(Method, Seq<char>, FieldsView, HeadersView, nat), StatusCode>(c),
                Err(Error::Closed) => false,
            },
            r is Ok || r == Err::<(Head, usize), Error>(Error::Protocol(StatusCode::ContentTooLarge))
                ==> final(self).contents() == old(self).contents().skip(idx + 4),
            !(r is Ok || r == Err::<(Head, usize), Error>(Error::Protocol(StatusCode::ContentTooLarge)))
                ==> final(self).contents() == old(self).contents(),
    {
        proof {
            reveal_strlit("transfer-encoding");
            reveal_strlit("content-length");
            assert("transfer-encoding"@ =~= transfer_encoding_key());
            assert("content-length"@ =~= content_length_key());
        }
        let data = self.buf.data();
        let head_bytes = vstd::slice::slice_subrange(data, 0, idx + 2);
        let head = match parse_head(head_bytes) {
            Some(h) => h,
            None => return Err(Error::Protocol(StatusCode::BadRequest)),
        };
        if head.headers.contains_key("transfer-encoding") {
            return Err(Error::Protocol(StatusCode::NotImplemented));
        }
        let content_length: usize = match head.headers.get("content-length") {
            None => 0,
            Some(v) => match parse_content_length(v) {
                Ok(n) => n,
                Err(c) => return Err(Error::Protocol(c)),
            },
        };
        self.buf.consume(idx + 4);
        if content_length > 0 && content_length > self.max_body_size {
            return Err(Error::Protocol(StatusCode::ContentTooLarge));
        }
        Ok((head, content_length))
    }

    /// Whether the body (of `content_length` bytes) has been received in full.
    pub fn has_body(&self, content_length: usize) -> (r: bool)
        requires
            self.wf(),
        ensures
            r == (content_length <= self.contents().len()),
    {
        content_length <= self.buf.pos()
    }

    /// Takes the body of `content_length` bytes that follows `head`, parses
    /// it as form fields when the head declares a URL-encoded form, and
    /// drops it from the buffer.
    pub fn take_body(&mut self, head: Head, content_length: usize, id: u64, peer_addr: String) -> (r: Result<Request, Error>)
        requires
            old(self).wf(),
            content_length <= old(self).contents().len(),
        ensures
            final(self).wf(),
            final(self).capacity() == old(self).capacity(),
            final(self).header_limit() == old(self).header_limit(),
            final(self).body_limit() == old(self).body_limit(),
            final(self).is_first() == old(self).is_first(),
            match form_spec(head.headers@, old(self).contents().take(content_length as int)) {
                None => r == Err::<Request, Error>(Error::Protocol(StatusCode::BadRequest))
                    && final(self).contents() == old(self).contents(),
                Some(f) => r matches Ok(req) && req.id == id && req.method == head.method && req.path@ == head.path@
                    && req.query@ == head.query@ && req.headers@ == head.headers@ && req.peer_addr@ == peer_addr@
                    && req.body@ == old(self).contents().take(content_length as int) && req.form@ == f
                    && final(self).contents() == old(self).contents().skip(content_length as int),
            },
    {
        proof {
            reveal_strlit("content-type");
            assert("content-type"@ =~= content_type_key());
            reveal_strlit("application/x-www-form-urlencoded");
            assert("application/x-www-form-urlencoded"@ =~= form_type());
        }
        if content_length == 0 {
            let form = FieldMap::new();
            proof {
                assert(old(self).contents().take(0) =~= Seq::<u8>::empty());
                assert(old(self).contents().skip(0) =~= old(self).contents());
            }
            return Ok(Request {
                id,
                method: head.method,
                path: head.path,
                query: head.query,
                headers: head.headers,
                body: Vec::new(),
                form,
                peer_addr,
            });
        }
        let data = self.buf.data();
        let body_slice = vstd::slice::slice_subrange(data, 0, content_length);
        let is_form = match head.headers.get("content-type") {
            None => false,
            Some(v) => starts_with_chars(v.as_str(), "application/x-www-form-urlencoded"),
        };
        let form = if is_form {
            match parse_urlencoded(body_slice) {
                Some(m) => m,
                None => return Err(Error::Protocol(StatusCode::BadRequest)),
            }
        } else {
            FieldMap::new()
        };
        let body = copy_bytes(body_slice, 0, content_length);
        assert(body@ =~= old(self).contents().take(content_length as int));
        self.buf.consume(content_length);
        Ok(Request {
            id,
            method: head.method,
            path: head.path,
            query: head.query,
            headers: head.headers,
            body,
            form,
            peer_addr,
        })
    }
}

/// Whether `s` starts with the characters of `prefix`.
pub fn starts_with_chars(s: &str, prefix: &str) -> (r: bool)
    ensures
        r == (s@.len() >= prefix@.len() && s@.take(prefix@.len() as int) == prefix@),
{
    let a = chars_of(s);
    let b = chars_of(prefix);
    if a.len() < b.len() {
        return false;
    }
    let mut i: usize = 0;
    while i < b.len()
        invariant
            i <= b@.len(),
            b@.len() <= a@.len(),
            a@ == s@,
            b@ == prefix@,
            forall|j: int| 0 <= j < i ==> a@[j] == b@[j],
        decreases b@.len() - i,
    {
        if a[i] != b[i] {
            assert(a@.take(b@.len() as int)[i as int] != b@[i as int]);
            return false;
        }
        i = i + 1;
    }
    assert(a@.take(b@.len() as int) =~= b@);
    true
}

/// Whether two strings are equal once ASCII letters are lower-cased.
pub fn eq_ignore_ascii_case(a: &str, b: &str) -> (r: bool)
    ensures
        r == (lower(a@) == lower(b@)),
{
    let x = lower_chars(&chars_of(a));
    let y = lower_chars(&chars_of(b));
    let r = chars_eq(&x, &y);
    proof {
        if lower(a@) == lower(b@) {
            assert(x@ == y@);
        }
    }
    r
}

/// Whether one of the comma-separated items of `s`, trimmed, equals `tok`
/// ignoring ASCII case.
pub open spec fn any_token(s: Seq<char>, tok: Seq<char>) -> bool
    decreases s.len(),
{
    let i = find_char_from(s, ',', 0);
    if i >= s.len() || i < 0 {
        lower(trim(s)) == lower(tok)
    } else {
        lower(trim(s.take(i))) == lower(tok) || any_token(s.skip(i + 1), tok)
    }
}

/// `s[i..j]` is one of the comma-separated items of `s`: it lies between
/// two commas (or an end of `s`) and holds none.
pub open spec fn is_item(s: Seq<char>, i: int, j: int) -> bool {
    &&& 0 <= i <= j <= s.len()
    &&& (i == 0 || s[i - 1] == ',')
    &&& (j == s.len() || s[j] == ',')
    &&& forall|k: int| i <= k < j ==> s[k] != ','
}

/// Some comma-separated item of `s`, trimmed, equals `tok` ignoring ASCII case.
pub open spec fn has_item(s: Seq<char>, tok: Seq<char>) -> bool {
    exists|i: int, j: int| #[trigger] is_item(s, i, j) && lower(trim(s.subrange(i, j))) == lower(tok)
}

proof fn lemma_find_char_range(s: Seq<char>, x: char, i: int)
    requires
        0 <= i,
    ensures
        i <= s.len() ==> i <= find_char_from(s, x, i) <= s.len(),
        find_char_from(s, x, i) < s.len() ==> s[find_char_from(s, x, i)] == x,
        forall|j: int| i <= j < find_char_from(s, x, i) ==> s[j] != x,
    decreases s.len() - i,
{
    if i < s.len() && s[i] != x {
        lemma_find_char_range(s, x, i + 1);
    }
}

/// The items that `any_token` looks at are exactly the comma-separated
/// items of the text: it finds a token in one of them exactly when one of
/// them, trimmed, equals the token ignoring ASCII case.
pub proof fn lemma_any_token_items(s: Seq<char>, tok: Seq<char>)
    ensures
        any_token(s, tok) == has_item(s, tok),
    decreases s.len(),
{
    let f = find_char_from(s, ',', 0);
    lemma_find_char_range(s, ',', 0);
    if f >= s.len() {
        if any_token(s, tok) {
            assert(s.subrange(0, s.len() as int) =~= s);
            assert(is_item(s, 0, s.len() as int));
        }
        if has_item(s, tok) {
            let (i, j) = choose|i: int, j: int| #[trigger] is_item(s, i, j) && lower(trim(s.subrange(i, j))) == lower(tok);
            if i > 0 {
                assert(s[i - 1] != ',');
            }
            if j < s.len() {
                assert(s[j] != ',');
            }
            assert(s.subrange(i, j) =~= s);
        }
    } else {
        let r = s.skip(f + 1);
        lemma_any_token_items(r, tok);
        if any_token(s, tok) {
            if lower(trim(s.take(f))) == lower(tok) {
                assert(s.subrange(0, f) =~= s.take(f));
                assert(is_item(s, 0, f));
            } else {
                let (a, b) = choose|i: int, j: int| #[trigger] is_item(r, i, j) && lower(trim(r.subrange(i, j))) == lower(tok);
                let i = a + f + 1;
                let j = b + f + 1;
                assert forall|k: int| i <= k < j implies s[k] != ',' by {
                    assert(s[k] == r[k - f - 1]);
                }
                if a > 0 {
                    assert(s[i - 1] == r[a - 1]);
                }
                if b < r.len() {
                    assert(s[j] == r[b]);
                }
                assert(is_item(s, i, j));
                assert(s.subrange(i, j) =~= r.subrange(a, b));
            }
        }
        if has_item(s, tok) {
            let (i, j) = choose|i: int, j: int| #[trigger] is_item(s, i, j) && lower(trim(s.subrange(i, j))) == lower(tok);
            if i == 0 {
                if j < f {
                    assert(s[j] != ',');
                }
                if j > f {
                    assert(s[f] != ',');
                }
                assert(s.subrange(0, f) =~= s.take(f));
            } else {
                if i - 1 < f {
                    assert(s[i - 1] != ',');
                }
                let a = i - f - 1;
                let b = j - f - 1;
                assert forall|k: int| a <= k < b implies r[k] != ',' by {
                    assert(r[k] == s[k + f + 1]);
                }
                if a > 0 {
                    assert(r[a - 1] == s[i - 1]);
                }
                if b < r.len() {
                    assert(r[b] == s[j]);
                }
                assert(is_item(r, a, b));
                assert(r.subrange(a, b) =~= s.subrange(i, j));
            }
        }
    }
}

/// Decides `any_token`.
pub fn has_token(value: &str, tok: &str) -> (r: bool)
    ensures
        r == any_token(value@, tok@),
{
    let c = chars_of(value);
    let t = lower_chars(&chars_of(tok));
    let n = c.len();
    let mut start: usize = 0;
    assert(c@.skip(0) =~= c@);
    loop
        invariant
            start <= n,
            n == c@.len(),
            c@ == value@,
            t@ == lower(tok@),
            any_token(value@, tok@) == any_token(c@.skip(start as int), tok@),
        decreases n - start,
    {
        let ghost rest = c@.skip(start as int);
        let i = find_char(&c, ',', start);
        proof {
            lemma_find_char_shift(c@, ',', start as int, start as int);
        }
        let seg = slice_chars(&c, start, i);
        assert(seg@ =~= rest.take(i - start));
        let ls = lower_chars(&trim_chars(&seg));
        if chars_eq(&ls, &t) {
            return true;
        }
        if i >= n {
            assert(rest.take(i - start) =~= rest);
            return false;
        }
        assert(rest.skip(i - start + 1) =~= c@.skip(i + 1));
        start = i + 1;
    }
}

/// Searching from `start` is searching `s.skip(start)` from 0, shifted.
pub proof fn lemma_find_char_shift(s: Seq<char>, x: char, start: int, i: int)
    requires
        0 <= start <= i <= s.len(),
    ensures
        find_char_from(s.skip(start), x, i - start) == find_char_from(s, x, i) - start,
    decreases s.len() - i,
{
    if i < s.len() {
        lemma_find_char_shift(s, x, start, i + 1);
    }
}

/// `100-continue`.
pub open spec fn continue_token() -> Seq<char> {
    seq!['1', '0', '0', '-', 'c', 'o', 'n', 't', 'i', 'n', 'u', 'e']
}

/// `expect`.
pub open spec fn expect_key() -> Seq<char> {
    seq!['e', 'x', 'p', 'e', 'c', 't']
}

/// Whether the client waits for `100 Continue` before sending the body:
/// it sent `Expect: 100-continue` (case-insensitive).
pub fn expects_continue(headers: &HeaderMap) -> (r: bool)
    ensures
        r == (has_key(headers@, expect_key()) && lower(headers@[key_index(headers@, expect_key())].1) == lower(continue_token())),
{
    proof {
        reveal_strlit("expect");
        assert("expect"@ =~= expect_key());
        reveal_strlit("100-continue");
        assert("100-continue"@ =~= continue_token());
    }
    match headers.get("expect") {
        None => false,
        Some(v) => eq_ignore_ascii_case(v.as_str(), "100-continue"),
    }
}

} // verus!
