//! Facts about text made of CRLF-terminated lines, as HTTP heads are: where
//! the blank line that ends a head can and cannot occur.

use vstd::prelude::*;
use vstd::utf8::*;
use crate::request::{matches_at, first_match_from, head_terminator};

verus! {

/// Carriage return and line feed.
pub open spec fn crlf() -> Seq<u8> {
    seq![13u8, 10u8]
}

/// Whether `s` holds no CR or LF byte.
pub open spec fn no_break_bytes(s: Seq<u8>) -> bool {
    forall|i: int| 0 <= i < s.len() ==> #[trigger] s[i] != 13 && s[i] != 10
}

/// Whether `s` holds no carriage return or line feed.
pub open spec fn no_break_chars(s: Seq<char>) -> bool {
    forall|i: int| 0 <= i < s.len() ==> #[trigger] s[i] != '\r' && s[i] != '\n'
}

/// `s` is a run of whole lines, each non-empty and ending in CRLF: it holds
/// no blank line, starts with something other than CR, and ends in CRLF.
pub open spec fn whole_lines(s: Seq<u8>) -> bool {
    &&& forall|j: int| !#[trigger] matches_at(s, head_terminator(), j)
    &&& s.len() == 0 || (s.len() >= 3 && s[0] != 13 && s[s.len() - 2] == 13 && s[s.len() - 1] == 10)
}

/// The UTF-8 encoding of a concatenation is the concatenation of the encodings.
pub proof fn lemma_utf8_concat(a: Seq<char>, b: Seq<char>)
    ensures
        encode_utf8(a + b) == encode_utf8(a) + encode_utf8(b),
    decreases a.len(),
{
    if a.len() == 0 {
        assert(a + b =~= b);
    } else {
        assert((a + b).drop_first() =~= a.drop_first() + b);
        lemma_utf8_concat(a.drop_first(), b);
        assert((a + b)[0] == a[0]);
    }
}

proof fn lemma_scalar_no_break(c: char)
    requires
        c != '\r',
        c != '\n',
    ensures
        no_break_bytes(encode_scalar(c as u32)),
{
    let v = c as u32;
    char_is_scalar(c);
    if has_width_1_encoding(v) {
        assert(v <= 0x7f ==> (v & 0x7f) as u8 == v) by (bit_vector);
        assert(c as u32 != 13 && c as u32 != 10);
    } else {
        assert(0x80u8 | ((v >> 6) & 0x1F) as u8 >= 0x80) by (bit_vector);
        assert(0xC0u8 | ((v >> 6) & 0x1F) as u8 >= 0x80) by (bit_vector);
        assert(0xE0u8 | ((v >> 12) & 0x0F) as u8 >= 0x80) by (bit_vector);
        assert(0xF0u8 | ((v >> 18) & 0x7) as u8 >= 0x80) by (bit_vector);
        assert(0x80u8 | (v & 0x3F) as u8 >= 0x80) by (bit_vector);
        assert(0x80u8 | ((v >> 12) & 0x3F) as u8 >= 0x80) by (bit_vector);
        assert(0x80u8 | ((v >> 6) & 0x3F) as u8 >= 0x80) by (bit_vector);
    }
}

/// Characters other than CR and LF encode to bytes other than CR and LF.
pub proof fn lemma_utf8_no_break(s: Seq<char>)
    requires
        no_break_chars(s),
    ensures
        no_break_bytes(encode_utf8(s)),
    decreases s.len(),
{
    if s.len() > 0 {
        lemma_scalar_no_break(s[0]);
        assert(no_break_chars(s.drop_first()));
        lemma_utf8_no_break(s.drop_first());
        let e = encode_scalar(s[0] as u32);
        let r = encode_utf8(s.drop_first());
        assert(encode_utf8(s) == e + r);
        assert forall|i: int| 0 <= i < encode_utf8(s).len() implies #[trigger] encode_utf8(s)[i] != 13 && encode_utf8(s)[i] != 10 by {
            if i < e.len() {
                assert(encode_utf8(s)[i] == e[i]);
            } else {
                assert(encode_utf8(s)[i] == r[i - e.len()]);
            }
        }
    }
}

/// A non-empty line without CR or LF, followed by CRLF, is a whole line.
pub proof fn lemma_one_line(c: Seq<u8>)
    requires
        c.len() > 0,
        no_break_bytes(c),
    ensures
        whole_lines(c + crlf()),
{
    let s = c + crlf();
    assert(s[0] == c[0]);
    assert forall|j: int| !#[trigger] matches_at(s, head_terminator(), j) by {
        if matches_at(s, head_terminator(), j) {
            assert(s.subrange(j, j + 4)[0] == s[j]);
            assert(s.subrange(j, j + 4)[2] == s[j + 2]);
            if j < c.len() {
                assert(s[j] == c[j]);
            }
            assert(j + 2 >= s.len());
        }
    }
}

/// Whole lines followed by whole lines are whole lines.
pub proof fn lemma_lines_concat(a: Seq<u8>, b: Seq<u8>)
    requires
        whole_lines(a),
        whole_lines(b),
    ensures
        whole_lines(a + b),
{
    let s = a + b;
    if a.len() == 0 {
        assert(s =~= b);
    } else if b.len() == 0 {
        assert(s =~= a);
    } else {
        assert(s[0] == a[0]);
        assert(s[s.len() - 2] == b[b.len() - 2]);
        assert(s[s.len() - 1] == b[b.len() - 1]);
        assert forall|j: int| !#[trigger] matches_at(s, head_terminator(), j) by {
            if matches_at(s, head_terminator(), j) {
                let w = s.subrange(j, j + 4);
                assert(w[0] == s[j] && w[1] == s[j + 1] && w[2] == s[j + 2] && w[3] == s[j + 3]);
                if j + 4 <= a.len() {
                    assert(a.subrange(j, j + 4) =~= w);
                    assert(matches_at(a, head_terminator(), j));
                } else if j >= a.len() {
                    assert(b.subrange(j - a.len(), j - a.len() + 4) =~= w);
                    assert(matches_at(b, head_terminator(), j - a.len()));
                } else if j == a.len() - 1 {
                    assert(s[j] == a[a.len() - 1]);
                } else if j == a.len() - 2 {
                    assert(s[j + 2] == b[0]);
                } else {
                    assert(j == a.len() - 3);
                    assert(s[j + 1] == a[a.len() - 2]);
                }
            }
        }
    }
}

/// A search that meets no match before `m` and a match at `m` finds `m`.
pub proof fn lemma_first_match_is(d: Seq<u8>, sep: Seq<u8>, i: int, m: int)
    requires
        0 <= i <= m,
        sep.len() > 0,
        matches_at(d, sep, m),
        forall|j: int| i <= j < m ==> !#[trigger] matches_at(d, sep, j),
    ensures
        first_match_from(d, sep, i) == Some(m),
    decreases m - i,
{
    if i < m {
        lemma_first_match_is(d, sep, i + 1, m);
    }
}

/// Whole lines, then a blank line: the first blank line is the last one.
pub proof fn lemma_head_end(x: Seq<u8>, rest: Seq<u8>)
    requires
        whole_lines(x),
        x.len() > 0,
    ensures
        first_match_from(x + crlf() + rest, head_terminator(), 0) == Some(x.len() - 2),
{
    let s = x + crlf() + rest;
    let m = x.len() - 2;
    assert(s.subrange(m, m + 4) =~= head_terminator());
    assert forall|j: int| 0 <= j < m implies !#[trigger] matches_at(s, head_terminator(), j) by {
        if matches_at(s, head_terminator(), j) {
            let w = s.subrange(j, j + 4);
            assert(w[0] == s[j] && w[1] == s[j + 1] && w[2] == s[j + 2] && w[3] == s[j + 3]);
            if j + 4 <= x.len() {
                assert(x.subrange(j, j + 4) =~= w);
                assert(matches_at(x, head_terminator(), j));
            } else {
                assert(j == x.len() - 3);
                assert(s[j + 1] == x[x.len() - 2]);
            }
        }
    }
    lemma_first_match_is(s, head_terminator(), 0, m);
}

} // verus!
