//! Percent-decoding of URL components.

use vstd::prelude::*;
use vstd::utf8::*;
use crate::text::string_from_utf8;

verus! {

/// The value of a hexadecimal digit byte, either case.
pub open spec fn hex_value(c: u8) -> Option<u8> {
    if 48 <= c <= 57 {
        Some((c - 48) as u8)
    } else if 97 <= c <= 102 {
        Some((c - 87) as u8)
    } else if 65 <= c <= 70 {
        Some((c - 55) as u8)
    } else {
        None
    }
}

/// The byte that `%hi lo` stands for. The two bytes are read as a base-16
/// number the way `u8::from_str_radix` reads them: digits of either case,
/// and an optional leading `+`.
pub open spec fn escape_value(hi: u8, lo: u8) -> Option<u8> {
    if hi == 43 {
        hex_value(lo)
    } else {
        match (hex_value(hi), hex_value(lo)) {
            (Some(h), Some(l)) => Some((h * 16 + l) as u8),
            _ => None,
        }
    }
}

/// The bytes that `input` stands for once each `%XX` escape is replaced by
/// the byte it encodes; `None` if an escape is cut short or is not hexadecimal.
pub open spec fn unescape(input: Seq<u8>) -> Option<Seq<u8>>
    decreases input.len(),
{
    if input.len() == 0 {
        Some(seq![])
    } else if input[0] == 37 {
        if input.len() < 3 {
            None
        } else {
            match escape_value(input[1], input[2]) {
                None => None,
                Some(v) => match unescape(input.skip(3)) {
                    None => None,
                    Some(rest) => Some(seq![v] + rest),
                },
            }
        }
    } else {
        match unescape(input.skip(1)) {
            None => None,
            Some(rest) => Some(seq![input[0]] + rest),
        }
    }
}

/// The string that `input` percent-decodes to: the unescaped bytes, read as
/// UTF-8; `None` if unescaping fails or the bytes are not UTF-8.
pub open spec fn percent_decode_spec(input: Seq<u8>) -> Option<Seq<char>> {
    match unescape(input) {
        Some(b) => if valid_utf8(b) {
            Some(decode_utf8(b))
        } else {
            None
        },
        None => None,
    }
}

fn hex_digit_value(c: u8) -> (r: Option<u8>)
    ensures
        r == hex_value(c),
{
    if 48 <= c && c <= 57 {
        Some(c - 48)
    } else if 97 <= c && c <= 102 {
        Some(c - 87)
    } else if 65 <= c && c <= 70 {
        Some(c - 55)
    } else {
        None
    }
}

fn escape_byte(hi: u8, lo: u8) -> (r: Option<u8>)
    ensures
        r == escape_value(hi, lo),
{
    if hi == 43 {
        return hex_digit_value(lo);
    }
    match (hex_digit_value(hi), hex_digit_value(lo)) {
        (Some(h), Some(l)) => Some(h * 16 + l),
        _ => None,
    }
}

/// Replaces each `%XX` escape of `input` by the byte it encodes.
pub fn unescape_bytes(input: &[u8]) -> (r: Option<Vec<u8>>)
    ensures
        r matches Some(v) ==> unescape(input@) == Some(v@),
        r is None ==> unescape(input@) is None,
{
    let n = input.len();
    let mut out: Vec<u8> = Vec::new();
    let mut i: usize = 0;
    assert(input@.skip(0) =~= input@);
    while i < n
        invariant
            i <= n,
            n == input@.len(),
            unescape(input@.skip(i as int)) matches Some(rest) ==> unescape(input@) == Some(out@ + rest),
            unescape(input@.skip(i as int)) is None ==> unescape(input@) is None,
        decreases n - i,
    {
        let ghost suffix = input@.skip(i as int);
        if input[i] == 37 {
            if n - i < 3 {
                return None;
            }
            match escape_byte(input[i + 1], input[i + 2]) {
                None => {
                    return None;
                },
                Some(v) => {
                    proof {
                        assert(suffix.skip(3) =~= input@.skip(i + 3));
                        if let Some(rest) = unescape(input@.skip(i + 3)) {
                            assert(out@.push(v) + rest =~= out@ + (seq![v] + rest));
                        }
                    }
                    out.push(v);
                    i = i + 3;
                },
            }
        } else {
            proof {
                assert(suffix.skip(1) =~= input@.skip(i + 1));
                if let Some(rest) = unescape(input@.skip(i + 1)) {
                    assert(out@.push(input@[i as int]) + rest =~= out@ + (seq![input@[i as int]] + rest));
                }
            }
            out.push(input[i]);
            i = i + 1;
        }
    }
    proof {
        assert(input@.skip(n as int).len() == 0);
        assert(out@ + seq![] =~= out@);
    }
    Some(out)
}

/// Percent-decodes `input` and reads the result as UTF-8.
pub fn percent_decode(input: &[u8]) -> (r: Option<String>)
    ensures
        r matches Some(s) ==> percent_decode_spec(input@) == Some(s@),
        r is None ==> percent_decode_spec(input@) is None,
{
    match unescape_bytes(input) {
        None => None,
        Some(bytes) => string_from_utf8(bytes),
    }
}

/// Input that holds no `%` is left as it is by unescaping.
pub proof fn lemma_unescape_plain(input: Seq<u8>)
    requires
        forall|i: int| 0 <= i < input.len() ==> input[i] != 37,
    ensures
        unescape(input) == Some(input),
    decreases input.len(),
{
    if input.len() > 0 {
        lemma_unescape_plain(input.skip(1));
        assert(seq![input[0]] + input.skip(1) =~= input);
    }
}

/// Escaping a byte as `%XX` with upper-case digits and unescaping gives the byte back.
pub proof fn lemma_escape_roundtrip(b: u8)
    ensures
        escape_value(crate::fmt::hex_digit_upper(b / 16), crate::fmt::hex_digit_upper(b % 16)) == Some(b),
{
}

} // verus!
