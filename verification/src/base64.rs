//! Base64 encoding (RFC 4648, standard alphabet, with padding).

use vstd::prelude::*;
use crate::text::{ascii_chars, all_ascii, ascii_string};

verus! {

/// The alphabet byte for a 6-bit value.
pub open spec fn b64_digit_spec(v: u8) -> u8 {
    if v < 26 {
        (65 + v) as u8
    } else if v < 52 {
        (97 + (v - 26)) as u8
    } else if v < 62 {
        (48 + (v - 52)) as u8
    } else if v == 62 {
        43u8
    } else {
        47u8
    }
}

/// The four alphabet bytes that encode the three bytes `b0 b1 b2`.
pub open spec fn group_spec(b0: u8, b1: u8, b2: u8) -> Seq<u8> {
    seq![
        b64_digit_spec(b0 >> 2),
        b64_digit_spec(((b0 & 3) << 4) | (b1 >> 4)),
        b64_digit_spec(((b1 & 15) << 2) | (b2 >> 6)),
        b64_digit_spec(b2 & 63),
    ]
}

/// The Base64 encoding of `data` as bytes: one group of four per three input
/// bytes; a final group of one or two bytes is padded with `=`.
pub open spec fn base64_spec(data: Seq<u8>) -> Seq<u8>
    decreases data.len(),
{
    if data.len() == 0 {
        seq![]
    } else if data.len() == 1 {
        group_spec(data[0], 0, 0).take(2) + seq![61u8, 61u8]
    } else if data.len() == 2 {
        group_spec(data[0], data[1], 0).take(3) + seq![61u8]
    } else {
        group_spec(data[0], data[1], data[2]) + base64_spec(data.skip(3))
    }
}

/// Whether a byte is in the Base64 alphabet or is the padding `=`.
pub open spec fn is_b64_byte(b: u8) -> bool {
    (65 <= b <= 90) || (97 <= b <= 122) || (48 <= b <= 57) || b == 43 || b == 47 || b == 61
}

fn b64_digit(v: u8) -> (r: u8)
    requires
        v < 64,
    ensures
        r == b64_digit_spec(v),
        r < 128,
        is_b64_byte(r),
{
    if v < 26 {
        65 + v
    } else if v < 52 {
        97 + (v - 26)
    } else if v < 62 {
        48 + (v - 52)
    } else if v == 62 {
        43
    } else {
        47
    }
}

fn encode_3bytes(out: &mut Vec<u8>, src: &[u8; 3])
    ensures
        final(out)@ == old(out)@ + group_spec(src[0], src[1], src[2]),
{
    let b0 = src[0];
    let b1 = src[1];
    let b2 = src[2];
    assert((b0 >> 2) < 64) by (bit_vector);
    assert((((b0 & 3) << 4) | (b1 >> 4)) < 64) by (bit_vector);
    assert((((b1 & 15) << 2) | (b2 >> 6)) < 64) by (bit_vector);
    assert((b2 & 63) < 64) by (bit_vector);
    out.push(b64_digit(b0 >> 2));
    out.push(b64_digit(((b0 & 3) << 4) | (b1 >> 4)));
    out.push(b64_digit(((b1 & 15) << 2) | (b2 >> 6)));
    out.push(b64_digit(b2 & 63));
}

proof fn lemma_group_ascii(b0: u8, b1: u8, b2: u8)
    ensures
        forall|i: int| 0 <= i < 4 ==> #[trigger] group_spec(b0, b1, b2)[i] < 128 && is_b64_byte(group_spec(b0, b1, b2)[i]),
{
    assert((b0 >> 2) < 64) by (bit_vector);
    assert((((b0 & 3) << 4) | (b1 >> 4)) < 64) by (bit_vector);
    assert((((b1 & 15) << 2) | (b2 >> 6)) < 64) by (bit_vector);
    assert((b2 & 63) < 64) by (bit_vector);
}

/// An encoding has four characters for every three input bytes or part of
/// three, all from the alphabet or the padding `=`.
pub proof fn lemma_base64_shape(data: Seq<u8>)
    ensures
        base64_spec(data).len() == 4 * ((data.len() + 2) / 3),
        forall|i: int| 0 <= i < base64_spec(data).len() ==> is_b64_byte(#[trigger] base64_spec(data)[i]),
    decreases data.len(),
{
    if data.len() == 1 {
        lemma_group_ascii(data[0], 0, 0);
        let s = base64_spec(data);
        assert forall|i: int| 0 <= i < s.len() implies is_b64_byte(#[trigger] s[i]) by {
            if i < 2 {
                assert(s[i] == group_spec(data[0], 0, 0)[i]);
            }
        }
    } else if data.len() == 2 {
        lemma_group_ascii(data[0], data[1], 0);
        let s = base64_spec(data);
        assert forall|i: int| 0 <= i < s.len() implies is_b64_byte(#[trigger] s[i]) by {
            if i < 3 {
                assert(s[i] == group_spec(data[0], data[1], 0)[i]);
            }
        }
    } else if data.len() >= 3 {
        lemma_base64_shape(data.skip(3));
        lemma_group_ascii(data[0], data[1], data[2]);
        let g = group_spec(data[0], data[1], data[2]);
        let r = base64_spec(data.skip(3));
        let s = base64_spec(data);
        assert(s == g + r);
        assert forall|i: int| 0 <= i < s.len() implies is_b64_byte(#[trigger] s[i]) by {
            if i < 4 {
                assert(s[i] == g[i]);
            } else {
                assert(s[i] == r[i - 4]);
            }
        }
    }
}

proof fn lemma_group_no_pad(b0: u8, b1: u8, b2: u8)
    ensures
        forall|i: int| 0 <= i < 4 ==> #[trigger] group_spec(b0, b1, b2)[i] != 61,
{
    assert((b0 >> 2) < 64) by (bit_vector);
    assert((((b0 & 3) << 4) | (b1 >> 4)) < 64) by (bit_vector);
    assert((((b1 & 15) << 2) | (b2 >> 6)) < 64) by (bit_vector);
    assert((b2 & 63) < 64) by (bit_vector);
}

/// An encoding ends with one `=` when the input length leaves two bytes
/// over a multiple of three, two when it leaves one, and none otherwise;
/// no `=` stands anywhere else.
pub proof fn lemma_base64_padding(data: Seq<u8>)
    ensures
        forall|i: int| 0 <= i < base64_spec(data).len() - (3 - data.len() % 3) % 3 ==> #[trigger] base64_spec(data)[i] != 61,
        forall|i: int|
            base64_spec(data).len() - (3 - data.len() % 3) % 3 <= i < base64_spec(data).len() ==> #[trigger] base64_spec(data)[i]
                == 61,
    decreases data.len(),
{
    lemma_base64_shape(data);
    let s = base64_spec(data);
    if data.len() == 1 {
        lemma_group_no_pad(data[0], 0, 0);
        assert forall|i: int| 0 <= i < 2 implies #[trigger] s[i] != 61 by {
            assert(s[i] == group_spec(data[0], 0, 0)[i]);
        }
    } else if data.len() == 2 {
        lemma_group_no_pad(data[0], data[1], 0);
        assert forall|i: int| 0 <= i < 3 implies #[trigger] s[i] != 61 by {
            assert(s[i] == group_spec(data[0], data[1], 0)[i]);
        }
    } else if data.len() >= 3 {
        let rest = data.skip(3);
        lemma_base64_padding(rest);
        lemma_base64_shape(rest);
        lemma_group_no_pad(data[0], data[1], data[2]);
        let g = group_spec(data[0], data[1], data[2]);
        let r = base64_spec(rest);
        assert(s == g + r);
        assert(data.len() % 3 == rest.len() % 3);
        let pad = (3 - data.len() % 3) % 3;
        assert forall|i: int| 0 <= i < s.len() - pad implies #[trigger] s[i] != 61 by {
            if i < 4 {
                assert(s[i] == g[i]);
            } else {
                assert(s[i] == r[i - 4]);
            }
        }
        assert forall|i: int| s.len() - pad <= i < s.len() implies #[trigger] s[i] == 61 by {
            assert(s[i] == r[i - 4]);
        }
    }
}

/// Encoding splits after any multiple of three bytes: the encoding of
/// `a` followed by `b` is that of `a` followed by that of `b`.
pub proof fn lemma_base64_concat(a: Seq<u8>, b: Seq<u8>)
    requires
        a.len() % 3 == 0,
    ensures
        base64_spec(a + b) == base64_spec(a) + base64_spec(b),
    decreases a.len(),
{
    if a.len() == 0 {
        assert(a + b =~= b);
        assert(base64_spec(a) + base64_spec(b) =~= base64_spec(b));
    } else {
        let ab = a + b;
        assert(ab[0] == a[0] && ab[1] == a[1] && ab[2] == a[2]);
        assert(ab.skip(3) =~= a.skip(3) + b);
        lemma_base64_concat(a.skip(3), b);
        assert(base64_spec(ab) =~= base64_spec(a) + base64_spec(b));
    }
}

/// Encodes `data` in Base64 with padding.
pub fn encode(data: &[u8]) -> (s: String)
    ensures
        s@ == ascii_chars(base64_spec(data@)),
{
    let n = data.len();
    let mut out: Vec<u8> = Vec::new();
    let mut i: usize = 0;
    assert(data@.skip(0) =~= data@);
    while n - i >= 3
        invariant
            n == data@.len(),
            i <= n,
            base64_spec(data@) == out@ + base64_spec(data@.skip(i as int)),
            all_ascii(out@),
        decreases n - i,
    {
        let src: [u8; 3] = [data[i], data[i + 1], data[i + 2]];
        let ghost old_out = out@;
        encode_3bytes(&mut out, &src);
        proof {
            lemma_group_ascii(src[0], src[1], src[2]);
            let rest = data@.skip(i as int);
            assert(rest[0] == src[0] && rest[1] == src[1] && rest[2] == src[2]);
            assert(rest.skip(3) =~= data@.skip(i + 3));
            assert(base64_spec(rest) == group_spec(src[0], src[1], src[2]) + base64_spec(rest.skip(3)));
            assert(out@ + base64_spec(data@.skip(i + 3)) =~= old_out + base64_spec(rest));
            assert(all_ascii(out@)) by {
                assert forall|k: int| 0 <= k < out@.len() implies #[trigger] out@[k] < 0x80 by {
                    if k >= old_out.len() {
                        assert(out@[k] == group_spec(src[0], src[1], src[2])[k - old_out.len()]);
                    }
                }
            }
        }
        i = i + 3;
    }
    if i < n {
        let rem = n - i;
        let b1: u8 = if rem == 2 { data[i + 1] } else { 0 };
        let src: [u8; 3] = [data[i], b1, 0];
        let ghost before = out@;
        encode_3bytes(&mut out, &src);
        let pad = 3 - rem;
        let mut k: usize = 0;
        while k < pad
            invariant
                k <= pad,
                pad <= 2,
                out@ == before + group_spec(src[0], src[1], src[2]).take(4 - k),
            decreases pad - k,
        {
            out.pop();
            proof {
                assert(group_spec(src[0], src[1], src[2]).take(4 - k).drop_last() =~= group_spec(src[0], src[1], src[2]).take(4 - (k + 1)));
            }
            k = k + 1;
        }
        let ghost trimmed = out@;
        let mut k: usize = 0;
        while k < pad
            invariant
                k <= pad,
                pad <= 2,
                out@ == trimmed + Seq::new(k as nat, |j: int| 61u8),
            decreases pad - k,
        {
            out.push(61u8);
            proof {
                assert(trimmed + Seq::new((k + 1) as nat, |j: int| 61u8) =~= trimmed + Seq::new(k as nat, |j: int| 61u8) + seq![61u8]);
            }
            k = k + 1;
        }
        proof {
            lemma_group_ascii(src[0], src[1], src[2]);
            let rest = data@.skip(i as int);
            assert(rest.len() == rem);
            if rem == 1 {
                assert(Seq::new(2, |j: int| 61u8) =~= seq![61u8, 61u8]);
            } else {
                assert(Seq::new(1, |j: int| 61u8) =~= seq![61u8]);
            }
            assert(out@ =~= before + base64_spec(rest));
            assert(all_ascii(out@)) by {
                assert forall|k2: int| 0 <= k2 < out@.len() implies #[trigger] out@[k2] < 0x80 by {
                    if k2 >= before.len() && k2 < trimmed.len() {
                        assert(out@[k2] == group_spec(src[0], src[1], src[2])[k2 - before.len()]);
                    }
                }
            }
        }
    } else {
        proof {
            assert(data@.skip(i as int).len() == 0);
            assert(out@ =~= out@ + base64_spec(data@.skip(i as int)));
        }
    }
    ascii_string(out)
}

} // verus!
