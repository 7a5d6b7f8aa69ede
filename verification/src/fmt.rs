//! Decimal and hexadecimal renderings of numbers, as ASCII bytes.

use vstd::prelude::*;
use crate::text::all_ascii;

verus! {

/// The decimal digits of `n`, most significant first, without leading zeros.
pub open spec fn decimal(n: nat) -> Seq<u8>
    decreases n,
{
    if n < 10 {
        seq![(48 + n) as u8]
    } else {
        decimal(n / 10) + seq![(48 + n % 10) as u8]
    }
}

/// `s` preceded by enough `0` bytes to make it at least `width` long.
pub open spec fn zero_padded(s: Seq<u8>, width: nat) -> Seq<u8> {
    if s.len() < width {
        Seq::new((width - s.len()) as nat, |i: int| 48u8) + s
    } else {
        s
    }
}

/// The two upper-case hexadecimal digits of a byte.
pub open spec fn hex_upper(b: u8) -> Seq<u8> {
    seq![hex_digit_upper(b / 16), hex_digit_upper(b % 16)]
}

/// The upper-case hexadecimal digit of a value below 16.
pub open spec fn hex_digit_upper(v: u8) -> u8 {
    if v < 10 {
        (48 + v) as u8
    } else {
        (55 + v) as u8
    }
}

/// Decimal digits are ASCII digits, at least one of them.
pub proof fn lemma_decimal_ascii(n: nat)
    ensures
        all_ascii(decimal(n)),
        decimal(n).len() >= 1,
        forall|i: int| 0 <= i < decimal(n).len() ==> 48 <= #[trigger] decimal(n)[i] <= 57,
    decreases n,
{
    if n >= 10 {
        lemma_decimal_ascii(n / 10);
    }
}

/// Appends the decimal digits of `n`.
pub fn push_decimal(out: &mut Vec<u8>, n: u64)
    ensures
        final(out)@ == old(out)@ + decimal(n as nat),
    decreases n,
{
    if n >= 10 {
        push_decimal(out, n / 10);
    }
    out.push(48 + (n % 10) as u8);
}

/// Appends the decimal digits of `n`, zero-padded to `width`.
pub fn push_padded(out: &mut Vec<u8>, n: u64, width: usize)
    ensures
        final(out)@ == old(out)@ + zero_padded(decimal(n as nat), width as nat),
{
    let mut tmp: Vec<u8> = Vec::new();
    push_decimal(&mut tmp, n);
    assert(tmp@ =~= decimal(n as nat));
    let len = tmp.len();
    let ghost start = out@;
    if len < width {
        let mut k: usize = 0;
        while k < width - len
            invariant
                k <= width - len,
                len < width,
                out@ == start + Seq::new(k as nat, |i: int| 48u8),
            decreases width - len - k,
        {
            out.push(48u8);
            assert(start + Seq::new((k + 1) as nat, |i: int| 48u8) =~= start + Seq::new(k as nat, |i: int| 48u8) + seq![48u8]);
            k = k + 1;
        }
    }
    let ghost mid = out@;
    let mut j: usize = 0;
    while j < len
        invariant
            j <= len,
            len == tmp@.len(),
            out@ == mid + tmp@.take(j as int),
        decreases len - j,
    {
        out.push(tmp[j]);
        assert(tmp@.take(j + 1) =~= tmp@.take(j as int).push(tmp@[j as int]));
        j = j + 1;
    }
    assert(tmp@.take(len as int) =~= tmp@);
    assert(out@ =~= start + zero_padded(decimal(n as nat), width as nat));
}

/// The upper-case hexadecimal digit of `v < 16`.
pub fn hex_digit(v: u8) -> (r: u8)
    requires
        v < 16,
    ensures
        r == hex_digit_upper(v),
{
    if v < 10 {
        48 + v
    } else {
        55 + v
    }
}

/// The lower-case hexadecimal digit of a value below 16.
pub open spec fn lower_hex_digit(v: u8) -> u8 {
    if v < 10 {
        (48 + v) as u8
    } else {
        (87 + v) as u8
    }
}

/// The two lower-case hexadecimal digits of each byte, in order.
pub open spec fn hex_lower(s: Seq<u8>) -> Seq<u8>
    decreases s.len(),
{
    if s.len() == 0 {
        Seq::empty()
    } else {
        hex_lower(s.drop_last()) + seq![lower_hex_digit(s.last() / 16), lower_hex_digit(s.last() % 16)]
    }
}

/// Lower-case hexadecimal is ASCII.
pub proof fn lemma_hex_lower_ascii(s: Seq<u8>)
    ensures
        all_ascii(hex_lower(s)),
        hex_lower(s).len() == 2 * s.len(),
    decreases s.len(),
{
    if s.len() > 0 {
        lemma_hex_lower_ascii(s.drop_last());
        let p = hex_lower(s.drop_last());
        let t = seq![lower_hex_digit(s.last() / 16), lower_hex_digit(s.last() % 16)];
        assert forall|i: int| 0 <= i < hex_lower(s).len() implies #[trigger] hex_lower(s)[i] < 0x80 by {
            if i < p.len() {
                assert(hex_lower(s)[i] == p[i]);
            } else {
                assert(hex_lower(s)[i] == t[i - p.len()]);
            }
        }
    }
}

/// Appends the lower-case hexadecimal digits of each byte of `s`.
pub fn push_hex_lower(out: &mut Vec<u8>, s: &[u8])
    ensures
        final(out)@ == old(out)@ + hex_lower(s@),
{
    let ghost start = out@;
    let mut i: usize = 0;
    while i < s.len()
        invariant
            i <= s@.len(),
            out@ == start + hex_lower(s@.take(i as int)),
        decreases s@.len() - i,
    {
        let b = s[i];
        let hi = b / 16;
        let lo = b % 16;
        out.push(if hi < 10 { 48 + hi } else { 87 + hi });
        out.push(if lo < 10 { 48 + lo } else { 87 + lo });
        assert(s@.take(i + 1).drop_last() =~= s@.take(i as int));
        i = i + 1;
    }
    assert(s@.take(s@.len() as int) =~= s@);
}

} // verus!
