//! SHA-1 (FIPS 180-4), used for the WebSocket handshake.

use vstd::prelude::*;
use vstd::wrapping::u32_specs::wrapping_add;
use crate::fmt::{hex_lower, push_hex_lower, lemma_hex_lower_ascii};
use crate::text::{ascii_chars, ascii_string};

verus! {

/// Left rotation of a 32-bit word by `n` bits, `0 < n < 32`.
pub open spec fn rotl(x: u32, n: u32) -> u32 {
    (x << n) | (x >> ((32 - n) as u32))
}

/// The big-endian 32-bit word made of bytes `4t .. 4t + 4` of a block.
pub open spec fn block_word(block: Seq<u8>, t: int) -> u32 {
    ((block[4 * t] as u32) << 24u32) | ((block[4 * t + 1] as u32) << 16u32) | ((block[4 * t + 2] as u32) << 8u32) | (block[4 * t + 3] as u32)
}

/// The message schedule `W[t]` of a 64-byte block.
pub open spec fn schedule(block: Seq<u8>, t: int) -> u32
    decreases t,
{
    if t < 16 {
        block_word(block, t)
    } else {
        rotl(schedule(block, t - 3) ^ schedule(block, t - 8) ^ schedule(block, t - 14) ^ schedule(block, t - 16), 1)
    }
}

/// The round function `f_t(b, c, d)`.
pub open spec fn round_f(t: int, b: u32, c: u32, d: u32) -> u32 {
    if t < 20 {
        (b & c) | (!b & d)
    } else if t < 40 {
        b ^ c ^ d
    } else if t < 60 {
        (b & c) | (b & d) | (c & d)
    } else {
        b ^ c ^ d
    }
}

/// The round constant `K_t`.
pub open spec fn round_k(t: int) -> u32 {
    if t < 20 {
        0x5a827999u32
    } else if t < 40 {
        0x6ed9eba1u32
    } else if t < 60 {
        0x8f1bbcdcu32
    } else {
        0xca62c1d6u32
    }
}

/// The working variables `(a, b, c, d, e)` after the first `t` rounds on a block.
pub open spec fn rounds(h: Seq<u32>, block: Seq<u8>, t: int) -> (u32, u32, u32, u32, u32)
    decreases t,
{
    if t <= 0 {
        (h[0], h[1], h[2], h[3], h[4])
    } else {
        let (a, b, c, d, e) = rounds(h, block, t - 1);
        let temp = wrapping_add(
            wrapping_add(wrapping_add(wrapping_add(rotl(a, 5), round_f(t - 1, b, c, d)), e), round_k(t - 1)),
            schedule(block, t - 1),
        );
        (temp, a, rotl(b, 30), c, d)
    }
}

/// The hash state after processing one 64-byte block.
pub open spec fn compress(h: Seq<u32>, block: Seq<u8>) -> Seq<u32> {
    let (a, b, c, d, e) = rounds(h, block, 80);
    seq![wrapping_add(h[0], a), wrapping_add(h[1], b), wrapping_add(h[2], c), wrapping_add(h[3], d), wrapping_add(h[4], e)]
}

/// The initial hash value `H(0)`.
pub open spec fn initial_state() -> Seq<u32> {
    seq![0x67452301u32, 0xefcdab89u32, 0x98badcfeu32, 0x10325476u32, 0xc3d2e1f0u32]
}

/// The state after processing every whole 64-byte block of `data` in order.
pub open spec fn hash_blocks(h: Seq<u32>, data: Seq<u8>) -> Seq<u32>
    decreases data.len(),
{
    if data.len() < 64 {
        h
    } else {
        hash_blocks(compress(h, data.take(64)), data.skip(64))
    }
}

/// The eight big-endian bytes of a 64-bit value.
pub open spec fn be64(x: u64) -> Seq<u8> {
    Seq::new(8, |j: int| (x >> ((56 - 8 * j) as u64)) as u8)
}

/// The number of zero bytes between the `0x80` marker and the length field.
pub open spec fn zero_pad_len(n: nat) -> nat {
    if n % 64 < 56 {
        (55 - n % 64) as nat
    } else {
        (119 - n % 64) as nat
    }
}

/// The padded message: the message, `0x80`, zeros, and the bit length.
pub open spec fn padded(msg: Seq<u8>) -> Seq<u8> {
    msg + seq![0x80u8] + Seq::new(zero_pad_len(msg.len()), |i: int| 0u8) + be64((msg.len() * 8) as u64)
}

/// Byte `k` (big-endian) of a word.
pub open spec fn word_byte(w: u32, k: int) -> u8 {
    if k == 0 {
        (w >> 24u32) as u8
    } else if k == 1 {
        (w >> 16u32) as u8
    } else if k == 2 {
        (w >> 8u32) as u8
    } else {
        w as u8
    }
}

/// The 20-byte digest of a final state.
pub open spec fn digest_bytes(h: Seq<u32>) -> Seq<u8> {
    Seq::new(20, |j: int| word_byte(h[j / 4], j % 4))
}

/// The SHA-1 digest of `msg`.
pub open spec fn sha1_spec(msg: Seq<u8>) -> Seq<u8> {
    digest_bytes(hash_blocks(initial_state(), padded(msg)))
}

fn rotl_exec(x: u32, n: u32) -> (r: u32)
    requires
        0 < n < 32,
    ensures
        r == rotl(x, n),
{
    (x << n) | (x >> (32 - n))
}

/// Processing `a` then `b` block by block is processing `a + b`, when `a` is whole blocks.
pub proof fn lemma_hash_blocks_concat(h: Seq<u32>, a: Seq<u8>, b: Seq<u8>)
    requires
        a.len() % 64 == 0,
    ensures
        hash_blocks(h, a + b) == hash_blocks(hash_blocks(h, a), b),
    decreases a.len(),
{
    if a.len() == 0 {
        assert(a + b =~= b);
    } else {
        assert((a + b).take(64) =~= a.take(64));
        assert((a + b).skip(64) =~= a.skip(64) + b);
        lemma_hash_blocks_concat(compress(h, a.take(64)), a.skip(64), b);
    }
}

proof fn lemma_hash_one_block(h: Seq<u32>, b: Seq<u8>)
    requires
        b.len() == 64,
    ensures
        hash_blocks(h, b) == compress(h, b),
{
    reveal_with_fuel(hash_blocks, 2);
    assert(b.take(64) =~= b);
    assert(b.skip(64).len() == 0);
}

/// The SHA-1 hash state.
pub struct Sha1 {
    h: [u32; 5],
}

impl Sha1 {
    /// The state of this hash computation.
    pub closed spec fn state(&self) -> Seq<u32> {
        self.h@
    }

    /// A hash computation that has processed nothing.
    pub fn new() -> (s: Self)
        ensures
            s.state() == initial_state(),
    {
        let s = Sha1 { h: [0x67452301, 0xefcdab89, 0x98badcfe, 0x10325476, 0xc3d2e1f0] };
        assert(s.h@ =~= initial_state());
        s
    }

    /// Processes one 64-byte block.
    pub fn update_chunk(&mut self, chunk: &[u8; 64])
        requires
            old(self).state().len() == 5,
        ensures
            final(self).state() == compress(old(self).state(), chunk@),
    {
        let mut w = [0u32; 80];
        let mut i: usize = 0;
        while i < 16
            invariant
                i <= 16,
                chunk@.len() == 64,
                w@.len() == 80,
                forall|t: int| 0 <= t < i ==> w@[t] == schedule(chunk@, t),
            decreases 16 - i,
        {
            let v = ((chunk[4 * i] as u32) << 24u32) | ((chunk[4 * i + 1] as u32) << 16u32) | ((chunk[4 * i + 2] as u32) << 8u32) | (chunk[4 * i + 3] as u32);
            w[i] = v;
            i = i + 1;
        }
        while i < 80
            invariant
                16 <= i <= 80,
                w@.len() == 80,
                forall|t: int| 0 <= t < i ==> w@[t] == schedule(chunk@, t),
            decreases 80 - i,
        {
            let v = rotl_exec(w[i - 3] ^ w[i - 8] ^ w[i - 14] ^ w[i - 16], 1);
            w[i] = v;
            i = i + 1;
        }
        let h0 = self.h[0];
        let h1 = self.h[1];
        let h2 = self.h[2];
        let h3 = self.h[3];
        let h4 = self.h[4];
        let ghost hs = self.h@;
        let mut a = h0;
        let mut b = h1;
        let mut c = h2;
        let mut d = h3;
        let mut e = h4;
        let mut t: usize = 0;
        while t < 80
            invariant
                t <= 80,
                w@.len() == 80,
                hs.len() == 5,
                forall|j: int| 0 <= j < 80 ==> w@[j] == schedule(chunk@, j),
                (a, b, c, d, e) == rounds(hs, chunk@, t as int),
            decreases 80 - t,
        {
            let f: u32;
            let k: u32;
            if t < 20 {
                f = (b & c) | (!b & d);
                k = 0x5a827999;
            } else if t < 40 {
                f = b ^ c ^ d;
                k = 0x6ed9eba1;
            } else if t < 60 {
                f = (b & c) | (b & d) | (c & d);
                k = 0x8f1bbcdc;
            } else {
                f = b ^ c ^ d;
                k = 0xca62c1d6;
            }
            let temp = rotl_exec(a, 5).wrapping_add(f).wrapping_add(e).wrapping_add(k).wrapping_add(w[t]);
            e = d;
            d = c;
            c = rotl_exec(b, 30);
            b = a;
            a = temp;
            t = t + 1;
        }
        let nh = [h0.wrapping_add(a), h1.wrapping_add(b), h2.wrapping_add(c), h3.wrapping_add(d), h4.wrapping_add(e)];
        self.h = nh;
        assert(self.h@ =~= compress(hs, chunk@));
    }

    /// The digest of the processed blocks.
    pub fn result(self) -> (out: [u8; 20])
        requires
            self.state().len() == 5,
        ensures
            out@ == digest_bytes(self.state()),
    {
        let mut out = [0u8; 20];
        let mut i: usize = 0;
        while i < 5
            invariant
                i <= 5,
                out@.len() == 20,
                self.h@.len() == 5,
                forall|j: int| 0 <= j < 4 * i ==> out@[j] == word_byte(self.h@[j / 4], j % 4),
            decreases 5 - i,
        {
            let h = self.h[i];
            out[4 * i] = (h >> 24u32) as u8;
            out[4 * i + 1] = (h >> 16u32) as u8;
            out[4 * i + 2] = (h >> 8u32) as u8;
            out[4 * i + 3] = h as u8;
            i = i + 1;
        }
        assert(out@ =~= digest_bytes(self.h@));
        out
    }
}

fn be64_exec(x: u64) -> (out: [u8; 8])
    ensures
        out@ == be64(x),
{
    let mut out = [0u8; 8];
    let mut j: usize = 0;
    while j < 8
        invariant
            j <= 8,
            out@.len() == 8,
            forall|i: int| 0 <= i < j ==> out@[i] == (x >> ((56 - 8 * i) as u64)) as u8,
        decreases 8 - j,
    {
        let sh: u64 = 56 - 8 * (j as u64);
        out[j] = (x >> sh) as u8;
        j = j + 1;
    }
    assert(out@ =~= be64(x));
    out
}

/// Computes the SHA-1 digest of `msg`.
pub fn sha1(msg: &[u8]) -> (out: [u8; 20])
    requires
        msg@.len() < 0x2000_0000_0000_0000,
    ensures
        out@ == sha1_spec(msg@),
{
    let mut st = Sha1::new();
    let n = msg.len();
    let mut i: usize = 0;
    while n - i >= 64
        invariant
            n == msg@.len(),
            i <= n,
            i % 64 == 0,
            st.state().len() == 5,
            st.state() == hash_blocks(initial_state(), msg@.take(i as int)),
        decreases n - i,
    {
        let mut chunk = [0u8; 64];
        let mut j: usize = 0;
        while j < 64
            invariant
                j <= 64,
                i + 64 <= n,
                n == msg@.len(),
                chunk@.len() == 64,
                forall|k: int| 0 <= k < j ==> chunk@[k] == msg@[i + k],
            decreases 64 - j,
        {
            chunk[j] = msg[i + j];
            j = j + 1;
        }
        let ghost before = st.state();
        st.update_chunk(&chunk);
        proof {
            assert(chunk@ =~= msg@.subrange(i as int, i + 64));
            assert(msg@.take(i + 64) =~= msg@.take(i as int) + chunk@);
            lemma_hash_blocks_concat(initial_state(), msg@.take(i as int), chunk@);
            lemma_hash_one_block(before, chunk@);
        }
        i = i + 64;
    }
    let k = n - i;
    let mut chunk = [0u8; 64];
    let mut j: usize = 0;
    while j < k
        invariant
            j <= k,
            k < 64,
            i + k == n,
            n == msg@.len(),
            chunk@.len() == 64,
            forall|m: int| 0 <= m < j ==> chunk@[m] == msg@[i + m],
            forall|m: int| j <= m < 64 ==> chunk@[m] == 0,
        decreases k - j,
    {
        chunk[j] = msg[i + j];
        j = j + 1;
    }
    chunk[k] = 0x80;
    let ghost tail = msg@.skip(i as int);
    let ghost full = msg@.take(i as int);
    let ghost g = st.state();
    let len_bits: u64 = (n as u64) * 8;
    let lb = be64_exec(len_bits);
    let ghost pad_tail = tail + seq![0x80u8] + Seq::new(zero_pad_len(n as nat), |m: int| 0u8) + be64(len_bits);
    proof {
        assert(msg@ =~= full + tail);
        assert(padded(msg@) =~= full + pad_tail);
        lemma_hash_blocks_concat(initial_state(), full, pad_tail);
    }
    if k >= 56 {
        proof {
            assert(zero_pad_len(n as nat) == 119 - k);
            assert(pad_tail.len() == 128);
            assert(chunk@ =~= pad_tail.take(64));
            assert(pad_tail =~= pad_tail.take(64) + pad_tail.skip(64));
            lemma_hash_blocks_concat(g, pad_tail.take(64), pad_tail.skip(64));
            lemma_hash_one_block(g, pad_tail.take(64));
        }
        st.update_chunk(&chunk);
        let ghost g2 = st.state();
        let mut m: usize = 0;
        while m < 64
            invariant
                m <= 64,
                chunk@.len() == 64,
                forall|q: int| 0 <= q < m ==> chunk@[q] == 0,
            decreases 64 - m,
        {
            chunk[m] = 0;
            m = m + 1;
        }
        let mut m: usize = 0;
        while m < 8
            invariant
                m <= 8,
                chunk@.len() == 64,
                lb@.len() == 8,
                forall|q: int| 0 <= q < 56 ==> chunk@[q] == 0,
                forall|q: int| 56 <= q < 56 + m ==> chunk@[q] == lb@[q - 56],
            decreases 8 - m,
        {
            chunk[56 + m] = lb[m];
            m = m + 1;
        }
        proof {
            assert(chunk@ =~= pad_tail.skip(64));
            lemma_hash_one_block(g2, chunk@);
        }
        st.update_chunk(&chunk);
    } else {
        let mut m: usize = 0;
        while m < 8
            invariant
                m <= 8,
                k < 56,
                chunk@.len() == 64,
                lb@.len() == 8,
                forall|q: int| 0 <= q < k ==> chunk@[q] == msg@[i + q],
                chunk@[k as int] == 0x80,
                forall|q: int| k < q < 56 ==> chunk@[q] == 0,
                forall|q: int| 56 <= q < 56 + m ==> chunk@[q] == lb@[q - 56],
            decreases 8 - m,
        {
            chunk[56 + m] = lb[m];
            m = m + 1;
        }
        proof {
            assert(zero_pad_len(n as nat) == 55 - k);
            assert(chunk@ =~= pad_tail);
            lemma_hash_one_block(g, chunk@);
        }
        st.update_chunk(&chunk);
    }
    st.result()
}

/// The SHA-1 digest of `msg` in lower-case hexadecimal.
pub fn sha1_hex(msg: &[u8]) -> (s: String)
    requires
        msg@.len() < 0x2000_0000_0000_0000,
    ensures
        s@ == ascii_chars(hex_lower(sha1_spec(msg@))),
{
    let digest = sha1(msg);
    let mut out: Vec<u8> = Vec::new();
    push_hex_lower(&mut out, &digest);
    proof {
        lemma_hex_lower_ascii(digest@);
    }
    ascii_string(out)
}

} // verus!
