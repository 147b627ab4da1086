//! The mathematical model of the wire format.
//!
//! Everything the encoder writes and the decoder reads is specified
//! here as functions on integer values and byte sequences: big-endian
//! fixed-width integers, the unary-prefixed variable-length size
//! encoding, and the size-framed byte-blob and UTF-8 string forms.

use vstd::prelude::*;
use vstd::arithmetic::div_mod::lemma_basic_div;
use vstd::arithmetic::div_mod::lemma_div_denominator;
use vstd::arithmetic::div_mod::lemma_div_is_ordered;
use vstd::arithmetic::div_mod::lemma_div_pos_is_pos;
use vstd::arithmetic::div_mod::lemma_mod_breakdown;
use vstd::arithmetic::div_mod::lemma_small_mod;
use vstd::arithmetic::power2::lemma2_to64;
use vstd::arithmetic::power2::lemma_pow2_adds;
use vstd::arithmetic::power2::pow2;
use vstd::utf8::decode_utf8;
use vstd::utf8::encode_utf8;
use vstd::utf8::valid_utf8;

use crate::error::Error;

verus! {

/// 256 raised to the `k`-th power: the number of values a `k`-byte
/// big-endian field can hold.
pub open spec fn p256(k: int) -> int
    decreases k,
{
    if k <= 0 {
        1
    } else {
        256 * p256(k - 1)
    }
}

/// The low `w` bytes of `v`, most significant first.
pub open spec fn be_bytes(v: int, w: int) -> Seq<u8>
    decreases w,
{
    if w <= 0 {
        Seq::empty()
    } else {
        be_bytes(v / 256, w - 1).push((v % 256) as u8)
    }
}

/// The value of a byte sequence read as a big-endian integer.
pub open spec fn be_val(s: Seq<u8>) -> int
    decreases s.len(),
{
    if s.len() == 0 {
        0
    } else {
        be_val(s.drop_last()) * 256 + s.last()
    }
}

/// How many bytes the size codec spends on the value `n`.
///
/// One byte holds 7 value bits; each of the 2..=8 byte forms holds 7
/// value bits per byte in total; the 9 byte form holds the full 64.
pub open spec fn size_len(n: u64) -> int {
    if n < 0x80 {
        1
    } else if n < 0x4000 {
        2
    } else if n < 0x200000 {
        3
    } else if n < 0x10000000 {
        4
    } else if n < 0x800000000 {
        5
    } else if n < 0x40000000000 {
        6
    } else if n < 0x2000000000000 {
        7
    } else if n < 0x100000000000000 {
        8
    } else {
        9
    }
}

/// The unary prefix placed on the first byte of a size encoding:
/// exactly `k` leading one bits.
pub open spec fn size_mask(k: int) -> u8 {
    if k <= 0 {
        0x00
    } else if k == 1 {
        0x80
    } else if k == 2 {
        0xC0
    } else if k == 3 {
        0xE0
    } else if k == 4 {
        0xF0
    } else if k == 5 {
        0xF8
    } else if k == 6 {
        0xFC
    } else if k == 7 {
        0xFE
    } else {
        0xFF
    }
}

/// The number of leading one bits in a byte, which on the decoding
/// side tells how many extension bytes follow the first size byte.
pub open spec fn lead_ones(h: u8) -> int {
    if h < 0x80 {
        0
    } else if h < 0xC0 {
        1
    } else if h < 0xE0 {
        2
    } else if h < 0xF0 {
        3
    } else if h < 0xF8 {
        4
    } else if h < 0xFC {
        5
    } else if h < 0xFE {
        6
    } else if h < 0xFF {
        7
    } else {
        8
    }
}

/// The encoded form of the size value `n`: a first byte carrying the
/// unary length prefix plus the high value bits, then the low bytes of
/// `n` big-endian.
pub open spec fn size_enc(n: u64) -> Seq<u8> {
    let t = size_len(n);
    if t == 1 {
        seq![n as u8]
    } else {
        seq![(size_mask(t - 1) + n as int / p256(t - 1)) as u8] + be_bytes(n as int, t - 1)
    }
}

/// The decoded size value and the index just past its encoding, read
/// from `src` at index `i`; an error when the bytes run out.
pub open spec fn dec_size(src: Seq<u8>, i: int) -> Result<(u64, int), Error> {
    if i < 0 || i >= src.len() {
        Err(Error::ReadingOutOfBounds)
    } else {
        let h = src[i];
        if h < 0x80 {
            Ok((h as u64, i + 1))
        } else {
            let k = lead_ones(h);
            if i + 1 + k <= src.len() {
                Ok(
                    (
                        ((h - size_mask(k)) * p256(k) + be_val(src.subrange(i + 1, i + 1 + k))) as u64,
                        i + 1 + k,
                    ),
                )
            } else {
                Err(Error::ReadingOutOfBounds)
            }
        }
    }
}

/// The encoded form of a byte blob: size prefix, then the raw bytes.
pub open spec fn blob_enc(b: Seq<u8>) -> Seq<u8> {
    size_enc(b.len() as u64) + b
}

/// The encoded form of a string: its UTF-8 bytes as a blob.
pub open spec fn str_enc(s: Seq<char>) -> Seq<u8> {
    blob_enc(encode_utf8(s))
}

/// The decoded byte blob and the index just past it.
pub open spec fn dec_blob(src: Seq<u8>, i: int) -> Result<(Seq<u8>, int), Error> {
    match dec_size(src, i) {
        Ok((n, j)) => if j + n <= src.len() {
            Ok((src.subrange(j, j + n as int), j + n as int))
        } else {
            Err(Error::ReadingOutOfBounds)
        },
        Err(e) => Err(e),
    }
}

/// The decoded string (as a character sequence) and the index just
/// past it; `Utf8Encoding` when the framed bytes are not valid UTF-8.
pub open spec fn dec_str(src: Seq<u8>, i: int) -> Result<(Seq<char>, int), Error> {
    match dec_blob(src, i) {
        Ok((b, j)) => if valid_utf8(b) {
            Ok((decode_utf8(b), j))
        } else {
            Err(Error::Utf8Encoding)
        },
        Err(e) => Err(e),
    }
}

/// Masking the low byte of a 64-bit value is reduction modulo 256.
pub proof fn lemma_u64_mask_byte(x: u64)
    ensures
        x & 0xFF < 256,
        (x & 0xFF) as int == x as int % 256,
{
    assert(x & 0xFF < 256) by (bit_vector);
    assert(x & 0xFF == x % 256) by (bit_vector);
}

pub proof fn lemma_p256_pos(k: int)
    ensures
        p256(k) >= 1,
    decreases k,
{
    if k > 0 {
        lemma_p256_pos(k - 1);
    }
}

/// The concrete values of `p256` on the byte counts that occur on the
/// wire.
pub proof fn lemma_p256_vals()
    ensures
        p256(0) == 1,
        p256(1) == 0x100,
        p256(2) == 0x10000,
        p256(3) == 0x1000000,
        p256(4) == 0x100000000,
        p256(5) == 0x10000000000,
        p256(6) == 0x1000000000000,
        p256(7) == 0x100000000000000,
        p256(8) == 0x10000000000000000,
{
    assert(p256(0) == 1);
    assert(p256(1) == 256 * p256(0));
    assert(p256(2) == 256 * p256(1));
    assert(p256(3) == 256 * p256(2));
    assert(p256(4) == 256 * p256(3));
    assert(p256(5) == 256 * p256(4));
    assert(p256(6) == 256 * p256(5));
    assert(p256(7) == 256 * p256(6));
    assert(p256(8) == 256 * p256(7));
}

/// `p256` agrees with `pow2` on whole bytes.
pub proof fn lemma_pow2_p256(k: int)
    requires
        0 <= k,
    ensures
        pow2((8 * k) as nat) == p256(k),
    decreases k,
{
    if k == 0 {
        lemma2_to64();
    } else {
        lemma_pow2_p256(k - 1);
        lemma_pow2_adds((8 * (k - 1)) as nat, 8);
        lemma2_to64();
    }
}

pub proof fn lemma_be_bytes_len(v: int, w: int)
    requires
        0 <= w,
    ensures
        be_bytes(v, w).len() == w,
    decreases w,
{
    if w > 0 {
        lemma_be_bytes_len(v / 256, w - 1);
    }
}

/// Byte `j` of the `w`-byte big-endian form of `v`.
pub proof fn lemma_be_bytes_index(v: int, w: int, j: int)
    requires
        0 <= v,
        0 <= j < w,
    ensures
        be_bytes(v, w).len() == w,
        be_bytes(v, w)[j] == ((v / p256(w - 1 - j)) % 256) as u8,
    decreases w,
{
    lemma_be_bytes_len(v, w);
    lemma_be_bytes_len(v / 256, w - 1);
    if j == w - 1 {
        assert(p256(0) == 1);
        assert(be_bytes(v, w)[j] == (v % 256) as u8);
    } else {
        lemma_be_bytes_index(v / 256, w - 1, j);
        lemma_p256_pos(w - 2 - j);
        lemma_div_denominator(v, 256, p256(w - 2 - j));
        assert(256 * p256(w - 2 - j) == p256(w - 1 - j));
    }
}

/// Reading back the low `w` bytes of `v` yields `v` modulo `p256(w)`.
pub proof fn lemma_be_val_be_bytes(v: int, w: int)
    requires
        0 <= v,
        0 <= w,
    ensures
        be_val(be_bytes(v, w)) == v % p256(w),
    decreases w,
{
    if w == 0 {
        assert(v % 1 == 0);
    } else {
        let rest = be_bytes(v / 256, w - 1);
        lemma_be_bytes_len(v / 256, w - 1);
        assert(rest.push((v % 256) as u8).drop_last() =~= rest);
        lemma_be_val_be_bytes(v / 256, w - 1);
        lemma_p256_pos(w - 1);
        lemma_mod_breakdown(v, 256, p256(w - 1));
    }
}

pub proof fn lemma_be_val_bounds(s: Seq<u8>)
    ensures
        0 <= be_val(s),
        be_val(s) < p256(s.len() as int),
    decreases s.len(),
{
    if s.len() > 0 {
        lemma_be_val_bounds(s.drop_last());
    }
}

/// Round trip of the fixed-width big-endian form: any value that fits
/// in `w` bytes is read back exactly.
pub proof fn lemma_be_round_trip(v: int, w: int)
    requires
        0 <= w,
        0 <= v < p256(w),
    ensures
        be_val(be_bytes(v, w)) == v,
{
    lemma_be_val_be_bytes(v, w);
    lemma_p256_pos(w);
    lemma_small_mod(v as nat, p256(w) as nat);
}

/// The size encoding spends exactly `size_len(n)` bytes.
pub proof fn lemma_size_enc_len(n: u64)
    ensures
        size_enc(n).len() == size_len(n),
{
    if size_len(n) > 1 {
        lemma_be_bytes_len(n as int, size_len(n) - 1);
    }
}

/// The first byte of a multi-byte size encoding fits in a byte and
/// sits in the range that announces exactly `size_len(n) - 1`
/// extension bytes.
pub proof fn lemma_size_hi(n: u64)
    requires
        0x80 <= n,
    ensures
        ({
            let k = size_len(n) - 1;
            let q = n as int / p256(k);
            &&& 0 <= q
            &&& size_mask(k) as int + q < 256
            &&& lead_ones((size_mask(k) as int + q) as u8) == k
        }),
{
    lemma_p256_vals();
    let t = size_len(n);
    let k = t - 1;
    let q = n as int / p256(k);
    lemma_div_pos_is_pos(n as int, p256(k));
    if t == 2 {
        lemma_div_is_ordered(n as int, 0x3FFF, 0x100);
        assert(0x3FFF as int / 0x100 == 0x3F);
    } else if t == 3 {
        lemma_div_is_ordered(n as int, 0x1FFFFF, 0x10000);
        assert(0x1FFFFF as int / 0x10000 == 0x1F);
    } else if t == 4 {
        lemma_div_is_ordered(n as int, 0xFFFFFFF, 0x1000000);
        assert(0xFFFFFFF as int / 0x1000000 == 0xF);
    } else if t == 5 {
        lemma_div_is_ordered(n as int, 0x7FFFFFFFF, 0x100000000);
        assert(0x7FFFFFFFF as int / 0x100000000 == 0x7);
    } else if t == 6 {
        lemma_div_is_ordered(n as int, 0x3FFFFFFFFFF, 0x10000000000);
        assert(0x3FFFFFFFFFF as int / 0x10000000000 == 0x3);
    } else if t == 7 {
        lemma_div_is_ordered(n as int, 0x1FFFFFFFFFFFF, 0x1000000000000);
        assert(0x1FFFFFFFFFFFF as int / 0x1000000000000 == 0x1);
    } else if t == 8 {
        lemma_div_is_ordered(n as int, 0xFFFFFFFFFFFFFF, 0x100000000000000);
        assert(0xFFFFFFFFFFFFFF as int / 0x100000000000000 == 0x0);
    } else {
        lemma_basic_div(n as int, p256(8));
    }
}

} // verus!
