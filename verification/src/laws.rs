//! The laws of the codec, proved once and for all: every supported
//! value reads back to itself from wherever its encoding stands in a
//! buffer, the boolean packer mirrors itself between the two sides,
//! and framing a blob costs a function of its length alone.

use vstd::prelude::*;

use crate::decode::dec_bool_step;
use crate::decode::DecView;
use crate::encode::enc_bool_step;
use crate::encode::enc_wf;
use crate::encode::lemma_bool_bit_set;
use crate::encode::EncView;
use crate::error::Error;
use crate::wire::be_bytes;
use crate::wire::be_val;
use crate::wire::blob_enc;
use crate::wire::dec_blob;
use crate::wire::dec_size;
use crate::wire::dec_str;
use crate::wire::lead_ones;
use crate::wire::lemma_be_bytes_len;
use crate::wire::lemma_be_round_trip;
use crate::wire::lemma_be_val_be_bytes;
use crate::wire::lemma_p256_pos;
use crate::wire::lemma_p256_vals;
use crate::wire::lemma_size_enc_len;
use crate::wire::lemma_size_hi;
use crate::wire::p256;
use crate::wire::size_enc;
use crate::wire::size_len;
use crate::wire::size_mask;
use crate::wire::str_enc;

use vstd::arithmetic::div_mod::lemma_fundamental_div_mod;
use vstd::arithmetic::mul::lemma_mul_is_commutative;
use vstd::utf8::encode_utf8;
use vstd::utf8::encode_utf8_decode_utf8;
use vstd::utf8::encode_utf8_valid_utf8;

verus! {

/// Round trip of the size codec: the encoding of `n`, read back from
/// wherever it stands in a buffer, yields `n` again and stops exactly
/// past its `size_len(n)` bytes.
pub proof fn lemma_size_round_trip(n: u64, src: Seq<u8>, i: int)
    requires
        0 <= i,
        i + size_len(n) <= src.len(),
        src.subrange(i, i + size_len(n)) == size_enc(n),
    ensures
        dec_size(src, i) == Ok::<(u64, int), Error>((n, i + size_len(n))),
{
    lemma_p256_vals();
    lemma_size_enc_len(n);
    let t = size_len(n);
    let enc = size_enc(n);
    assert(src.subrange(i, i + t)[0] == src[i]);
    if t == 1 {
        assert(src[i] == n as u8);
    } else {
        lemma_size_hi(n);
        let k = t - 1;
        let q = n as int / p256(k);
        let h = src[i];
        assert(h == enc[0]);
        assert(h as int == size_mask(k) as int + q);
        assert(h >= 0x80);
        assert(lead_ones(h) == k);
        lemma_be_bytes_len(n as int, k);
        assert(src.subrange(i + 1, i + 1 + k) =~= be_bytes(n as int, k)) by {
            assert forall|x: int| 0 <= x < k implies src.subrange(i + 1, i + 1 + k)[x] == be_bytes(
                n as int,
                k,
            )[x] by {
                assert(src.subrange(i, i + t)[x + 1] == src[i + 1 + x]);
                assert(enc[x + 1] == be_bytes(n as int, k)[x]);
            }
        }
        lemma_be_val_be_bytes(n as int, k);
        lemma_p256_pos(k);
        lemma_fundamental_div_mod(n as int, p256(k));
        lemma_mul_is_commutative(q, p256(k));
        assert((h - size_mask(k)) * p256(k) + be_val(src.subrange(i + 1, i + 1 + k)) == n);
    }
}

/// Idempotence of framing: a byte blob of length `L` always costs
/// `size_len(L) + L` bytes on the wire, whatever its bytes hold.
pub proof fn lemma_blob_enc_len(b: Seq<u8>)
    requires
        b.len() <= u64::MAX,
    ensures
        blob_enc(b).len() == size_len(b.len() as u64) + b.len(),
{
    lemma_size_enc_len(b.len() as u64);
}

/// Round trip of a byte blob: the framed form of `b`, read back from
/// wherever it stands in a buffer, yields `b` again and stops exactly
/// past it.
pub proof fn lemma_blob_round_trip(b: Seq<u8>, src: Seq<u8>, i: int)
    requires
        0 <= i,
        b.len() <= u64::MAX,
        i + blob_enc(b).len() <= src.len(),
        src.subrange(i, i + blob_enc(b).len()) == blob_enc(b),
    ensures
        dec_blob(src, i) == Ok::<(Seq<u8>, int), Error>((b, i + blob_enc(b).len())),
{
    let n = b.len() as u64;
    lemma_size_enc_len(n);
    let t = size_len(n);
    let enc = blob_enc(b);
    assert(enc.len() == t + b.len());
    assert(src.subrange(i, i + t) =~= size_enc(n)) by {
        assert forall|x: int| 0 <= x < t implies src.subrange(i, i + t)[x] == size_enc(n)[x] by {
            assert(src.subrange(i, i + enc.len())[x] == src[i + x]);
            assert(enc[x] == size_enc(n)[x]);
        }
    }
    lemma_size_round_trip(n, src, i);
    assert(src.subrange(i + t, i + t + b.len()) =~= b) by {
        assert forall|x: int| 0 <= x < b.len() implies src.subrange(i + t, i + t + b.len())[x]
            == b[x] by {
            assert(src.subrange(i, i + enc.len())[t + x] == src[i + t + x]);
            assert(enc[t + x] == b[x]);
        }
    }
}

/// Round trip of a string: the framed UTF-8 form of `s`, read back
/// from wherever it stands in a buffer, yields `s` again and stops
/// exactly past it.
pub proof fn lemma_str_round_trip(s: Seq<char>, src: Seq<u8>, i: int)
    requires
        0 <= i,
        encode_utf8(s).len() <= u64::MAX,
        i + str_enc(s).len() <= src.len(),
        src.subrange(i, i + str_enc(s).len()) == str_enc(s),
    ensures
        dec_str(src, i) == Ok::<(Seq<char>, int), Error>((s, i + str_enc(s).len())),
{
    encode_utf8_valid_utf8(s);
    encode_utf8_decode_utf8(s);
    lemma_blob_round_trip(encode_utf8(s), src, i);
}

/// Round trip of fixed-width big-endian fields: any value that fits in
/// `w` bytes is read back exactly from where its bytes stand.
pub proof fn lemma_be_round_trip_at(v: int, w: int, src: Seq<u8>, i: int)
    requires
        0 <= w,
        0 <= v < p256(w),
        0 <= i,
        i + w <= src.len(),
        src.subrange(i, i + w) == be_bytes(v, w),
    ensures
        be_val(src.subrange(i, i + w)) == v,
{
    lemma_be_round_trip(v, w);
}

/// Round trip of an unsigned 16-bit integer through its wire form.
pub proof fn lemma_uint16_round_trip(v: u16)
    ensures
        be_val(be_bytes(v as int, 2)) == v as int,
{
    lemma_p256_vals();
    lemma_be_round_trip(v as int, 2);
}

/// Round trip of an unsigned 32-bit integer through its wire form.
pub proof fn lemma_uint32_round_trip(v: u32)
    ensures
        be_val(be_bytes(v as int, 4)) == v as int,
{
    lemma_p256_vals();
    lemma_be_round_trip(v as int, 4);
}

/// Round trip of an unsigned 64-bit integer through its wire form.
pub proof fn lemma_uint64_round_trip(v: u64)
    ensures
        be_val(be_bytes(v as int, 8)) == v as int,
{
    lemma_p256_vals();
    lemma_be_round_trip(v as int, 8);
}

/// Round trip of a signed 8-bit integer: its two's-complement byte
/// reinterprets to the value itself, the extremes included.
pub proof fn lemma_int8_round_trip(v: i8)
    ensures
        (v as u8) as i8 == v,
{
    assert((v as u8) as i8 == v) by (bit_vector);
}

/// Round trip of a signed 16-bit integer: its two's-complement wire
/// form reads back and reinterprets to the value itself, the extremes
/// included.
pub proof fn lemma_int16_round_trip(v: i16)
    ensures
        be_val(be_bytes(v as u16 as int, 2)) as u16 as i16 == v,
{
    lemma_p256_vals();
    let u = v as u16;
    lemma_be_round_trip(u as int, 2);
    assert((u as int) as u16 == u);
    assert((v as u16) as i16 == v) by (bit_vector);
}

/// Round trip of a signed 32-bit integer: its two's-complement wire
/// form reads back and reinterprets to the value itself, the extremes
/// included.
pub proof fn lemma_int32_round_trip(v: i32)
    ensures
        be_val(be_bytes(v as u32 as int, 4)) as u32 as i32 == v,
{
    lemma_p256_vals();
    let u = v as u32;
    lemma_be_round_trip(u as int, 4);
    assert((u as int) as u32 == u);
    assert((v as u32) as i32 == v) by (bit_vector);
}

/// Round trip of a signed 64-bit integer: its two's-complement wire
/// form reads back and reinterprets to the value itself, the extremes
/// included.
pub proof fn lemma_int64_round_trip(v: i64)
    ensures
        be_val(be_bytes(v as u64 as int, 8)) as u64 as i64 == v,
{
    lemma_p256_vals();
    let u = v as u64;
    lemma_be_round_trip(u as int, 8);
    assert((u as int) as u64 == u);
    assert((v as u64) as i64 == v) by (bit_vector);
}

/// Round trip through the boolean packer: whenever the decoder's
/// packing cursor mirrors the encoder's and it has consumed exactly
/// the bytes written so far, a boolean write followed by the matching
/// read yields the written value and leaves the two cursors mirrored
/// again.
pub proof fn lemma_bool_round_trip(est: EncView, val: bool)
    ensures
        enc_wf(est) ==> ({
            let est2 = enc_bool_step(est, val);
            let dst = DecView { src: est2.data, index: est.data.len() as int, bools: est.bools };
            dec_bool_step(dst) matches Ok((v, dst2)) && v == val && dst2.index
                == est2.data.len() as int && dst2.bools == est2.bools
        }),
{
    if enc_wf(est) {
        let bit: u8 = if val { 1u8 } else { 0u8 };
        let (p, s) = est.bools;
        if p != usize::MAX as int && p == est.data.len() && s < 7 {
            lemma_bool_bit_set(est.data[p - 1], bit, (s + 1) as u8);
        } else {
            assert((1u8 & 1u8 == 1) == true) by (bit_vector);
            assert((0u8 & 1u8 == 1) == false) by (bit_vector);
        }
    }
}

/// The encoder state after a run of consecutive boolean writes.
pub open spec fn enc_bools_run(st: EncView, vals: Seq<bool>) -> EncView
    decreases vals.len(),
{
    if vals.len() == 0 {
        st
    } else {
        enc_bools_run(enc_bool_step(st, vals.first()), vals.drop_first())
    }
}

/// A run that continues an open byte stays within it: the buffer does
/// not grow and the cursor advances one bit per boolean.
proof fn lemma_bool_run_continue(st: EncView, vals: Seq<bool>)
    requires
        st.bools.0 != usize::MAX as int,
        1 <= st.bools.0 == st.data.len(),
        0 <= st.bools.1,
        st.bools.1 + vals.len() <= 7,
    ensures
        enc_bools_run(st, vals).data.len() == st.data.len(),
        enc_bools_run(st, vals).bools == (st.bools.0, st.bools.1 + vals.len() as int),
    decreases vals.len(),
{
    if vals.len() > 0 {
        lemma_bool_run_continue(enc_bool_step(st, vals.first()), vals.drop_first());
    }
}

/// Boolean packing: a run of one to eight consecutive boolean writes
/// whose first write starts a fresh byte costs exactly one byte, the
/// writes sharing it bit by bit.
pub proof fn lemma_bool_packing(st: EncView, vals: Seq<bool>)
    requires
        1 <= vals.len() <= 8,
        st.data.len() + 2 <= usize::MAX,
        !(st.bools.0 != usize::MAX as int && st.bools.0 == st.data.len() && st.bools.1 < 7),
    ensures
        enc_bools_run(st, vals).data.len() == st.data.len() + 1,
{
    let st1 = enc_bool_step(st, vals.first());
    lemma_bool_run_continue(st1, vals.drop_first());
}

} // verus!
