//! The encoding side: an [`Encoder`] that owns a growable byte buffer
//! and the encode half of the boolean packer, plus the [`BitEncode`]
//! capability contract implemented by every supported type.

use vstd::prelude::*;

use crate::wire::be_bytes;
use crate::wire::blob_enc;
use crate::wire::lemma_be_bytes_index;
use crate::wire::lemma_be_bytes_len;
use crate::wire::lemma_pow2_p256;
use crate::wire::lemma_size_hi;
use crate::wire::lemma_u64_mask_byte;
use crate::wire::p256;
use crate::wire::size_enc;
use crate::wire::size_len;
use crate::wire::size_mask;
use crate::wire::str_enc;

use vstd::arithmetic::power2::lemma2_to64;
use vstd::arithmetic::power2::pow2;
use vstd::bits::lemma_u64_shr_is_div;

verus! {

/// The abstract state of an [`Encoder`]: the bytes written so far and
/// the boolean-packer cursor `(position, last bit)`.
///
/// The cursor position is the buffer length right after the last byte
/// opened by a boolean write; further boolean writes extend that byte
/// only while the buffer still ends there. The position `usize::MAX`
/// is the sentinel meaning no boolean byte is open.
pub ghost struct EncView {
    pub data: Seq<u8>,
    pub bools: (int, int),
}

/// Well-formedness of an encoder state: the boolean cursor position is
/// the sentinel or lies within the buffer, the bit index is one of the
/// eight bits of a byte, and while the open byte is still extendable
/// its bits above the cursor are zero.
pub open spec fn enc_wf(st: EncView) -> bool {
    &&& st.bools.0 == usize::MAX as int || 1 <= st.bools.0 <= st.data.len()
    &&& 0 <= st.bools.1 <= 7
    &&& (st.bools.0 != usize::MAX as int && st.bools.0 == st.data.len()) ==> (st.data[st.bools.0
        - 1] as int) < pow2((st.bools.1 + 1) as nat)
}

/// The state after a boolean write that opens a fresh byte.
pub open spec fn enc_bool_open(st: EncView, val: bool) -> EncView {
    EncView {
        data: st.data.push(if val { 1u8 } else { 0u8 }),
        bools: (st.data.len() as int + 1, 0),
    }
}

/// The state after a boolean write: either the open byte gains one
/// more bit, or a fresh byte starts.
pub open spec fn enc_bool_step(st: EncView, val: bool) -> EncView {
    let bit: u8 = if val { 1u8 } else { 0u8 };
    let (p, s) = st.bools;
    if p != usize::MAX as int && p == st.data.len() && s < 7 {
        EncView {
            data: st.data.update(p - 1, st.data[p - 1] | (bit << ((s + 1) as u8))),
            bools: (p, s + 1),
        }
    } else {
        enc_bool_open(st, val)
    }
}

/// Encoder takes in typed data and produces a binary buffer
/// represented as `Vec<u8>`.
pub struct Encoder {
    data: Vec<u8>,
    bool_index: usize,
    bool_shift: u8,
}

impl View for Encoder {
    type V = EncView;

    closed spec fn view(&self) -> EncView {
        EncView { data: self.data@, bools: (self.bool_index as int, self.bool_shift as int) }
    }
}

impl Encoder {
    /// Create a new instance of the `Encoder`.
    pub fn new() -> (e: Encoder)
        ensures
            e@.data == Seq::<u8>::empty(),
            e@.bools == (usize::MAX as int, 0int),
            enc_wf(e@),
    {
        Encoder { data: Vec::new(), bool_index: usize::MAX, bool_shift: 0 }
    }

    /// Create a new instance of the `Encoder` with a preallocated
    /// buffer capacity. The capacity only pre-sizes the allocation; it
    /// never affects what is written.
    pub fn with_capacity(capacity: usize) -> (e: Encoder)
        ensures
            e@.data == Seq::<u8>::empty(),
            e@.bools == (usize::MAX as int, 0int),
            enc_wf(e@),
    {
        Encoder { data: Vec::with_capacity(capacity), bool_index: usize::MAX, bool_shift: 0 }
    }

    /// Encode a single value implementing [`BitEncode`] into a fresh
    /// buffer.
    pub fn encode<E: BitEncode>(val: E) -> (r: Vec<u8>)
        ensures
            r@ == val.enc_step(
                EncView { data: Seq::<u8>::empty(), bools: (usize::MAX as int, 0int) },
            ).data,
    {
        let mut e = Encoder::with_capacity(E::size_hint());
        val.encode(&mut e);
        e.end()
    }

    /// Store any type implementing [`BitEncode`] on the buffer.
    pub fn write<E: BitEncode>(&mut self, val: E)
        requires
            enc_wf(old(self)@),
        ensures
            enc_wf(final(self)@),
            final(self)@ == val.enc_step(old(self)@),
    {
        val.encode(self);
    }

    /// Store a `u8` on the buffer.
    pub fn uint8(&mut self, val: u8)
        requires
            enc_wf(old(self)@),
        ensures
            enc_wf(final(self)@),
            final(self)@.data == old(self)@.data.push(val),
            final(self)@.bools == old(self)@.bools,
    {
        self.data.push(val);
    }

    /// Store a `u16` on the buffer, big-endian.
    pub fn uint16(&mut self, val: u16)
        requires
            enc_wf(old(self)@),
        ensures
            enc_wf(final(self)@),
            final(self)@.data == old(self)@.data + be_bytes(val as int, 2),
            final(self)@.bools == old(self)@.bools,
    {
        self.push_be(val as u64, 2);
    }

    /// Store a `u32` on the buffer, big-endian.
    pub fn uint32(&mut self, val: u32)
        requires
            enc_wf(old(self)@),
        ensures
            enc_wf(final(self)@),
            final(self)@.data == old(self)@.data + be_bytes(val as int, 4),
            final(self)@.bools == old(self)@.bools,
    {
        self.push_be(val as u64, 4);
    }

    /// Store a `u64` on the buffer, big-endian.
    pub fn uint64(&mut self, val: u64)
        requires
            enc_wf(old(self)@),
        ensures
            enc_wf(final(self)@),
            final(self)@.data == old(self)@.data + be_bytes(val as int, 8),
            final(self)@.bools == old(self)@.bools,
    {
        self.push_be(val, 8);
    }

    /// Store an `i8` on the buffer as its two's-complement byte.
    pub fn int8(&mut self, val: i8)
        requires
            enc_wf(old(self)@),
        ensures
            enc_wf(final(self)@),
            final(self)@.data == old(self)@.data.push(val as u8),
            final(self)@.bools == old(self)@.bools,
    {
        self.uint8(#[verifier::truncate] (val as u8));
    }

    /// Store an `i16` on the buffer as two's complement, big-endian.
    pub fn int16(&mut self, val: i16)
        requires
            enc_wf(old(self)@),
        ensures
            enc_wf(final(self)@),
            final(self)@.data == old(self)@.data + be_bytes(val as u16 as int, 2),
            final(self)@.bools == old(self)@.bools,
    {
        self.push_be(#[verifier::truncate] (val as u16) as u64, 2);
    }

    /// Store an `i32` on the buffer as two's complement, big-endian.
    pub fn int32(&mut self, val: i32)
        requires
            enc_wf(old(self)@),
        ensures
            enc_wf(final(self)@),
            final(self)@.data == old(self)@.data + be_bytes(val as u32 as int, 4),
            final(self)@.bools == old(self)@.bools,
    {
        self.push_be(#[verifier::truncate] (val as u32) as u64, 4);
    }

    /// Store an `i64` on the buffer as two's complement, big-endian.
    pub fn int64(&mut self, val: i64)
        requires
            enc_wf(old(self)@),
        ensures
            enc_wf(final(self)@),
            final(self)@.data == old(self)@.data + be_bytes(val as u64 as int, 8),
            final(self)@.bools == old(self)@.bools,
    {
        self.push_be(#[verifier::truncate] (val as u64), 8);
    }

    /// Store a `bool` on the buffer. Consecutive boolean writes share
    /// one byte, one bit each, least significant bit first; any other
    /// write in between forces the next boolean onto a fresh byte.
    pub fn bool(&mut self, val: bool)
        requires
            enc_wf(old(self)@),
        ensures
            enc_wf(final(self)@),
            final(self)@ == enc_bool_step(old(self)@, val),
    {
        let bit: u8 = if val { 1 } else { 0 };
        let index = self.data.len();

        if self.bool_index != usize::MAX && self.bool_index == index && self.bool_shift < 7 {
            let shift = self.bool_shift + 1;
            let pos = self.bool_index - 1;
            let cur = self.data[pos];
            proof {
                lemma_bool_bit_set(cur, bit, shift);
            }
            self.data[pos] = cur | (bit << shift);
            self.bool_shift = shift;
        } else {
            proof {
                lemma2_to64();
            }
            self.data.push(bit);
            self.bool_index = self.data.len();
            self.bool_shift = 0;
        }
    }

    /// Store a `usize` on the buffer in the variable-length size
    /// encoding: 1 to 9 bytes, shorter for smaller values.
    pub fn size(&mut self, val: usize)
        requires
            enc_wf(old(self)@),
        ensures
            enc_wf(final(self)@),
            final(self)@.data == old(self)@.data + size_enc(val as u64),
            final(self)@.bools == old(self)@.bools,
    {
        self.size_with_reserve(val, 0);
    }

    /// Store an arbitrary collection of bytes represented as `&[u8]`:
    /// a size prefix holding the byte count, then the raw bytes.
    pub fn bytes(&mut self, val: &[u8])
        requires
            enc_wf(old(self)@),
        ensures
            enc_wf(final(self)@),
            final(self)@.data == old(self)@.data + blob_enc(val@),
            final(self)@.bools == old(self)@.bools,
    {
        self.size_with_reserve(val.len(), 1);

        let ghost mid = self@.data;
        let mut i: usize = 0;
        while i < val.len()
            invariant
                i <= val@.len(),
                enc_wf(self@),
                self@.data == mid + val@.take(i as int),
                self@.bools == old(self)@.bools,
                mid == old(self)@.data + size_enc(val@.len() as u64),
            decreases val@.len() - i,
        {
            proof {
                assert((mid + val@.take(i as int)).push(val@[i as int]) =~= mid + val@.take(i + 1));
            }
            self.data.push(val[i]);
            i = i + 1;
        }
        proof {
            assert(val@.take(val@.len() as int) =~= val@);
        }
    }

    /// Store an arbitrary UTF-8 Rust string on the buffer: a size
    /// prefix holding the UTF-8 byte count, then the UTF-8 bytes.
    pub fn string(&mut self, val: &str)
        requires
            enc_wf(old(self)@),
        ensures
            enc_wf(final(self)@),
            final(self)@.data == old(self)@.data + str_enc(val@),
            final(self)@.bools == old(self)@.bools,
    {
        self.bytes(val.as_bytes());
    }

    /// Finish encoding: hand out the accumulated buffer and reset the
    /// encoder so it can be reused for a fresh message.
    pub fn end(&mut self) -> (r: Vec<u8>)
        ensures
            r@ == old(self)@.data,
            final(self)@.data == Seq::<u8>::empty(),
            final(self)@.bools == (usize::MAX as int, 0int),
            enc_wf(final(self)@),
    {
        self.bool_index = usize::MAX;
        self.bool_shift = 0;

        let mut out: Vec<u8> = Vec::new();
        core::mem::swap(&mut self.data, &mut out);
        out
    }

    /// Push the low `w` bytes of `v`, most significant first.
    fn push_be(&mut self, v: u64, w: usize)
        requires
            enc_wf(old(self)@),
            w <= 8,
        ensures
            enc_wf(final(self)@),
            final(self)@.data == old(self)@.data + be_bytes(v as int, w as int),
            final(self)@.bools == old(self)@.bools,
    {
        let mut j: usize = 0;
        while j < w
            invariant
                j <= w <= 8,
                enc_wf(self@),
                self@.data == old(self)@.data + be_bytes(v as int, w as int).take(j as int),
                self@.bools == old(self)@.bools,
            decreases w - j,
        {
            let sh: u64 = (8 * (w - 1 - j)) as u64;
            proof {
                lemma_u64_shr_is_div(v, sh);
                lemma_pow2_p256((w - 1 - j) as int);
                lemma_u64_mask_byte(v >> sh);
                lemma_be_bytes_index(v as int, w as int, j as int);
                let bb = be_bytes(v as int, w as int);
                assert((old(self)@.data + bb.take(j as int)).push(bb[j as int]) =~= old(
                    self,
                )@.data + bb.take(j + 1));
            }
            let b: u8 = ((v >> sh) & 0xFF) as u8;
            self.data.push(b);
            j = j + 1;
        }
        proof {
            lemma_be_bytes_len(v as int, w as int);
            assert(be_bytes(v as int, w as int).take(w as int) =~= be_bytes(v as int, w as int));
        }
    }

    /// Write the size encoding of `size`, reserving room for `size`
    /// further items of `item_size` bytes each when that fits.
    fn size_with_reserve(&mut self, size: usize, item_size: usize)
        requires
            enc_wf(old(self)@),
        ensures
            enc_wf(final(self)@),
            final(self)@.data == old(self)@.data + size_enc(size as u64),
            final(self)@.bools == old(self)@.bools,
    {
        let n = size as u64;
        if n < 0x80 {
            // Encoding a size means payload follows, so reserve room
            // for it up front; the amount is advisory only.
            if let Some(items) = size.checked_mul(item_size) {
                if let Some(total) = items.checked_add(1) {
                    self.data.reserve(total);
                }
            }
            self.data.push(n as u8);
            proof {
                assert(self@.data =~= old(self)@.data + size_enc(n));
            }
            return ;
        }

        let t = size_len_exec(n);
        let k = t - 1;

        proof {
            lemma_size_hi(n);
        }
        let first: u8 = if t == 9 {
            0xFF
        } else {
            let sh: u64 = (8 * k) as u64;
            proof {
                lemma_u64_shr_is_div(n, sh);
                lemma_pow2_p256(k as int);
            }
            size_mask_exec(k) + (n >> sh) as u8
        };
        self.data.push(first);

        let ghost mid = self@.data;
        let mut j: usize = 0;
        while j < k
            invariant
                j <= k,
                k == size_len(n) - 1,
                1 <= k <= 8,
                n >= 0x80,
                enc_wf(self@),
                self@.data == mid + be_bytes(n as int, k as int).take(j as int),
                self@.bools == old(self)@.bools,
                mid == old(self)@.data.push(
                    ((size_mask(k as int) + n as int / p256(k as int)) as u8),
                ),
            decreases k - j,
        {
            let sh: u64 = (8 * (k - 1 - j)) as u64;
            proof {
                lemma_u64_shr_is_div(n, sh);
                lemma_pow2_p256((k - 1 - j) as int);
                lemma_u64_mask_byte(n >> sh);
                lemma_be_bytes_index(n as int, k as int, j as int);
                let bb = be_bytes(n as int, k as int);
                assert((mid + bb.take(j as int)).push(bb[j as int]) =~= mid + bb.take(j + 1));
            }
            let b: u8 = ((n >> sh) & 0xFF) as u8;
            self.data.push(b);
            j = j + 1;
        }
        proof {
            lemma_be_bytes_len(n as int, k as int);
            assert(be_bytes(n as int, k as int).take(k as int) =~= be_bytes(n as int, k as int));
            assert(self@.data =~= old(self)@.data + size_enc(n));
        }
    }
}

/// The number of bytes the size codec spends on `n`, computed by the
/// boundary table.
fn size_len_exec(n: u64) -> (t: usize)
    ensures
        t == size_len(n),
        1 <= t <= 9,
{
    if n < 0x80 {
        1
    } else if n < 0x4000 {
        2
    } else if n < 0x200000 {
        3
    } else if n < 0x10000000 {
        4
    } else if n < 0x800000000 {
        5
    } else if n < 0x40000000000 {
        6
    } else if n < 0x2000000000000 {
        7
    } else if n < 0x100000000000000 {
        8
    } else {
        9
    }
}

/// The unary prefix mask with `k` leading one bits.
fn size_mask_exec(k: usize) -> (m: u8)
    requires
        k <= 8,
    ensures
        m == size_mask(k as int),
{
    if k == 0 {
        0x00
    } else if k == 1 {
        0x80
    } else if k == 2 {
        0xC0
    } else if k == 3 {
        0xE0
    } else if k == 4 {
        0xF0
    } else if k == 5 {
        0xF8
    } else if k == 6 {
        0xFC
    } else if k == 7 {
        0xFE
    } else {
        0xFF
    }
}

/// Setting bit `k` of a byte whose bits from `k` up are clear keeps
/// the bits above `k` clear, and bit `k` afterwards holds exactly the
/// bit that was written.
pub proof fn lemma_bool_bit_set(cur: u8, bit: u8, k: u8)
    requires
        bit <= 1,
        1 <= k <= 7,
        (cur as int) < pow2(k as nat),
    ensures
        ((cur | (bit << k)) as int) < pow2((k + 1) as nat),
        ((cur | (bit << k)) & (1u8 << k) == (1u8 << k)) == (bit == 1),
{
    lemma2_to64();
    vstd::bits::lemma_u8_shl_is_mul(1u8, k);
    assert(((cur | (bit << k)) & (1u8 << k) == (1u8 << k)) == (bit == 1)) by (bit_vector)
        requires
            bit <= 1,
            k <= 7,
            cur < (1u8 << k),
    ;
    if k < 7 {
        assert((cur | (bit << k)) < (1u8 << ((k + 1) as u8))) by (bit_vector)
            requires
                bit <= 1,
                k < 7,
                cur < (1u8 << k),
        ;
        vstd::bits::lemma_u8_shl_is_mul(1u8, (k + 1) as u8);
    }
}

/// The encode half of the capability contract. Every supported type
/// states, as a function on encoder states, what writing it does, and
/// its `encode` is held to exactly that; generic containers and
/// externally generated record code compose these steps in field
/// order.
pub trait BitEncode {
    /// The encoder state after `self` is written onto `pre`.
    spec fn enc_step(self, pre: EncView) -> EncView;

    /// Write `self` onto the encoder.
    fn encode(&self, e: &mut Encoder)
        requires
            enc_wf(old(e)@),
        ensures
            enc_wf(final(e)@),
            final(e)@ == self.enc_step(old(e)@),
    ;

    /// The expected serialized byte length, used only to pre-size the
    /// output buffer; it never affects what is written.
    fn size_hint() -> usize;
}

/// The encoder state after the items of `items` are written one after
/// the other onto `pre`.
pub open spec fn seq_enc_step<E: BitEncode>(items: Seq<E>, pre: EncView) -> EncView
    decreases items.len(),
{
    if items.len() == 0 {
        pre
    } else {
        items.last().enc_step(seq_enc_step(items.drop_last(), pre))
    }
}

/// The encoder state after a homogeneous sequence is written: a size
/// prefix holding the element count, then the elements in order.
pub open spec fn items_enc_step<E: BitEncode>(items: Seq<E>, pre: EncView) -> EncView {
    seq_enc_step(
        items,
        EncView { data: pre.data + size_enc(items.len() as u64), bools: pre.bools },
    )
}

/// Write a size prefix holding the element count, then each element in
/// order through its own capability contract.
fn encode_items<E: BitEncode>(items: &[E], e: &mut Encoder)
    requires
        enc_wf(old(e)@),
    ensures
        enc_wf(final(e)@),
        final(e)@ == items_enc_step(items@, old(e)@),
{
    e.size_with_reserve(items.len(), E::size_hint());

    let ghost mid = e@;
    let mut i: usize = 0;
    while i < items.len()
        invariant
            i <= items@.len(),
            enc_wf(e@),
            e@ == seq_enc_step(items@.take(i as int), mid),
            mid == (EncView {
                data: old(e)@.data + size_enc(items@.len() as u64),
                bools: old(e)@.bools,
            }),
        decreases items@.len() - i,
    {
        proof {
            assert(items@.take(i + 1).drop_last() =~= items@.take(i as int));
            assert(items@.take(i + 1).last() == items@[i as int]);
        }
        let elem = &items[i];
        elem.encode(e);
        i = i + 1;
    }
    proof {
        assert(items@.take(items@.len() as int) =~= items@);
    }
}

/// Saturating sum for size hints: hints only pre-size a buffer, so the
/// top of the range is a fine stand-in when the sum would not fit.
fn hint_sum(a: usize, b: usize) -> usize {
    match a.checked_add(b) {
        Some(c) => c,
        None => usize::MAX,
    }
}

impl BitEncode for i8 {
    open spec fn enc_step(self, pre: EncView) -> EncView {
        EncView { data: pre.data.push(self as u8), bools: pre.bools }
    }

    fn encode(&self, e: &mut Encoder) {
        e.int8(*self);
    }

    fn size_hint() -> usize {
        1
    }
}

impl BitEncode for u16 {
    open spec fn enc_step(self, pre: EncView) -> EncView {
        EncView { data: pre.data + be_bytes(self as int, 2), bools: pre.bools }
    }

    fn encode(&self, e: &mut Encoder) {
        e.uint16(*self);
    }

    fn size_hint() -> usize {
        2
    }
}

impl BitEncode for u32 {
    open spec fn enc_step(self, pre: EncView) -> EncView {
        EncView { data: pre.data + be_bytes(self as int, 4), bools: pre.bools }
    }

    fn encode(&self, e: &mut Encoder) {
        e.uint32(*self);
    }

    fn size_hint() -> usize {
        4
    }
}

impl BitEncode for u64 {
    open spec fn enc_step(self, pre: EncView) -> EncView {
        EncView { data: pre.data + be_bytes(self as int, 8), bools: pre.bools }
    }

    fn encode(&self, e: &mut Encoder) {
        e.uint64(*self);
    }

    fn size_hint() -> usize {
        8
    }
}

impl BitEncode for i16 {
    open spec fn enc_step(self, pre: EncView) -> EncView {
        EncView { data: pre.data + be_bytes(self as u16 as int, 2), bools: pre.bools }
    }

    fn encode(&self, e: &mut Encoder) {
        e.int16(*self);
    }

    fn size_hint() -> usize {
        2
    }
}

impl BitEncode for i32 {
    open spec fn enc_step(self, pre: EncView) -> EncView {
        EncView { data: pre.data + be_bytes(self as u32 as int, 4), bools: pre.bools }
    }

    fn encode(&self, e: &mut Encoder) {
        e.int32(*self);
    }

    fn size_hint() -> usize {
        4
    }
}

impl BitEncode for i64 {
    open spec fn enc_step(self, pre: EncView) -> EncView {
        EncView { data: pre.data + be_bytes(self as u64 as int, 8), bools: pre.bools }
    }

    fn encode(&self, e: &mut Encoder) {
        e.int64(*self);
    }

    fn size_hint() -> usize {
        8
    }
}

impl BitEncode for bool {
    open spec fn enc_step(self, pre: EncView) -> EncView {
        enc_bool_step(pre, self)
    }

    fn encode(&self, e: &mut Encoder) {
        e.bool(*self);
    }

    fn size_hint() -> usize {
        1
    }
}

impl BitEncode for usize {
    open spec fn enc_step(self, pre: EncView) -> EncView {
        EncView { data: pre.data + size_enc(self as u64), bools: pre.bools }
    }

    fn encode(&self, e: &mut Encoder) {
        e.size(*self);
    }

    fn size_hint() -> usize {
        1
    }
}

impl<'a> BitEncode for &'a [u8] {
    open spec fn enc_step(self, pre: EncView) -> EncView {
        EncView { data: pre.data + blob_enc(self@), bools: pre.bools }
    }

    fn encode(&self, e: &mut Encoder) {
        e.bytes(self);
    }

    fn size_hint() -> usize {
        16
    }
}

impl<'a> BitEncode for &'a Vec<u8> {
    open spec fn enc_step(self, pre: EncView) -> EncView {
        EncView { data: pre.data + blob_enc(self@), bools: pre.bools }
    }

    fn encode(&self, e: &mut Encoder) {
        e.bytes(self.as_slice());
    }

    fn size_hint() -> usize {
        16
    }
}

impl<'a> BitEncode for &'a str {
    open spec fn enc_step(self, pre: EncView) -> EncView {
        EncView { data: pre.data + str_enc(self@), bools: pre.bools }
    }

    fn encode(&self, e: &mut Encoder) {
        e.string(self);
    }

    fn size_hint() -> usize {
        16
    }
}

impl BitEncode for String {
    open spec fn enc_step(self, pre: EncView) -> EncView {
        EncView { data: pre.data + str_enc(self@), bools: pre.bools }
    }

    fn encode(&self, e: &mut Encoder) {
        e.string(self.as_str());
    }

    fn size_hint() -> usize {
        16
    }
}

impl<'a, E: BitEncode> BitEncode for &'a [E] {
    open spec fn enc_step(self, pre: EncView) -> EncView {
        items_enc_step(self@, pre)
    }

    fn encode(&self, e: &mut Encoder) {
        encode_items(self, e);
    }

    fn size_hint() -> usize {
        0
    }
}

impl<E: BitEncode> BitEncode for Vec<E> {
    open spec fn enc_step(self, pre: EncView) -> EncView {
        items_enc_step(self@, pre)
    }

    fn encode(&self, e: &mut Encoder) {
        encode_items(self.as_slice(), e);
    }

    fn size_hint() -> usize {
        0
    }
}

impl<'a, T: BitEncode> BitEncode for &'a T {
    open spec fn enc_step(self, pre: EncView) -> EncView {
        (*self).enc_step(pre)
    }

    fn encode(&self, e: &mut Encoder) {
        T::encode(*self, e);
    }

    fn size_hint() -> usize {
        T::size_hint()
    }
}

impl<const N: usize> BitEncode for [u8; N] {
    open spec fn enc_step(self, pre: EncView) -> EncView {
        EncView { data: pre.data + blob_enc(self@), bools: pre.bools }
    }

    fn encode(&self, e: &mut Encoder) {
        e.bytes(self.as_slice());
    }

    fn size_hint() -> usize {
        hint_sum(N, 1)
    }
}

impl<E: BitEncode, const N: usize> BitEncode for [E; N] {
    open spec fn enc_step(self, pre: EncView) -> EncView {
        items_enc_step(self@, pre)
    }

    fn encode(&self, e: &mut Encoder) {
        encode_items(self.as_slice(), e);
    }

    fn size_hint() -> usize {
        let per_item = match N.checked_mul(E::size_hint()) {
            Some(c) => c,
            None => usize::MAX,
        };
        hint_sum(per_item, 1)
    }
}

impl<A: BitEncode, B: BitEncode> BitEncode for (A, B) {
    open spec fn enc_step(self, pre: EncView) -> EncView {
        self.1.enc_step(self.0.enc_step(pre))
    }

    fn encode(&self, e: &mut Encoder) {
        self.0.encode(e);
        self.1.encode(e);
    }

    fn size_hint() -> usize {
        hint_sum(A::size_hint(), B::size_hint())
    }
}

impl<A: BitEncode, B: BitEncode, C: BitEncode> BitEncode for (A, B, C) {
    open spec fn enc_step(self, pre: EncView) -> EncView {
        self.2.enc_step(self.1.enc_step(self.0.enc_step(pre)))
    }

    fn encode(&self, e: &mut Encoder) {
        self.0.encode(e);
        self.1.encode(e);
        self.2.encode(e);
    }

    fn size_hint() -> usize {
        hint_sum(A::size_hint(), hint_sum(B::size_hint(), C::size_hint()))
    }
}

impl<A: BitEncode, B: BitEncode, C: BitEncode, D: BitEncode> BitEncode for (A, B, C, D) {
    open spec fn enc_step(self, pre: EncView) -> EncView {
        self.3.enc_step(self.2.enc_step(self.1.enc_step(self.0.enc_step(pre))))
    }

    fn encode(&self, e: &mut Encoder) {
        self.0.encode(e);
        self.1.encode(e);
        self.2.encode(e);
        self.3.encode(e);
    }

    fn size_hint() -> usize {
        let mut hint: usize = D::size_hint();
        hint = hint_sum(C::size_hint(), hint);
        hint = hint_sum(B::size_hint(), hint);
        hint = hint_sum(A::size_hint(), hint);
        hint
    }
}

impl<
    A: BitEncode,
    B: BitEncode,
    C: BitEncode,
    D: BitEncode,
    E: BitEncode,
> BitEncode for (A, B, C, D, E) {
    open spec fn enc_step(self, pre: EncView) -> EncView {
        let st0 = pre;
        let st1 = self.0.enc_step(st0);
        let st2 = self.1.enc_step(st1);
        let st3 = self.2.enc_step(st2);
        let st4 = self.3.enc_step(st3);
        self.4.enc_step(st4)
    }

    fn encode(&self, e: &mut Encoder) {
        self.0.encode(e);
        self.1.encode(e);
        self.2.encode(e);
        self.3.encode(e);
        self.4.encode(e);
    }

    fn size_hint() -> usize {
        let mut hint: usize = E::size_hint();
        hint = hint_sum(D::size_hint(), hint);
        hint = hint_sum(C::size_hint(), hint);
        hint = hint_sum(B::size_hint(), hint);
        hint = hint_sum(A::size_hint(), hint);
        hint
    }
}

impl<
    A: BitEncode,
    B: BitEncode,
    C: BitEncode,
    D: BitEncode,
    E: BitEncode,
    F: BitEncode,
> BitEncode for (A, B, C, D, E, F) {
    open spec fn enc_step(self, pre: EncView) -> EncView {
        let st0 = pre;
        let st1 = self.0.enc_step(st0);
        let st2 = self.1.enc_step(st1);
        let st3 = self.2.enc_step(st2);
        let st4 = self.3.enc_step(st3);
        let st5 = self.4.enc_step(st4);
        self.5.enc_step(st5)
    }

    fn encode(&self, e: &mut Encoder) {
        self.0.encode(e);
        self.1.encode(e);
        self.2.encode(e);
        self.3.encode(e);
        self.4.encode(e);
        self.5.encode(e);
    }

    fn size_hint() -> usize {
        let mut hint: usize = F::size_hint();
        hint = hint_sum(E::size_hint(), hint);
        hint = hint_sum(D::size_hint(), hint);
        hint = hint_sum(C::size_hint(), hint);
        hint = hint_sum(B::size_hint(), hint);
        hint = hint_sum(A::size_hint(), hint);
        hint
    }
}

impl<
    A: BitEncode,
    B: BitEncode,
    C: BitEncode,
    D: BitEncode,
    E: BitEncode,
    F: BitEncode,
    G: BitEncode,
> BitEncode for (A, B, C, D, E, F, G) {
    open spec fn enc_step(self, pre: EncView) -> EncView {
        let st0 = pre;
        let st1 = self.0.enc_step(st0);
        let st2 = self.1.enc_step(st1);
        let st3 = self.2.enc_step(st2);
        let st4 = self.3.enc_step(st3);
        let st5 = self.4.enc_step(st4);
        let st6 = self.5.enc_step(st5);
        self.6.enc_step(st6)
    }

    fn encode(&self, e: &mut Encoder) {
        self.0.encode(e);
        self.1.encode(e);
        self.2.encode(e);
        self.3.encode(e);
        self.4.encode(e);
        self.5.encode(e);
        self.6.encode(e);
    }

    fn size_hint() -> usize {
        let mut hint: usize = G::size_hint();
        hint = hint_sum(F::size_hint(), hint);
        hint = hint_sum(E::size_hint(), hint);
        hint = hint_sum(D::size_hint(), hint);
        hint = hint_sum(C::size_hint(), hint);
        hint = hint_sum(B::size_hint(), hint);
        hint = hint_sum(A::size_hint(), hint);
        hint
    }
}

impl<
    A: BitEncode,
    B: BitEncode,
    C: BitEncode,
    D: BitEncode,
    E: BitEncode,
    F: BitEncode,
    G: BitEncode,
    H: BitEncode,
> BitEncode for (A, B, C, D, E, F, G, H) {
    open spec fn enc_step(self, pre: EncView) -> EncView {
        let st0 = pre;
        let st1 = self.0.enc_step(st0);
        let st2 = self.1.enc_step(st1);
        let st3 = self.2.enc_step(st2);
        let st4 = self.3.enc_step(st3);
        let st5 = self.4.enc_step(st4);
        let st6 = self.5.enc_step(st5);
        let st7 = self.6.enc_step(st6);
        self.7.enc_step(st7)
    }

    fn encode(&self, e: &mut Encoder) {
        self.0.encode(e);
        self.1.encode(e);
        self.2.encode(e);
        self.3.encode(e);
        self.4.encode(e);
        self.5.encode(e);
        self.6.encode(e);
        self.7.encode(e);
    }

    fn size_hint() -> usize {
        let mut hint: usize = H::size_hint();
        hint = hint_sum(G::size_hint(), hint);
        hint = hint_sum(F::size_hint(), hint);
        hint = hint_sum(E::size_hint(), hint);
        hint = hint_sum(D::size_hint(), hint);
        hint = hint_sum(C::size_hint(), hint);
        hint = hint_sum(B::size_hint(), hint);
        hint = hint_sum(A::size_hint(), hint);
        hint
    }
}

impl<
    A: BitEncode,
    B: BitEncode,
    C: BitEncode,
    D: BitEncode,
    E: BitEncode,
    F: BitEncode,
    G: BitEncode,
    H: BitEncode,
    I: BitEncode,
> BitEncode for (A, B, C, D, E, F, G, H, I) {
    open spec fn enc_step(self, pre: EncView) -> EncView {
        let st0 = pre;
        let st1 = self.0.enc_step(st0);
        let st2 = self.1.enc_step(st1);
        let st3 = self.2.enc_step(st2);
        let st4 = self.3.enc_step(st3);
        let st5 = self.4.enc_step(st4);
        let st6 = self.5.enc_step(st5);
        let st7 = self.6.enc_step(st6);
        let st8 = self.7.enc_step(st7);
        self.8.enc_step(st8)
    }

    fn encode(&self, e: &mut Encoder) {
        self.0.encode(e);
        self.1.encode(e);
        self.2.encode(e);
        self.3.encode(e);
        self.4.encode(e);
        self.5.encode(e);
        self.6.encode(e);
        self.7.encode(e);
        self.8.encode(e);
    }

    fn size_hint() -> usize {
        let mut hint: usize = I::size_hint();
        hint = hint_sum(H::size_hint(), hint);
        hint = hint_sum(G::size_hint(), hint);
        hint = hint_sum(F::size_hint(), hint);
        hint = hint_sum(E::size_hint(), hint);
        hint = hint_sum(D::size_hint(), hint);
        hint = hint_sum(C::size_hint(), hint);
        hint = hint_sum(B::size_hint(), hint);
        hint = hint_sum(A::size_hint(), hint);
        hint
    }
}

impl<
    A: BitEncode,
    B: BitEncode,
    C: BitEncode,
    D: BitEncode,
    E: BitEncode,
    F: BitEncode,
    G: BitEncode,
    H: BitEncode,
    I: BitEncode,
    J: BitEncode,
> BitEncode for (A, B, C, D, E, F, G, H, I, J) {
    open spec fn enc_step(self, pre: EncView) -> EncView {
        let st0 = pre;
        let st1 = self.0.enc_step(st0);
        let st2 = self.1.enc_step(st1);
        let st3 = self.2.enc_step(st2);
        let st4 = self.3.enc_step(st3);
        let st5 = self.4.enc_step(st4);
        let st6 = self.5.enc_step(st5);
        let st7 = self.6.enc_step(st6);
        let st8 = self.7.enc_step(st7);
        let st9 = self.8.enc_step(st8);
        self.9.enc_step(st9)
    }

    fn encode(&self, e: &mut Encoder) {
        self.0.encode(e);
        self.1.encode(e);
        self.2.encode(e);
        self.3.encode(e);
        self.4.encode(e);
        self.5.encode(e);
        self.6.encode(e);
        self.7.encode(e);
        self.8.encode(e);
        self.9.encode(e);
    }

    fn size_hint() -> usize {
        let mut hint: usize = J::size_hint();
        hint = hint_sum(I::size_hint(), hint);
        hint = hint_sum(H::size_hint(), hint);
        hint = hint_sum(G::size_hint(), hint);
        hint = hint_sum(F::size_hint(), hint);
        hint = hint_sum(E::size_hint(), hint);
        hint = hint_sum(D::size_hint(), hint);
        hint = hint_sum(C::size_hint(), hint);
        hint = hint_sum(B::size_hint(), hint);
        hint = hint_sum(A::size_hint(), hint);
        hint
    }
}

} // verus!

