//! The decoding side: a [`Decoder`] that walks a borrowed byte buffer
//! with a cursor and the decode half of the boolean packer, plus the
//! [`BitDecode`] capability contract implemented by every supported
//! type.

use vstd::prelude::*;

use crate::error::Error;
use crate::wire::be_val;
use crate::wire::dec_blob;
use crate::wire::dec_size;
use crate::wire::dec_str;
use crate::wire::lead_ones;
use crate::wire::lemma_be_val_bounds;
use crate::wire::lemma_p256_pos;
use crate::wire::lemma_p256_vals;
use crate::wire::p256;
use crate::wire::size_mask;

use vstd::slice::slice_subrange;
use vstd::slice::slice_to_vec;
use vstd::utf8::encode_utf8;
use vstd::utf8::encode_utf8_decode_utf8;
use vstd::utf8::valid_utf8;

verus! {

/// The abstract state of a [`Decoder`]: the borrowed source bytes,
/// the cursor, and the boolean-packer cursor `(position, last bit)`.
///
/// The boolean cursor position is the cursor value right after the
/// last byte consumed by a boolean read; further boolean reads keep
/// handing out bits of that byte only while the cursor still stands
/// there. The position `usize::MAX` is the sentinel meaning no
/// boolean byte is open.
pub ghost struct DecView {
    pub src: Seq<u8>,
    pub index: int,
    pub bools: (int, int),
}

/// Well-formedness of a decoder state: the cursor lies within the
/// source and the boolean cursor position is the sentinel or points at
/// a byte already read.
pub open spec fn dec_wf(st: DecView) -> bool {
    &&& 0 <= st.index <= st.src.len()
    &&& st.bools.0 == usize::MAX as int || 1 <= st.bools.0 <= st.src.len()
    &&& 0 <= st.bools.1 <= 7
}

/// The outcome of a boolean read that consumes a fresh byte.
pub open spec fn dec_bool_fresh(st: DecView) -> Result<(bool, DecView), Error> {
    if st.index < st.src.len() {
        Ok(
            (
                st.src[st.index] & 1 == 1,
                DecView { index: st.index + 1, bools: (st.index + 1, 0), ..st },
            ),
        )
    } else {
        Err(Error::ReadingOutOfBounds)
    }
}

/// The outcome of a boolean read: either the next bit of the byte the
/// cursor still stands behind, or the low bit of a fresh byte.
pub open spec fn dec_bool_step(st: DecView) -> Result<(bool, DecView), Error> {
    let (p, s) = st.bools;
    if p != usize::MAX as int && p == st.index && s < 7 {
        Ok(
            (
                st.src[p - 1] & (1u8 << ((s + 1) as u8)) == (1u8 << ((s + 1) as u8)),
                DecView { bools: (p, s + 1), ..st },
            ),
        )
    } else {
        dec_bool_fresh(st)
    }
}

/// Decoder reads from a binary slice buffer (`&[u8]`) and exposes
/// methods to read values from it in the same order they were written
/// by the `Encoder`.
pub struct Decoder<'src> {
    index: usize,
    data: &'src [u8],
    bool_index: usize,
    bool_shift: u8,
}

impl<'src> View for Decoder<'src> {
    type V = DecView;

    closed spec fn view(&self) -> DecView {
        DecView {
            src: self.data@,
            index: self.index as int,
            bools: (self.bool_index as int, self.bool_shift as int),
        }
    }
}

impl<'src> Decoder<'src> {
    /// Create a new `Decoder` reading from a `&[u8]` slice buffer.
    pub fn new(data: &[u8]) -> (d: Decoder)
        ensures
            d@ == (DecView { src: data@, index: 0, bools: (usize::MAX as int, 0int) }),
            dec_wf(d@),
    {
        Decoder { index: 0, data, bool_index: usize::MAX, bool_shift: 0 }
    }

    /// Decode one whole value of type `D` from a buffer, requiring
    /// that it consume the buffer entirely; trailing bytes fail with
    /// `BufferNotEmpty`.
    pub fn decode<D: BitDecode<'src>>(data: &'src [u8]) -> (r: Result<D, Error>)
        ensures
            match D::dec_step(
                DecView { src: data@, index: 0, bools: (usize::MAX as int, 0int) },
            ) {
                Ok((v, post)) => if post.index == data@.len() {
                    r matches Ok(out) && out.deep_view() == v
                } else {
                    r == Err::<D, Error>(Error::BufferNotEmpty)
                },
                Err(e) => r == Err::<D, Error>(e),
            },
    {
        let mut d = Decoder::new(data);
        let value = match D::decode(&mut d) {
            Ok(v) => v,
            Err(e) => {
                return Err(e);
            },
        };
        if !d.end() {
            return Err(Error::BufferNotEmpty);
        }
        Ok(value)
    }

    /// Read any type implementing [`BitDecode`] off the buffer.
    pub fn read<D: BitDecode<'src>>(&mut self) -> (r: Result<D, Error>)
        requires
            dec_wf(old(self)@),
        ensures
            dec_wf(final(self)@),
            final(self)@.src == old(self)@.src,
            match D::dec_step(old(self)@) {
                Ok((v, post)) => r matches Ok(out) && out.deep_view() == v && final(self)@ == post,
                Err(e) => r == Err::<D, Error>(e),
            },
    {
        D::decode(self)
    }

    /// Read a `u8` from the buffer and progress the internal index.
    pub fn uint8(&mut self) -> (r: Result<u8, Error>)
        requires
            dec_wf(old(self)@),
        ensures
            dec_wf(final(self)@),
            final(self)@.src == old(self)@.src,
            final(self)@.bools == old(self)@.bools,
            match r {
                Ok(v) => old(self)@.index < old(self)@.src.len() && v == old(self)@.src[old(self)@.index]
                    && final(self)@.index == old(self)@.index + 1,
                Err(e) => e == Error::ReadingOutOfBounds && old(self)@.index >= old(self)@.src.len()
                    && final(self)@ == old(self)@,
            },
    {
        if self.index >= self.data.len() {
            return Err(Error::ReadingOutOfBounds);
        }
        let v = self.data[self.index];
        self.index = self.index + 1;
        Ok(v)
    }

    /// Read a `u16` from the buffer, big-endian, and progress the
    /// internal index.
    pub fn uint16(&mut self) -> (r: Result<u16, Error>)
        requires
            dec_wf(old(self)@),
        ensures
            dec_wf(final(self)@),
            final(self)@.src == old(self)@.src,
            final(self)@.bools == old(self)@.bools,
            match r {
                Ok(v) => old(self)@.index + 2 <= old(self)@.src.len() && v as int == be_val(
                    old(self)@.src.subrange(old(self)@.index, old(self)@.index + 2),
                ) && final(self)@.index == old(self)@.index + 2,
                Err(e) => e == Error::ReadingOutOfBounds && old(self)@.index + 2 > old(self)@.src.len()
                    && final(self)@ == old(self)@,
            },
    {
        match self.read_be(2) {
            Ok(v) => {
                proof {
                    lemma_p256_vals();
                    lemma_be_val_bounds(
                        old(self)@.src.subrange(old(self)@.index, old(self)@.index + 2),
                    );
                }
                Ok(v as u16)
            },
            Err(e) => Err(e),
        }
    }

    /// Read a `u32` from the buffer, big-endian, and progress the
    /// internal index.
    pub fn uint32(&mut self) -> (r: Result<u32, Error>)
        requires
            dec_wf(old(self)@),
        ensures
            dec_wf(final(self)@),
            final(self)@.src == old(self)@.src,
            final(self)@.bools == old(self)@.bools,
            match r {
                Ok(v) => old(self)@.index + 4 <= old(self)@.src.len() && v as int == be_val(
                    old(self)@.src.subrange(old(self)@.index, old(self)@.index + 4),
                ) && final(self)@.index == old(self)@.index + 4,
                Err(e) => e == Error::ReadingOutOfBounds && old(self)@.index + 4 > old(self)@.src.len()
                    && final(self)@ == old(self)@,
            },
    {
        match self.read_be(4) {
            Ok(v) => {
                proof {
                    lemma_p256_vals();
                    lemma_be_val_bounds(
                        old(self)@.src.subrange(old(self)@.index, old(self)@.index + 4),
                    );
                }
                Ok(v as u32)
            },
            Err(e) => Err(e),
        }
    }

    /// Read a `u64` from the buffer, big-endian, and progress the
    /// internal index.
    pub fn uint64(&mut self) -> (r: Result<u64, Error>)
        requires
            dec_wf(old(self)@),
        ensures
            dec_wf(final(self)@),
            final(self)@.src == old(self)@.src,
            final(self)@.bools == old(self)@.bools,
            match r {
                Ok(v) => old(self)@.index + 8 <= old(self)@.src.len() && v as int == be_val(
                    old(self)@.src.subrange(old(self)@.index, old(self)@.index + 8),
                ) && final(self)@.index == old(self)@.index + 8,
                Err(e) => e == Error::ReadingOutOfBounds && old(self)@.index + 8 > old(self)@.src.len()
                    && final(self)@ == old(self)@,
            },
    {
        self.read_be(8)
    }

    /// Read an `i8` from the buffer as two's complement and progress
    /// the internal index.
    pub fn int8(&mut self) -> (r: Result<i8, Error>)
        requires
            dec_wf(old(self)@),
        ensures
            dec_wf(final(self)@),
            final(self)@.src == old(self)@.src,
            final(self)@.bools == old(self)@.bools,
            match r {
                Ok(v) => old(self)@.index < old(self)@.src.len() && v == old(self)@.src[old(self)@.index] as i8
                    && final(self)@.index == old(self)@.index + 1,
                Err(e) => e == Error::ReadingOutOfBounds && old(self)@.index >= old(self)@.src.len()
                    && final(self)@ == old(self)@,
            },
    {
        match self.uint8() {
            Ok(v) => Ok(#[verifier::truncate] (v as i8)),
            Err(e) => Err(e),
        }
    }

    /// Read an `i16` from the buffer as two's complement, big-endian,
    /// and progress the internal index.
    pub fn int16(&mut self) -> (r: Result<i16, Error>)
        requires
            dec_wf(old(self)@),
        ensures
            dec_wf(final(self)@),
            final(self)@.src == old(self)@.src,
            final(self)@.bools == old(self)@.bools,
            match r {
                Ok(v) => old(self)@.index + 2 <= old(self)@.src.len() && v == be_val(
                    old(self)@.src.subrange(old(self)@.index, old(self)@.index + 2),
                ) as u16 as i16 && final(self)@.index == old(self)@.index + 2,
                Err(e) => e == Error::ReadingOutOfBounds && old(self)@.index + 2 > old(self)@.src.len()
                    && final(self)@ == old(self)@,
            },
    {
        match self.read_be(2) {
            Ok(v) => Ok(#[verifier::truncate] (v as u16 as i16)),
            Err(e) => Err(e),
        }
    }

    /// Read an `i32` from the buffer as two's complement, big-endian,
    /// and progress the internal index.
    pub fn int32(&mut self) -> (r: Result<i32, Error>)
        requires
            dec_wf(old(self)@),
        ensures
            dec_wf(final(self)@),
            final(self)@.src == old(self)@.src,
            final(self)@.bools == old(self)@.bools,
            match r {
                Ok(v) => old(self)@.index + 4 <= old(self)@.src.len() && v == be_val(
                    old(self)@.src.subrange(old(self)@.index, old(self)@.index + 4),
                ) as u32 as i32 && final(self)@.index == old(self)@.index + 4,
                Err(e) => e == Error::ReadingOutOfBounds && old(self)@.index + 4 > old(self)@.src.len()
                    && final(self)@ == old(self)@,
            },
    {
        match self.read_be(4) {
            Ok(v) => Ok(#[verifier::truncate] (v as u32 as i32)),
            Err(e) => Err(e),
        }
    }

    /// Read an `i64` from the buffer as two's complement, big-endian,
    /// and progress the internal index.
    pub fn int64(&mut self) -> (r: Result<i64, Error>)
        requires
            dec_wf(old(self)@),
        ensures
            dec_wf(final(self)@),
            final(self)@.src == old(self)@.src,
            final(self)@.bools == old(self)@.bools,
            match r {
                Ok(v) => old(self)@.index + 8 <= old(self)@.src.len() && v == be_val(
                    old(self)@.src.subrange(old(self)@.index, old(self)@.index + 8),
                ) as u64 as i64 && final(self)@.index == old(self)@.index + 8,
                Err(e) => e == Error::ReadingOutOfBounds && old(self)@.index + 8 > old(self)@.src.len()
                    && final(self)@ == old(self)@,
            },
    {
        match self.read_be(8) {
            Ok(v) => Ok(#[verifier::truncate] (v as i64)),
            Err(e) => Err(e),
        }
    }

    /// Read a `bool` from the buffer. Consecutive boolean reads share
    /// one byte, handing out its bits from least significant up,
    /// mirroring how the `Encoder` packs them; any other read in
    /// between forces the next boolean onto a fresh byte.
    pub fn bool(&mut self) -> (r: Result<bool, Error>)
        requires
            dec_wf(old(self)@),
        ensures
            dec_wf(final(self)@),
            final(self)@.src == old(self)@.src,
            match r {
                Ok(v) => dec_bool_step(old(self)@) matches Ok((v2, post)) && v == v2 && final(self)@
                    == post,
                Err(e) => dec_bool_step(old(self)@) == Err::<(bool, DecView), Error>(e) && final(self)@
                    == old(self)@,
            },
    {
        if self.bool_index != usize::MAX && self.bool_index == self.index && self.bool_shift < 7 {
            let shift = self.bool_shift + 1;
            let bits = self.data[self.index - 1];
            let bool_bit: u8 = 1 << shift;
            self.bool_shift = shift;
            return Ok(bits & bool_bit == bool_bit);
        }

        let bits = match self.uint8() {
            Ok(b) => b,
            Err(e) => {
                return Err(e);
            },
        };
        self.bool_index = self.index;
        self.bool_shift = 0;

        Ok(bits & 1 == 1)
    }

    /// Read a size value from the buffer: 1 to 9 bytes, the first byte
    /// announcing with its leading one bits how many follow. A value
    /// wider than the platform word keeps only its low word bits, the
    /// way a shift-and-or accumulator would.
    pub fn size(&mut self) -> (r: Result<usize, Error>)
        requires
            dec_wf(old(self)@),
        ensures
            dec_wf(final(self)@),
            final(self)@.src == old(self)@.src,
            final(self)@.bools == old(self)@.bools,
            match r {
                Ok(v) => dec_size(old(self)@.src, old(self)@.index) matches Ok((n, j)) && v == n
                    as usize && final(self)@.index == j,
                Err(e) => dec_size(old(self)@.src, old(self)@.index) == Err::<(u64, int), Error>(e),
            },
    {
        match self.size_raw() {
            Ok(v) => Ok(#[verifier::truncate] (v as usize)),
            Err(e) => Err(e),
        }
    }

    /// Read a size value from the buffer as the full 64-bit value.
    fn size_raw(&mut self) -> (r: Result<u64, Error>)
        requires
            dec_wf(old(self)@),
        ensures
            dec_wf(final(self)@),
            final(self)@.src == old(self)@.src,
            final(self)@.bools == old(self)@.bools,
            match r {
                Ok(v) => dec_size(old(self)@.src, old(self)@.index) matches Ok((n, j)) && v == n
                    && final(self)@.index == j,
                Err(e) => dec_size(old(self)@.src, old(self)@.index) == Err::<(u64, int), Error>(e),
            },
    {
        let ghost src = self@.src;
        let ghost start = self@.index;

        let high = match self.uint8() {
            Ok(h) => h,
            Err(e) => {
                return Err(e);
            },
        };

        if high < 0x80 {
            return Ok(high as u64);
        }

        proof {
            lemma_lead_ones_range(high);
            lemma_p256_vals();
        }
        let ext = lead_ones_exec(high);
        let mask = size_mask_dec(ext);
        let hm: u8 = high - mask;
        let mut value: u64 = hm as u64;
        let mut j: usize = 0;

        while j < ext
            invariant
                dec_wf(self@),
                self@.src == src,
                src == old(self)@.src,
                start == old(self)@.index,
                self@.bools == old(self)@.bools,
                self@.index == start + 1 + j,
                j <= ext,
                1 <= ext <= 8,
                0 <= start < src.len(),
                high == src[start],
                high >= 0x80,
                ext == lead_ones(high),
                mask == size_mask(ext as int),
                hm == high - mask,
                hm < 0x80,
                ext == 8 ==> hm == 0,
                value as int == hm * p256(j as int) + be_val(
                    src.subrange(start + 1, start + 1 + j),
                ),
                (value as int) < (hm + 1) * p256(j as int),
            decreases ext - j,
        {
            let b = match self.uint8() {
                Ok(b) => b,
                Err(e) => {
                    proof {
                        lemma_size_err(src, start, j as int);
                    }
                    return Err(e);
                },
            };
            proof {
                lemma_size_loop_step(src, start, j as int, hm, value, b, ext as int);
            }
            value = value * 256 + (b as u64);
            j = j + 1;
        }

        proof {
            lemma_size_done(src, start, ext as int, hm, value);
        }
        Ok(value)
    }

    /// Read an arbitrary sized stretch of binary data from the buffer
    /// and progress the index. The data is prefixed with a size value,
    /// so the caller does not say how many bytes to read.
    pub fn bytes(&mut self) -> (r: Result<&'src [u8], Error>)
        requires
            dec_wf(old(self)@),
        ensures
            dec_wf(final(self)@),
            final(self)@.src == old(self)@.src,
            final(self)@.bools == old(self)@.bools,
            match r {
                Ok(b) => dec_blob(old(self)@.src, old(self)@.index) matches Ok((bs, j)) && b@ == bs
                    && final(self)@.index == j,
                Err(e) => dec_blob(old(self)@.src, old(self)@.index) == Err::<
                    (Seq<u8>, int),
                    Error,
                >(e),
            },
    {
        let n = match self.size_raw() {
            Ok(l) => l,
            Err(e) => {
                return Err(e);
            },
        };

        if n > (self.data.len() - self.index) as u64 {
            return Err(Error::ReadingOutOfBounds);
        }
        let len = n as usize;

        let out = slice_subrange(self.data, self.index, self.index + len);
        self.index = self.index + len;
        Ok(out)
    }

    /// Read an arbitrary sized `&str` from the buffer and progress the
    /// index: a size-prefixed byte stretch validated as UTF-8. Fails
    /// with `Utf8Encoding` when the bytes are not valid UTF-8.
    pub fn string(&mut self) -> (r: Result<&'src str, Error>)
        requires
            dec_wf(old(self)@),
        ensures
            dec_wf(final(self)@),
            final(self)@.src == old(self)@.src,
            final(self)@.bools == old(self)@.bools,
            match r {
                Ok(s) => dec_str(old(self)@.src, old(self)@.index) matches Ok((cs, j)) && s@ == cs
                    && final(self)@.index == j,
                Err(e) => dec_str(old(self)@.src, old(self)@.index) == Err::<
                    (Seq<char>, int),
                    Error,
                >(e),
            },
    {
        let b = match self.bytes() {
            Ok(b) => b,
            Err(e) => {
                return Err(e);
            },
        };
        match bytes_as_str(b) {
            Some(s) => {
                proof {
                    encode_utf8_decode_utf8(s@);
                }
                Ok(s)
            },
            None => Err(Error::Utf8Encoding),
        }
    }

    /// Returns `true` if the entire buffer has been read, otherwise
    /// returns `false`.
    pub fn end(&self) -> (r: bool)
        ensures
            r == (self@.index >= self@.src.len()),
    {
        self.index >= self.data.len()
    }

    /// Read `w` bytes as a big-endian unsigned value.
    fn read_be(&mut self, w: usize) -> (r: Result<u64, Error>)
        requires
            dec_wf(old(self)@),
            w <= 8,
        ensures
            dec_wf(final(self)@),
            final(self)@.src == old(self)@.src,
            final(self)@.bools == old(self)@.bools,
            match r {
                Ok(v) => old(self)@.index + w <= old(self)@.src.len() && v as int == be_val(
                    old(self)@.src.subrange(old(self)@.index, old(self)@.index + w),
                ) && final(self)@.index == old(self)@.index + w,
                Err(e) => e == Error::ReadingOutOfBounds && old(self)@.index + w > old(self)@.src.len()
                    && final(self)@ == old(self)@,
            },
    {
        if w > self.data.len() - self.index {
            return Err(Error::ReadingOutOfBounds);
        }

        let ghost src = self@.src;
        let ghost start = self@.index;
        let mut value: u64 = 0;
        let mut j: usize = 0;

        while j < w
            invariant
                j <= w <= 8,
                dec_wf(self@),
                self@ == old(self)@,
                self@.index == start,
                0 <= start,
                start + w <= src.len(),
                src.len() <= usize::MAX,
                src == self@.src,
                value as int == be_val(src.subrange(start, start + j)),
                (value as int) < p256(j as int),
            decreases w - j,
        {
            let b = self.data[self.index + j];
            proof {
                lemma_p256_vals();
                lemma_p256_pos(j as int);
                let sub = src.subrange(start, start + j);
                let sub2 = src.subrange(start, start + j + 1);
                assert(sub2 =~= sub.push(src[start + j]));
                assert(sub2.drop_last() =~= sub);
                assert((value as int) * 256 + b < p256(j + 1)) by (nonlinear_arith)
                    requires
                        (value as int) < p256(j as int),
                        p256(j + 1) == 256 * p256(j as int),
                        b < 256,
                        0 <= value as int,
                ;
                lemma_p256_mono(j + 1, 8);
            }
            value = value * 256 + (b as u64);
            j = j + 1;
        }
        self.index = self.index + w;
        Ok(value)
    }
}

/// Relies on `core::str::from_utf8`: it returns `Ok` exactly when the
/// bytes are valid UTF-8, and the resulting string slice is backed by
/// those very bytes.
#[verifier::external_body]
fn bytes_as_str<'a>(b: &'a [u8]) -> (r: Option<&'a str>)
    ensures
        r is Some <==> valid_utf8(b@),
        r matches Some(s) ==> encode_utf8(s@) == b@,
{
    core::str::from_utf8(b).ok()
}

/// The number of leading one bits in a byte, by the boundary table.
fn lead_ones_exec(h: u8) -> (k: usize)
    ensures
        k == lead_ones(h),
{
    if h < 0x80 {
        0
    } else if h < 0xC0 {
        1
    } else if h < 0xE0 {
        2
    } else if h < 0xF0 {
        3
    } else if h < 0xF8 {
        4
    } else if h < 0xFC {
        5
    } else if h < 0xFE {
        6
    } else if h < 0xFF {
        7
    } else {
        8
    }
}

/// The unary prefix mask with `k` leading one bits.
fn size_mask_dec(k: usize) -> (m: u8)
    requires
        k <= 8,
    ensures
        m == size_mask(k as int),
{
    if k == 0 {
        0x00
    } else if k == 1 {
        0x80
    } else if k == 2 {
        0xC0
    } else if k == 3 {
        0xE0
    } else if k == 4 {
        0xF0
    } else if k == 5 {
        0xF8
    } else if k == 6 {
        0xFC
    } else if k == 7 {
        0xFE
    } else {
        0xFF
    }
}

proof fn lemma_p256_mono(a: int, b: int)
    requires
        a <= b,
    ensures
        p256(a) <= p256(b),
    decreases b - a,
{
    if a < b {
        lemma_p256_mono(a, b - 1);
        lemma_p256_pos(b - 1);
    }
}

/// A byte with its top bit set lies in the range of its leading-ones
/// count: at least the mask, and at most `0x3F` above it; eight
/// leading ones single out `0xFF`.
proof fn lemma_lead_ones_range(h: u8)
    requires
        h >= 0x80,
    ensures
        1 <= lead_ones(h) <= 8,
        size_mask(lead_ones(h)) <= h,
        h - size_mask(lead_ones(h)) <= 0x3F,
        lead_ones(h) == 8 ==> h == 0xFF,
{
}

/// When the source runs out inside the extension bytes of a size
/// encoding, the specified decode fails the same way.
proof fn lemma_size_err(src: Seq<u8>, start: int, j: int)
    requires
        0 <= start < src.len(),
        src[start] >= 0x80,
        0 <= j < lead_ones(src[start]),
        start + 1 + j >= src.len(),
    ensures
        dec_size(src, start) == Err::<(u64, int), Error>(Error::ReadingOutOfBounds),
{
}

/// One step of the size-decoding loop: folding the next byte into the
/// accumulator keeps both the running value and its bound, and stays
/// within 64 bits.
proof fn lemma_size_loop_step(
    src: Seq<u8>,
    start: int,
    j: int,
    hm: u8,
    value: u64,
    b: u8,
    ext: int,
)
    requires
        0 <= start,
        0 <= j < ext <= 8,
        start + 1 + j < src.len(),
        b == src[start + 1 + j],
        value as int == hm * p256(j) + be_val(src.subrange(start + 1, start + 1 + j)),
        (value as int) < (hm + 1) * p256(j),
        hm < 0x80,
        ext == 8 ==> hm == 0,
    ensures
        (value as int) * 256 + b <= u64::MAX,
        (value as int) * 256 + b == hm * p256(j + 1) + be_val(
            src.subrange(start + 1, start + 2 + j),
        ),
        ((value as int) * 256 + b) < (hm + 1) * p256(j + 1),
{
    lemma_p256_vals();
    lemma_p256_pos(j);
    let sub = src.subrange(start + 1, start + 1 + j);
    let sub2 = src.subrange(start + 1, start + 2 + j);
    assert(sub2 =~= sub.push(src[start + 1 + j]));
    assert(sub2.drop_last() =~= sub);
    assert(be_val(sub2) == be_val(sub) * 256 + b);
    assert(p256(j + 1) == 256 * p256(j));
    assert((value as int) * 256 + b == hm * p256(j + 1) + be_val(sub2)) by (nonlinear_arith)
        requires
            value as int == hm * p256(j) + be_val(sub),
            be_val(sub2) == be_val(sub) * 256 + b,
            p256(j + 1) == 256 * p256(j),
    ;
    assert(((value as int) * 256 + b) < (hm + 1) * p256(j + 1)) by (nonlinear_arith)
        requires
            (value as int) < (hm + 1) * p256(j),
            p256(j + 1) == 256 * p256(j),
            0 <= b < 256,
            0 <= value as int,
    ;
    if j + 1 <= 7 {
        lemma_p256_mono(j + 1, 7);
        assert((hm + 1) * p256(j + 1) <= 0x80 * p256(7)) by (nonlinear_arith)
            requires
                0 < hm + 1 <= 0x80,
                0 < p256(j + 1) <= p256(7),
        ;
        assert(0x80 * p256(7) <= u64::MAX as int + 1);
    } else {
        assert(hm == 0);
        assert((hm + 1) * p256(8) <= u64::MAX as int + 1);
    }
}

/// After the size-decoding loop, the accumulator equals the value the
/// specified decode assigns to the whole encoding.
proof fn lemma_size_done(src: Seq<u8>, start: int, ext: int, hm: u8, value: u64)
    requires
        0 <= start < src.len(),
        src[start] >= 0x80,
        ext == lead_ones(src[start]),
        hm == src[start] - size_mask(ext),
        start + 1 + ext <= src.len(),
        value as int == hm * p256(ext) + be_val(src.subrange(start + 1, start + 1 + ext)),
    ensures
        dec_size(src, start) matches Ok((n, j2)) && n == value && j2 == start + 1 + ext,
{
    lemma_p256_vals();
}

/// The decode half of the capability contract. Every supported type
/// states, as a function on decoder states, which abstract value its
/// read yields and where the cursor lands, and its `decode` is held to
/// exactly that; generic containers and externally generated record
/// code compose these steps in field order. Values are compared
/// through [`DeepView`], so owned containers meet the same contract as
/// the primitives.
pub trait BitDecode<'src>: Sized + DeepView {
    /// The decoded abstract value and successor state read off `pre`,
    /// or the error the read reports.
    spec fn dec_step(pre: DecView) -> Result<(Self::V, DecView), Error>;

    /// Read a value of this type from the decoder.
    fn decode(d: &mut Decoder<'src>) -> (r: Result<Self, Error>)
        requires
            dec_wf(old(d)@),
        ensures
            dec_wf(final(d)@),
            final(d)@.src == old(d)@.src,
            match Self::dec_step(old(d)@) {
                Ok((v, post)) => r matches Ok(out) && out.deep_view() == v && final(d)@ == post,
                Err(e) => r == Err::<Self, Error>(e),
            },
    ;
}

/// The outcome of reading `w` big-endian bytes: their value and the
/// cursor moved past them.
pub open spec fn dec_be_step(pre: DecView, w: int) -> Result<(int, DecView), Error> {
    if pre.index + w <= pre.src.len() {
        Ok(
            (
                be_val(pre.src.subrange(pre.index, pre.index + w)),
                DecView { index: pre.index + w, ..pre },
            ),
        )
    } else {
        Err(Error::ReadingOutOfBounds)
    }
}

/// The outcome of reading `count` consecutive values of one type: the
/// abstract values in order, or the first failure.
pub open spec fn seq_dec_step<'src, D: BitDecode<'src>>(pre: DecView, count: int) -> Result<
    (Seq<D::V>, DecView),
    Error,
>
    decreases count,
{
    if count <= 0 {
        Ok((Seq::empty(), pre))
    } else {
        match D::dec_step(pre) {
            Ok((v, mid)) => match seq_dec_step::<D>(mid, count - 1) {
                Ok((rest, post)) => Ok((seq![v] + rest, post)),
                Err(e) => Err(e),
            },
            Err(e) => Err(e),
        }
    }
}

/// Reading `i + k` values is reading `i`, then `k` more from where the
/// first stretch stopped.
proof fn lemma_seq_dec_split<'src, D: BitDecode<'src>>(pre: DecView, i: int, k: int)
    requires
        0 <= i,
        0 <= k,
    ensures
        seq_dec_step::<D>(pre, i + k) == match seq_dec_step::<D>(pre, i) {
            Ok((vs, mid)) => match seq_dec_step::<D>(mid, k) {
                Ok((vs2, post)) => Ok::<(Seq<D::V>, DecView), Error>((vs + vs2, post)),
                Err(e) => Err::<(Seq<D::V>, DecView), Error>(e),
            },
            Err(e) => Err::<(Seq<D::V>, DecView), Error>(e),
        },
    decreases i,
{
    if i == 0 {
        match seq_dec_step::<D>(pre, k) {
            Ok((vs2, post)) => {
                assert(Seq::<D::V>::empty() + vs2 =~= vs2);
            },
            Err(e) => {},
        }
    } else {
        match D::dec_step(pre) {
            Ok((v, mid)) => {
                lemma_seq_dec_split::<D>(mid, i - 1, k);
                match seq_dec_step::<D>(mid, i - 1) {
                    Ok((vs1, mid2)) => {
                        match seq_dec_step::<D>(mid2, k) {
                            Ok((vs2, post)) => {
                                assert(seq![v] + (vs1 + vs2) =~= (seq![v] + vs1) + vs2);
                            },
                            Err(e) => {},
                        }
                    },
                    Err(e) => {},
                }
            },
            Err(e) => {},
        }
    }
}

impl<'src> BitDecode<'src> for u16 {
    open spec fn dec_step(pre: DecView) -> Result<(u16, DecView), Error> {
        match dec_be_step(pre, 2) {
            Ok((v, post)) => Ok((v as u16, post)),
            Err(e) => Err(e),
        }
    }

    fn decode(d: &mut Decoder<'src>) -> Result<Self, Error> {
        d.uint16()
    }
}

impl<'src> BitDecode<'src> for u32 {
    open spec fn dec_step(pre: DecView) -> Result<(u32, DecView), Error> {
        match dec_be_step(pre, 4) {
            Ok((v, post)) => Ok((v as u32, post)),
            Err(e) => Err(e),
        }
    }

    fn decode(d: &mut Decoder<'src>) -> Result<Self, Error> {
        d.uint32()
    }
}

impl<'src> BitDecode<'src> for u64 {
    open spec fn dec_step(pre: DecView) -> Result<(u64, DecView), Error> {
        match dec_be_step(pre, 8) {
            Ok((v, post)) => Ok((v as u64, post)),
            Err(e) => Err(e),
        }
    }

    fn decode(d: &mut Decoder<'src>) -> Result<Self, Error> {
        d.uint64()
    }
}

impl<'src> BitDecode<'src> for i8 {
    open spec fn dec_step(pre: DecView) -> Result<(i8, DecView), Error> {
        if pre.index < pre.src.len() {
            Ok((pre.src[pre.index] as i8, DecView { index: pre.index + 1, ..pre }))
        } else {
            Err(Error::ReadingOutOfBounds)
        }
    }

    fn decode(d: &mut Decoder<'src>) -> Result<Self, Error> {
        d.int8()
    }
}

impl<'src> BitDecode<'src> for i16 {
    open spec fn dec_step(pre: DecView) -> Result<(i16, DecView), Error> {
        match dec_be_step(pre, 2) {
            Ok((v, post)) => Ok((v as u16 as i16, post)),
            Err(e) => Err(e),
        }
    }

    fn decode(d: &mut Decoder<'src>) -> Result<Self, Error> {
        d.int16()
    }
}

impl<'src> BitDecode<'src> for i32 {
    open spec fn dec_step(pre: DecView) -> Result<(i32, DecView), Error> {
        match dec_be_step(pre, 4) {
            Ok((v, post)) => Ok((v as u32 as i32, post)),
            Err(e) => Err(e),
        }
    }

    fn decode(d: &mut Decoder<'src>) -> Result<Self, Error> {
        d.int32()
    }
}

impl<'src> BitDecode<'src> for i64 {
    open spec fn dec_step(pre: DecView) -> Result<(i64, DecView), Error> {
        match dec_be_step(pre, 8) {
            Ok((v, post)) => Ok((v as u64 as i64, post)),
            Err(e) => Err(e),
        }
    }

    fn decode(d: &mut Decoder<'src>) -> Result<Self, Error> {
        d.int64()
    }
}

impl<'src> BitDecode<'src> for bool {
    open spec fn dec_step(pre: DecView) -> Result<(bool, DecView), Error> {
        dec_bool_step(pre)
    }

    fn decode(d: &mut Decoder<'src>) -> Result<Self, Error> {
        d.bool()
    }
}

impl<'src> BitDecode<'src> for usize {
    open spec fn dec_step(pre: DecView) -> Result<(usize, DecView), Error> {
        match dec_size(pre.src, pre.index) {
            Ok((n, j)) => Ok((n as usize, DecView { index: j, ..pre })),
            Err(e) => Err(e),
        }
    }

    fn decode(d: &mut Decoder<'src>) -> Result<Self, Error> {
        d.size()
    }
}

impl<'src> BitDecode<'src> for Vec<u8> {
    open spec fn dec_step(pre: DecView) -> Result<(Seq<u8>, DecView), Error> {
        match dec_blob(pre.src, pre.index) {
            Ok((b, j)) => Ok((b, DecView { index: j, ..pre })),
            Err(e) => Err(e),
        }
    }

    fn decode(d: &mut Decoder<'src>) -> Result<Self, Error> {
        match d.bytes() {
            Ok(b) => {
                let out = slice_to_vec(b);
                proof {
                    assert(out.deep_view() =~= out@);
                }
                Ok(out)
            },
            Err(e) => Err(e),
        }
    }
}

impl<'src> BitDecode<'src> for String {
    open spec fn dec_step(pre: DecView) -> Result<(Seq<char>, DecView), Error> {
        match dec_str(pre.src, pre.index) {
            Ok((cs, j)) => Ok((cs, DecView { index: j, ..pre })),
            Err(e) => Err(e),
        }
    }

    fn decode(d: &mut Decoder<'src>) -> Result<Self, Error> {
        match d.string() {
            Ok(s) => Ok(s.to_owned()),
            Err(e) => Err(e),
        }
    }
}

impl<'src, D: BitDecode<'src>> BitDecode<'src> for Vec<D> {
    open spec fn dec_step(pre: DecView) -> Result<(Seq<D::V>, DecView), Error> {
        match dec_size(pre.src, pre.index) {
            Ok((n, j)) => seq_dec_step::<D>(DecView { index: j, ..pre }, n as usize as int),
            Err(e) => Err(e),
        }
    }

    fn decode(d: &mut Decoder<'src>) -> Result<Self, Error> {
        let count = match d.size() {
            Ok(c) => c,
            Err(e) => {
                return Err(e);
            },
        };

        let ghost mid = d@;
        let mut out: Vec<D> = Vec::with_capacity(count);
        let mut i: usize = 0;

        proof {
            assert(out.deep_view() =~= Seq::<D::V>::empty());
        }
        while i < count
            invariant
                i <= count,
                dec_wf(d@),
                d@.src == mid.src,
                mid.src == old(d)@.src,
                ({
                    let stp = dec_size(old(d)@.src, old(d)@.index);
                    stp matches Ok((n, j)) && count == n as usize && mid == (DecView {
                        index: j,
                        ..old(d)@
                    })
                }),
                seq_dec_step::<D>(mid, i as int) == Ok::<(Seq<D::V>, DecView), Error>(
                    (out.deep_view(), d@),
                ),
            decreases count - i,
        {
            let ghost dv = out.deep_view();
            let ghost pre_elem = d@;
            let elem = match D::decode(d) {
                Ok(v) => v,
                Err(e) => {
                    proof {
                        lemma_seq_dec_split::<D>(mid, i as int, count - i);
                    }
                    return Err(e);
                },
            };
            proof {
                lemma_seq_dec_split::<D>(mid, i as int, 1);
                let stp = D::dec_step(pre_elem);
                let v = stp->Ok_0.0;
                let m = stp->Ok_0.1;
                assert(seq_dec_step::<D>(m, 0) == Ok::<(Seq<D::V>, DecView), Error>(
                    (Seq::<D::V>::empty(), m),
                ));
                assert(seq_dec_step::<D>(pre_elem, 1) == Ok::<(Seq<D::V>, DecView), Error>(
                    (seq![v] + Seq::<D::V>::empty(), m),
                ));
                assert(seq![v] + Seq::<D::V>::empty() =~= seq![v]);
                assert(dv + seq![v] =~= dv.push(v));
            }
            out.push(elem);
            proof {
                assert(out.deep_view() =~= dv.push(elem.deep_view()));
            }
            i = i + 1;
        }
        Ok(out)
    }
}

impl<'src, A: BitDecode<'src>, B: BitDecode<'src>> BitDecode<'src> for (A, B) {
    open spec fn dec_step(pre: DecView) -> Result<((A::V, B::V), DecView), Error> {
        match A::dec_step(pre) {
            Ok((v0, st1)) => match B::dec_step(st1) {
                Ok((v1, st2)) => Ok(((v0, v1), st2)),
                Err(e) => Err(e),
            },
            Err(e) => Err(e),
        }
    }

    fn decode(d: &mut Decoder<'src>) -> Result<Self, Error> {
        let v0 = match A::decode(d) {
            Ok(v) => v,
            Err(e) => {
                return Err(e);
            },
        };
        let v1 = match B::decode(d) {
            Ok(v) => v,
            Err(e) => {
                return Err(e);
            },
        };
        Ok((v0, v1))
    }
}

impl<
    'src,
    A: BitDecode<'src>,
    B: BitDecode<'src>,
    C: BitDecode<'src>,
> BitDecode<'src> for (A, B, C) {
    open spec fn dec_step(pre: DecView) -> Result<((A::V, B::V, C::V), DecView), Error> {
        match A::dec_step(pre) {
            Ok((v0, st1)) => match B::dec_step(st1) {
                Ok((v1, st2)) => match C::dec_step(st2) {
                    Ok((v2, st3)) => Ok(((v0, v1, v2), st3)),
                    Err(e) => Err(e),
                },
                Err(e) => Err(e),
            },
            Err(e) => Err(e),
        }
    }

    fn decode(d: &mut Decoder<'src>) -> Result<Self, Error> {
        let v0 = match A::decode(d) {
            Ok(v) => v,
            Err(e) => {
                return Err(e);
            },
        };
        let v1 = match B::decode(d) {
            Ok(v) => v,
            Err(e) => {
                return Err(e);
            },
        };
        let v2 = match C::decode(d) {
            Ok(v) => v,
            Err(e) => {
                return Err(e);
            },
        };
        Ok((v0, v1, v2))
    }
}

impl<
    'src,
    A: BitDecode<'src>,
    B: BitDecode<'src>,
    C: BitDecode<'src>,
    D: BitDecode<'src>,
> BitDecode<'src> for (A, B, C, D) {
    open spec fn dec_step(pre: DecView) -> Result<((A::V, B::V, C::V, D::V), DecView), Error> {
        match A::dec_step(pre) {
            Ok((v0, st1)) => match B::dec_step(st1) {
                Ok((v1, st2)) => match C::dec_step(st2) {
                    Ok((v2, st3)) => match D::dec_step(st3) {
                        Ok((v3, st4)) => Ok(((v0, v1, v2, v3), st4)),
                        Err(e) => Err(e),
                    },
                    Err(e) => Err(e),
                },
                Err(e) => Err(e),
            },
            Err(e) => Err(e),
        }
    }

    fn decode(d: &mut Decoder<'src>) -> Result<Self, Error> {
        let v0 = match A::decode(d) {
            Ok(v) => v,
            Err(e) => {
                return Err(e);
            },
        };
        let v1 = match B::decode(d) {
            Ok(v) => v,
            Err(e) => {
                return Err(e);
            },
        };
        let v2 = match C::decode(d) {
            Ok(v) => v,
            Err(e) => {
                return Err(e);
            },
        };
        let v3 = match D::decode(d) {
            Ok(v) => v,
            Err(e) => {
                return Err(e);
            },
        };
        Ok((v0, v1, v2, v3))
    }
}

impl<
    'src,
    A: BitDecode<'src>,
    B: BitDecode<'src>,
    C: BitDecode<'src>,
    D: BitDecode<'src>,
    E: BitDecode<'src>,
> BitDecode<'src> for (A, B, C, D, E) {
    open spec fn dec_step(pre: DecView) -> Result<((A::V, B::V, C::V, D::V, E::V), DecView), Error> {
        match A::dec_step(pre) {
            Ok((v0, st1)) => match B::dec_step(st1) {
                Ok((v1, st2)) => match C::dec_step(st2) {
                    Ok((v2, st3)) => match D::dec_step(st3) {
                        Ok((v3, st4)) => match E::dec_step(st4) {
                            Ok((v4, st5)) => Ok(((v0, v1, v2, v3, v4), st5)),
                            Err(e) => Err(e),
                        },
                        Err(e) => Err(e),
                    },
                    Err(e) => Err(e),
                },
                Err(e) => Err(e),
            },
            Err(e) => Err(e),
        }
    }

    fn decode(d: &mut Decoder<'src>) -> Result<Self, Error> {
        let v0 = match A::decode(d) {
            Ok(v) => v,
            Err(e) => {
                return Err(e);
            },
        };
        let v1 = match B::decode(d) {
            Ok(v) => v,
            Err(e) => {
                return Err(e);
            },
        };
        let v2 = match C::decode(d) {
            Ok(v) => v,
            Err(e) => {
                return Err(e);
            },
        };
        let v3 = match D::decode(d) {
            Ok(v) => v,
            Err(e) => {
                return Err(e);
            },
        };
        let v4 = match E::decode(d) {
            Ok(v) => v,
            Err(e) => {
                return Err(e);
            },
        };
        Ok((v0, v1, v2, v3, v4))
    }
}

impl<
    'src,
    A: BitDecode<'src>,
    B: BitDecode<'src>,
    C: BitDecode<'src>,
    D: BitDecode<'src>,
    E: BitDecode<'src>,
    F: BitDecode<'src>,
> BitDecode<'src> for (A, B, C, D, E, F) {
    open spec fn dec_step(pre: DecView) -> Result<((A::V, B::V, C::V, D::V, E::V, F::V), DecView), Error> {
        match A::dec_step(pre) {
            Ok((v0, st1)) => match B::dec_step(st1) {
                Ok((v1, st2)) => match C::dec_step(st2) {
                    Ok((v2, st3)) => match D::dec_step(st3) {
                        Ok((v3, st4)) => match E::dec_step(st4) {
                            Ok((v4, st5)) => match F::dec_step(st5) {
                                Ok((v5, st6)) => Ok(((v0, v1, v2, v3, v4, v5), st6)),
                                Err(e) => Err(e),
                            },
                            Err(e) => Err(e),
                        },
                        Err(e) => Err(e),
                    },
                    Err(e) => Err(e),
                },
                Err(e) => Err(e),
            },
            Err(e) => Err(e),
        }
    }

    fn decode(d: &mut Decoder<'src>) -> Result<Self, Error> {
        let v0 = match A::decode(d) {
            Ok(v) => v,
            Err(e) => {
                return Err(e);
            },
        };
        let v1 = match B::decode(d) {
            Ok(v) => v,
            Err(e) => {
                return Err(e);
            },
        };
        let v2 = match C::decode(d) {
            Ok(v) => v,
            Err(e) => {
                return Err(e);
            },
        };
        let v3 = match D::decode(d) {
            Ok(v) => v,
            Err(e) => {
                return Err(e);
            },
        };
        let v4 = match E::decode(d) {
            Ok(v) => v,
            Err(e) => {
                return Err(e);
            },
        };
        let v5 = match F::decode(d) {
            Ok(v) => v,
            Err(e) => {
                return Err(e);
            },
        };
        Ok((v0, v1, v2, v3, v4, v5))
    }
}

impl<
    'src,
    A: BitDecode<'src>,
    B: BitDecode<'src>,
    C: BitDecode<'src>,
    D: BitDecode<'src>,
    E: BitDecode<'src>,
    F: BitDecode<'src>,
    G: BitDecode<'src>,
> BitDecode<'src> for (A, B, C, D, E, F, G) {
    open spec fn dec_step(pre: DecView) -> Result<((A::V, B::V, C::V, D::V, E::V, F::V, G::V), DecView), Error> {
        match A::dec_step(pre) {
            Ok((v0, st1)) => match B::dec_step(st1) {
                Ok((v1, st2)) => match C::dec_step(st2) {
                    Ok((v2, st3)) => match D::dec_step(st3) {
                        Ok((v3, st4)) => match E::dec_step(st4) {
                            Ok((v4, st5)) => match F::dec_step(st5) {
                                Ok((v5, st6)) => match G::dec_step(st6) {
                                    Ok((v6, st7)) => Ok(((v0, v1, v2, v3, v4, v5, v6), st7)),
                                    Err(e) => Err(e),
                                },
                                Err(e) => Err(e),
                            },
                            Err(e) => Err(e),
                        },
                        Err(e) => Err(e),
                    },
                    Err(e) => Err(e),
                },
                Err(e) => Err(e),
            },
            Err(e) => Err(e),
        }
    }

    fn decode(d: &mut Decoder<'src>) -> Result<Self, Error> {
        let v0 = match A::decode(d) {
            Ok(v) => v,
            Err(e) => {
                return Err(e);
            },
        };
        let v1 = match B::decode(d) {
            Ok(v) => v,
            Err(e) => {
                return Err(e);
            },
        };
        let v2 = match C::decode(d) {
            Ok(v) => v,
            Err(e) => {
                return Err(e);
            },
        };
        let v3 = match D::decode(d) {
            Ok(v) => v,
            Err(e) => {
                return Err(e);
            },
        };
        let v4 = match E::decode(d) {
            Ok(v) => v,
            Err(e) => {
                return Err(e);
            },
        };
        let v5 = match F::decode(d) {
            Ok(v) => v,
            Err(e) => {
                return Err(e);
            },
        };
        let v6 = match G::decode(d) {
            Ok(v) => v,
            Err(e) => {
                return Err(e);
            },
        };
        Ok((v0, v1, v2, v3, v4, v5, v6))
    }
}

impl<
    'src,
    A: BitDecode<'src>,
    B: BitDecode<'src>,
    C: BitDecode<'src>,
    D: BitDecode<'src>,
    E: BitDecode<'src>,
    F: BitDecode<'src>,
    G: BitDecode<'src>,
    H: BitDecode<'src>,
> BitDecode<'src> for (A, B, C, D, E, F, G, H) {
    open spec fn dec_step(pre: DecView) -> Result<
        ((A::V, B::V, C::V, D::V, E::V, F::V, G::V, H::V), DecView),
        Error,
    > {
        match A::dec_step(pre) {
            Ok((v0, st1)) => match B::dec_step(st1) {
                Ok((v1, st2)) => match C::dec_step(st2) {
                    Ok((v2, st3)) => match D::dec_step(st3) {
                        Ok((v3, st4)) => match E::dec_step(st4) {
                            Ok((v4, st5)) => match F::dec_step(st5) {
                                Ok((v5, st6)) => match G::dec_step(st6) {
                                    Ok((v6, st7)) => match H::dec_step(st7) {
                                        Ok((v7, st8)) => Ok(((v0, v1, v2, v3, v4, v5, v6, v7), st8)),
                                        Err(e) => Err(e),
                                    },
                                    Err(e) => Err(e),
                                },
                                Err(e) => Err(e),
                            },
                            Err(e) => Err(e),
                        },
                        Err(e) => Err(e),
                    },
                    Err(e) => Err(e),
                },
                Err(e) => Err(e),
            },
            Err(e) => Err(e),
        }
    }

    fn decode(d: &mut Decoder<'src>) -> Result<Self, Error> {
        let v0 = match A::decode(d) {
            Ok(v) => v,
            Err(e) => {
                return Err(e);
            },
        };
        let v1 = match B::decode(d) {
            Ok(v) => v,
            Err(e) => {
                return Err(e);
            },
        };
        let v2 = match C::decode(d) {
            Ok(v) => v,
            Err(e) => {
                return Err(e);
            },
        };
        let v3 = match D::decode(d) {
            Ok(v) => v,
            Err(e) => {
                return Err(e);
            },
        };
        let v4 = match E::decode(d) {
            Ok(v) => v,
            Err(e) => {
                return Err(e);
            },
        };
        let v5 = match F::decode(d) {
            Ok(v) => v,
            Err(e) => {
                return Err(e);
            },
        };
        let v6 = match G::decode(d) {
            Ok(v) => v,
            Err(e) => {
                return Err(e);
            },
        };
        let v7 = match H::decode(d) {
            Ok(v) => v,
            Err(e) => {
                return Err(e);
            },
        };
        Ok((v0, v1, v2, v3, v4, v5, v6, v7))
    }
}

impl<
    'src,
    A: BitDecode<'src>,
    B: BitDecode<'src>,
    C: BitDecode<'src>,
    D: BitDecode<'src>,
    E: BitDecode<'src>,
    F: BitDecode<'src>,
    G: BitDecode<'src>,
    H: BitDecode<'src>,
    I: BitDecode<'src>,
> BitDecode<'src> for (A, B, C, D, E, F, G, H, I) {
    open spec fn dec_step(pre: DecView) -> Result<
        ((A::V, B::V, C::V, D::V, E::V, F::V, G::V, H::V, I::V), DecView),
        Error,
    > {
        match A::dec_step(pre) {
            Ok((v0, st1)) => match B::dec_step(st1) {
                Ok((v1, st2)) => match C::dec_step(st2) {
                    Ok((v2, st3)) => match D::dec_step(st3) {
                        Ok((v3, st4)) => match E::dec_step(st4) {
                            Ok((v4, st5)) => match F::dec_step(st5) {
                                Ok((v5, st6)) => match G::dec_step(st6) {
                                    Ok((v6, st7)) => match H::dec_step(st7) {
                                        Ok((v7, st8)) => match I::dec_step(st8) {
                                            Ok((v8, st9)) => Ok(((v0, v1, v2, v3, v4, v5, v6, v7, v8), st9)),
                                            Err(e) => Err(e),
                                        },
                                        Err(e) => Err(e),
                                    },
                                    Err(e) => Err(e),
                                },
                                Err(e) => Err(e),
                            },
                            Err(e) => Err(e),
                        },
                        Err(e) => Err(e),
                    },
                    Err(e) => Err(e),
                },
                Err(e) => Err(e),
            },
            Err(e) => Err(e),
        }
    }

    fn decode(d: &mut Decoder<'src>) -> Result<Self, Error> {
        let v0 = match A::decode(d) {
            Ok(v) => v,
            Err(e) => {
                return Err(e);
            },
        };
        let v1 = match B::decode(d) {
            Ok(v) => v,
            Err(e) => {
                return Err(e);
            },
        };
        let v2 = match C::decode(d) {
            Ok(v) => v,
            Err(e) => {
                return Err(e);
            },
        };
        let v3 = match D::decode(d) {
            Ok(v) => v,
            Err(e) => {
                return Err(e);
            },
        };
        let v4 = match E::decode(d) {
            Ok(v) => v,
            Err(e) => {
                return Err(e);
            },
        };
        let v5 = match F::decode(d) {
            Ok(v) => v,
            Err(e) => {
                return Err(e);
            },
        };
        let v6 = match G::decode(d) {
            Ok(v) => v,
            Err(e) => {
                return Err(e);
            },
        };
        let v7 = match H::decode(d) {
            Ok(v) => v,
            Err(e) => {
                return Err(e);
            },
        };
        let v8 = match I::decode(d) {
            Ok(v) => v,
            Err(e) => {
                return Err(e);
            },
        };
        Ok((v0, v1, v2, v3, v4, v5, v6, v7, v8))
    }
}

impl<
    'src,
    A: BitDecode<'src>,
    B: BitDecode<'src>,
    C: BitDecode<'src>,
    D: BitDecode<'src>,
    E: BitDecode<'src>,
    F: BitDecode<'src>,
    G: BitDecode<'src>,
    H: BitDecode<'src>,
    I: BitDecode<'src>,
    J: BitDecode<'src>,
> BitDecode<'src> for (A, B, C, D, E, F, G, H, I, J) {
    open spec fn dec_step(pre: DecView) -> Result<
        ((A::V, B::V, C::V, D::V, E::V, F::V, G::V, H::V, I::V, J::V), DecView),
        Error,
    > {
        match A::dec_step(pre) {
            Ok((v0, st1)) => match B::dec_step(st1) {
                Ok((v1, st2)) => match C::dec_step(st2) {
                    Ok((v2, st3)) => match D::dec_step(st3) {
                        Ok((v3, st4)) => match E::dec_step(st4) {
                            Ok((v4, st5)) => match F::dec_step(st5) {
                                Ok((v5, st6)) => match G::dec_step(st6) {
                                    Ok((v6, st7)) => match H::dec_step(st7) {
                                        Ok((v7, st8)) => match I::dec_step(st8) {
                                            Ok((v8, st9)) => match J::dec_step(st9) {
                                                Ok((v9, st10)) => Ok(((v0, v1, v2, v3, v4, v5, v6, v7, v8, v9), st10)),
                                                Err(e) => Err(e),
                                            },
                                            Err(e) => Err(e),
                                        },
                                        Err(e) => Err(e),
                                    },
                                    Err(e) => Err(e),
                                },
                                Err(e) => Err(e),
                            },
                            Err(e) => Err(e),
                        },
                        Err(e) => Err(e),
                    },
                    Err(e) => Err(e),
                },
                Err(e) => Err(e),
            },
            Err(e) => Err(e),
        }
    }

    fn decode(d: &mut Decoder<'src>) -> Result<Self, Error> {
        let v0 = match A::decode(d) {
            Ok(v) => v,
            Err(e) => {
                return Err(e);
            },
        };
        let v1 = match B::decode(d) {
            Ok(v) => v,
            Err(e) => {
                return Err(e);
            },
        };
        let v2 = match C::decode(d) {
            Ok(v) => v,
            Err(e) => {
                return Err(e);
            },
        };
        let v3 = match D::decode(d) {
            Ok(v) => v,
            Err(e) => {
                return Err(e);
            },
        };
        let v4 = match E::decode(d) {
            Ok(v) => v,
            Err(e) => {
                return Err(e);
            },
        };
        let v5 = match F::decode(d) {
            Ok(v) => v,
            Err(e) => {
                return Err(e);
            },
        };
        let v6 = match G::decode(d) {
            Ok(v) => v,
            Err(e) => {
                return Err(e);
            },
        };
        let v7 = match H::decode(d) {
            Ok(v) => v,
            Err(e) => {
                return Err(e);
            },
        };
        let v8 = match I::decode(d) {
            Ok(v) => v,
            Err(e) => {
                return Err(e);
            },
        };
        let v9 = match J::decode(d) {
            Ok(v) => v,
            Err(e) => {
                return Err(e);
            },
        };
        Ok((v0, v1, v2, v3, v4, v5, v6, v7, v8, v9))
    }
}

impl<'src> BitDecode<'src> for &'src [u8] {
    open spec fn dec_step(pre: DecView) -> Result<(Seq<u8>, DecView), Error> {
        match dec_blob(pre.src, pre.index) {
            Ok((b, j)) => Ok((b, DecView { index: j, ..pre })),
            Err(e) => Err(e),
        }
    }

    fn decode(d: &mut Decoder<'src>) -> Result<Self, Error> {
        match d.bytes() {
            Ok(b) => {
                proof {
                    assert(b.deep_view() =~= b@);
                }
                Ok(b)
            },
            Err(e) => Err(e),
        }
    }
}

impl<'src> BitDecode<'src> for &'src str {
    open spec fn dec_step(pre: DecView) -> Result<(Seq<char>, DecView), Error> {
        match dec_str(pre.src, pre.index) {
            Ok((cs, j)) => Ok((cs, DecView { index: j, ..pre })),
            Err(e) => Err(e),
        }
    }

    fn decode(d: &mut Decoder<'src>) -> Result<Self, Error> {
        d.string()
    }
}

} // verus!
