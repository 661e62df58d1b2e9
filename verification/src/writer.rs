//! The write cursor: a growable byte buffer and a movable write position.
//! Writes overwrite in place and grow the buffer exactly enough to fit,
//! zero-filling any gap; the position can be moved anywhere within the
//! current length to patch earlier bytes.

use vstd::prelude::*;
use crate::storage::{
    bytes_mut_copy_at, bytes_mut_len, bytes_mut_new, bytes_mut_resize, bytes_mut_to_vec,
    bytes_mut_view,
};
use crate::varint::{
    encode_varint_u16, encode_varint_u32, encode_varint_u64, varint_encode,
};
use crate::zigzag::{zig_zag_encode_u16, zig_zag_encode_u32, zig_zag_encode_u64, zigzag};
use vstd::utf8::encode_utf8;

verus! {

/// The buffer that results from writing `data` into `buf` at `pos`: bytes
/// under the write keep their value, the written range holds `data`, and
/// the buffer grows to exactly `pos + data.len()` when the write passes the
/// end, zero-filling any gap below the write position.
pub open spec fn write_effect(buf: Seq<u8>, pos: int, data: Seq<u8>) -> Seq<u8>
    recommends
        0 <= pos,
{
    let newlen = if pos + data.len() > buf.len() {
        pos + data.len()
    } else {
        buf.len() as int
    };
    Seq::new(
        newlen as nat,
        |i: int|
            if pos <= i < pos + data.len() {
                data[i - pos]
            } else if 0 <= i < buf.len() {
                buf[i]
            } else {
                0u8
            },
    )
}

/// Two writes at consecutive positions amount to one write of the
/// concatenated data.
pub proof fn lemma_write_effect_concat(buf: Seq<u8>, pos: int, d1: Seq<u8>, d2: Seq<u8>)
    requires
        0 <= pos,
    ensures
        write_effect(write_effect(buf, pos, d1), pos + d1.len(), d2) == write_effect(
            buf,
            pos,
            d1 + d2,
        ),
{
    let lhs = write_effect(write_effect(buf, pos, d1), pos + d1.len(), d2);
    let rhs = write_effect(buf, pos, d1 + d2);
    assert forall|i: int| 0 <= i < lhs.len() implies lhs[i] == rhs[i] by {
        if pos <= i < pos + d1.len() + d2.len() {
            assert((d1 + d2)[i - pos] == (if i - pos < d1.len() {
                d1[i - pos]
            } else {
                d2[i - pos - d1.len()]
            }));
        }
    }
    assert(lhs =~= rhs);
}

/// Growth law: a write that passes the current end grows the buffer to
/// exactly `pos + data.len()`, and any bytes between the old end and the
/// write position are zero-filled.
pub proof fn lemma_write_effect_growth(buf: Seq<u8>, pos: int, data: Seq<u8>)
    requires
        0 <= pos,
        buf.len() < pos + data.len(),
    ensures
        write_effect(buf, pos, data).len() == pos + data.len(),
        forall|i: int| buf.len() <= i < pos ==> write_effect(buf, pos, data)[i] == 0,
        forall|i: int|
            pos <= i < pos + data.len() ==> write_effect(buf, pos, data)[i] == data[i - pos],
        forall|i: int| 0 <= i < buf.len() && i < pos ==> write_effect(buf, pos, data)[i] == buf[i],
{
}

/// A growable output buffer with a movable write position.
#[derive(Debug)]
pub struct XBWrite {
    buffer: bytes::BytesMut,
    position: usize,
}

impl XBWrite {
    /// The bytes the cursor has accumulated, from the start of the buffer
    /// to its logical length (which may exceed the position after a
    /// rewind).
    pub closed spec fn buf(&self) -> Seq<u8> {
        bytes_mut_view(self.buffer)
    }

    /// The current write position.
    pub closed spec fn pos(&self) -> nat {
        self.position as nat
    }

    /// The cursor's invariant: the position never passes the buffer's
    /// length.
    pub closed spec fn wf(&self) -> bool {
        self.position <= bytes_mut_view(self.buffer).len()
    }

    /// A fresh cursor over an empty buffer.
    pub fn new() -> (r: XBWrite)
        ensures
            r.wf(),
            r.buf() == Seq::<u8>::empty(),
            r.pos() == 0,
    {
        XBWrite { buffer: bytes_mut_new(), position: 0 }
    }

    /// The buffer's logical length.
    pub fn len(&self) -> (r: usize)
        ensures
            r == self.buf().len(),
    {
        bytes_mut_len(&self.buffer)
    }

    /// Truncate the buffer to empty and rewind the position, so the cursor
    /// can be reused.
    pub fn reset(&mut self)
        ensures
            final(self).wf(),
            final(self).buf() == Seq::<u8>::empty(),
            final(self).pos() == 0,
    {
        bytes_mut_resize(&mut self.buffer, 0, 0);
        self.position = 0;
        proof {
            assert(self.buf() =~= Seq::<u8>::empty());
        }
    }

    /// The current write position.
    pub fn get_position(&self) -> (r: usize)
        ensures
            r == self.pos(),
    {
        self.position
    }

    /// Move the write position: succeeds if and only if the target lies
    /// within `[0, length]`, and changes nothing on failure.
    pub fn set_position(&mut self, position: usize) -> (r: bool)
        ensures
            r == (position <= old(self).buf().len()),
            final(self).buf() == old(self).buf(),
            r ==> final(self).pos() == position,
            !r ==> final(self).pos() == old(self).pos(),
            old(self).wf() ==> final(self).wf(),
    {
        if position > bytes_mut_len(&self.buffer) {
            return false;
        }
        self.position = position;
        true
    }

    /// Grow the buffer just enough that `put_len` bytes fit at the current
    /// position, zero-filling the new bytes, and hand `put_len` back.
    pub fn check_resize(&mut self, put_len: usize) -> (r: usize)
        requires
            old(self).wf(),
            old(self).pos() + put_len <= usize::MAX,
        ensures
            r == put_len,
            final(self).wf(),
            final(self).pos() == old(self).pos(),
            final(self).buf().len() == (if old(self).pos() + put_len > old(self).buf().len() {
                old(self).pos() + put_len
            } else {
                old(self).buf().len() as int
            }),
            forall|i: int|
                0 <= i < final(self).buf().len() ==> final(self).buf()[i] == (if i < old(
                    self,
                ).buf().len() {
                    old(self).buf()[i]
                } else {
                    0u8
                }),
    {
        let len = bytes_mut_len(&self.buffer);
        let have: usize = len - self.position;
        if put_len > have {
            let need: usize = put_len - have;
            bytes_mut_resize(&mut self.buffer, len + need, 0);
        }
        put_len
    }

    /// Copy `buff` in at the current position, growing the buffer exactly
    /// enough to fit, and advance the position past it.
    pub fn write(&mut self, buff: &[u8])
        requires
            old(self).wf(),
            old(self).pos() + buff@.len() <= usize::MAX,
        ensures
            final(self).wf(),
            final(self).pos() == old(self).pos() + buff@.len(),
            final(self).buf() == write_effect(old(self).buf(), old(self).pos() as int, buff@),
    {
        let n = buff.len();
        self.check_resize(n);
        bytes_mut_copy_at(&mut self.buffer, self.position, buff);
        self.position = self.position + n;
        proof {
            let eff = write_effect(old(self).buf(), old(self).pos() as int, buff@);
            assert forall|i: int| 0 <= i < self.buf().len() implies self.buf()[i] == eff[i] by {}
            assert(self.buf() =~= eff);
        }
    }

    /// Write the slice's length as a bit7 varint, then the slice.
    pub fn write_bit7_len(&mut self, buff: &[u8])
        requires
            old(self).wf(),
            buff@.len() <= u32::MAX,
            old(self).pos() + varint_encode(buff@.len()).len() + buff@.len() <= usize::MAX,
        ensures
            final(self).wf(),
            final(self).pos() == old(self).pos() + varint_encode(buff@.len()).len() + buff@.len(),
            final(self).buf() == write_effect(
                old(self).buf(),
                old(self).pos() as int,
                varint_encode(buff@.len()) + buff@,
            ),
    {
        self.bit7_write_u32(buff.len() as u32);
        self.write(buff);
        proof {
            lemma_write_effect_concat(
                old(self).buf(),
                old(self).pos() as int,
                varint_encode(buff@.len()),
                buff@,
            );
        }
    }

    /// Write the slice's length as a 4-byte little-endian integer, then the
    /// slice.
    pub fn write_u32_len(&mut self, buff: &[u8])
        requires
            old(self).wf(),
            buff@.len() <= u32::MAX,
            old(self).pos() + 4 + buff@.len() <= usize::MAX,
        ensures
            final(self).wf(),
            final(self).pos() == old(self).pos() + 4 + buff@.len(),
            final(self).buf() == write_effect(
                old(self).buf(),
                old(self).pos() as int,
                le32_bytes(buff@.len()) + buff@,
            ),
    {
        self.put_u32_le(buff.len() as u32);
        self.write(buff);
        proof {
            lemma_write_effect_concat(
                old(self).buf(),
                old(self).pos() as int,
                le32_bytes(buff@.len()),
                buff@,
            );
        }
    }

    /// Write the 4-byte little-endian form of `value` at the current
    /// position.
    pub fn put_u32_le(&mut self, value: u32)
        requires
            old(self).wf(),
            old(self).pos() + 4 <= usize::MAX,
        ensures
            final(self).wf(),
            final(self).pos() == old(self).pos() + 4,
            final(self).buf() == write_effect(
                old(self).buf(),
                old(self).pos() as int,
                le32_bytes(value as nat),
            ),
    {
        let bytes = u32_le_vec(value);
        self.write(bytes.as_slice());
    }

    /// Write the UTF-8 bytes of `str`, with no prefix or terminator.
    pub fn write_string(&mut self, str: &str)
        requires
            old(self).wf(),
            old(self).pos() + encode_utf8(str@).len() <= usize::MAX,
        ensures
            final(self).wf(),
            final(self).pos() == old(self).pos() + encode_utf8(str@).len(),
            final(self).buf() == write_effect(
                old(self).buf(),
                old(self).pos() as int,
                encode_utf8(str@),
            ),
    {
        self.write(str.as_bytes());
    }

    /// Write the UTF-8 bytes of `str`, prefixed by their length as a bit7
    /// varint.
    pub fn write_string_bit7_len(&mut self, str: &str)
        requires
            old(self).wf(),
            encode_utf8(str@).len() <= u32::MAX,
            old(self).pos() + varint_encode(encode_utf8(str@).len()).len() + encode_utf8(
                str@,
            ).len() <= usize::MAX,
        ensures
            final(self).wf(),
            final(self).pos() == old(self).pos() + varint_encode(encode_utf8(str@).len()).len()
                + encode_utf8(str@).len(),
            final(self).buf() == write_effect(
                old(self).buf(),
                old(self).pos() as int,
                varint_encode(encode_utf8(str@).len()) + encode_utf8(str@),
            ),
    {
        self.write_bit7_len(str.as_bytes());
    }

    /// Write the UTF-8 bytes of `str`, prefixed by their length as a 4-byte
    /// little-endian integer.
    pub fn write_string_u32_le_len(&mut self, str: &str)
        requires
            old(self).wf(),
            encode_utf8(str@).len() <= u32::MAX,
            old(self).pos() + 4 + encode_utf8(str@).len() <= usize::MAX,
        ensures
            final(self).wf(),
            final(self).pos() == old(self).pos() + 4 + encode_utf8(str@).len(),
            final(self).buf() == write_effect(
                old(self).buf(),
                old(self).pos() as int,
                le32_bytes(encode_utf8(str@).len()) + encode_utf8(str@),
            ),
    {
        self.write_u32_len(str.as_bytes());
    }

    /// Write `value` in the bit7 encoding.
    pub fn bit7_write_u16(&mut self, value: u16)
        requires
            old(self).wf(),
            old(self).pos() + varint_encode(value as nat).len() <= usize::MAX,
        ensures
            final(self).wf(),
            final(self).pos() == old(self).pos() + varint_encode(value as nat).len(),
            final(self).buf() == write_effect(
                old(self).buf(),
                old(self).pos() as int,
                varint_encode(value as nat),
            ),
    {
        let enc = encode_varint_u16(value);
        self.write(enc.as_slice());
    }

    /// Zigzag-map `value`, then write it in the bit7 encoding.
    pub fn bit7_write_i16(&mut self, value: i16)
        requires
            old(self).wf(),
            old(self).pos() + varint_encode(zigzag(value as int) as nat).len() <= usize::MAX,
        ensures
            final(self).wf(),
            final(self).pos() == old(self).pos() + varint_encode(zigzag(value as int) as nat).len(),
            final(self).buf() == write_effect(
                old(self).buf(),
                old(self).pos() as int,
                varint_encode(zigzag(value as int) as nat),
            ),
    {
        self.bit7_write_u16(zig_zag_encode_u16(value));
    }

    /// Write `value` in the bit7 encoding.
    pub fn bit7_write_u32(&mut self, value: u32)
        requires
            old(self).wf(),
            old(self).pos() + varint_encode(value as nat).len() <= usize::MAX,
        ensures
            final(self).wf(),
            final(self).pos() == old(self).pos() + varint_encode(value as nat).len(),
            final(self).buf() == write_effect(
                old(self).buf(),
                old(self).pos() as int,
                varint_encode(value as nat),
            ),
    {
        let enc = encode_varint_u32(value);
        self.write(enc.as_slice());
    }

    /// Zigzag-map `value`, then write it in the bit7 encoding.
    pub fn bit7_write_i32(&mut self, value: i32)
        requires
            old(self).wf(),
            old(self).pos() + varint_encode(zigzag(value as int) as nat).len() <= usize::MAX,
        ensures
            final(self).wf(),
            final(self).pos() == old(self).pos() + varint_encode(zigzag(value as int) as nat).len(),
            final(self).buf() == write_effect(
                old(self).buf(),
                old(self).pos() as int,
                varint_encode(zigzag(value as int) as nat),
            ),
    {
        self.bit7_write_u32(zig_zag_encode_u32(value));
    }

    /// Write `value` in the bit7 encoding.
    pub fn bit7_write_u64(&mut self, value: u64)
        requires
            old(self).wf(),
            old(self).pos() + varint_encode(value as nat).len() <= usize::MAX,
        ensures
            final(self).wf(),
            final(self).pos() == old(self).pos() + varint_encode(value as nat).len(),
            final(self).buf() == write_effect(
                old(self).buf(),
                old(self).pos() as int,
                varint_encode(value as nat),
            ),
    {
        let enc = encode_varint_u64(value);
        self.write(enc.as_slice());
    }

    /// Zigzag-map `value`, then write it in the bit7 encoding.
    pub fn bit7_write_i64(&mut self, value: i64)
        requires
            old(self).wf(),
            old(self).pos() + varint_encode(zigzag(value as int) as nat).len() <= usize::MAX,
        ensures
            final(self).wf(),
            final(self).pos() == old(self).pos() + varint_encode(zigzag(value as int) as nat).len(),
            final(self).buf() == write_effect(
                old(self).buf(),
                old(self).pos() as int,
                varint_encode(zigzag(value as int) as nat),
            ),
    {
        self.bit7_write_u64(zig_zag_encode_u64(value));
    }

    /// An owned copy of every byte up to the buffer's logical length.
    pub fn to_vec(&self) -> (r: Vec<u8>)
        ensures
            r@ == self.buf(),
    {
        bytes_mut_to_vec(&self.buffer)
    }

    /// Hand over the backing buffer.
    pub fn flush(self) -> (r: bytes::BytesMut)
        ensures
            bytes_mut_view(r) == self.buf(),
    {
        self.buffer
    }
}

/// The 4-byte little-endian form of an unsigned 32-bit value.
pub open spec fn le32_bytes(v: nat) -> Seq<u8> {
    seq![
        (v % 256) as u8,
        ((v / 256) % 256) as u8,
        ((v / 65536) % 256) as u8,
        ((v / 16777216) % 256) as u8,
    ]
}

fn u32_le_vec(v: u32) -> (r: Vec<u8>)
    ensures
        r@ == le32_bytes(v as nat),
{
    let mut out: Vec<u8> = Vec::new();
    out.push((v % 256) as u8);
    out.push((v / 256 % 256) as u8);
    out.push((v / 65536 % 256) as u8);
    out.push((v / 16777216 % 256) as u8);
    proof {
        assert(out@ =~= le32_bytes(v as nat));
    }
    out
}

} // verus!
