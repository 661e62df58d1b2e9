//! The read cursor: an immutable byte sequence and a monotonically
//! advancing consumption offset.  The varint reads peek without consuming,
//! so a caller can check a length prefix before deciding to advance; the
//! length-delimited helpers consume prefix and payload together.

use vstd::prelude::*;
use vstd::slice::{slice_subrange, slice_to_vec};
use vstd::utf8::{decode_utf8, valid_utf8};
use crate::storage::{bytes_advance, bytes_as_slice, bytes_view};
use crate::varint::{
    decode_varint_u16, decode_varint_u32, decode_varint_u64, varint_decoded, varint_len,
};
use crate::zigzag::{
    unzigzag, zig_zag_decode_i16, zig_zag_decode_i32, zig_zag_decode_i64,
};

verus! {

/// What `String::from_utf8_lossy` makes of a byte sequence: a function of
/// the bytes alone.
pub uninterp spec fn lossy_utf8(bytes: Seq<u8>) -> Seq<char>;

/// Relies on String::from_utf8_lossy: decodes UTF-8, substituting the
/// replacement character for invalid sequences, and passes valid UTF-8
/// through unchanged; the result depends on the bytes alone.
#[verifier::external_body]
fn utf8_lossy(b: &[u8]) -> (r: String)
    ensures
        r@ == lossy_utf8(b@),
        valid_utf8(b@) ==> r@ == decode_utf8(b@),
{
    String::from_utf8_lossy(b).to_string()
}

/// An immutable input buffer with a monotonic consumption offset.
pub struct XBRead {
    buffer: bytes::Bytes,
}

impl XBRead {
    /// The bytes not yet consumed, in order.
    pub closed spec fn buf(&self) -> Seq<u8> {
        bytes_view(self.buffer)
    }

    /// A cursor over the whole of `buff`.
    pub fn new(buff: bytes::Bytes) -> (r: XBRead)
        ensures
            r.buf() == bytes_view(buff),
    {
        XBRead { buffer: buff }
    }

    /// How many bytes are left.
    pub fn remaining(&self) -> (r: usize)
        ensures
            r == self.buf().len(),
    {
        bytes_as_slice(&self.buffer).len()
    }

    /// A borrowed view of the bytes not yet consumed.
    pub fn bytes(&self) -> (r: &[u8])
        ensures
            r@ == self.buf(),
    {
        bytes_as_slice(&self.buffer)
    }

    /// Consume `cnt` bytes.  Consuming past the end is a caller error, kept
    /// out by the bound.
    pub fn advance(&mut self, cnt: usize)
        requires
            cnt <= old(self).buf().len(),
        ensures
            final(self).buf() == old(self).buf().skip(cnt as int),
    {
        bytes_advance(&mut self.buffer, cnt);
    }

    /// Peek a 16-bit varint at the cursor: `(bytes consumed, value)`, with
    /// consumed length 0 on a truncated or overlong encoding.  The cursor
    /// does not move.
    pub fn read_bit7_u16(&self) -> (r: (usize, u16))
        ensures
            r.0 == varint_len(self.buf(), 3),
            r.1 as nat == varint_decoded(self.buf(), 3, 0x10000),
            r.0 <= self.buf().len(),
    {
        decode_varint_u16(bytes_as_slice(&self.buffer))
    }

    /// Peek a 16-bit varint and zigzag-decode it.  The cursor does not
    /// move.
    pub fn read_bit7_i16(&self) -> (r: (usize, i16))
        ensures
            r.0 == varint_len(self.buf(), 3),
            r.1 as int == unzigzag(varint_decoded(self.buf(), 3, 0x10000) as int),
            r.0 <= self.buf().len(),
    {
        let (offset, v) = self.read_bit7_u16();
        let v = zig_zag_decode_i16(v);
        (offset, v)
    }

    /// Peek a 32-bit varint at the cursor: `(bytes consumed, value)`, with
    /// consumed length 0 on a truncated or overlong encoding.  The cursor
    /// does not move.
    pub fn read_bit7_u32(&self) -> (r: (usize, u32))
        ensures
            r.0 == varint_len(self.buf(), 5),
            r.1 as nat == varint_decoded(self.buf(), 5, 0x100000000),
            r.0 <= self.buf().len(),
    {
        decode_varint_u32(bytes_as_slice(&self.buffer))
    }

    /// Peek a 32-bit varint and zigzag-decode it.  The cursor does not
    /// move.
    pub fn read_bit7_i32(&self) -> (r: (usize, i32))
        ensures
            r.0 == varint_len(self.buf(), 5),
            r.1 as int == unzigzag(varint_decoded(self.buf(), 5, 0x100000000) as int),
            r.0 <= self.buf().len(),
    {
        let (offset, v) = self.read_bit7_u32();
        let v = zig_zag_decode_i32(v);
        (offset, v)
    }

    /// Peek a 64-bit varint at the cursor: `(bytes consumed, value)`, with
    /// consumed length 0 on a truncated or overlong encoding.  The cursor
    /// does not move.
    pub fn read_bit7_u64(&self) -> (r: (usize, u64))
        ensures
            r.0 == varint_len(self.buf(), 10),
            r.1 as nat == varint_decoded(self.buf(), 10, 0x10000000000000000),
            r.0 <= self.buf().len(),
    {
        decode_varint_u64(bytes_as_slice(&self.buffer))
    }

    /// Peek a 64-bit varint and zigzag-decode it.  The cursor does not
    /// move.
    pub fn read_bit7_i64(&self) -> (r: (usize, i64))
        ensures
            r.0 == varint_len(self.buf(), 10),
            r.1 as int == unzigzag(varint_decoded(self.buf(), 10, 0x10000000000000000) as int),
            r.0 <= self.buf().len(),
    {
        let (offset, v) = self.read_bit7_u64();
        let v = zig_zag_decode_i64(v);
        (offset, v)
    }

    /// Consume `len` bytes and decode them as UTF-8 with lossy
    /// substitution.  Reading past the end is a caller error, kept out by
    /// the bound.
    pub fn read_string(&mut self, len: usize) -> (r: String)
        requires
            len <= old(self).buf().len(),
        ensures
            r@ == lossy_utf8(old(self).buf().take(len as int)),
            final(self).buf() == old(self).buf().skip(len as int),
    {
        let s = bytes_as_slice(&self.buffer);
        let part = slice_subrange(s, 0, len);
        let out = utf8_lossy(part);
        self.advance(len);
        out
    }

    /// Consume `len` bytes.  Reading past the end is a caller error, kept
    /// out by the bound.
    pub fn read_vec(&mut self, len: usize) -> (r: Vec<u8>)
        requires
            len <= old(self).buf().len(),
        ensures
            r@ == old(self).buf().take(len as int),
            final(self).buf() == old(self).buf().skip(len as int),
    {
        let s = bytes_as_slice(&self.buffer);
        let part = slice_subrange(s, 0, len);
        let out = slice_to_vec(part);
        self.advance(len);
        out
    }

    /// Read a bit7 length prefix and then that many bytes as a string.  A
    /// failed prefix decode and a decoded length of zero both yield no
    /// value and leave the cursor alone; otherwise the cursor passes the
    /// prefix and the payload.  The caller must know the payload fits.
    pub fn read_string_bit7_len(&mut self) -> (r: Option<String>)
        requires
            ({
                let n = varint_len(old(self).buf(), 5);
                let l = varint_decoded(old(self).buf(), 5, 0x100000000);
                n != 0 && l != 0 ==> n + l <= old(self).buf().len()
            }),
        ensures
            ({
                let n = varint_len(old(self).buf(), 5);
                let l = varint_decoded(old(self).buf(), 5, 0x100000000);
                if n == 0 || l == 0 {
                    r is None && final(self).buf() == old(self).buf()
                } else {
                    r matches Some(s) && s@ == lossy_utf8(
                        old(self).buf().subrange(n as int, n + l as int),
                    ) && final(self).buf() == old(self).buf().skip(n + l as int)
                }
            }),
    {
        let (offset, len) = self.read_bit7_u32();
        if offset == 0 || len == 0 {
            None
        } else {
            self.advance(offset);
            let out = self.read_string(len as usize);
            proof {
                let n = varint_len(old(self).buf(), 5) as int;
                let l = varint_decoded(old(self).buf(), 5, 0x100000000) as int;
                assert(old(self).buf().skip(n).take(l) =~= old(self).buf().subrange(n, n + l));
                assert(old(self).buf().skip(n).skip(l) =~= old(self).buf().skip(n + l));
            }
            Some(out)
        }
    }

    /// Read a bit7 length prefix and then that many raw bytes.  A failed
    /// prefix decode and a decoded length of zero both yield no value and
    /// leave the cursor alone; otherwise the cursor passes the prefix and
    /// the payload.  The caller must know the payload fits.
    pub fn read_vec_bit7_len(&mut self) -> (r: Option<Vec<u8>>)
        requires
            ({
                let n = varint_len(old(self).buf(), 5);
                let l = varint_decoded(old(self).buf(), 5, 0x100000000);
                n != 0 && l != 0 ==> n + l <= old(self).buf().len()
            }),
        ensures
            ({
                let n = varint_len(old(self).buf(), 5);
                let l = varint_decoded(old(self).buf(), 5, 0x100000000);
                if n == 0 || l == 0 {
                    r is None && final(self).buf() == old(self).buf()
                } else {
                    r matches Some(v) && v@ == old(self).buf().subrange(n as int, n + l as int)
                        && final(self).buf() == old(self).buf().skip(n + l as int)
                }
            }),
    {
        let (offset, len) = self.read_bit7_u32();
        if offset == 0 || len == 0 {
            None
        } else {
            self.advance(offset);
            let out = self.read_vec(len as usize);
            proof {
                let n = varint_len(old(self).buf(), 5) as int;
                let l = varint_decoded(old(self).buf(), 5, 0x100000000) as int;
                assert(old(self).buf().skip(n).take(l) =~= old(self).buf().subrange(n, n + l));
                assert(old(self).buf().skip(n).skip(l) =~= old(self).buf().skip(n + l));
            }
            Some(out)
        }
    }

    /// Consume a 4-byte little-endian integer.  Reading past the end is a
    /// caller error, kept out by the bound.
    pub fn get_u32_le(&mut self) -> (r: u32)
        requires
            old(self).buf().len() >= 4,
        ensures
            r as nat == le32_at(old(self).buf()),
            final(self).buf() == old(self).buf().skip(4),
    {
        let s = bytes_as_slice(&self.buffer);
        let b0: u32 = s[0] as u32;
        let b1: u32 = s[1] as u32;
        let b2: u32 = s[2] as u32;
        let b3: u32 = s[3] as u32;
        let v: u32 = b0 + 256 * (b1 + 256 * (b2 + 256 * b3));
        self.advance(4);
        v
    }

    /// Read a 4-byte little-endian length prefix and then that many bytes
    /// as a string.  A length of zero yields no value with only the prefix
    /// consumed.  The caller must know the prefix and payload fit.
    pub fn read_string_u32_le(&mut self) -> (r: Option<String>)
        requires
            old(self).buf().len() >= 4,
            le32_at(old(self).buf()) != 0 ==> 4 + le32_at(old(self).buf()) <= old(
                self,
            ).buf().len(),
        ensures
            ({
                let l = le32_at(old(self).buf());
                if l == 0 {
                    r is None && final(self).buf() == old(self).buf().skip(4)
                } else {
                    r matches Some(s) && s@ == lossy_utf8(
                        old(self).buf().subrange(4, 4 + l as int),
                    ) && final(self).buf() == old(self).buf().skip(4 + l as int)
                }
            }),
    {
        let len = self.get_u32_le();
        if len == 0 {
            None
        } else {
            let out = self.read_string(len as usize);
            proof {
                let l = le32_at(old(self).buf()) as int;
                assert(old(self).buf().skip(4).take(l) =~= old(self).buf().subrange(4, 4 + l));
                assert(old(self).buf().skip(4).skip(l) =~= old(self).buf().skip(4 + l));
            }
            Some(out)
        }
    }

    /// Read a 4-byte little-endian length prefix and then that many raw
    /// bytes.  A length of zero yields no value with only the prefix
    /// consumed.  The caller must know the prefix and payload fit.
    pub fn read_vec_u32_le(&mut self) -> (r: Option<Vec<u8>>)
        requires
            old(self).buf().len() >= 4,
            le32_at(old(self).buf()) != 0 ==> 4 + le32_at(old(self).buf()) <= old(
                self,
            ).buf().len(),
        ensures
            ({
                let l = le32_at(old(self).buf());
                if l == 0 {
                    r is None && final(self).buf() == old(self).buf().skip(4)
                } else {
                    r matches Some(v) && v@ == old(self).buf().subrange(4, 4 + l as int)
                        && final(self).buf() == old(self).buf().skip(4 + l as int)
                }
            }),
    {
        let len = self.get_u32_le();
        if len == 0 {
            None
        } else {
            let out = self.read_vec(len as usize);
            proof {
                let l = le32_at(old(self).buf()) as int;
                assert(old(self).buf().skip(4).take(l) =~= old(self).buf().subrange(4, 4 + l));
                assert(old(self).buf().skip(4).skip(l) =~= old(self).buf().skip(4 + l));
            }
            Some(out)
        }
    }
}

/// The unsigned value of the first four bytes of `s`, little-endian.
pub open spec fn le32_at(s: Seq<u8>) -> nat
    recommends
        s.len() >= 4,
{
    (s[0] as nat) + 256 * ((s[1] as nat) + 256 * ((s[2] as nat) + 256 * (s[3] as nat)))
}

/// The fixed-width length prefix round-trips: reading back the four bytes
/// the write cursor lays down yields the prefixed value, whatever follows
/// them.
pub proof fn lemma_le32_round_trip(v: nat, tail: Seq<u8>)
    requires
        v < 0x100000000,
    ensures
        le32_at(crate::writer::le32_bytes(v) + tail) == v,
{
    let e = crate::writer::le32_bytes(v);
    let s = e + tail;
    assert(s[0] == e[0] && s[1] == e[1] && s[2] == e[2] && s[3] == e[3]);
    assert((v % 256) + 256 * (((v / 256) % 256) + 256 * (((v / 65536) % 256) + 256 * ((v
        / 16777216) % 256))) == v) by (nonlinear_arith)
        requires
            v < 0x100000000,
    ;
}

} // verus!
