//! Variable-length ("bit7") encoding of unsigned integers: each byte carries
//! seven data bits in its low bits and a continuation flag in its high bit,
//! least-significant group first.

use vstd::prelude::*;

verus! {

/// The bit7 encoding of an unsigned value: 7 data bits per byte, low group
/// first, the high bit of every byte but the last set.
pub open spec fn varint_encode(v: nat) -> Seq<u8>
    decreases v,
{
    if v < 128 {
        seq![v as u8]
    } else {
        seq![(v % 128 + 128) as u8] + varint_encode(v / 128)
    }
}

/// Powers of 128, the weight of each 7-bit group.
pub open spec fn pow128(n: nat) -> nat
    decreases n,
{
    if n == 0 {
        1
    } else {
        128 * pow128((n - 1) as nat)
    }
}

/// The number of bytes a decoder limited to `max` groups consumes from `s`:
/// the index just past the first byte with a clear continuation flag, or 0
/// when no such byte occurs within the first `max` bytes of the buffer.
pub open spec fn varint_len(s: Seq<u8>, max: nat) -> nat
    decreases max,
{
    if max == 0 || s.len() == 0 {
        0
    } else if s[0] < 128 {
        1
    } else {
        let rest = varint_len(s.skip(1), (max - 1) as nat);
        if rest == 0 {
            0
        } else {
            rest + 1
        }
    }
}

/// The value carried by the first `n` groups of `s`, before any truncation
/// to a target width: the low 7 bits of each byte, weighted little-endian.
pub open spec fn varint_raw(s: Seq<u8>, n: nat) -> nat
    decreases n,
{
    if n == 0 || s.len() == 0 {
        0
    } else {
        (s[0] as nat) % 128 + 128 * varint_raw(s.skip(1), (n - 1) as nat)
    }
}

/// The value a decoder limited to `max` groups returns for `s`, reduced to a
/// target width by `modulus`: 0 on a failed decode.
pub open spec fn varint_decoded(s: Seq<u8>, max: nat, modulus: nat) -> nat {
    if varint_len(s, max) == 0 {
        0
    } else {
        varint_raw(s, varint_len(s, max)) % modulus
    }
}

pub proof fn lemma_pow128_values()
    ensures
        pow128(0) == 1,
        pow128(1) == 128,
        pow128(2) == 0x4000,
        pow128(3) == 0x200000,
        pow128(4) == 0x10000000,
        pow128(5) == 0x800000000,
        pow128(10) == 0x400000000000000000,
{
    assert(pow128(0) == 1);
    assert(pow128(1) == 128);
    assert(pow128(2) == 0x4000);
    assert(pow128(3) == 0x200000);
    assert(pow128(4) == 0x10000000);
    assert(pow128(5) == 0x800000000);
    assert(pow128(6) == 0x40000000000);
    assert(pow128(7) == 0x2000000000000);
    assert(pow128(8) == 0x100000000000000);
    assert(pow128(9) == 0x8000000000000000);
    assert(pow128(10) == 0x400000000000000000);
}

pub proof fn lemma_pow128_pos(n: nat)
    ensures
        pow128(n) >= 1,
    decreases n,
{
    if n > 0 {
        lemma_pow128_pos((n - 1) as nat);
        assert(pow128(n) == 128 * pow128((n - 1) as nat));
    }
}

pub proof fn lemma_pow128_mono(a: nat, b: nat)
    requires
        a <= b,
    ensures
        pow128(a) <= pow128(b),
        pow128(a) >= 1,
    decreases b,
{
    lemma_pow128_pos(a);
    if a < b {
        lemma_pow128_mono(a, (b - 1) as nat);
        assert(pow128(b) == 128 * pow128((b - 1) as nat));
    }
}

/// Consuming one more group adds its 7 data bits at the next weight.
#[verifier::spinoff_prover]
#[verifier::rlimit(60)]
pub proof fn lemma_varint_raw_extend(s: Seq<u8>, g: nat)
    requires
        g < s.len(),
    ensures
        varint_raw(s, g + 1) == varint_raw(s, g) + (s[g as int] as nat % 128) * pow128(g),
    decreases g,
{
    if g == 0 {
        assert(varint_raw(s, 1) == (s[0] as nat) % 128 + 128 * varint_raw(s.skip(1), 0));
        assert(varint_raw(s.skip(1), 0) == 0);
        assert(varint_raw(s, 0) == 0);
        assert(pow128(0) == 1);
        assert(varint_raw(s, g + 1) == varint_raw(s, g) + (s[g as int] as nat % 128) * pow128(g));
    } else {
        let s1 = s.skip(1);
        lemma_varint_raw_extend(s1, (g - 1) as nat);
        let a = varint_raw(s1, (g - 1) as nat);
        let x = (s[g as int] as nat) % 128;
        let p = pow128((g - 1) as nat);
        let h = (s[0] as nat) % 128;
        assert(s1[g - 1] == s[g as int]);
        assert((s1[g - 1] as nat) % 128 == x);
        assert(varint_raw(s1, (g - 1) as nat + 1) == a + x * p);
        assert(varint_raw(s1, g) == a + x * p);
        assert(varint_raw(s, g + 1) == h + 128 * varint_raw(s1, g));
        assert(varint_raw(s, g) == h + 128 * a);
        assert(pow128(g) == 128 * p);
        assert(h + 128 * (a + x * p) == (h + 128 * a) + x * (128 * p)) by (nonlinear_arith);
        assert(varint_raw(s, g + 1) == varint_raw(s, g) + x * pow128(g));
        assert(varint_raw(s, g + 1) == varint_raw(s, g) + (s[g as int] as nat % 128) * pow128(g));
    }
}

/// A terminator at index `k`, with continuation flags before it, pins the
/// consumed length to `k + 1`.
pub proof fn lemma_varint_len_terminated(s: Seq<u8>, k: nat, max: nat)
    requires
        k < s.len(),
        k < max,
        forall|j: int| 0 <= j < k ==> s[j] >= 128,
        s[k as int] < 128,
    ensures
        varint_len(s, max) == k + 1,
    decreases k,
{
    if k == 0 {
    } else {
        assert(s[0] >= 128);
        assert(s.skip(1)[k - 1] == s[k as int]);
        assert(forall|j: int| 0 <= j < k - 1 ==> s.skip(1)[j] == s[j + 1] && s[j + 1] >= 128);
        lemma_varint_len_terminated(s.skip(1), (k - 1) as nat, (max - 1) as nat);
    }
}

/// With no terminator within reach the decode consumes nothing.
pub proof fn lemma_varint_len_unterminated(s: Seq<u8>, max: nat)
    requires
        forall|j: int| 0 <= j < max && j < s.len() ==> s[j] >= 128,
    ensures
        varint_len(s, max) == 0,
    decreases max,
{
    if max == 0 || s.len() == 0 {
    } else {
        assert(s[0] >= 128);
        assert(forall|j: int| 0 <= j < max - 1 && j < s.skip(1).len() ==> s.skip(1)[j] == s[j + 1]
            && s[j + 1] >= 128);
        lemma_varint_len_unterminated(s.skip(1), (max - 1) as nat);
    }
}

pub proof fn lemma_varint_len_le(s: Seq<u8>, max: nat)
    ensures
        varint_len(s, max) <= max,
        varint_len(s, max) <= s.len(),
    decreases max,
{
    if max == 0 || s.len() == 0 {
    } else if s[0] < 128 {
    } else {
        lemma_varint_len_le(s.skip(1), (max - 1) as nat);
    }
}

/// Encode to the bit7 wire form.  The result has between 1 and ceil(W/7)
/// bytes for a W-bit value; only its last byte has the continuation flag
/// clear.
pub fn encode_varint_u64(value: u64) -> (r: Vec<u8>)
    ensures
        r@ == varint_encode(value as nat),
{
    let mut out: Vec<u8> = Vec::new();
    let mut v: u64 = value;
    while v >= 128
        invariant
            out@ + varint_encode(v as nat) == varint_encode(value as nat),
        decreases v,
    {
        let b: u8 = (v % 128 + 128) as u8;
        let ghost prev = out@;
        out.push(b);
        proof {
            assert(varint_encode(v as nat) == seq![b] + varint_encode((v / 128) as nat));
            assert(out@ + varint_encode((v / 128) as nat) =~= prev + varint_encode(v as nat));
        }
        v = v / 128;
    }
    let ghost prev = out@;
    out.push(v as u8);
    proof {
        assert(varint_encode(v as nat) == seq![v as u8]);
        assert(out@ =~= prev + varint_encode(v as nat));
    }
    out
}

/// Decode up to `max` 7-bit groups from the front of `s`, before reduction
/// to a target width.  A failed decode (no terminator within reach) returns
/// `(0, 0)`, so a caller tells failure from success by the consumed length
/// alone: a successful decode always consumes at least one byte.
fn decode_varint_raw(s: &[u8], max: usize) -> (r: (usize, u128))
    requires
        1 <= max <= 10,
    ensures
        r.0 == varint_len(s@, max as nat),
        varint_len(s@, max as nat) == 0 ==> r.1 == 0,
        varint_len(s@, max as nat) != 0 ==> r.1 == varint_raw(s@, varint_len(s@, max as nat)),
        r.0 <= s@.len(),
        r.0 <= max,
{
    proof {
        lemma_varint_len_le(s@, max as nat);
    }
    let mut acc: u128 = 0;
    let mut mult: u128 = 1;
    let mut group: usize = 0;
    while group < max
        invariant
            1 <= max <= 10,
            group <= max,
            group <= s@.len(),
            forall|j: int| 0 <= j < group ==> s@[j] >= 128,
            mult == pow128(group as nat),
            acc == varint_raw(s@, group as nat),
            acc < pow128(group as nat),
        decreases max - group,
    {
        if group >= s.len() {
            proof {
                lemma_varint_len_unterminated(s@, max as nat);
            }
            return (0, 0);
        }
        let b: u8 = s[group];
        let x: u128 = (b % 128) as u128;
        proof {
            lemma_varint_raw_extend(s@, group as nat);
            lemma_pow128_mono((group + 1) as nat, max as nat);
            lemma_pow128_mono(max as nat, 10);
            lemma_pow128_values();
            assert(pow128((group + 1) as nat) == 128 * pow128(group as nat));
            assert(acc + x * pow128(group as nat) < 128 * pow128(group as nat))
                by (nonlinear_arith)
                requires
                    acc < pow128(group as nat),
                    x <= 127,
                    pow128(group as nat) >= 1,
            ;
        }
        acc = acc + x * mult;
        if b < 128 {
            proof {
                lemma_varint_len_terminated(s@, group as nat, max as nat);
            }
            return (group + 1, acc);
        }
        mult = mult * 128;
        group = group + 1;
    }
    proof {
        lemma_varint_len_unterminated(s@, max as nat);
    }
    (0, 0)
}

/// Decode a 16-bit varint from the front of `s`: `(bytes consumed, value)`,
/// with `(0, 0)` when no terminating byte occurs within 3 groups.  Groups
/// beyond the width of the result are truncated, as the weighted sum is
/// reduced modulo 2^16.
pub fn decode_varint_u16(s: &[u8]) -> (r: (usize, u16))
    ensures
        r.0 == varint_len(s@, 3),
        r.1 as nat == varint_decoded(s@, 3, 0x10000),
        r.0 <= s@.len(),
        r.0 <= 3,
{
    let (n, raw) = decode_varint_raw(s, 3);
    (n, (raw % 0x10000) as u16)
}

/// Decode a 32-bit varint from the front of `s`: `(bytes consumed, value)`,
/// with `(0, 0)` when no terminating byte occurs within 5 groups.
pub fn decode_varint_u32(s: &[u8]) -> (r: (usize, u32))
    ensures
        r.0 == varint_len(s@, 5),
        r.1 as nat == varint_decoded(s@, 5, 0x100000000),
        r.0 <= s@.len(),
        r.0 <= 5,
{
    let (n, raw) = decode_varint_raw(s, 5);
    (n, (raw % 0x100000000) as u32)
}

/// Decode a 64-bit varint from the front of `s`: `(bytes consumed, value)`,
/// with `(0, 0)` when no terminating byte occurs within 10 groups.
pub fn decode_varint_u64(s: &[u8]) -> (r: (usize, u64))
    ensures
        r.0 == varint_len(s@, 10),
        r.1 as nat == varint_decoded(s@, 10, 0x10000000000000000),
        r.0 <= s@.len(),
        r.0 <= 10,
{
    let (n, raw) = decode_varint_raw(s, 10);
    (n, (raw % 0x10000000000000000) as u64)
}

/// A value below `pow128(n)` encodes into at most `n` bytes.
pub proof fn lemma_varint_encode_len(v: nat, n: nat)
    requires
        n >= 1,
        v < pow128(n),
    ensures
        1 <= varint_encode(v).len() <= n,
    decreases v,
{
    if v >= 128 {
        assert(pow128(n) == 128 * pow128((n - 1) as nat));
        assert(v / 128 < pow128((n - 1) as nat)) by (nonlinear_arith)
            requires
                v < 128 * pow128((n - 1) as nat),
        ;
        lemma_varint_encode_len(v / 128, (n - 1) as nat);
    }
}

/// Every byte of an encoding but the last has its continuation flag set.
pub proof fn lemma_varint_encode_continuations(v: nat)
    ensures
        forall|i: int| 0 <= i < varint_encode(v).len() - 1 ==> varint_encode(v)[i] >= 128,
    decreases v,
{
    if v >= 128 {
        lemma_varint_encode_continuations(v / 128);
        let e = varint_encode(v);
        let rest = varint_encode(v / 128);
        assert forall|i: int| 0 <= i < e.len() - 1 implies e[i] >= 128 by {
            if i > 0 {
                assert(e[i] == rest[i - 1]);
            }
        }
    }
}

/// Round trip at the spec level: decoding an encoding finds its exact
/// length and recovers the encoded value, whenever the group budget covers
/// the encoding.
pub proof fn lemma_varint_round_trip(v: nat, max: nat)
    requires
        varint_encode(v).len() <= max,
    ensures
        varint_len(varint_encode(v), max) == varint_encode(v).len(),
        varint_raw(varint_encode(v), varint_encode(v).len()) == v,
    decreases v,
{
    let e = varint_encode(v);
    lemma_varint_encode_continuations(v);
    assert(e[e.len() - 1] < 128) by {
        lemma_varint_encode_last(v);
    }
    lemma_varint_len_terminated(e, (e.len() - 1) as nat, max);
    if v < 128 {
        assert(varint_raw(e, 1) == (e[0] as nat) % 128 + 128 * varint_raw(e.skip(1), 0));
    } else {
        let rest = varint_encode(v / 128);
        lemma_varint_round_trip(v / 128, (max - 1) as nat);
        assert(e.skip(1) =~= rest);
        assert(varint_raw(e, e.len() as nat) == (e[0] as nat) % 128 + 128 * varint_raw(
            e.skip(1),
            (e.len() - 1) as nat,
        ));
        assert((e[0] as nat) % 128 == v % 128);
    }
}

/// The first `n` groups read the first `n` bytes alone.
pub proof fn lemma_varint_raw_prefix(s1: Seq<u8>, s2: Seq<u8>, n: nat)
    requires
        n <= s1.len(),
        n <= s2.len(),
        forall|i: int| 0 <= i < n ==> s1[i] == s2[i],
    ensures
        varint_raw(s1, n) == varint_raw(s2, n),
    decreases n,
{
    if n > 0 {
        assert(forall|i: int| 0 <= i < n - 1 ==> s1.skip(1)[i] == s1[i + 1] && s2.skip(1)[i]
            == s2[i + 1]);
        lemma_varint_raw_prefix(s1.skip(1), s2.skip(1), (n - 1) as nat);
    }
}

/// Decoding reads only the encoding itself: bytes after it change nothing,
/// so a value can be decoded off the front of a longer stream.
pub proof fn lemma_varint_round_trip_with_tail(v: nat, tail: Seq<u8>, max: nat)
    requires
        varint_encode(v).len() <= max,
    ensures
        varint_len(varint_encode(v) + tail, max) == varint_encode(v).len(),
        varint_raw(varint_encode(v) + tail, varint_encode(v).len()) == v,
{
    let e = varint_encode(v);
    let s = e + tail;
    lemma_varint_round_trip(v, max);
    lemma_varint_encode_continuations(v);
    lemma_varint_encode_last(v);
    assert(s[e.len() - 1] == e[e.len() - 1]);
    lemma_varint_len_terminated(s, (e.len() - 1) as nat, max);
    lemma_varint_raw_prefix(s, e, e.len());
}

/// The last byte of an encoding has its continuation flag clear.
pub proof fn lemma_varint_encode_last(v: nat)
    ensures
        varint_encode(v).last() < 128,
    decreases v,
{
    if v >= 128 {
        lemma_varint_encode_last(v / 128);
        assert(varint_encode(v).last() == varint_encode(v / 128).last());
    }
}

/// Minimality: an encoding never carries a trailing all-zero group; its last
/// byte is the terminator and, past the first group, is never zero.
pub proof fn lemma_varint_encode_minimal(v: nat)
    ensures
        varint_encode(v).last() < 128,
        varint_encode(v).len() > 1 ==> varint_encode(v).last() != 0,
    decreases v,
{
    lemma_varint_encode_last(v);
    if v >= 128 {
        lemma_varint_encode_minimal(v / 128);
        assert(varint_encode(v).last() == varint_encode(v / 128).last());
        if varint_encode(v / 128).len() == 1 {
            assert(varint_encode(v / 128).last() == (v / 128) as u8);
        }
    }
}

/// Truncation safety: any strict prefix of an encoding decodes to consumed
/// length 0, whatever the group budget.
pub proof fn lemma_varint_truncated(v: nat, k: int, max: nat)
    requires
        0 <= k < varint_encode(v).len(),
    ensures
        varint_len(varint_encode(v).take(k), max) == 0,
{
    lemma_varint_encode_continuations(v);
    let t = varint_encode(v).take(k);
    assert(forall|j: int| 0 <= j < t.len() ==> t[j] == varint_encode(v)[j]);
    lemma_varint_len_unterminated(t, max);
}

/// Round trip for 16-bit values, stated over the functions the executable
/// codec's contracts use.
pub proof fn lemma_varint_round_trip_u16(v: nat)
    requires
        v < 0x10000,
    ensures
        varint_len(varint_encode(v), 3) == varint_encode(v).len(),
        varint_decoded(varint_encode(v), 3, 0x10000) == v,
{
    lemma_pow128_values();
    lemma_varint_encode_len(v, 3);
    lemma_varint_round_trip(v, 3);
}

/// Round trip for 32-bit values, stated over the functions the executable
/// codec's contracts use.
pub proof fn lemma_varint_round_trip_u32(v: nat)
    requires
        v < 0x100000000,
    ensures
        varint_len(varint_encode(v), 5) == varint_encode(v).len(),
        varint_decoded(varint_encode(v), 5, 0x100000000) == v,
{
    lemma_pow128_values();
    lemma_varint_encode_len(v, 5);
    lemma_varint_round_trip(v, 5);
}

/// Round trip for 64-bit values, stated over the functions the executable
/// codec's contracts use.
pub proof fn lemma_varint_round_trip_u64(v: nat)
    requires
        v < 0x10000000000000000,
    ensures
        varint_len(varint_encode(v), 10) == varint_encode(v).len(),
        varint_decoded(varint_encode(v), 10, 0x10000000000000000) == v,
{
    lemma_pow128_values();
    lemma_varint_encode_len(v, 10);
    lemma_varint_round_trip(v, 10);
}

pub fn encode_varint_u32(value: u32) -> (r: Vec<u8>)
    ensures
        r@ == varint_encode(value as nat),
{
    encode_varint_u64(value as u64)
}

pub fn encode_varint_u16(value: u16) -> (r: Vec<u8>)
    ensures
        r@ == varint_encode(value as nat),
{
    encode_varint_u64(value as u64)
}

} // verus!
