//! The primitives of the wire form: variable-width integers, booleans and raw bytes.
//!
//! Integers are written by the `revision` crate. A value below 251 is one byte. A larger
//! one is a marker byte (251, 252 or 253) followed by the value in 2, 4 or 8 bytes, least
//! significant byte first. Signed integers are folded onto the unsigned ones first, so that
//! values near zero stay short.

use vstd::prelude::*;
use revision::DeserializeRevisioned;
use revision::SerializeRevisioned;

verus! {

/// The `width` low bytes of `n`, least significant first.
pub open spec fn le_bytes(n: nat, width: nat) -> Seq<u8>
    decreases width,
{
    if width == 0 {
        Seq::empty()
    } else {
        seq![(n % 256) as u8] + le_bytes(n / 256, (width - 1) as nat)
    }
}

/// The number that `bytes` spell, least significant byte first.
pub open spec fn le_value(bytes: Seq<u8>) -> nat
    decreases bytes.len(),
{
    if bytes.len() == 0 {
        0
    } else {
        bytes[0] as nat + 256 * le_value(bytes.skip(1))
    }
}

/// 256 to the power `width`.
pub open spec fn radix_pow(width: nat) -> nat
    decreases width,
{
    if width == 0 {
        1
    } else {
        256 * radix_pow((width - 1) as nat)
    }
}

/// The wire form of an unsigned integer.
pub open spec fn varint(n: u64) -> Seq<u8> {
    if n < 251 {
        seq![n as u8]
    } else if n < 0x1_0000 {
        seq![251u8] + le_bytes(n as nat, 2)
    } else if n < 0x1_0000_0000 {
        seq![252u8] + le_bytes(n as nat, 4)
    } else {
        seq![253u8] + le_bytes(n as nat, 8)
    }
}

/// Reads one unsigned integer off the front of `bytes`: the integer and what follows it.
/// A marker need not be the shortest that fits the value. Markers 254 and 255 are refused.
pub open spec fn parse_varint(bytes: Seq<u8>) -> Option<(u64, Seq<u8>)> {
    if bytes.len() == 0 {
        None
    } else if bytes[0] < 251 {
        Some((bytes[0] as u64, bytes.skip(1)))
    } else if bytes[0] == 251 {
        if bytes.len() < 3 {
            None
        } else {
            Some((le_value(bytes.subrange(1, 3)) as u64, bytes.skip(3)))
        }
    } else if bytes[0] == 252 {
        if bytes.len() < 5 {
            None
        } else {
            Some((le_value(bytes.subrange(1, 5)) as u64, bytes.skip(5)))
        }
    } else if bytes[0] == 253 {
        if bytes.len() < 9 {
            None
        } else {
            Some((le_value(bytes.subrange(1, 9)) as u64, bytes.skip(9)))
        }
    } else {
        None
    }
}

/// Folds the signed integers onto the unsigned ones: 0, -1, 1, -2, 2, ...
pub open spec fn zigzag(v: i64) -> u64 {
    if v >= 0 {
        (2 * v) as u64
    } else {
        (-2 * v - 1) as u64
    }
}

/// The inverse of `zigzag`.
pub open spec fn unzigzag(n: u64) -> i64 {
    if n % 2 == 0 {
        (n / 2) as i64
    } else {
        (-(n / 2) - 1) as i64
    }
}

/// The wire form of a signed integer.
pub open spec fn signed_varint(v: i64) -> Seq<u8> {
    varint(zigzag(v))
}

/// The wire form of a boolean: one byte, 0 or 1.
pub open spec fn bool_byte(b: bool) -> Seq<u8> {
    if b {
        seq![1u8]
    } else {
        seq![0u8]
    }
}

/// Reads one boolean off the front of `bytes`; a byte other than 0 and 1 is refused.
pub open spec fn parse_bool(bytes: Seq<u8>) -> Option<(bool, Seq<u8>)> {
    if bytes.len() == 0 {
        None
    } else if bytes[0] == 0 {
        Some((false, bytes.skip(1)))
    } else if bytes[0] == 1 {
        Some((true, bytes.skip(1)))
    } else {
        None
    }
}

/// Calls `u64::serialize_revisioned` on a `Vec<u8>`, which appends the integer's wire form.
/// Writing to a vector does not fail, so nothing is returned.
#[verifier::external_body]
pub(crate) fn put_u64(value: u64, out: &mut Vec<u8>)
    ensures
        final(out)@ == old(out)@ + varint(value),
{
    let _ = value.serialize_revisioned(out);
}

/// Calls `u32::serialize_revisioned` on a `Vec<u8>`: the same wire form as for 64 bits.
#[verifier::external_body]
pub(crate) fn put_u32(value: u32, out: &mut Vec<u8>)
    ensures
        final(out)@ == old(out)@ + varint(value as u64),
{
    let _ = value.serialize_revisioned(out);
}

/// Calls `u16::serialize_revisioned` on a `Vec<u8>`: the same wire form as for 64 bits.
#[verifier::external_body]
pub(crate) fn put_u16(value: u16, out: &mut Vec<u8>)
    ensures
        final(out)@ == old(out)@ + varint(value as u64),
{
    let _ = value.serialize_revisioned(out);
}

/// Calls `i64::serialize_revisioned` on a `Vec<u8>`: the folded integer's wire form.
#[verifier::external_body]
pub(crate) fn put_i64(value: i64, out: &mut Vec<u8>)
    ensures
        final(out)@ == old(out)@ + signed_varint(value),
{
    let _ = value.serialize_revisioned(out);
}

/// Calls `bool::serialize_revisioned` on a `Vec<u8>`, which appends one byte.
#[verifier::external_body]
pub(crate) fn put_bool(value: bool, out: &mut Vec<u8>)
    ensures
        final(out)@ == old(out)@ + bool_byte(value),
{
    let _ = value.serialize_revisioned(out);
}

/// Calls `u64::deserialize_revisioned` on a byte slice. It succeeds exactly when
/// `parse_varint` reads an integer; then it returns that integer and the bytes left. The
/// crate's error is dropped.
#[verifier::external_body]
pub(crate) fn take_u64<'a>(input: &'a [u8]) -> (r: Option<(u64, &'a [u8])>)
    ensures
        match r {
            Some((value, rest)) => parse_varint(input@) == Some((value, rest@)),
            None => parse_varint(input@) is None,
        },
{
    let mut reader = input;
    let value = u64::deserialize_revisioned(&mut reader).ok()?;
    Some((value, reader))
}

/// Calls `bool::deserialize_revisioned` on a byte slice: one byte, which must be 0 or 1.
#[verifier::external_body]
pub(crate) fn take_bool<'a>(input: &'a [u8]) -> (r: Option<(bool, &'a [u8])>)
    ensures
        match r {
            Some((value, rest)) => parse_bool(input@) == Some((value, rest@)),
            None => parse_bool(input@) is None,
        },
{
    let mut reader = input;
    let value = bool::deserialize_revisioned(&mut reader).ok()?;
    Some((value, reader))
}

/// `le_bytes` has the width asked for.
pub proof fn lemma_le_bytes_len(n: nat, width: nat)
    ensures
        le_bytes(n, width).len() == width,
    decreases width,
{
    if width > 0 {
        lemma_le_bytes_len(n / 256, (width - 1) as nat);
    }
}

/// Reading back the low bytes of a number gives the number, as far as the width reaches.
pub proof fn lemma_le_roundtrip(n: nat, width: nat)
    ensures
        le_value(le_bytes(n, width)) == n % radix_pow(width),
    decreases width,
{
    if width == 0 {
    } else {
        let rest = le_bytes(n / 256, (width - 1) as nat);
        let all = le_bytes(n, width);
        lemma_le_roundtrip(n / 256, (width - 1) as nat);
        assert(all.skip(1) =~= rest);
        let p = radix_pow((width - 1) as nat);
        lemma_radix_pow_positive((width - 1) as nat);
        vstd::arithmetic::div_mod::lemma_mod_breakdown(n as int, 256, p as int);
    }
}

pub proof fn lemma_radix_pow_positive(width: nat)
    ensures
        radix_pow(width) > 0,
    decreases width,
{
    if width > 0 {
        lemma_radix_pow_positive((width - 1) as nat);
    }
}

/// A higher power of 256 is no smaller.
pub proof fn lemma_radix_pow_monotone(low: nat, high: nat)
    requires
        low <= high,
    ensures
        radix_pow(low) <= radix_pow(high),
    decreases high,
{
    if low < high {
        lemma_radix_pow_monotone(low, (high - 1) as nat);
    }
}

/// The powers of 256 that the wire form uses.
pub proof fn lemma_radix_pow_values()
    ensures
        radix_pow(1) == 0x100,
        radix_pow(2) == 0x1_0000,
        radix_pow(4) == 0x1_0000_0000,
        radix_pow(8) == 0x1_0000_0000_0000_0000,
        radix_pow(16) == 0x1_0000_0000_0000_0000_0000_0000_0000_0000,
{
    reveal_with_fuel(radix_pow, 17);
}

/// A number spelled by `bytes` is below 256 to the power of their count.
pub proof fn lemma_le_value_bound(bytes: Seq<u8>)
    ensures
        le_value(bytes) < radix_pow(bytes.len()),
    decreases bytes.len(),
{
    if bytes.len() > 0 {
        lemma_le_value_bound(bytes.skip(1));
    }
}

/// Spelling out the number that `bytes` spell gives `bytes` again.
pub proof fn lemma_le_bytes_of_value(bytes: Seq<u8>)
    ensures
        le_bytes(le_value(bytes), bytes.len()) == bytes,
    decreases bytes.len(),
{
    if bytes.len() > 0 {
        let tail = bytes.skip(1);
        lemma_le_bytes_of_value(tail);
        let v = le_value(bytes);
        assert(v % 256 == bytes[0] as nat);
        assert(v / 256 == le_value(tail));
        assert(le_bytes(v, bytes.len()) =~= bytes);
    } else {
        assert(le_bytes(le_value(bytes), 0) =~= bytes);
    }
}

/// What `varint` writes, `parse_varint` reads back, whatever follows it.
pub proof fn lemma_varint_roundtrip(n: u64, rest: Seq<u8>)
    ensures
        parse_varint(varint(n) + rest) == Some((n, rest)),
{
    let bytes = varint(n) + rest;
    lemma_radix_pow_values();
    if n < 251 {
        assert(bytes.skip(1) =~= rest);
    } else if n < 0x1_0000 {
        lemma_le_bytes_len(n as nat, 2);
        lemma_le_roundtrip(n as nat, 2);
        assert(bytes.subrange(1, 3) =~= le_bytes(n as nat, 2));
        assert(bytes.skip(3) =~= rest);
    } else if n < 0x1_0000_0000 {
        lemma_le_bytes_len(n as nat, 4);
        lemma_le_roundtrip(n as nat, 4);
        assert(bytes.subrange(1, 5) =~= le_bytes(n as nat, 4));
        assert(bytes.skip(5) =~= rest);
    } else {
        lemma_le_bytes_len(n as nat, 8);
        lemma_le_roundtrip(n as nat, 8);
        assert(bytes.subrange(1, 9) =~= le_bytes(n as nat, 8));
        assert(bytes.skip(9) =~= rest);
    }
}

/// Unfolding a folded integer gives the integer.
pub proof fn lemma_zigzag_roundtrip(v: i64)
    ensures
        unzigzag(zigzag(v)) == v,
{
}

/// A boolean is read back as it was written.
pub proof fn lemma_bool_roundtrip(b: bool, rest: Seq<u8>)
    ensures
        parse_bool(bool_byte(b) + rest) == Some((b, rest)),
{
    assert((bool_byte(b) + rest).skip(1) =~= rest);
}

} // verus!
