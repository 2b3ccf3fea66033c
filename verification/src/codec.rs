//! Little-endian integers and length-prefixed byte fields: the building
//! blocks of every serialized record of the engine.

use vstd::arithmetic::div_mod::lemma_div_denominator;
use vstd::prelude::*;
use vstd::slice::{slice_subrange, slice_to_vec};

verus! {

/// Why a record could not be written to bytes or read back from them.
#[derive(Debug, Clone, Copy, PartialEq, Eq, Structural)]
pub enum CodecError {
    /// A field holds more bytes, or a list more entries, than a `u32` counts.
    TooLong,
    /// The bytes end before the record does.
    UnexpectedEnd,
    /// A tag or a flag holds a value that stands for nothing.
    InvalidValue,
    /// Bytes are left behind the record.
    TrailingBytes,
}

/// The four bytes of `value`, least significant first.
#[verifier::opaque]
pub open spec fn u32_le_bytes(value: u32) -> Seq<u8> {
    seq![
        (value % 256) as u8,
        ((value / 0x100) % 256) as u8,
        ((value / 0x1_0000) % 256) as u8,
        ((value / 0x100_0000) % 256) as u8,
    ]
}

/// The number that the first four bytes of `bytes` spell, least
/// significant byte first.
#[verifier::opaque]
pub open spec fn u32_from_le(bytes: Seq<u8>) -> u32
    recommends
        bytes.len() >= 4,
{
    (bytes[0] + bytes[1] * 0x100 + bytes[2] * 0x1_0000 + bytes[3] * 0x100_0000) as u32
}

/// The eight bytes of `value`, least significant first.
#[verifier::opaque]
pub open spec fn u64_le_bytes(value: u64) -> Seq<u8> {
    seq![
        (value % 256) as u8,
        ((value / 0x100) % 256) as u8,
        ((value / 0x1_0000) % 256) as u8,
        ((value / 0x100_0000) % 256) as u8,
        ((value / 0x1_0000_0000) % 256) as u8,
        ((value / 0x100_0000_0000) % 256) as u8,
        ((value / 0x1_0000_0000_0000) % 256) as u8,
        ((value / 0x100_0000_0000_0000) % 256) as u8,
    ]
}

/// The number that the first eight bytes of `bytes` spell, least
/// significant byte first.
#[verifier::opaque]
pub open spec fn u64_from_le(bytes: Seq<u8>) -> u64
    recommends
        bytes.len() >= 8,
{
    (bytes[0] + bytes[1] * 0x100 + bytes[2] * 0x1_0000 + bytes[3] * 0x100_0000 + bytes[4]
        * 0x1_0000_0000 + bytes[5] * 0x100_0000_0000 + bytes[6] * 0x1_0000_0000_0000 + bytes[7]
        * 0x100_0000_0000_0000) as u64
}

/// The unsigned number with the same sixty-four bits as `value` in two's
/// complement.
pub open spec fn i64_bits(value: i64) -> u64 {
    if value >= 0 {
        value as u64
    } else {
        (value + 0x1_0000_0000_0000_0000) as u64
    }
}

/// The signed number that the sixty-four bits of `bits` spell in two's
/// complement.
pub open spec fn i64_of_bits(bits: u64) -> i64 {
    if bits < 0x8000_0000_0000_0000 {
        bits as i64
    } else {
        (bits - 0x1_0000_0000_0000_0000) as i64
    }
}

/// The eight bytes of `value` in two's complement, least significant first.
pub open spec fn i64_le_bytes(value: i64) -> Seq<u8> {
    u64_le_bytes(i64_bits(value))
}

/// The signed number that the first eight bytes of `bytes` spell.
pub open spec fn i64_from_le(bytes: Seq<u8>) -> i64
    recommends
        bytes.len() >= 8,
{
    i64_of_bits(u64_from_le(bytes))
}

/// A byte field on the wire: its length as a `u32`, then its bytes. A
/// length beyond `u32::MAX` loses its upper bits in the prefix.
pub open spec fn field_bytes(field: Seq<u8>) -> Seq<u8> {
    u32_le_bytes((field.len() % 0x1_0000_0000) as u32) + field
}

/// Splits a `u32` off the front of `data`.
pub open spec fn take_u32(data: Seq<u8>) -> Option<(u32, Seq<u8>)> {
    if data.len() < 4 {
        None
    } else {
        Some((u32_from_le(data), data.skip(4)))
    }
}

/// Splits a `u64` off the front of `data`.
pub open spec fn take_u64(data: Seq<u8>) -> Option<(u64, Seq<u8>)> {
    if data.len() < 8 {
        None
    } else {
        Some((u64_from_le(data), data.skip(8)))
    }
}

/// Splits an `i64` off the front of `data`.
pub open spec fn take_i64(data: Seq<u8>) -> Option<(i64, Seq<u8>)> {
    if data.len() < 8 {
        None
    } else {
        Some((i64_from_le(data), data.skip(8)))
    }
}

/// Splits the first `count` bytes off the front of `data`.
pub open spec fn take_bytes(data: Seq<u8>, count: nat) -> Option<(Seq<u8>, Seq<u8>)> {
    if data.len() < count {
        None
    } else {
        Some((data.take(count as int), data.skip(count as int)))
    }
}

/// Splits a length-prefixed field off the front of `data`: `None` where
/// the prefix is incomplete or announces more bytes than follow.
pub open spec fn take_field(data: Seq<u8>) -> Option<(Seq<u8>, Seq<u8>)> {
    match take_u32(data) {
        None => None,
        Some((length, rest)) => take_bytes(rest, length as nat),
    }
}

/// Decoding undoes encoding of a `u32`, whatever follows the four bytes.
pub proof fn lemma_u32_round_trip(value: u32, rest: Seq<u8>)
    ensures
        u32_le_bytes(value).len() == 4,
        take_u32(u32_le_bytes(value) + rest) == Some((value, rest)),
{
    reveal(u32_le_bytes);
    reveal(u32_from_le);
    let data = u32_le_bytes(value) + rest;
    assert(data.skip(4) =~= rest);
}

/// Decoding undoes encoding of a `u64`, whatever follows the eight bytes.
pub proof fn lemma_u64_round_trip(value: u64, rest: Seq<u8>)
    ensures
        u64_le_bytes(value).len() == 8,
        take_u64(u64_le_bytes(value) + rest) == Some((value, rest)),
{
    reveal(u64_le_bytes);
    reveal(u64_from_le);
    let data = u64_le_bytes(value) + rest;
    assert(data.skip(8) =~= rest);
    let q1 = value / 0x100;
    let q2 = value / 0x1_0000;
    let q3 = value / 0x100_0000;
    let q4 = value / 0x1_0000_0000;
    let q5 = value / 0x100_0000_0000;
    let q6 = value / 0x1_0000_0000_0000;
    let q7 = value / 0x100_0000_0000_0000;
    lemma_div_denominator(value as int, 0x100, 0x100);
    lemma_div_denominator(value as int, 0x1_0000, 0x100);
    lemma_div_denominator(value as int, 0x100_0000, 0x100);
    lemma_div_denominator(value as int, 0x1_0000_0000, 0x100);
    lemma_div_denominator(value as int, 0x100_0000_0000, 0x100);
    lemma_div_denominator(value as int, 0x1_0000_0000_0000, 0x100);
    assert(q2 == q1 / 0x100);
    assert(q3 == q2 / 0x100);
    assert(q4 == q3 / 0x100);
    assert(q5 == q4 / 0x100);
    assert(q6 == q5 / 0x100);
    assert(q7 == q6 / 0x100);
    assert(q7 < 0x100);
    assert(value == value % 256 + 0x100 * q1);
    assert(q1 == q1 % 256 + 0x100 * q2);
    assert(q2 == q2 % 256 + 0x100 * q3);
    assert(q3 == q3 % 256 + 0x100 * q4);
    assert(q4 == q4 % 256 + 0x100 * q5);
    assert(q5 == q5 % 256 + 0x100 * q6);
    assert(q6 == q6 % 256 + 0x100 * q7);
    assert(u64_from_le(data) == value);
}

/// Decoding undoes encoding of an `i64`, whatever follows the eight bytes.
pub proof fn lemma_i64_round_trip(value: i64, rest: Seq<u8>)
    ensures
        i64_le_bytes(value).len() == 8,
        take_i64(i64_le_bytes(value) + rest) == Some((value, rest)),
{
    lemma_u64_round_trip(i64_bits(value), rest);
}

/// The four bytes at the front of `data` are the bytes of the number they
/// spell.
pub proof fn lemma_u32_bytes_of_value(data: Seq<u8>)
    requires
        data.len() >= 4,
    ensures
        u32_le_bytes(u32_from_le(data)) == data.take(4),
{
    reveal(u32_le_bytes);
    reveal(u32_from_le);
    let low = data[0] + data[1] * 0x100;
    let high = data[2] + data[3] * 0x100;
    let value = low + high * 0x1_0000;
    assert(u32_from_le(data) == value);
    assert(value / 0x100 == data[1] + high * 0x100);
    assert(value / 0x1_0000 == high);
    assert(value / 0x100_0000 == data[3] as int);
    assert(u32_le_bytes(u32_from_le(data)) =~= data.take(4));
}

/// The eight bytes at the front of `data` are the bytes of the number they
/// spell.
pub proof fn lemma_u64_bytes_of_value(data: Seq<u8>)
    requires
        data.len() >= 8,
    ensures
        u64_le_bytes(u64_from_le(data)) == data.take(8),
{
    reveal(u64_le_bytes);
    reveal(u64_from_le);
    let t7 = data[7] as int;
    let t6 = data[6] + t7 * 0x100;
    let t5 = data[5] + t6 * 0x100;
    let t4 = data[4] + t5 * 0x100;
    let t3 = data[3] + t4 * 0x100;
    let t2 = data[2] + t3 * 0x100;
    let t1 = data[1] + t2 * 0x100;
    let value = data[0] + t1 * 0x100;
    assert(u64_from_le(data) == value);
    assert(value / 0x100 == t1);
    lemma_div_denominator(value, 0x100, 0x100);
    assert(value / 0x1_0000 == t1 / 0x100 == t2);
    lemma_div_denominator(value, 0x1_0000, 0x100);
    assert(value / 0x100_0000 == t2 / 0x100 == t3);
    lemma_div_denominator(value, 0x100_0000, 0x100);
    assert(value / 0x1_0000_0000 == t3 / 0x100 == t4);
    lemma_div_denominator(value, 0x1_0000_0000, 0x100);
    assert(value / 0x100_0000_0000 == t4 / 0x100 == t5);
    lemma_div_denominator(value, 0x100_0000_0000, 0x100);
    assert(value / 0x1_0000_0000_0000 == t5 / 0x100 == t6);
    lemma_div_denominator(value, 0x1_0000_0000_0000, 0x100);
    assert(value / 0x100_0000_0000_0000 == t6 / 0x100 == t7);
    assert(u64_le_bytes(u64_from_le(data)) =~= data.take(8));
}

/// The eight bytes at the front of `data` are the bytes of the signed
/// number they spell.
pub proof fn lemma_i64_bytes_of_value(data: Seq<u8>)
    requires
        data.len() >= 8,
    ensures
        i64_le_bytes(i64_from_le(data)) == data.take(8),
{
    lemma_u64_bytes_of_value(data);
}

/// A field that was split off the front of `data` stands there in its
/// wire form, with what was left behind it.
pub proof fn lemma_take_field_is_field(data: Seq<u8>)
    requires
        take_field(data) is Some,
    ensures
        ({
            let (field, rest) = take_field(data).unwrap();
            &&& field.len() <= u32::MAX
            &&& data == field_bytes(field) + rest
        }),
{
    let (field, rest) = take_field(data).unwrap();
    lemma_u32_bytes_of_value(data);
    assert(data =~= data.take(4) + field + rest);
    assert(field_bytes(field) + rest =~= data.take(4) + field + rest);
}

/// Bytes that were split off the front of `data` stand there, with what
/// was left behind them.
pub proof fn lemma_take_bytes_is_bytes(data: Seq<u8>, count: nat)
    requires
        take_bytes(data, count) is Some,
    ensures
        ({
            let (bytes, rest) = take_bytes(data, count).unwrap();
            &&& bytes.len() == count
            &&& data == bytes + rest
        }),
{
    let (bytes, rest) = take_bytes(data, count).unwrap();
    assert(data =~= bytes + rest);
}

/// Taking undoes appending of raw bytes.
pub proof fn lemma_bytes_round_trip(bytes: Seq<u8>, rest: Seq<u8>)
    ensures
        take_bytes(bytes + rest, bytes.len()) == Some((bytes, rest)),
{
    let data = bytes + rest;
    assert(data.take(bytes.len() as int) =~= bytes);
    assert(data.skip(bytes.len() as int) =~= rest);
}

/// Decoding undoes encoding of a field whose length fits the prefix.
pub proof fn lemma_field_round_trip(field: Seq<u8>, rest: Seq<u8>)
    requires
        field.len() <= u32::MAX,
    ensures
        field_bytes(field).len() == 4 + field.len(),
        take_field(field_bytes(field) + rest) == Some((field, rest)),
{
    let length = (field.len() % 0x1_0000_0000) as u32;
    assert(length == field.len());
    lemma_u32_round_trip(length, field + rest);
    assert(field_bytes(field) + rest =~= u32_le_bytes(length) + (field + rest));
    lemma_bytes_round_trip(field, rest);
}

/// What a field parser sees of a buffer cut after `keep` bytes: nothing
/// while the cut falls into the field, the same field once it lies behind.
pub proof fn lemma_take_field_of_prefix(data: Seq<u8>, keep: int)
    requires
        take_field(data) is Some,
        0 <= keep <= data.len(),
    ensures
        ({
            let (field, rest) = take_field(data).unwrap();
            let used = data.len() - rest.len();
            &&& used == 4 + field.len()
            &&& keep < used ==> take_field(data.take(keep)) is None
            &&& keep >= used ==> take_field(data.take(keep)) == Some((field, rest.take(keep - used)))
        }),
{
    reveal(u32_from_le);
    let (field, rest) = take_field(data).unwrap();
    let cut = data.take(keep);
    if keep >= 4 {
        assert(u32_from_le(cut) == u32_from_le(data));
        let used = 4 + field.len();
        if keep >= used {
            assert(cut.skip(4).take(field.len() as int) =~= field);
            assert(cut.skip(4).skip(field.len() as int) =~= rest.take(keep - used));
        }
    }
}

/// Appends the four bytes of `value`.
pub fn put_u32(out: &mut Vec<u8>, value: u32)
    ensures
        final(out)@ == old(out)@ + u32_le_bytes(value),
{
    proof {
        reveal(u32_le_bytes);
    }
    out.push((value % 256) as u8);
    out.push(((value / 0x100) % 256) as u8);
    out.push(((value / 0x1_0000) % 256) as u8);
    out.push(((value / 0x100_0000) % 256) as u8);
    assert(out@ =~= old(out)@ + u32_le_bytes(value));
}

/// Appends the eight bytes of `value`.
pub fn put_u64(out: &mut Vec<u8>, value: u64)
    ensures
        final(out)@ == old(out)@ + u64_le_bytes(value),
{
    proof {
        reveal(u64_le_bytes);
    }
    out.push((value % 256) as u8);
    out.push(((value / 0x100) % 256) as u8);
    out.push(((value / 0x1_0000) % 256) as u8);
    out.push(((value / 0x100_0000) % 256) as u8);
    out.push(((value / 0x1_0000_0000) % 256) as u8);
    out.push(((value / 0x100_0000_0000) % 256) as u8);
    out.push(((value / 0x1_0000_0000_0000) % 256) as u8);
    out.push(((value / 0x100_0000_0000_0000) % 256) as u8);
    assert(out@ =~= old(out)@ + u64_le_bytes(value));
}

/// Appends the eight bytes of `value` in two's complement.
pub fn put_i64(out: &mut Vec<u8>, value: i64)
    ensures
        final(out)@ == old(out)@ + i64_le_bytes(value),
{
    let bits: u64 = if value >= 0 {
        value as u64
    } else {
        ((value - i64::MIN) as u64) + 0x8000_0000_0000_0000
    };
    put_u64(out, bits);
}

/// Appends `bytes` as they are.
pub fn put_bytes(out: &mut Vec<u8>, bytes: &[u8])
    ensures
        final(out)@ == old(out)@ + bytes@,
{
    out.extend_from_slice(bytes);
    assert(out@ =~= old(out)@ + bytes@);
}

/// Appends `bytes` behind their length.
pub fn put_field(out: &mut Vec<u8>, bytes: &[u8])
    ensures
        final(out)@ == old(out)@ + field_bytes(bytes@),
{
    let length: u32 = ((bytes.len() as u64) % 0x1_0000_0000) as u32;
    put_u32(out, length);
    put_bytes(out, bytes);
    assert(out@ =~= old(out)@ + field_bytes(bytes@));
}

/// Reads a `u32` from the front of `data` and returns it with what follows.
pub fn read_u32(data: &[u8]) -> (read: Option<(u32, &[u8])>)
    ensures
        match take_u32(data@) {
            Some((value, rest)) => read matches Some((v, r)) && v == value && r@ == rest,
            None => read is None,
        },
{
    proof {
        reveal(u32_from_le);
    }
    if data.len() < 4 {
        return None;
    }
    let value: u32 = (data[0] as u32) + (data[1] as u32) * 0x100 + (data[2] as u32) * 0x1_0000 + (
    data[3] as u32) * 0x100_0000;
    let rest = slice_subrange(data, 4, data.len());
    assert(rest@ =~= data@.skip(4));
    Some((value, rest))
}

/// Reads a `u64` from the front of `data` and returns it with what follows.
pub fn read_u64(data: &[u8]) -> (read: Option<(u64, &[u8])>)
    ensures
        match take_u64(data@) {
            Some((value, rest)) => read matches Some((v, r)) && v == value && r@ == rest,
            None => read is None,
        },
{
    proof {
        reveal(u64_from_le);
    }
    if data.len() < 8 {
        return None;
    }
    let value: u64 = (data[0] as u64) + (data[1] as u64) * 0x100 + (data[2] as u64) * 0x1_0000 + (
    data[3] as u64) * 0x100_0000 + (data[4] as u64) * 0x1_0000_0000 + (data[5] as u64)
        * 0x100_0000_0000 + (data[6] as u64) * 0x1_0000_0000_0000 + (data[7] as u64)
        * 0x100_0000_0000_0000;
    let rest = slice_subrange(data, 8, data.len());
    assert(rest@ =~= data@.skip(8));
    Some((value, rest))
}

/// Reads an `i64` from the front of `data` and returns it with what follows.
pub fn read_i64(data: &[u8]) -> (read: Option<(i64, &[u8])>)
    ensures
        match take_i64(data@) {
            Some((value, rest)) => read matches Some((v, r)) && v == value && r@ == rest,
            None => read is None,
        },
{
    match read_u64(data) {
        None => None,
        Some((bits, rest)) => {
            let value: i64 = if bits < 0x8000_0000_0000_0000 {
                bits as i64
            } else {
                ((bits - 0x8000_0000_0000_0000) as i64) + i64::MIN
            };
            Some((value, rest))
        },
    }
}

/// Reads `count` raw bytes from the front of `data`.
pub fn read_bytes(data: &[u8], count: usize) -> (read: Option<(Vec<u8>, &[u8])>)
    ensures
        match take_bytes(data@, count as nat) {
            Some((bytes, rest)) => read matches Some((b, r)) && b@ == bytes && r@ == rest,
            None => read is None,
        },
{
    if data.len() < count {
        return None;
    }
    let bytes = slice_to_vec(slice_subrange(data, 0, count));
    let rest = slice_subrange(data, count, data.len());
    assert(bytes@ =~= data@.take(count as int));
    assert(rest@ =~= data@.skip(count as int));
    Some((bytes, rest))
}

/// Reads `N` raw bytes from the front of `data` into an array.
pub fn read_array<const N: usize>(data: &[u8]) -> (read: Option<([u8; N], &[u8])>)
    ensures
        match take_bytes(data@, N as nat) {
            Some((bytes, rest)) => read matches Some((b, r)) && b@ == bytes && r@ == rest,
            None => read is None,
        },
{
    if data.len() < N {
        return None;
    }
    let mut bytes = [0u8; N];
    let mut i: usize = 0;
    while i < N
        invariant
            i <= N <= data@.len(),
            forall|j: int| 0 <= j < i ==> bytes@[j] == data@[j],
        decreases N - i,
    {
        bytes[i] = data[i];
        i += 1;
    }
    let rest = slice_subrange(data, N, data.len());
    assert(bytes@ =~= data@.take(N as int));
    assert(rest@ =~= data@.skip(N as int));
    Some((bytes, rest))
}

/// Whether `left` and `right` hold the same bytes.
pub fn bytes_equal(left: &[u8], right: &[u8]) -> (same: bool)
    ensures
        same == (left@ == right@),
{
    if left.len() != right.len() {
        return false;
    }
    let mut i: usize = 0;
    while i < left.len()
        invariant
            i <= left@.len() == right@.len(),
            forall|j: int| 0 <= j < i ==> left@[j] == right@[j],
        decreases left@.len() - i,
    {
        if left[i] != right[i] {
            return false;
        }
        i += 1;
    }
    assert(left@ =~= right@);
    true
}

/// Reads a length-prefixed field from the front of `data`.
pub fn read_field(data: &[u8]) -> (read: Option<(Vec<u8>, &[u8])>)
    ensures
        match take_field(data@) {
            Some((field, rest)) => read matches Some((f, r)) && f@ == field && r@ == rest,
            None => read is None,
        },
{
    match read_u32(data) {
        None => None,
        Some((length, rest)) => {
            if rest.len() < length as usize {
                assert(rest@.len() < length as nat);
                None
            } else {
                read_bytes(rest, length as usize)
            }
        },
    }
}

} // verus!
