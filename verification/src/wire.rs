//! Big-endian integers on the wire, read and written through `byteorder`.

use byteorder::{BigEndian, ReadBytesExt, WriteBytesExt};
use std::io::Cursor;
use vstd::prelude::*;

verus! {

/// The two bytes of `value`, most significant first.
pub open spec fn u16_bytes(value: u16) -> Seq<u8> {
    seq![(value / 0x100) as u8, (value % 0x100) as u8]
}

/// The four bytes of `value`, most significant first.
pub open spec fn u32_bytes(value: u32) -> Seq<u8> {
    seq![
        (value / 0x100_0000) as u8,
        (value / 0x1_0000 % 0x100) as u8,
        (value / 0x100 % 0x100) as u8,
        (value % 0x100) as u8,
    ]
}

/// The eight bytes of `value`, most significant first.
pub open spec fn u64_bytes(value: u64) -> Seq<u8> {
    u32_bytes((value / 0x1_0000_0000) as u32) + u32_bytes((value % 0x1_0000_0000) as u32)
}

/// The number that `width` bytes of `bytes` from `position` on spell, most
/// significant first.
pub open spec fn be_value(bytes: Seq<u8>, position: int, width: nat) -> nat
    decreases width,
{
    if width == 0 {
        0
    } else {
        be_value(bytes, position, (width - 1) as nat) * 0x100 + bytes[position + width - 1] as nat
    }
}

/// Whether `width` bytes can be read from `bytes` at `position`.
pub open spec fn in_bounds(bytes: Seq<u8>, position: int, width: nat) -> bool {
    0 <= position && position + width <= bytes.len()
}

/// The byte at `position`; nothing where `bytes` ends before it.
pub open spec fn spec_read_u8(bytes: Seq<u8>, position: int) -> Option<u8> {
    if in_bounds(bytes, position, 1) {
        Some(bytes[position])
    } else {
        None
    }
}

/// The 16-bit number in the two bytes at `position`; nothing where `bytes`
/// ends before them.
pub open spec fn spec_read_u16(bytes: Seq<u8>, position: int) -> Option<u16> {
    if in_bounds(bytes, position, 2) {
        Some(be_value(bytes, position, 2) as u16)
    } else {
        None
    }
}

/// The 32-bit number in the four bytes at `position`; nothing where `bytes`
/// ends before them.
pub open spec fn spec_read_u32(bytes: Seq<u8>, position: int) -> Option<u32> {
    if in_bounds(bytes, position, 4) {
        Some(be_value(bytes, position, 4) as u32)
    } else {
        None
    }
}

/// The 64-bit number in the eight bytes at `position`; nothing where `bytes`
/// ends before them.
pub open spec fn spec_read_u64(bytes: Seq<u8>, position: int) -> Option<u64> {
    if in_bounds(bytes, position, 8) {
        Some(be_value(bytes, position, 8) as u64)
    } else {
        None
    }
}

/// Reading back what `u16_bytes` spells gives the number again, wherever the
/// two bytes stand.
pub proof fn lemma_u16_round_trip(bytes: Seq<u8>, position: int, value: u16)
    requires
        in_bounds(bytes, position, 2),
        bytes.subrange(position, position + 2) == u16_bytes(value),
    ensures
        spec_read_u16(bytes, position) == Some(value),
{
    reveal_with_fuel(be_value, 3);
    let field = bytes.subrange(position, position + 2);
    assert(bytes[position] == field[0]);
    assert(bytes[position + 1] == field[1]);
}

/// Reading back what `u32_bytes` spells gives the number again, wherever the
/// four bytes stand.
pub proof fn lemma_u32_round_trip(bytes: Seq<u8>, position: int, value: u32)
    requires
        in_bounds(bytes, position, 4),
        bytes.subrange(position, position + 4) == u32_bytes(value),
    ensures
        spec_read_u32(bytes, position) == Some(value),
{
    reveal_with_fuel(be_value, 5);
    let field = bytes.subrange(position, position + 4);
    assert(bytes[position] == field[0]);
    assert(bytes[position + 1] == field[1]);
    assert(bytes[position + 2] == field[2]);
    assert(bytes[position + 3] == field[3]);
}

/// The four bytes that `u32_bytes` spells have the value of the number.
proof fn lemma_be4(bytes: Seq<u8>, position: int, value: u32)
    requires
        in_bounds(bytes, position, 4),
        bytes.subrange(position, position + 4) == u32_bytes(value),
    ensures
        be_value(bytes, position, 4) == value,
{
    reveal_with_fuel(be_value, 5);
    let field = bytes.subrange(position, position + 4);
    assert(bytes[position] == field[0]);
    assert(bytes[position + 1] == field[1]);
    assert(bytes[position + 2] == field[2]);
    assert(bytes[position + 3] == field[3]);
}

/// Eight bytes are worth their first four, moved up by four bytes, and
/// their last four.
proof fn lemma_be8_split(bytes: Seq<u8>, position: int)
    ensures
        be_value(bytes, position, 8) == be_value(bytes, position, 4) * 0x1_0000_0000 + be_value(
            bytes,
            position + 4,
            4,
        ),
{
    let high = be_value(bytes, position, 4);
    assert(be_value(bytes, position, 5) == high * 0x100 + bytes[position + 4] as nat);
    assert(be_value(bytes, position, 6) == be_value(bytes, position, 5) * 0x100 + bytes[position
        + 5] as nat);
    assert(be_value(bytes, position, 7) == be_value(bytes, position, 6) * 0x100 + bytes[position
        + 6] as nat);
    assert(be_value(bytes, position, 8) == be_value(bytes, position, 7) * 0x100 + bytes[position
        + 7] as nat);
    assert(be_value(bytes, position + 4, 4) == ((bytes[position + 4] as nat * 0x100
        + bytes[position + 5] as nat) * 0x100 + bytes[position + 6] as nat) * 0x100
        + bytes[position + 7] as nat) by {
        reveal_with_fuel(be_value, 5);
    }
}

/// Reading back what `u64_bytes` spells gives the number again, wherever the
/// eight bytes stand.
pub proof fn lemma_u64_round_trip(bytes: Seq<u8>, position: int, value: u64)
    requires
        in_bounds(bytes, position, 8),
        bytes.subrange(position, position + 8) == u64_bytes(value),
    ensures
        spec_read_u64(bytes, position) == Some(value),
{
    let high = (value / 0x1_0000_0000) as u32;
    let low = (value % 0x1_0000_0000) as u32;
    let field = bytes.subrange(position, position + 8);
    assert(bytes.subrange(position, position + 4) =~= field.subrange(0, 4));
    assert(bytes.subrange(position + 4, position + 8) =~= field.subrange(4, 8));
    assert(field.subrange(0, 4) =~= u32_bytes(high));
    assert(field.subrange(4, 8) =~= u32_bytes(low));
    lemma_be4(bytes, position, high);
    lemma_be4(bytes, position + 4, low);
    lemma_be8_split(bytes, position);
}

/// The two bytes that a 16-bit number was read from spell that number.
pub proof fn lemma_u16_bytes_of_read(bytes: Seq<u8>, position: int)
    requires
        in_bounds(bytes, position, 2),
    ensures
        u16_bytes(spec_read_u16(bytes, position).unwrap()) == bytes.subrange(
            position,
            position + 2,
        ),
{
    reveal_with_fuel(be_value, 3);
    assert(u16_bytes(spec_read_u16(bytes, position).unwrap()) =~= bytes.subrange(
        position,
        position + 2,
    ));
}

/// Calls `byteorder::ReadBytesExt::read_u8` on a cursor over `bytes` placed at
/// `position`. Trusted: the call yields the byte at the cursor, and fails
/// exactly when no byte is left there.
#[verifier::external_body]
pub(crate) fn read_u8_at(bytes: &[u8], position: usize) -> (value: Option<u8>)
    ensures
        value == spec_read_u8(bytes@, position as int),
{
    let mut cursor = Cursor::new(bytes);
    cursor.set_position(position as u64);
    cursor.read_u8().ok()
}

/// Calls `byteorder::ReadBytesExt::read_u16::<BigEndian>` on a cursor over
/// `bytes` placed at `position`. Trusted: the call yields the next two bytes
/// as a number, most significant byte first, and fails exactly when fewer than
/// two bytes are left.
#[verifier::external_body]
pub(crate) fn read_u16_at(bytes: &[u8], position: usize) -> (value: Option<u16>)
    ensures
        value == spec_read_u16(bytes@, position as int),
{
    let mut cursor = Cursor::new(bytes);
    cursor.set_position(position as u64);
    cursor.read_u16::<BigEndian>().ok()
}

/// Calls `byteorder::ReadBytesExt::read_u32::<BigEndian>` on a cursor over
/// `bytes` placed at `position`. Trusted: the call yields the next four bytes
/// as a number, most significant byte first, and fails exactly when fewer than
/// four bytes are left.
#[verifier::external_body]
pub(crate) fn read_u32_at(bytes: &[u8], position: usize) -> (value: Option<u32>)
    ensures
        value == spec_read_u32(bytes@, position as int),
{
    let mut cursor = Cursor::new(bytes);
    cursor.set_position(position as u64);
    cursor.read_u32::<BigEndian>().ok()
}

/// Calls `byteorder::ReadBytesExt::read_u64::<BigEndian>` on a cursor over
/// `bytes` placed at `position`. Trusted: the call yields the next eight bytes
/// as a number, most significant byte first, and fails exactly when fewer than
/// eight bytes are left.
#[verifier::external_body]
pub(crate) fn read_u64_at(bytes: &[u8], position: usize) -> (value: Option<u64>)
    ensures
        value == spec_read_u64(bytes@, position as int),
{
    let mut cursor = Cursor::new(bytes);
    cursor.set_position(position as u64);
    cursor.read_u64::<BigEndian>().ok()
}

/// Calls `byteorder::WriteBytesExt::write_u8` on `out`. Trusted: the call
/// appends the byte and leaves what was there.
#[verifier::external_body]
pub(crate) fn write_u8(out: &mut Vec<u8>, value: u8)
    ensures
        final(out)@ == old(out)@.push(value),
{
    let _ = out.write_u8(value);
}

/// Calls `byteorder::WriteBytesExt::write_u16::<BigEndian>` on `out`. Trusted:
/// the call appends the two bytes of `value`, most significant first.
#[verifier::external_body]
pub(crate) fn write_u16(out: &mut Vec<u8>, value: u16)
    ensures
        final(out)@ == old(out)@ + u16_bytes(value),
{
    let _ = out.write_u16::<BigEndian>(value);
}

/// Calls `byteorder::WriteBytesExt::write_u32::<BigEndian>` on `out`. Trusted:
/// the call appends the four bytes of `value`, most significant first.
#[verifier::external_body]
pub(crate) fn write_u32(out: &mut Vec<u8>, value: u32)
    ensures
        final(out)@ == old(out)@ + u32_bytes(value),
{
    let _ = out.write_u32::<BigEndian>(value);
}

/// Calls `byteorder::WriteBytesExt::write_u64::<BigEndian>` on `out`. Trusted:
/// the call appends the eight bytes of `value`, most significant first.
#[verifier::external_body]
pub(crate) fn write_u64(out: &mut Vec<u8>, value: u64)
    ensures
        final(out)@ == old(out)@ + u64_bytes(value),
{
    let _ = out.write_u64::<BigEndian>(value);
}

/// Appends `bytes` to `out`.
pub fn extend(out: &mut Vec<u8>, bytes: &[u8])
    ensures
        final(out)@ == old(out)@ + bytes@,
{
    let mut i: usize = 0;
    while i < bytes.len()
        invariant
            i <= bytes.len(),
            out@ == old(out)@ + bytes@.subrange(0, i as int),
        decreases bytes.len() - i,
    {
        out.push(bytes[i]);
        assert(bytes@.subrange(0, i + 1) =~= bytes@.subrange(0, i as int).push(bytes@[i as int]));
        i += 1;
    }
    assert(bytes@.subrange(0, i as int) =~= bytes@);
}

/// Whether the two strings of bytes are the same.
pub fn bytes_equal(a: &[u8], b: &[u8]) -> (equal: bool)
    ensures
        equal == (a@ == b@),
{
    if a.len() != b.len() {
        return false;
    }
    let mut i: usize = 0;
    while i < a.len()
        invariant
            i <= a.len(),
            a.len() == b.len(),
            a@.subrange(0, i as int) == b@.subrange(0, i as int),
        decreases a.len() - i,
    {
        if a[i] != b[i] {
            return false;
        }
        assert(a@.subrange(0, i + 1) =~= a@.subrange(0, i as int).push(a@[i as int]));
        assert(b@.subrange(0, i + 1) =~= b@.subrange(0, i as int).push(b@[i as int]));
        i += 1;
    }
    assert(a@.subrange(0, i as int) =~= a@);
    assert(b@.subrange(0, i as int) =~= b@);
    true
}

} // verus!
