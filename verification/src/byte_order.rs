//! What a run of bytes means as a number, in either byte order.

use vstd::prelude::*;
use byteorder::{BigEndian, ByteOrder, LittleEndian, NativeEndian};
use crate::Endian;

verus! {

/// The number that `b` spells with its most significant byte first.
pub open spec fn be_value(b: Seq<u8>) -> nat
    decreases b.len(),
{
    if b.len() == 0 {
        0
    } else {
        be_value(b.drop_last()) * 256 + b.last() as nat
    }
}

/// The number that `b` spells with its least significant byte first.
pub open spec fn le_value(b: Seq<u8>) -> nat
    decreases b.len(),
{
    if b.len() == 0 {
        0
    } else {
        b[0] as nat + 256 * le_value(b.drop_first())
    }
}

/// The `width` bytes that spell `n` with its least significant byte first;
/// what of `n` does not fit in them is dropped.
pub open spec fn le_image(n: nat, width: nat) -> Seq<u8>
    decreases width,
{
    if width == 0 {
        Seq::empty()
    } else {
        seq![(n % 256) as u8] + le_image(n / 256, (width - 1) as nat)
    }
}

/// 256 to the power `width`: one more than the largest number that `width`
/// bytes can spell.
pub open spec fn radix(width: nat) -> nat
    decreases width,
{
    if width == 0 {
        1
    } else {
        256 * radix((width - 1) as nat)
    }
}

/// The signed number whose two's-complement pattern over `width` bytes is `n`.
pub open spec fn twos_complement(n: nat, width: nat) -> int {
    if 2 * n < radix(width) {
        n as int
    } else {
        n - radix(width)
    }
}

/// Whether `v` is what the bytes `b` spell as an unsigned number under
/// `order`. The native order is one of the two fixed orders, and which one is
/// the machine's affair: either reading is admitted.
pub open spec fn interprets(order: Endian, b: Seq<u8>, v: nat) -> bool {
    match order {
        Endian::BigEndian | Endian::NetworkEndian => v == be_value(b),
        Endian::LittleEndian => v == le_value(b),
        Endian::NativeEndian => v == be_value(b) || v == le_value(b),
    }
}

/// Whether `v` is what the bytes `b` spell as a two's-complement number
/// under `order`.
pub open spec fn interprets_signed(order: Endian, b: Seq<u8>, v: int) -> bool {
    match order {
        Endian::BigEndian | Endian::NetworkEndian => v == twos_complement(be_value(b), b.len()),
        Endian::LittleEndian => v == twos_complement(le_value(b), b.len()),
        Endian::NativeEndian => v == twos_complement(be_value(b), b.len())
            || v == twos_complement(le_value(b), b.len()),
    }
}

/// Calls `byteorder::BigEndian::read_u16`, which reads the first two bytes of
/// the buffer most significant first and panics on a shorter buffer.
#[verifier::external_body]
fn be_u16(buf: &[u8]) -> (v: u16)
    requires
        buf@.len() == 2,
    ensures
        v as nat == be_value(buf@),
{
    BigEndian::read_u16(buf)
}

/// Calls `byteorder::LittleEndian::read_u16`, which reads the first two bytes
/// of the buffer least significant first and panics on a shorter buffer.
#[verifier::external_body]
fn le_u16(buf: &[u8]) -> (v: u16)
    requires
        buf@.len() == 2,
    ensures
        v as nat == le_value(buf@),
{
    LittleEndian::read_u16(buf)
}

/// Calls `byteorder::NativeEndian::read_u16`. That type is an alias of one of
/// the two fixed orders, picked by the target the crate is built for, so the
/// result is one of the two readings.
#[verifier::external_body]
fn ne_u16(buf: &[u8]) -> (v: u16)
    requires
        buf@.len() == 2,
    ensures
        v as nat == be_value(buf@) || v as nat == le_value(buf@),
{
    NativeEndian::read_u16(buf)
}

/// Calls `byteorder::BigEndian::read_u32`, which reads the first four bytes of
/// the buffer most significant first and panics on a shorter buffer.
#[verifier::external_body]
fn be_u32(buf: &[u8]) -> (v: u32)
    requires
        buf@.len() == 4,
    ensures
        v as nat == be_value(buf@),
{
    BigEndian::read_u32(buf)
}

/// Calls `byteorder::LittleEndian::read_u32`, which reads the first four bytes
/// of the buffer least significant first and panics on a shorter buffer.
#[verifier::external_body]
fn le_u32(buf: &[u8]) -> (v: u32)
    requires
        buf@.len() == 4,
    ensures
        v as nat == le_value(buf@),
{
    LittleEndian::read_u32(buf)
}

/// Calls `byteorder::NativeEndian::read_u32`: one of the two fixed orders,
/// picked by the build target.
#[verifier::external_body]
fn ne_u32(buf: &[u8]) -> (v: u32)
    requires
        buf@.len() == 4,
    ensures
        v as nat == be_value(buf@) || v as nat == le_value(buf@),
{
    NativeEndian::read_u32(buf)
}

/// Calls `byteorder::BigEndian::read_u64`, which reads the first eight bytes
/// of the buffer most significant first and panics on a shorter buffer.
#[verifier::external_body]
fn be_u64(buf: &[u8]) -> (v: u64)
    requires
        buf@.len() == 8,
    ensures
        v as nat == be_value(buf@),
{
    BigEndian::read_u64(buf)
}

/// Calls `byteorder::LittleEndian::read_u64`, which reads the first eight
/// bytes of the buffer least significant first and panics on a shorter buffer.
#[verifier::external_body]
fn le_u64(buf: &[u8]) -> (v: u64)
    requires
        buf@.len() == 8,
    ensures
        v as nat == le_value(buf@),
{
    LittleEndian::read_u64(buf)
}

/// Calls `byteorder::NativeEndian::read_u64`: one of the two fixed orders,
/// picked by the build target.
#[verifier::external_body]
fn ne_u64(buf: &[u8]) -> (v: u64)
    requires
        buf@.len() == 8,
    ensures
        v as nat == be_value(buf@) || v as nat == le_value(buf@),
{
    NativeEndian::read_u64(buf)
}

/// Calls `byteorder::BigEndian::read_u128`, which reads the first sixteen
/// bytes of the buffer most significant first and panics on a shorter buffer.
#[verifier::external_body]
fn be_u128(buf: &[u8]) -> (v: u128)
    requires
        buf@.len() == 16,
    ensures
        v as nat == be_value(buf@),
{
    BigEndian::read_u128(buf)
}

/// Calls `byteorder::LittleEndian::read_u128`, which reads the first sixteen
/// bytes of the buffer least significant first and panics on a shorter buffer.
#[verifier::external_body]
pub(crate) fn le_u128(buf: &[u8]) -> (v: u128)
    requires
        buf@.len() == 16,
    ensures
        v as nat == le_value(buf@),
{
    LittleEndian::read_u128(buf)
}

/// Calls `byteorder::NativeEndian::read_u128`: one of the two fixed orders,
/// picked by the build target.
#[verifier::external_body]
fn ne_u128(buf: &[u8]) -> (v: u128)
    requires
        buf@.len() == 16,
    ensures
        v as nat == be_value(buf@) || v as nat == le_value(buf@),
{
    NativeEndian::read_u128(buf)
}

/// Calls `byteorder::LittleEndian::write_u128`, which stores the number in
/// the first sixteen bytes of the buffer, least significant byte first, and
/// panics on a shorter buffer.
#[verifier::external_body]
pub(crate) fn put_le_u128(buf: &mut Vec<u8>, n: u128)
    requires
        old(buf)@.len() == 16,
    ensures
        final(buf)@ == le_image(n as nat, 16),
{
    LittleEndian::write_u128(buf.as_mut_slice(), n)
}

/// Two bytes as an unsigned number under `order`.
pub fn decode_u16(order: Endian, buf: &[u8]) -> (v: u16)
    requires
        buf@.len() == 2,
    ensures
        interprets(order, buf@, v as nat),
{
    match order {
        Endian::BigEndian | Endian::NetworkEndian => be_u16(buf),
        Endian::LittleEndian => le_u16(buf),
        Endian::NativeEndian => ne_u16(buf),
    }
}

/// Four bytes as an unsigned number under `order`.
pub fn decode_u32(order: Endian, buf: &[u8]) -> (v: u32)
    requires
        buf@.len() == 4,
    ensures
        interprets(order, buf@, v as nat),
{
    match order {
        Endian::BigEndian | Endian::NetworkEndian => be_u32(buf),
        Endian::LittleEndian => le_u32(buf),
        Endian::NativeEndian => ne_u32(buf),
    }
}

/// Eight bytes as an unsigned number under `order`.
pub fn decode_u64(order: Endian, buf: &[u8]) -> (v: u64)
    requires
        buf@.len() == 8,
    ensures
        interprets(order, buf@, v as nat),
{
    match order {
        Endian::BigEndian | Endian::NetworkEndian => be_u64(buf),
        Endian::LittleEndian => le_u64(buf),
        Endian::NativeEndian => ne_u64(buf),
    }
}

/// Sixteen bytes as an unsigned number under `order`.
pub fn decode_u128(order: Endian, buf: &[u8]) -> (v: u128)
    requires
        buf@.len() == 16,
    ensures
        interprets(order, buf@, v as nat),
{
    match order {
        Endian::BigEndian | Endian::NetworkEndian => be_u128(buf),
        Endian::LittleEndian => le_u128(buf),
        Endian::NativeEndian => ne_u128(buf),
    }
}

/// The two orders mirror each other: what bytes spell most significant first
/// is what the same bytes in reverse spell least significant first.
pub proof fn lemma_orders_mirror(b: Seq<u8>)
    ensures
        be_value(b) == le_value(b.reverse()),
    decreases b.len(),
{
    if b.len() > 0 {
        lemma_orders_mirror(b.drop_last());
        assert(b.reverse()[0] == b.last());
        assert(b.reverse().drop_first() =~= b.drop_last().reverse());
    } else {
        assert(b.reverse().len() == 0);
    }
}

/// An image has the width it was asked for.
pub proof fn lemma_le_image_len(n: nat, width: nat)
    ensures
        le_image(n, width).len() == width,
    decreases width,
{
    if width > 0 {
        lemma_le_image_len(n / 256, (width - 1) as nat);
    }
}

/// Spelling out the number that bytes spell gives the bytes back.
pub proof fn lemma_le_image_of_value(b: Seq<u8>)
    ensures
        le_image(le_value(b), b.len()) == b,
    decreases b.len(),
{
    if b.len() > 0 {
        let rest = b.drop_first();
        lemma_le_image_of_value(rest);
        let n = le_value(b);
        assert(n == b[0] as nat + 256 * le_value(rest));
        assert(n % 256 == b[0] as nat);
        assert(n / 256 == le_value(rest));
        assert(le_image(n, b.len()) =~= b);
    } else {
        assert(le_image(le_value(b), b.len()) =~= b);
    }
}

/// The powers of 256 at the widths that scalars come in.
pub proof fn lemma_radix_values()
    ensures
        radix(1) == 0x100,
        radix(2) == 0x1_0000,
        radix(4) == 0x1_0000_0000,
        radix(8) == 0x1_0000_0000_0000_0000,
        radix(16) == 0x1_0000_0000_0000_0000 * 0x1_0000_0000_0000_0000,
{
    reveal_with_fuel(radix, 17);
}

/// One byte as a two's-complement number.
pub fn signed_8(u: u8) -> (v: i8)
    ensures
        v as int == twos_complement(u as nat, 1),
{
    proof {
        lemma_radix_values();
    }
    if u < 0x80 {
        u as i8
    } else {
        let low: i8 = (u - 0x80) as i8;
        low + i8::MIN
    }
}

/// A 16-bit pattern as a two's-complement number.
pub fn signed_16(u: u16) -> (v: i16)
    ensures
        v as int == twos_complement(u as nat, 2),
{
    proof {
        lemma_radix_values();
    }
    if u < 0x8000 {
        u as i16
    } else {
        let low: i16 = (u - 0x8000) as i16;
        low + i16::MIN
    }
}

/// A 32-bit pattern as a two's-complement number.
pub fn signed_32(u: u32) -> (v: i32)
    ensures
        v as int == twos_complement(u as nat, 4),
{
    proof {
        lemma_radix_values();
    }
    if u < 0x8000_0000 {
        u as i32
    } else {
        let low: i32 = (u - 0x8000_0000) as i32;
        low + i32::MIN
    }
}

/// A 64-bit pattern as a two's-complement number.
pub fn signed_64(u: u64) -> (v: i64)
    ensures
        v as int == twos_complement(u as nat, 8),
{
    proof {
        lemma_radix_values();
    }
    if u < 0x8000_0000_0000_0000 {
        u as i64
    } else {
        let low: i64 = (u - 0x8000_0000_0000_0000) as i64;
        low + i64::MIN
    }
}

/// A 128-bit pattern as a two's-complement number.
pub fn signed_128(u: u128) -> (v: i128)
    ensures
        v as int == twos_complement(u as nat, 16),
{
    proof {
        lemma_radix_values();
    }
    if u < 0x8000_0000_0000_0000_0000_0000_0000_0000 {
        u as i128
    } else {
        let low: i128 = (u - 0x8000_0000_0000_0000_0000_0000_0000_0000) as i128;
        low + i128::MIN
    }
}

} // verus!
