//! Numbers of the scene format: little-endian integers, and reals carried
//! by their bit patterns.
//!
//! The format stores reals as IEEE 754 binary32 and binary64 values in
//! little-endian order. The library never computes with them; it keeps the
//! bits exactly as read and leaves their interpretation to the caller.

use vstd::prelude::*;

verus! {

/// An IEEE 754 binary32 value, kept as its 32 bits.
#[derive(Clone, Copy, Debug, PartialEq, Eq, Hash, Structural)]
pub struct Real32(pub u32);

/// An IEEE 754 binary64 value, kept as its 64 bits.
#[derive(Clone, Copy, Debug, PartialEq, Eq, Hash, Structural)]
pub struct Real64(pub u64);

impl View for Real32 {
    type V = Real32;

    open spec fn view(&self) -> Real32 {
        *self
    }
}

impl View for Real64 {
    type V = Real64;

    open spec fn view(&self) -> Real64 {
        *self
    }
}

impl Real32 {
    /// The bits of `0.0`.
    pub fn zero() -> (r: Real32)
        ensures
            r == Real32(0),
    {
        Real32(0)
    }

    /// The bits of `1.0`.
    pub fn one() -> (r: Real32)
        ensures
            r == Real32(0x3f80_0000),
    {
        Real32(0x3f80_0000)
    }

    /// The bit pattern.
    pub fn to_bits(self) -> (bits: u32)
        ensures
            bits == self.0,
    {
        self.0
    }
}

impl Real64 {
    /// The bit pattern.
    pub fn to_bits(self) -> (bits: u64)
        ensures
            bits == self.0,
    {
        self.0
    }
}

/// The number that the four bytes from `at` on stand for in little-endian
/// order.
pub open spec fn le_u32(bytes: Seq<u8>, at: int) -> u32 {
    (bytes[at] + 0x100 * bytes[at + 1] + 0x1_0000 * bytes[at + 2] + 0x100_0000 * bytes[at
        + 3]) as u32
}

/// The number that the eight bytes from `at` on stand for in little-endian
/// order.
pub open spec fn le_u64(bytes: Seq<u8>, at: int) -> u64 {
    (le_u32(bytes, at) + 0x1_0000_0000 * le_u32(bytes, at + 4)) as u64
}

/// The signed number with the two's complement bit pattern `bits`.
pub open spec fn signed(bits: u32) -> i32 {
    if bits < 0x8000_0000 {
        bits as i32
    } else {
        (bits - 0x1_0000_0000) as i32
    }
}

/// The four bytes that stand for `n` in little-endian order.
pub open spec fn u32_le_bytes(n: u32) -> Seq<u8> {
    seq![
        (n % 0x100) as u8,
        ((n / 0x100) % 0x100) as u8,
        ((n / 0x1_0000) % 0x100) as u8,
        (n / 0x100_0000) as u8,
    ]
}

/// The eight bytes that stand for `n` in little-endian order.
pub open spec fn u64_le_bytes(n: u64) -> Seq<u8> {
    u32_le_bytes((n % 0x1_0000_0000) as u32) + u32_le_bytes((n / 0x1_0000_0000) as u32)
}

/// The bytes of a number stand for that number.
pub proof fn lemma_u32_le_round_trip(n: u32)
    ensures
        u32_le_bytes(n).len() == 4,
        le_u32(u32_le_bytes(n), 0) == n,
{
}

/// The bytes of a number stand for that number.
pub proof fn lemma_u64_le_round_trip(n: u64)
    ensures
        u64_le_bytes(n).len() == 8,
        le_u64(u64_le_bytes(n), 0) == n,
{
    let low = (n % 0x1_0000_0000) as u32;
    let high = (n / 0x1_0000_0000) as u32;
    lemma_u32_le_round_trip(low);
    lemma_u32_le_round_trip(high);
    let bytes = u64_le_bytes(n);
    assert(le_u32(bytes, 0) == le_u32(u32_le_bytes(low), 0));
    assert(le_u32(bytes, 4) == le_u32(u32_le_bytes(high), 0));
}

/// Reads four bytes from `at` on as a number in little-endian order.
pub fn read_le_u32(bytes: &[u8], at: usize) -> (n: u32)
    requires
        at + 4 <= bytes@.len(),
    ensures
        n == le_u32(bytes@, at as int),
{
    bytes[at] as u32 + 0x100 * (bytes[at + 1] as u32) + 0x1_0000 * (bytes[at + 2] as u32)
        + 0x100_0000 * (bytes[at + 3] as u32)
}

/// Reads eight bytes from `at` on as a number in little-endian order.
pub fn read_le_u64(bytes: &[u8], at: usize) -> (n: u64)
    requires
        at + 8 <= bytes@.len(),
    ensures
        n == le_u64(bytes@, at as int),
{
    let _len = bytes.len();
    let low = read_le_u32(bytes, at);
    let high = read_le_u32(bytes, at + 4);
    low as u64 + 0x1_0000_0000 * (high as u64)
}

/// The signed number with the two's complement bit pattern `bits`.
pub fn to_signed(bits: u32) -> (n: i32)
    ensures
        n == signed(bits),
{
    if bits < 0x8000_0000 {
        bits as i32
    } else {
        (bits - 0x8000_0000) as i32 - 0x4000_0000 - 0x4000_0000
    }
}

/// Appends the four bytes that stand for `n` in little-endian order.
pub fn push_le_u32(out: &mut Vec<u8>, n: u32)
    ensures
        final(out)@ == old(out)@ + u32_le_bytes(n),
{
    out.push((n % 0x100) as u8);
    out.push(((n / 0x100) % 0x100) as u8);
    out.push(((n / 0x1_0000) % 0x100) as u8);
    out.push((n / 0x100_0000) as u8);
    assert(out@ =~= old(out)@ + u32_le_bytes(n));
}

/// Appends the eight bytes that stand for `n` in little-endian order.
pub fn push_le_u64(out: &mut Vec<u8>, n: u64)
    ensures
        final(out)@ == old(out)@ + u64_le_bytes(n),
{
    push_le_u32(out, (n % 0x1_0000_0000) as u32);
    push_le_u32(out, (n / 0x1_0000_0000) as u32);
    assert(out@ =~= old(out)@ + u64_le_bytes(n));
}

} // verus!
