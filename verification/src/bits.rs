//! Bytes and words of wider integers.
use vstd::prelude::*;

verus! {

/// The low byte.
pub open spec fn byte0(x: u32) -> u8 {
    (x % 0x100) as u8
}

/// The byte above the low one.
pub open spec fn byte1(x: u32) -> u8 {
    ((x / 0x100) % 0x100) as u8
}

pub open spec fn byte2(x: u32) -> u8 {
    ((x / 0x1_0000) % 0x100) as u8
}

pub open spec fn byte3(x: u32) -> u8 {
    (x / 0x100_0000) as u8
}

/// The low 16 bits.
pub open spec fn word0(x: u32) -> u16 {
    (x % 0x1_0000) as u16
}

/// The high 16 bits.
pub open spec fn word1(x: u32) -> u16 {
    (x / 0x1_0000) as u16
}

/// `x` with its low byte replaced.
pub open spec fn with_byte0(x: u32, b: u8) -> u32 {
    (x - x % 0x100 + b) as u32
}

/// `x` with its second byte replaced.
pub open spec fn with_byte1(x: u32, b: u8) -> u32 {
    (x - byte1(x) * 0x100 + b * 0x100) as u32
}

/// `x` with its low word replaced.
pub open spec fn with_word0(x: u32, w: u16) -> u32 {
    (x - x % 0x1_0000 + w) as u32
}

/// The 16-bit number with low byte `lo` and high byte `hi`.
pub open spec fn u16_of(lo: u8, hi: u8) -> u16 {
    (lo + hi * 0x100) as u16
}

/// The 32-bit number with bytes `a`, `b`, `c`, `d` from low to high.
pub open spec fn u32_of(a: u8, b: u8, c: u8, d: u8) -> u32 {
    (a + b * 0x100 + c * 0x1_0000 + d * 0x100_0000) as u32
}

/// The lesser of two numbers.
pub open spec fn lesser(a: int, b: int) -> int {
    if a <= b { a } else { b }
}

pub proof fn lemma_bytes_of_u32(x: u32, b: u8, w: u16)
    by (bit_vector)
    ensures
        x & 0xff == x % 0x100,
        (x & 0xff00) >> 8 == (x / 0x100) % 0x100,
        (x >> 8) & 0xff == (x / 0x100) % 0x100,
        (x >> 16) & 0xff == (x / 0x1_0000) % 0x100,
        x >> 24 == x / 0x100_0000,
        x >> 8 == x / 0x100,
        x >> 16 == x / 0x1_0000,
        x & 0xffff == x % 0x1_0000,
        x as u8 == x % 0x100,
        (x >> 8) as u8 == (x / 0x100) % 0x100,
        (x >> 16) as u8 == (x / 0x1_0000) % 0x100,
        (x >> 24) as u8 == x / 0x100_0000,
        x as u16 == x % 0x1_0000,
        (x & 0xffffff00) | (b as u32) == x - x % 0x100 + b,
        (x & 0xffff00ff) | ((b as u32) << 8) == x - ((x / 0x100) % 0x100) * 0x100 + b * 0x100,
        (x & 0xffff0000) | (w as u32) == x - x % 0x1_0000 + w,
        x & 0xffff0000 == x - x % 0x1_0000,
{
}

proof fn lemma_recompose(x: u32)
    by (bit_vector)
    ensures
        (x % 0x100) + ((x / 0x100) % 0x100) * 0x100 + ((x / 0x1_0000) % 0x100) * 0x1_0000
            + (x / 0x100_0000) * 0x100_0000 == x,
        x / 0x100_0000 < 0x100,
{
}

proof fn lemma_decompose(a: u8, b: u8, c: u8, d: u8)
    by (bit_vector)
    ensures
        ((a + b * 0x100 + c * 0x1_0000 + d * 0x100_0000) as u32) % 0x100 == a,
        (((a + b * 0x100 + c * 0x1_0000 + d * 0x100_0000) as u32) / 0x100) % 0x100 == b,
        (((a + b * 0x100 + c * 0x1_0000 + d * 0x100_0000) as u32) / 0x1_0000) % 0x100 == c,
        ((a + b * 0x100 + c * 0x1_0000 + d * 0x100_0000) as u32) / 0x100_0000 == d,
{
}

/// Taking a word apart and putting it together gives the word back.
pub proof fn bytes_round_trip(x: u32, a: u8, b: u8, c: u8, d: u8)
    ensures
        u32_of(byte0(x), byte1(x), byte2(x), byte3(x)) == x,
        byte0(u32_of(a, b, c, d)) == a,
        byte1(u32_of(a, b, c, d)) == b,
        byte2(u32_of(a, b, c, d)) == c,
        byte3(u32_of(a, b, c, d)) == d,
{
    lemma_recompose(x);
    lemma_decompose(a, b, c, d);
}

pub proof fn lemma_parts_independent(x: u32, b: u8, w: u16)
    by (bit_vector)
    ensures
        ((x - x % 0x100 + b) as u32) % 0x100 == b,
        (((x - x % 0x100 + b) as u32) / 0x100) % 0x100 == (x / 0x100) % 0x100,
        ((x - x % 0x100 + b) as u32) / 0x1_0000 == x / 0x1_0000,
        (((x - ((x / 0x100) % 0x100) * 0x100 + b * 0x100) as u32) / 0x100) % 0x100 == b,
        ((x - ((x / 0x100) % 0x100) * 0x100 + b * 0x100) as u32) % 0x100 == x % 0x100,
        ((x - ((x / 0x100) % 0x100) * 0x100 + b * 0x100) as u32) / 0x1_0000 == x / 0x1_0000,
        0 <= x - ((x / 0x100) % 0x100) * 0x100 + b * 0x100 <= 0xffff_ffff,
        0 <= x - x % 0x100 + b <= 0xffff_ffff,
        0 <= x - x % 0x1_0000 + w <= 0xffff_ffff,
        ((x - x % 0x1_0000 + w) as u32) % 0x1_0000 == w,
        ((x - x % 0x1_0000 + w) as u32) / 0x1_0000 == x / 0x1_0000,
{
}

pub proof fn lemma_nibbles(b: u8)
    by (bit_vector)
    ensures
        b & 0x0f == b % 16,
        (b >> 4) & 0x0f == b / 16,
        b >> 4 == b / 16,
{
}

pub proof fn lemma_low_five_bits(b: u8)
    by (bit_vector)
    ensures
        b & 0x1f == b % 0x20,
{
}

pub fn u32_from_bytes(a: u8, b: u8, c: u8, d: u8) -> (r: u32)
    ensures
        r == u32_of(a, b, c, d),
{
    a as u32 + b as u32 * 0x100 + c as u32 * 0x1_0000 + d as u32 * 0x100_0000
}

pub fn u16_from_bytes(lo: u8, hi: u8) -> (r: u16)
    ensures
        r == u16_of(lo, hi),
{
    lo as u16 + hi as u16 * 0x100
}

/// The four bytes of `x` from low to high.
pub fn u32_bytes(x: u32) -> (r: (u8, u8, u8, u8))
    ensures
        r == (byte0(x), byte1(x), byte2(x), byte3(x)),
{
    ((x % 0x100) as u8, ((x / 0x100) % 0x100) as u8, ((x / 0x1_0000) % 0x100) as u8, (x / 0x100_0000) as u8)
}

/// The 32-bit number with high word `hi` and low word `lo`.
pub open spec fn dword(hi: u16, lo: u16) -> u32 {
    (hi * 0x1_0000 + lo) as u32
}

pub fn low16(x: u32) -> (r: u16)
    ensures
        r == word0(x),
{
    (x % 0x1_0000) as u16
}

pub fn high16(x: u32) -> (r: u16)
    ensures
        r == word1(x),
{
    (x / 0x1_0000) as u16
}

/// `x` with its low word replaced.
pub fn set_low16(x: u32, w: u16) -> (r: u32)
    ensures
        r == with_word0(x, w),
{
    x - x % 0x1_0000 + w as u32
}

/// `x` with its low byte replaced.
pub fn set_low8(x: u32, b: u8) -> (r: u32)
    ensures
        r == with_byte0(x, b),
{
    x - x % 0x100 + b as u32
}

/// `x` with its second byte replaced.
pub fn set_mid8(x: u32, b: u8) -> (r: u32)
    ensures
        r == with_byte1(x, b),
{
    x - ((x / 0x100) % 0x100) * 0x100 + b as u32 * 0x100
}

pub fn make_dword(hi: u16, lo: u16) -> (r: u32)
    ensures
        r == dword(hi, lo),
{
    hi as u32 * 0x1_0000 + lo as u32
}

} // verus!
