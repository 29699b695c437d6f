//! Little-endian words read from byte sequences, and bit rotations.

use vstd::prelude::*;

verus! {

/// Byte `i` of `s`, or zero where `s` has no such byte.
pub open spec fn byte_at(s: Seq<u8>, i: int) -> u8 {
    if 0 <= i < s.len() {
        s[i]
    } else {
        0
    }
}

/// The 32-bit word whose bytes are, from the least significant one, `b0` to
/// `b3`: each byte counts by its place.
pub open spec fn le32(b0: u8, b1: u8, b2: u8, b3: u8) -> u32 {
    (b0 + 0x100 * b1 + 0x1_0000 * b2 + 0x100_0000 * b3) as u32
}

/// The little-endian 32-bit word at offset `at` of `s`; bytes past the end read as zero.
pub open spec fn word32_at(s: Seq<u8>, at: int) -> u32 {
    le32(byte_at(s, at), byte_at(s, at + 1), byte_at(s, at + 2), byte_at(s, at + 3))
}

/// The 64-bit word whose bytes are, from the least significant one, `b0` to
/// `b7`: each byte counts by its place.
pub open spec fn le64(b0: u8, b1: u8, b2: u8, b3: u8, b4: u8, b5: u8, b6: u8, b7: u8) -> u64 {
    (b0 + 0x100 * b1 + 0x1_0000 * b2 + 0x100_0000 * b3 + 0x1_0000_0000 * b4 + 0x100_0000_0000 * b5
        + 0x1_0000_0000_0000 * b6 + 0x100_0000_0000_0000 * b7) as u64
}

/// The little-endian 64-bit word at offset `at` of `s`; bytes past the end read as zero.
pub open spec fn word64_at(s: Seq<u8>, at: int) -> u64 {
    le64(
        byte_at(s, at),
        byte_at(s, at + 1),
        byte_at(s, at + 2),
        byte_at(s, at + 3),
        byte_at(s, at + 4),
        byte_at(s, at + 5),
        byte_at(s, at + 6),
        byte_at(s, at + 7),
    )
}

/// `x` rotated left by `r` bits, for `0 < r < 32`.
pub open spec fn rotl32(x: u32, r: u32) -> u32 {
    (x << r) | (x >> ((32 - r) as u32))
}

/// `x` rotated left by `r` bits, for `0 < r < 64`.
pub open spec fn rotl64(x: u64, r: u32) -> u64 {
    (x << r) | (x >> ((64 - r) as u32))
}

/// Byte `i` of `bytes`, or zero past the end.
pub fn byte_or_zero(bytes: &[u8], i: usize) -> (b: u8)
    ensures
        b == byte_at(bytes@, i as int),
{
    if i < bytes.len() {
        bytes[i]
    } else {
        0
    }
}

/// Assembles a 32-bit word from its four bytes, least significant first.
pub fn join32(b0: u8, b1: u8, b2: u8, b3: u8) -> (k: u32)
    ensures
        k == le32(b0, b1, b2, b3),
{
    assert((b0 as u32) | ((b1 as u32) << 8u32) | ((b2 as u32) << 16u32) | ((b3 as u32) << 24u32)
        == b0 + 0x100 * b1 + 0x1_0000 * b2 + 0x100_0000 * b3) by (bit_vector);
    (b0 as u32) | ((b1 as u32) << 8u32) | ((b2 as u32) << 16u32) | ((b3 as u32) << 24u32)
}

/// Reads the little-endian 32-bit word that starts at `at`. The read is made
/// byte by byte, so `at` need not be aligned.
pub fn load32(bytes: &[u8], at: usize) -> (k: u32)
    requires
        at + 4 <= bytes@.len(),
    ensures
        k == word32_at(bytes@, at as int),
{
    join32(bytes[at], bytes[at + 1], bytes[at + 2], bytes[at + 3])
}

/// Rotates `x` left by `r` bits.
pub fn rotate_left32(x: u32, r: u32) -> (y: u32)
    requires
        0 < r < 32,
    ensures
        y == rotl32(x, r),
{
    (x << r) | (x >> (32 - r))
}

/// Assembles a 64-bit word from its eight bytes, least significant first.
pub fn join64(b0: u8, b1: u8, b2: u8, b3: u8, b4: u8, b5: u8, b6: u8, b7: u8) -> (k: u64)
    ensures
        k == le64(b0, b1, b2, b3, b4, b5, b6, b7),
{
    assert((b0 as u64) | ((b1 as u64) << 8u32) | ((b2 as u64) << 16u32) | ((b3 as u64) << 24u32)
        | ((b4 as u64) << 32u32) | ((b5 as u64) << 40u32) | ((b6 as u64) << 48u32) | ((b7 as u64)
        << 56u32) == b0 + 0x100 * b1 + 0x1_0000 * b2 + 0x100_0000 * b3 + 0x1_0000_0000 * b4
        + 0x100_0000_0000 * b5 + 0x1_0000_0000_0000 * b6 + 0x100_0000_0000_0000 * b7)
        by (bit_vector);
    (b0 as u64) | ((b1 as u64) << 8u32) | ((b2 as u64) << 16u32) | ((b3 as u64) << 24u32) | ((b4 as u64)
        << 32u32) | ((b5 as u64) << 40u32) | ((b6 as u64) << 48u32) | ((b7 as u64) << 56u32)
}

/// Reads the little-endian 64-bit word that starts at `at`. The read is made
/// byte by byte, so `at` need not be aligned.
pub fn load64(bytes: &[u8], at: usize) -> (k: u64)
    requires
        at + 8 <= bytes@.len(),
    ensures
        k == word64_at(bytes@, at as int),
{
    join64(
        bytes[at],
        bytes[at + 1],
        bytes[at + 2],
        bytes[at + 3],
        bytes[at + 4],
        bytes[at + 5],
        bytes[at + 6],
        bytes[at + 7],
    )
}

/// Reads the little-endian 64-bit word that starts at `at`, taking every byte
/// past the end of `bytes` as zero.
pub fn load64_padded(bytes: &[u8], at: usize) -> (k: u64)
    requires
        at + 8 <= usize::MAX,
    ensures
        k == word64_at(bytes@, at as int),
{
    join64(
        byte_or_zero(bytes, at),
        byte_or_zero(bytes, at + 1),
        byte_or_zero(bytes, at + 2),
        byte_or_zero(bytes, at + 3),
        byte_or_zero(bytes, at + 4),
        byte_or_zero(bytes, at + 5),
        byte_or_zero(bytes, at + 6),
        byte_or_zero(bytes, at + 7),
    )
}

/// Rotates `x` left by `r` bits.
pub fn rotate_left64(x: u64, r: u32) -> (y: u64)
    requires
        0 < r < 64,
    ensures
        y == rotl64(x, r),
{
    (x << r) | (x >> (64 - r))
}

/// `dst` with its bytes from offset `at` on replaced by `src`.
pub open spec fn overwritten(dst: Seq<u8>, at: int, src: Seq<u8>) -> Seq<u8> {
    Seq::new(dst.len(), |i: int| if at <= i < at + src.len() { src[i - at] } else { dst[i] })
}

/// Copies `src` into `dst`, starting at offset `at` of `dst`.
pub fn copy_at(dst: &mut [u8], at: usize, src: &[u8])
    requires
        at + src@.len() <= old(dst)@.len(),
    ensures
        final(dst)@ == overwritten(old(dst)@, at as int, src@),
{
    let n = src.len();
    let room = dst.len();
    let mut i: usize = 0;
    while i < n
        invariant
            n == src@.len(),
            i <= n,
            room == dst@.len(),
            at + n <= room,
            dst@ == overwritten(old(dst)@, at as int, src@.take(i as int)),
        decreases n - i,
    {
        dst[at + i] = src[i];
        i = i + 1;
    }
    assert(src@.take(n as int) =~= src@);
}

} // verus!
