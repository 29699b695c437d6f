//! The byte counter of a hasher: 64 bits wide, wrapping around at 2^64.

use vstd::arithmetic::div_mod::lemma_mod_mod;
use vstd::prelude::*;

verus! {

/// `x` as a 64-bit counter holds it: `x` modulo 2^64.
#[verifier::opaque]
pub open spec fn wrap64(x: int) -> u64 {
    (x % 0x1_0000_0000_0000_0000) as u64
}

/// A value that fits in 64 bits is its own counter value.
pub proof fn lemma_wrap64_small(x: int)
    requires
        0 <= x < 0x1_0000_0000_0000_0000,
    ensures
        wrap64(x) == x,
{
    reveal(wrap64);
}

/// Counting on from a wrapped count is counting on from the count itself.
pub proof fn lemma_wrap64_add(x: int, y: int)
    ensures
        wrap64(wrap64(x) + y) == wrap64(x + y),
{
    reveal(wrap64);
}

/// Wrapping a count keeps its remainder modulo 16, and so modulo 4.
pub proof fn lemma_wrap64_mod16(x: int)
    ensures
        wrap64(x) as int % 16 == x % 16,
        wrap64(x) as int % 4 == x % 4,
{
    reveal(wrap64);
    lemma_mod_mod(x, 16, 0x1000_0000_0000_0000);
    lemma_mod_mod(x, 4, 0x4000_0000_0000_0000);
}

/// Adds `by` to a counter.
pub fn count_on(count: u64, by: u64) -> (r: u64)
    ensures
        r == wrap64(count + by),
{
    proof {
        reveal(wrap64);
    }
    count.wrapping_add(by)
}

} // verus!
