//! The 128-bit variant (x64_128): 16-byte blocks of two 64-bit words, two
//! 64-bit accumulators that are mixed into each other at every block.

use crate::counter::{count_on, lemma_wrap64_add, lemma_wrap64_mod16, lemma_wrap64_small, wrap64};
use crate::words::{copy_at, load64, load64_padded, rotate_left64, rotl64, word64_at};
use core::hash::Hasher;
use vstd::prelude::*;

verus! {

/// Multiplies the first word of a block before its rotation, the second
/// after it.
pub const C1: u64 = 0x87c37b91114253d5;

/// Multiplies the second word of a block before its rotation, the first
/// after it.
pub const C2: u64 = 0x4cf5ad432745937f;

/// What is added to the first accumulator at the end of a block step.
pub const C3: u64 = 0x52dce729;

/// What is added to the second accumulator at the end of a block step.
pub const C4: u64 = 0x38495ab5;

/// The avalanche: xor-shifts and multiplications by odd constants that spread
/// every input bit over the whole word.
pub open spec fn avalanche64(k: u64) -> u64 {
    let k = k ^ (k >> 33u32);
    let k = k.wrapping_mul(0xff51afd7ed558ccd);
    let k = k ^ (k >> 33u32);
    let k = k.wrapping_mul(0xc4ceb9fe1a85ec53);
    k ^ (k >> 33u32)
}

/// What the first word of a block becomes before it is xored into the first
/// accumulator: multiplied by `C1`, rotated left by 31, multiplied by `C2`.
pub open spec fn scramble_first64(k1: u64) -> u64 {
    rotl64(k1.wrapping_mul(C1), 31).wrapping_mul(C2)
}

/// What the second word of a block becomes before it is xored into the second
/// accumulator: multiplied by `C2`, rotated left by 33, multiplied by `C1`.
pub open spec fn scramble_second64(k2: u64) -> u64 {
    rotl64(k2.wrapping_mul(C2), 33).wrapping_mul(C1)
}

/// The block step: the accumulators `(h1, h2)` after the words `k1` and `k2`
/// of a full block. Each accumulator takes in its scrambled word, is rotated
/// left (by 27, by 31), takes in the other accumulator, is multiplied by 5 and
/// increased by its constant. The new `h1` takes in the old `h2`, and the new
/// `h2` the new `h1`, so neither is a hash of its own. All arithmetic wraps.
pub open spec fn mix128(h1: u64, h2: u64, k1: u64, k2: u64) -> (u64, u64) {
    let h1 = rotl64(h1 ^ scramble_first64(k1), 27).wrapping_add(h2).wrapping_mul(5).wrapping_add(
        C3,
    );
    let h2 = rotl64(h2 ^ scramble_second64(k2), 31).wrapping_add(h1).wrapping_mul(5).wrapping_add(
        C4,
    );
    (h1, h2)
}

/// The accumulators after the first `n` blocks of `bytes`, started from `h`.
/// Each block is read as two little-endian words.
pub open spec fn blocks128(h: (u64, u64), bytes: Seq<u8>, n: nat) -> (u64, u64)
    decreases n,
{
    if n == 0 {
        h
    } else {
        let before = blocks128(h, bytes, (n - 1) as nat);
        mix128(
            before.0,
            before.1,
            word64_at(bytes, 16 * (n - 1)),
            word64_at(bytes, 16 * (n - 1) + 8),
        )
    }
}

/// The accumulators with the tail xored in. The first eight bytes of the tail
/// go to the first accumulator, the bytes after them to the second; where the
/// tail has no byte for an accumulator, that one stays as it is.
pub open spec fn tail_mix128(h1: u64, h2: u64, tail: Seq<u8>) -> (u64, u64) {
    (
        if tail.len() > 0 {
            h1 ^ scramble_first64(word64_at(tail, 0))
        } else {
            h1
        },
        if tail.len() > 8 {
            h2 ^ scramble_second64(word64_at(tail, 8))
        } else {
            h2
        },
    )
}

/// The last mixing: the length goes into both accumulators, and they are
/// added into each other before and after the avalanche of each.
pub open spec fn final_mix128(h1: u64, h2: u64, total: u64) -> (u64, u64) {
    let h1 = h1 ^ total;
    let h2 = h2 ^ total;
    let h1 = h1.wrapping_add(h2);
    let h2 = h2.wrapping_add(h1);
    let h1 = avalanche64(h1);
    let h2 = avalanche64(h2);
    let h1 = h1.wrapping_add(h2);
    let h2 = h2.wrapping_add(h1);
    (h1, h2)
}

/// The hash, given the accumulators after all full blocks, the tail and the
/// total length.
pub open spec fn finalize128(h1: u64, h2: u64, tail: Seq<u8>, total: u64) -> (u64, u64) {
    let h = tail_mix128(h1, h2, tail);
    final_mix128(h.0, h.1, total)
}

/// MurmurHash3 x64_128 of `bytes` under `seed`, as its two 64-bit halves: both
/// accumulators start as the seed, every full block of sixteen bytes is mixed
/// in, and what is left, zero to fifteen bytes, is the tail.
pub open spec fn murmur3_128(bytes: Seq<u8>, seed: u32) -> (u64, u64) {
    let n = bytes.len() / 16;
    let h = blocks128((seed as u64, seed as u64), bytes, n);
    finalize128(h.0, h.1, bytes.skip(16 * n as int), wrap64(bytes.len() as int))
}

/// Runs the avalanche on `k`.
pub fn fmix64(k: u64) -> (r: u64)
    ensures
        r == avalanche64(k),
{
    let k = k ^ (k >> 33u32);
    let k = k.wrapping_mul(0xff51afd7ed558ccd);
    let k = k ^ (k >> 33u32);
    let k = k.wrapping_mul(0xc4ceb9fe1a85ec53);
    k ^ (k >> 33u32)
}

/// Scrambles the first word of a block: multiply, rotate, multiply.
pub fn scramble_first(k1: u64) -> (r: u64)
    ensures
        r == scramble_first64(k1),
{
    rotate_left64(k1.wrapping_mul(C1), 31).wrapping_mul(C2)
}

/// Scrambles the second word of a block: multiply, rotate, multiply.
pub fn scramble_second(k2: u64) -> (r: u64)
    ensures
        r == scramble_second64(k2),
{
    rotate_left64(k2.wrapping_mul(C2), 33).wrapping_mul(C1)
}

/// Mixes the two words of one full block into the accumulators.
pub fn feed128(h1: u64, h2: u64, k1: u64, k2: u64) -> (r: (u64, u64))
    ensures
        r == mix128(h1, h2, k1, k2),
{
    let h1 = h1 ^ scramble_first(k1);
    let h1 = rotate_left64(h1, 27).wrapping_add(h2).wrapping_mul(5).wrapping_add(C3);
    let h2 = h2 ^ scramble_second(k2);
    let h2 = rotate_left64(h2, 31).wrapping_add(h1).wrapping_mul(5).wrapping_add(C4);
    (h1, h2)
}

/// Finishes a hash: mixes in `tail`, the bytes after the last full block, and
/// `total`, the number of bytes hashed, and runs the last mixing.
pub fn finish_tail128(tail: &[u8], total: u64, h1: u64, h2: u64) -> (r: (u64, u64))
    ensures
        r == finalize128(h1, h2, tail@, total),
{
    let mut h1 = h1;
    let mut h2 = h2;
    if tail.len() > 0 {
        h1 = h1 ^ scramble_first(load64_padded(tail, 0));
        if tail.len() > 8 {
            h2 = h2 ^ scramble_second(load64_padded(tail, 8));
        }
    }
    h1 = h1 ^ total;
    h2 = h2 ^ total;
    h1 = h1.wrapping_add(h2);
    h2 = h2.wrapping_add(h1);
    h1 = fmix64(h1);
    h2 = fmix64(h2);
    h1 = h1.wrapping_add(h2);
    h2 = h2.wrapping_add(h1);
    (h1, h2)
}

/// Gets the 128-bit MurmurHash3 sum of `bytes`.
///
/// If you only need a 64-bit result, just use the first returned value.
/// To feed several slices, use `Hasher128`.
pub fn murmurhash3_x64_128(bytes: &[u8], seed: u32) -> (hash: (u64, u64))
    ensures
        hash == murmur3_128(bytes@, seed),
{
    let len = bytes.len();
    let nblocks = len / 16;
    let mut h1 = seed as u64;
    let mut h2 = seed as u64;
    let mut i: usize = 0;
    while i < nblocks
        invariant
            len == bytes@.len(),
            nblocks == len / 16,
            i <= nblocks,
            (h1, h2) == blocks128((seed as u64, seed as u64), bytes@, i as nat),
        decreases nblocks - i,
    {
        let k1 = load64(bytes, 16 * i);
        let k2 = load64(bytes, 16 * i + 8);
        let res = feed128(h1, h2, k1, k2);
        h1 = res.0;
        h2 = res.1;
        i = i + 1;
    }
    proof {
        lemma_wrap64_small(len as int);
    }
    finish_tail128(&bytes[16 * nblocks..len], len as u64, h1, h2)
}

/// What a 128-bit hasher holds, as mathematics.
pub struct State128 {
    /// The first accumulator after every full block taken in so far.
    pub h1: u64,
    /// The second accumulator after every full block taken in so far.
    pub h2: u64,
    /// The bytes written after the last full block, in order.
    pub pending: Seq<u8>,
    /// How many bytes have gone into the accumulators, as a 64-bit counter.
    pub consumed: u64,
}

impl State128 {
    /// The state of a hasher that has been given nothing.
    pub open spec fn init(seed: u32) -> State128 {
        State128 { h1: seed as u64, h2: seed as u64, pending: Seq::empty(), consumed: 0 }
    }

    /// Fewer bytes are pending than a block holds, and whole blocks only have
    /// been consumed.
    pub open spec fn wf(self) -> bool {
        self.pending.len() < 16 && self.consumed % 16 == 0
    }

    /// The state after `bytes` have been written: the pending bytes and the
    /// new ones are read as one run, all its full blocks are consumed, and what
    /// is left over is pending.
    pub open spec fn absorb(self, bytes: Seq<u8>) -> State128 {
        let run = self.pending + bytes;
        let n = run.len() / 16;
        let h = blocks128((self.h1, self.h2), run, n);
        State128 {
            h1: h.0,
            h2: h.1,
            pending: run.skip(16 * n as int),
            consumed: wrap64(self.consumed + 16 * n),
        }
    }

    /// The number of bytes written so far, as a 64-bit counter.
    pub open spec fn total(self) -> u64 {
        wrap64(self.consumed + self.pending.len())
    }

    /// The hash of what has been written so far.
    pub open spec fn digest(self) -> (u64, u64) {
        finalize128(self.h1, self.h2, self.pending, self.total())
    }

    /// The state after each chunk of `chunks` has been written, in order.
    pub open spec fn absorb_all(self, chunks: Seq<Seq<u8>>) -> State128
        decreases chunks.len(),
    {
        if chunks.len() == 0 {
            self
        } else {
            self.absorb(chunks.first()).absorb_all(chunks.drop_first())
        }
    }
}

/// Only the bytes of the first `n` blocks decide what the accumulators are
/// after them.
pub proof fn lemma_blocks128_prefix(h: (u64, u64), a: Seq<u8>, b: Seq<u8>, n: nat)
    requires
        16 * n <= a.len(),
        16 * n <= b.len(),
        a.take(16 * n as int) == b.take(16 * n as int),
    ensures
        blocks128(h, a, n) == blocks128(h, b, n),
    decreases n,
{
    if n > 0 {
        let m = (n - 1) as nat;
        assert(a.take(16 * m as int) =~= a.take(16 * n as int).take(16 * m as int));
        assert(b.take(16 * m as int) =~= b.take(16 * n as int).take(16 * m as int));
        lemma_blocks128_prefix(h, a, b, m);
        assert forall|i: int| 16 * m <= i < 16 * n implies a[i] == b[i] by {
            assert(a[i] == a.take(16 * n as int)[i]);
            assert(b[i] == b.take(16 * n as int)[i]);
        }
        assert(word64_at(a, 16 * m as int) == word64_at(b, 16 * m as int));
        assert(word64_at(a, 16 * m as int + 8) == word64_at(b, 16 * m as int + 8));
    }
}

/// A word that lies within `bytes` is found again, as many bytes earlier, in
/// what is left of `bytes` after skipping.
proof fn lemma_word64_skipped(bytes: Seq<u8>, skipped: int, at: int)
    requires
        0 <= skipped,
        0 <= at,
        skipped + at + 8 <= bytes.len(),
    ensures
        word64_at(bytes.skip(skipped), at) == word64_at(bytes, skipped + at),
{
    let rest = bytes.skip(skipped);
    assert(rest[at] == bytes[skipped + at]);
    assert(rest[at + 1] == bytes[skipped + at + 1]);
    assert(rest[at + 2] == bytes[skipped + at + 2]);
    assert(rest[at + 3] == bytes[skipped + at + 3]);
    assert(rest[at + 4] == bytes[skipped + at + 4]);
    assert(rest[at + 5] == bytes[skipped + at + 5]);
    assert(rest[at + 6] == bytes[skipped + at + 6]);
    assert(rest[at + 7] == bytes[skipped + at + 7]);
}

/// Taking in `m + k` blocks is taking in `m` of them and then, from where
/// they end, `k` more.
pub proof fn lemma_blocks128_split(h: (u64, u64), bytes: Seq<u8>, m: nat, k: nat)
    requires
        16 * (m + k) <= bytes.len(),
    ensures
        blocks128(h, bytes, m + k) == blocks128(
            blocks128(h, bytes, m),
            bytes.skip(16 * m as int),
            k,
        ),
    decreases k,
{
    if k > 0 {
        let j = (k - 1) as nat;
        lemma_blocks128_split(h, bytes, m, j);
        lemma_word64_skipped(bytes, 16 * m as int, 16 * j as int);
        lemma_word64_skipped(bytes, 16 * m as int, 16 * j as int + 8);
        assert(m + k - 1 == m + j);
    }
}

impl State128 {
    /// A hasher that has been given nothing is well formed.
    pub proof fn lemma_init_wf(seed: u32)
        ensures
            State128::init(seed).wf(),
    {
    }

    /// Writing keeps a state well formed.
    pub proof fn lemma_absorb_wf(self, bytes: Seq<u8>)
        requires
            self.wf(),
        ensures
            self.absorb(bytes).wf(),
    {
        let run = self.pending + bytes;
        let n = run.len() / 16;
        lemma_wrap64_mod16(self.consumed + 16 * n);
    }

    /// Writing an empty slice changes nothing.
    pub proof fn lemma_absorb_nothing(self)
        requires
            self.wf(),
        ensures
            self.absorb(Seq::empty()) == self,
    {
        let run = self.pending + Seq::<u8>::empty();
        assert(run =~= self.pending);
        assert(run.skip(0) =~= self.pending);
        lemma_wrap64_small(self.consumed as int);
    }

    /// Writing `a` and then `b` leaves the hasher in the state that writing
    /// the two as one slice leaves it in.
    pub proof fn lemma_absorb_concat(self, a: Seq<u8>, b: Seq<u8>)
        ensures
            self.absorb(a).absorb(b) == self.absorb(a + b),
    {
        let run1 = self.pending + a;
        let n1 = run1.len() / 16;
        let mid = self.absorb(a);
        let run2 = mid.pending + b;
        let n2 = run2.len() / 16;
        let run = self.pending + (a + b);
        let n = run.len() / 16;
        assert(n == n1 + n2);
        assert(run =~= run1 + b);
        assert(run.take(16 * n1 as int) =~= run1.take(16 * n1 as int));
        assert(run.skip(16 * n1 as int) =~= run2);
        lemma_blocks128_prefix((self.h1, self.h2), run, run1, n1);
        lemma_blocks128_split((self.h1, self.h2), run, n1, n2);
        assert(run2.skip(16 * n2 as int) =~= run.skip(16 * n as int));
        lemma_wrap64_add(self.consumed + 16 * n1, 16 * n2 as int);
    }

    /// Writing chunk after chunk leaves the hasher in the state that writing
    /// their concatenation leaves it in.
    pub proof fn lemma_absorb_all(self, chunks: Seq<Seq<u8>>)
        requires
            self.wf(),
        ensures
            self.absorb_all(chunks) == self.absorb(chunks.flatten()),
        decreases chunks.len(),
    {
        if chunks.len() == 0 {
            self.lemma_absorb_nothing();
        } else {
            let first = chunks.first();
            let rest = chunks.drop_first();
            self.lemma_absorb_wf(first);
            self.absorb(first).lemma_absorb_all(rest);
            self.lemma_absorb_concat(first, rest.flatten());
        }
    }

    /// A fresh hasher that is given `bytes` in one write holds their hash.
    pub proof fn lemma_digest_of_one_write(seed: u32, bytes: Seq<u8>)
        ensures
            State128::init(seed).absorb(bytes).digest() == murmur3_128(bytes, seed),
    {
        let run = Seq::<u8>::empty() + bytes;
        assert(run =~= bytes);
        let n = bytes.len() / 16;
        lemma_wrap64_add(16 * n as int, bytes.len() - 16 * n);
    }

    /// However the input is cut into chunks, a fresh hasher that is given the
    /// chunks in order holds the hash of the whole input. The cut may have no
    /// chunk at all, empty chunks, or chunks of a single byte.
    pub proof fn lemma_chunked_is_one_shot(seed: u32, chunks: Seq<Seq<u8>>)
        ensures
            State128::init(seed).absorb_all(chunks).digest() == murmur3_128(
                chunks.flatten(),
                seed,
            ),
    {
        State128::init(seed).lemma_absorb_all(chunks);
        State128::lemma_digest_of_one_write(seed, chunks.flatten());
    }

    /// Reading the hash does not end the stream: after `first` has been
    /// written and its hash read, writing `more` gives the hash of the two
    /// joined.
    pub proof fn lemma_resumes_after_digest(seed: u32, first: Seq<u8>, more: Seq<u8>)
        ensures
            State128::init(seed).absorb(first).digest() == murmur3_128(first, seed),
            State128::init(seed).absorb(first).absorb(more).digest() == murmur3_128(
                first + more,
                seed,
            ),
    {
        State128::lemma_digest_of_one_write(seed, first);
        State128::init(seed).lemma_absorb_concat(first, more);
        State128::lemma_digest_of_one_write(seed, first + more);
    }
}

/// A 128-bit Murmur3 hasher.
pub struct Hasher128 {
    h1: u64,
    h2: u64,
    buf: [u8; 16],
    len: usize,
    consume: u64,
}

impl View for Hasher128 {
    type V = State128;

    closed spec fn view(&self) -> State128 {
        State128 {
            h1: self.h1,
            h2: self.h2,
            pending: self.buf@.take(self.len as int),
            consumed: self.consume,
        }
    }
}

impl Hasher128 {
    #[verifier::type_invariant]
    spec fn inv(&self) -> bool {
        self.len < 16 && self.consume % 16 == 0
    }

    /// Creates a hasher with given seed.
    pub fn with_seed(seed: u32) -> (hasher: Hasher128)
        ensures
            hasher@ == State128::init(seed),
            hasher@.wf(),
    {
        let hasher = Hasher128 { h1: seed as u64, h2: seed as u64, buf: [0; 16], len: 0, consume: 0 };
        assert(hasher@.pending =~= Seq::<u8>::empty());
        hasher
    }

    /// Takes the two words of one full block into the accumulators.
    fn feed(&mut self, k1: u64, k2: u64)
        ensures
            (final(self).h1, final(self).h2) == mix128(old(self).h1, old(self).h2, k1, k2),
            final(self).consume == wrap64(old(self).consume + 16),
            final(self).buf == old(self).buf,
            final(self).len == old(self).len,
    {
        proof {
            use_type_invariant(&*self);
            lemma_wrap64_mod16(self.consume + 16);
        }
        let (h1, h2) = feed128(self.h1, self.h2, k1, k2);
        self.h1 = h1;
        self.h2 = h2;
        self.consume = count_on(self.consume, 16);
    }

    /// Gets the 128-bit hash result.
    ///
    /// This function doesn't have any side effect. So calling it
    /// multiple times without feeding more data will return the
    /// same result. New data will resume calculation from last state.
    pub fn finish128(&self) -> (hash: (u64, u64))
        ensures
            hash == self@.digest(),
    {
        proof {
            use_type_invariant(self);
        }
        let total = count_on(self.consume, self.len as u64);
        finish_tail128(&self.buf[0..self.len], total, self.h1, self.h2)
    }
}

impl Hasher for Hasher128 {
    /// Feeds a byte slice to the hasher.
    fn write(&mut self, bytes: &[u8])
        ensures
            final(self)@ == old(self)@.absorb(bytes@),
            final(self)@.wf(),
    {
        proof {
            use_type_invariant(&*self);
        }
        let ghost start = (self.h1, self.h2);
        let ghost count0 = self.consume;
        let ghost pending0 = self.buf@.take(self.len as int);
        let ghost run = pending0 + bytes@;
        proof {
            lemma_wrap64_small(count0 as int);
        }
        let n = bytes.len();
        let held = self.len;
        if n < 16 - held {
            copy_at(&mut self.buf, held, bytes);
            self.len = held + n;
            assert(self.buf@.take(self.len as int) =~= run.skip(0));
            return ;
        }
        let mut at: usize = 0;
        let ghost mut j: nat = 0;
        if held != 0 {
            at = 16 - held;
            copy_at(&mut self.buf, held, &bytes[0..at]);
            let k1 = load64(&self.buf, 0);
            let k2 = load64(&self.buf, 8);
            assert(k1 == word64_at(run, 0));
            assert(k2 == word64_at(run, 8));
            self.len = 0;
            self.feed(k1, k2);
            proof {
                j = 1;
                assert(blocks128(start, run, 0) == start);
            }
        }
        while n - at >= 16
            invariant
                n == bytes@.len(),
                run == pending0 + bytes@,
                pending0.len() == held < 16,
                at <= n,
                at + held == 16 * j,
                (self.h1, self.h2) == blocks128(start, run, j),
                self.consume == wrap64(count0 + 16 * j),
                self.len == 0,
            decreases n - at,
        {
            let k1 = load64(bytes, at);
            let k2 = load64(bytes, at + 8);
            assert(k1 == word64_at(run, 16 * j as int));
            assert(k2 == word64_at(run, 16 * j as int + 8));
            self.feed(k1, k2);
            at = at + 16;
            proof {
                lemma_wrap64_add(count0 + 16 * j, 16);
                j = j + 1;
            }
        }
        let rest = n - at;
        proof {
            use_type_invariant(&*self);
        }
        copy_at(&mut self.buf, 0, &bytes[at..n]);
        self.len = rest;
        assert(run.len() / 16 == j);
        assert(self.buf@.take(rest as int) =~= run.skip(16 * j as int));
    }

    /// Gets the 64-bit hash value.
    ///
    /// It's the same as `self.finish128().0`.
    fn finish(&self) -> (hash: u64)
        ensures
            hash == self@.digest().0,
    {
        self.finish128().0
    }
}

} // verus!
