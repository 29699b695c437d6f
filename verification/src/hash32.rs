//! The 32-bit variant (x86_32): 4-byte blocks, one 32-bit accumulator.

use crate::counter::{count_on, lemma_wrap64_add, lemma_wrap64_mod16, lemma_wrap64_small, wrap64};
use crate::words::{
    byte_at, byte_or_zero, copy_at, join32, le32, load32, rotate_left32, rotl32, word32_at,
};
use core::hash::Hasher;
use vstd::prelude::*;

verus! {

/// First multiplier of an input word.
pub const C1: u32 = 0xcc9e2d51;

/// Second multiplier of an input word.
pub const C2: u32 = 0x1b873593;

/// What is added to the accumulator at the end of a block step.
pub const C3: u32 = 0xe6546b64;

/// First multiplier of the avalanche.
pub const C4: u32 = 0x85ebca6b;

/// Second multiplier of the avalanche.
pub const C5: u32 = 0xc2b2ae35;

/// The avalanche: xor-shifts and multiplications by odd constants that spread
/// every input bit over the whole word.
pub open spec fn avalanche32(h: u32) -> u32 {
    let h = h ^ (h >> 16u32);
    let h = h.wrapping_mul(C4);
    let h = h ^ (h >> 13u32);
    let h = h.wrapping_mul(C5);
    h ^ (h >> 16u32)
}

/// What an input word becomes before it is xored into the accumulator:
/// multiplied by `C1`, rotated left by 15, multiplied by `C2`.
pub open spec fn scramble32(k: u32) -> u32 {
    rotl32(k.wrapping_mul(C1), 15).wrapping_mul(C2)
}

/// The block step: the accumulator `h` after the word `k` of a full block. The
/// scrambled word is xored in, the accumulator is rotated left by 13, multiplied
/// by 5 and increased by `C3`. All arithmetic wraps.
pub open spec fn mix32(h: u32, k: u32) -> u32 {
    rotl32(h ^ scramble32(k), 13).wrapping_mul(5).wrapping_add(C3)
}

/// The accumulator after the first `n` blocks of `bytes`, started from `h`.
/// Each block is read as one little-endian word.
pub open spec fn blocks32(h: u32, bytes: Seq<u8>, n: nat) -> u32
    decreases n,
{
    if n == 0 {
        h
    } else {
        mix32(blocks32(h, bytes, (n - 1) as nat), word32_at(bytes, 4 * (n - 1)))
    }
}

/// The word that a tail stands for: its first three bytes at most, read
/// little-endian. A tail is shorter than a block, so this is all of it.
pub open spec fn tail_word32(tail: Seq<u8>) -> u32 {
    le32(byte_at(tail, 0), byte_at(tail, 1), byte_at(tail, 2), 0)
}

/// The accumulator with the tail xored in. An empty tail leaves it as it is.
pub open spec fn tail_mix32(h: u32, tail: Seq<u8>) -> u32 {
    if tail.len() == 0 {
        h
    } else {
        h ^ scramble32(tail_word32(tail))
    }
}

/// The hash, given the accumulator after all full blocks, the tail and the
/// total length: the tail is mixed in, then the length's low 32 bits, and the
/// avalanche finishes.
pub open spec fn finalize32(h: u32, tail: Seq<u8>, total: u64) -> u32 {
    avalanche32(tail_mix32(h, tail) ^ ((total % 0x1_0000_0000) as u32))
}

/// MurmurHash3 x86_32 of `bytes` under `seed`: the seed is the first
/// accumulator, every full block of four bytes is mixed in, and what is left,
/// zero to three bytes, is the tail.
pub open spec fn murmur3_32(bytes: Seq<u8>, seed: u32) -> u32 {
    let n = bytes.len() / 4;
    finalize32(blocks32(seed, bytes, n), bytes.skip(4 * n as int), wrap64(bytes.len() as int))
}

/// Runs the avalanche on `h`.
pub fn fmix32(h: u32) -> (r: u32)
    ensures
        r == avalanche32(h),
{
    let h = h ^ (h >> 16u32);
    let h = h.wrapping_mul(C4);
    let h = h ^ (h >> 13u32);
    let h = h.wrapping_mul(C5);
    h ^ (h >> 16u32)
}

/// Scrambles an input word: multiply, rotate, multiply.
pub fn scramble_word32(k: u32) -> (r: u32)
    ensures
        r == scramble32(k),
{
    rotate_left32(k.wrapping_mul(C1), 15).wrapping_mul(C2)
}

/// Mixes the word of one full block into the accumulator.
pub fn feed32(h: u32, k: u32) -> (r: u32)
    ensures
        r == mix32(h, k),
{
    let h = h ^ scramble_word32(k);
    rotate_left32(h, 13).wrapping_mul(5).wrapping_add(C3)
}

/// Finishes a hash: mixes in `tail`, the bytes after the last full block, and
/// `total`, the number of bytes hashed, and runs the avalanche.
pub fn finish_tail32(tail: &[u8], total: u64, h: u32) -> (r: u32)
    ensures
        r == finalize32(h, tail@, total),
{
    let mut h = h;
    if tail.len() != 0 {
        let k = join32(byte_or_zero(tail, 0), byte_or_zero(tail, 1), byte_or_zero(tail, 2), 0);
        h = h ^ scramble_word32(k);
    }
    let low: u32 = #[verifier::truncate] (total as u32);
    assert(low == total % 0x1_0000_0000) by (bit_vector)
        requires
            low == total as u32,
    ;
    fmix32(h ^ low)
}

/// Gets the 32-bit MurmurHash3 sum of `bytes`.
///
/// To feed several slices, use `Hasher32`.
pub fn murmurhash3_x86_32(bytes: &[u8], seed: u32) -> (hash: u32)
    ensures
        hash == murmur3_32(bytes@, seed),
{
    let len = bytes.len();
    let nblocks = len / 4;
    let mut h = seed;
    let mut i: usize = 0;
    while i < nblocks
        invariant
            len == bytes@.len(),
            nblocks == len / 4,
            i <= nblocks,
            h == blocks32(seed, bytes@, i as nat),
        decreases nblocks - i,
    {
        let k = load32(bytes, 4 * i);
        h = feed32(h, k);
        i = i + 1;
    }
    proof {
        lemma_wrap64_small(len as int);
    }
    finish_tail32(&bytes[4 * nblocks..len], len as u64, h)
}

/// What a 32-bit hasher holds, as mathematics.
pub struct State32 {
    /// The accumulator after every full block taken in so far.
    pub h: u32,
    /// The bytes written after the last full block, in order.
    pub pending: Seq<u8>,
    /// How many bytes have gone into the accumulator, as a 64-bit counter.
    pub consumed: u64,
}

impl State32 {
    /// The state of a hasher that has been given nothing.
    pub open spec fn init(seed: u32) -> State32 {
        State32 { h: seed, pending: Seq::empty(), consumed: 0 }
    }

    /// Fewer bytes are pending than a block holds, and whole blocks only have
    /// been consumed.
    pub open spec fn wf(self) -> bool {
        self.pending.len() < 4 && self.consumed % 4 == 0
    }

    /// The state after `bytes` have been written: the pending bytes and the
    /// new ones are read as one run, all its full blocks are consumed, and what
    /// is left over is pending.
    pub open spec fn absorb(self, bytes: Seq<u8>) -> State32 {
        let run = self.pending + bytes;
        let n = run.len() / 4;
        State32 {
            h: blocks32(self.h, run, n),
            pending: run.skip(4 * n as int),
            consumed: wrap64(self.consumed + 4 * n),
        }
    }

    /// The number of bytes written so far, as a 64-bit counter.
    pub open spec fn total(self) -> u64 {
        wrap64(self.consumed + self.pending.len())
    }

    /// The hash of what has been written so far.
    pub open spec fn digest(self) -> u32 {
        finalize32(self.h, self.pending, self.total())
    }

    /// The state after each chunk of `chunks` has been written, in order.
    pub open spec fn absorb_all(self, chunks: Seq<Seq<u8>>) -> State32
        decreases chunks.len(),
    {
        if chunks.len() == 0 {
            self
        } else {
            self.absorb(chunks.first()).absorb_all(chunks.drop_first())
        }
    }
}

/// Only the bytes of the first `n` blocks decide what the accumulator is after
/// them.
pub proof fn lemma_blocks32_prefix(h: u32, a: Seq<u8>, b: Seq<u8>, n: nat)
    requires
        4 * n <= a.len(),
        4 * n <= b.len(),
        a.take(4 * n as int) == b.take(4 * n as int),
    ensures
        blocks32(h, a, n) == blocks32(h, b, n),
    decreases n,
{
    if n > 0 {
        let m = (n - 1) as nat;
        assert(a.take(4 * m as int) =~= a.take(4 * n as int).take(4 * m as int));
        assert(b.take(4 * m as int) =~= b.take(4 * n as int).take(4 * m as int));
        lemma_blocks32_prefix(h, a, b, m);
        assert forall|i: int| 4 * m <= i < 4 * n implies a[i] == b[i] by {
            assert(a[i] == a.take(4 * n as int)[i]);
            assert(b[i] == b.take(4 * n as int)[i]);
        }
        assert(word32_at(a, 4 * m as int) == word32_at(b, 4 * m as int));
    }
}

/// Taking in `m + k` blocks is taking in `m` of them and then, from where
/// they end, `k` more.
pub proof fn lemma_blocks32_split(h: u32, bytes: Seq<u8>, m: nat, k: nat)
    requires
        4 * (m + k) <= bytes.len(),
    ensures
        blocks32(h, bytes, m + k) == blocks32(blocks32(h, bytes, m), bytes.skip(4 * m as int), k),
    decreases k,
{
    if k > 0 {
        let j = (k - 1) as nat;
        lemma_blocks32_split(h, bytes, m, j);
        let rest = bytes.skip(4 * m as int);
        let at = 4 * j as int;
        let from = 4 * (m + j) as int;
        assert(rest[at] == bytes[from]);
        assert(rest[at + 1] == bytes[from + 1]);
        assert(rest[at + 2] == bytes[from + 2]);
        assert(rest[at + 3] == bytes[from + 3]);
        assert(word32_at(rest, at) == word32_at(bytes, from));
        assert(m + k - 1 == m + j);
    }
}

impl State32 {
    /// A hasher that has been given nothing is well formed.
    pub proof fn lemma_init_wf(seed: u32)
        ensures
            State32::init(seed).wf(),
    {
    }

    /// Writing keeps a state well formed.
    pub proof fn lemma_absorb_wf(self, bytes: Seq<u8>)
        requires
            self.wf(),
        ensures
            self.absorb(bytes).wf(),
    {
        let run = self.pending + bytes;
        let n = run.len() / 4;
        lemma_wrap64_mod16(self.consumed + 4 * n);
    }

    /// Writing an empty slice changes nothing.
    pub proof fn lemma_absorb_nothing(self)
        requires
            self.wf(),
        ensures
            self.absorb(Seq::empty()) == self,
    {
        let run = self.pending + Seq::<u8>::empty();
        assert(run =~= self.pending);
        assert(run.skip(0) =~= self.pending);
        lemma_wrap64_small(self.consumed as int);
    }

    /// Writing `a` and then `b` leaves the hasher in the state that writing
    /// the two as one slice leaves it in.
    pub proof fn lemma_absorb_concat(self, a: Seq<u8>, b: Seq<u8>)
        ensures
            self.absorb(a).absorb(b) == self.absorb(a + b),
    {
        let run1 = self.pending + a;
        let n1 = run1.len() / 4;
        let mid = self.absorb(a);
        let run2 = mid.pending + b;
        let n2 = run2.len() / 4;
        let run = self.pending + (a + b);
        let n = run.len() / 4;
        assert(n == n1 + n2);
        assert(run =~= run1 + b);
        assert(run.take(4 * n1 as int) =~= run1.take(4 * n1 as int));
        assert(run.skip(4 * n1 as int) =~= run2);
        lemma_blocks32_prefix(self.h, run, run1, n1);
        lemma_blocks32_split(self.h, run, n1, n2);
        assert(run2.skip(4 * n2 as int) =~= run.skip(4 * n as int));
        lemma_wrap64_add(self.consumed + 4 * n1, 4 * n2 as int);
    }

    /// Writing chunk after chunk leaves the hasher in the state that writing
    /// their concatenation leaves it in.
    pub proof fn lemma_absorb_all(self, chunks: Seq<Seq<u8>>)
        requires
            self.wf(),
        ensures
            self.absorb_all(chunks) == self.absorb(chunks.flatten()),
        decreases chunks.len(),
    {
        if chunks.len() == 0 {
            self.lemma_absorb_nothing();
        } else {
            let first = chunks.first();
            let rest = chunks.drop_first();
            self.lemma_absorb_wf(first);
            self.absorb(first).lemma_absorb_all(rest);
            self.lemma_absorb_concat(first, rest.flatten());
        }
    }

    /// A fresh hasher that is given `bytes` in one write holds their hash.
    pub proof fn lemma_digest_of_one_write(seed: u32, bytes: Seq<u8>)
        ensures
            State32::init(seed).absorb(bytes).digest() == murmur3_32(bytes, seed),
    {
        let run = Seq::<u8>::empty() + bytes;
        assert(run =~= bytes);
        let n = bytes.len() / 4;
        lemma_wrap64_add(4 * n as int, bytes.len() - 4 * n);
    }

    /// However the input is cut into chunks, a fresh hasher that is given the
    /// chunks in order holds the hash of the whole input. The cut may have no
    /// chunk at all, empty chunks, or chunks of a single byte.
    pub proof fn lemma_chunked_is_one_shot(seed: u32, chunks: Seq<Seq<u8>>)
        ensures
            State32::init(seed).absorb_all(chunks).digest() == murmur3_32(chunks.flatten(), seed),
    {
        State32::init(seed).lemma_absorb_all(chunks);
        State32::lemma_digest_of_one_write(seed, chunks.flatten());
    }

    /// Reading the hash does not end the stream: after `first` has been
    /// written and its hash read, writing `more` gives the hash of the two
    /// joined.
    pub proof fn lemma_resumes_after_digest(seed: u32, first: Seq<u8>, more: Seq<u8>)
        ensures
            State32::init(seed).absorb(first).digest() == murmur3_32(first, seed),
            State32::init(seed).absorb(first).absorb(more).digest() == murmur3_32(
                first + more,
                seed,
            ),
    {
        State32::lemma_digest_of_one_write(seed, first);
        State32::init(seed).lemma_absorb_concat(first, more);
        State32::lemma_digest_of_one_write(seed, first + more);
    }
}

/// A 32-bit Murmur3 hasher.
pub struct Hasher32 {
    h: u32,
    buf: [u8; 4],
    len: usize,
    consume: u64,
}

impl View for Hasher32 {
    type V = State32;

    closed spec fn view(&self) -> State32 {
        State32 { h: self.h, pending: self.buf@.take(self.len as int), consumed: self.consume }
    }
}

impl Hasher32 {
    #[verifier::type_invariant]
    spec fn inv(&self) -> bool {
        self.len < 4 && self.consume % 4 == 0
    }

    /// Creates a hasher with given seed.
    pub fn with_seed(seed: u32) -> (hasher: Hasher32)
        ensures
            hasher@ == State32::init(seed),
            hasher@.wf(),
    {
        let hasher = Hasher32 { h: seed, buf: [0; 4], len: 0, consume: 0 };
        assert(hasher@.pending =~= Seq::<u8>::empty());
        hasher
    }

    /// Takes the word of one full block into the accumulator.
    fn feed(&mut self, k: u32)
        ensures
            final(self).h == mix32(old(self).h, k),
            final(self).consume == wrap64(old(self).consume + 4),
            final(self).buf == old(self).buf,
            final(self).len == old(self).len,
    {
        proof {
            use_type_invariant(&*self);
            lemma_wrap64_mod16(self.consume + 4);
        }
        self.h = feed32(self.h, k);
        self.consume = count_on(self.consume, 4);
    }

    /// Gets the 32-bit hash result.
    ///
    /// This function doesn't have any side effect. So calling it
    /// multiple times without feeding more data will return the
    /// same result. New data will resume calculation from last state.
    pub fn finish32(&self) -> (hash: u32)
        ensures
            hash == self@.digest(),
    {
        proof {
            use_type_invariant(self);
        }
        let total = count_on(self.consume, self.len as u64);
        finish_tail32(&self.buf[0..self.len], total, self.h)
    }
}

impl Hasher for Hasher32 {
    /// Feeds a byte slice to the hasher.
    fn write(&mut self, bytes: &[u8])
        ensures
            final(self)@ == old(self)@.absorb(bytes@),
            final(self)@.wf(),
    {
        proof {
            use_type_invariant(&*self);
        }
        let ghost start = self.h;
        let ghost count0 = self.consume;
        let ghost pending0 = self.buf@.take(self.len as int);
        let ghost run = pending0 + bytes@;
        proof {
            lemma_wrap64_small(count0 as int);
        }
        let n = bytes.len();
        let held = self.len;
        if n < 4 - held {
            copy_at(&mut self.buf, held, bytes);
            self.len = held + n;
            assert(self.buf@.take(self.len as int) =~= run.skip(0));
            return ;
        }
        let mut at: usize = 0;
        let ghost mut j: nat = 0;
        if held != 0 {
            at = 4 - held;
            copy_at(&mut self.buf, held, &bytes[0..at]);
            let k = join32(self.buf[0], self.buf[1], self.buf[2], self.buf[3]);
            assert(k == word32_at(run, 0));
            self.len = 0;
            self.feed(k);
            proof {
                j = 1;
                assert(blocks32(start, run, 1) == mix32(blocks32(start, run, 0), word32_at(run, 0)));
            }
        }
        while n - at >= 4
            invariant
                n == bytes@.len(),
                run == pending0 + bytes@,
                pending0.len() == held < 4,
                at <= n,
                at + held == 4 * j,
                self.h == blocks32(start, run, j),
                self.consume == wrap64(count0 + 4 * j),
                self.len == 0,
            decreases n - at,
        {
            let k = load32(bytes, at);
            assert(k == word32_at(run, 4 * j as int));
            self.feed(k);
            at = at + 4;
            proof {
                lemma_wrap64_add(count0 + 4 * j, 4);
                j = j + 1;
            }
        }
        let rest = n - at;
        proof {
            use_type_invariant(&*self);
        }
        copy_at(&mut self.buf, 0, &bytes[at..n]);
        self.len = rest;
        assert(run.len() / 4 == j);
        assert(self.buf@.take(rest as int) =~= run.skip(4 * j as int));
    }

    /// Gets the 64-bit hash value.
    ///
    /// It's the same as `self.finish32() as u64`.
    fn finish(&self) -> (hash: u64)
        ensures
            hash == self@.digest(),
    {
        self.finish32() as u64
    }
}

} // verus!
