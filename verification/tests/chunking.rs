use core::hash::Hasher;
use mur3::{murmurhash3_x64_128, murmurhash3_x86_32, Hasher128, Hasher32};

const TEXT: &[u8] = b"Sphinx of black quartz, judge my vow: 0123456789 times!";

fn fed32(chunks: &[&[u8]], seed: u32) -> u32 {
    let mut hasher = Hasher32::with_seed(seed);
    for chunk in chunks {
        hasher.write(chunk);
    }
    hasher.finish32()
}

fn fed128(chunks: &[&[u8]], seed: u32) -> (u64, u64) {
    let mut hasher = Hasher128::with_seed(seed);
    for chunk in chunks {
        hasher.write(chunk);
    }
    hasher.finish128()
}

/// A small linear congruential generator, so that the runs repeat.
fn next(state: &mut u64) -> u64 {
    *state = state
        .wrapping_mul(6364136223846793005)
        .wrapping_add(1442695040888963407);
    *state >> 33
}

#[test]
fn no_chunk_at_all_is_the_empty_input() {
    for seed in [0u32, 1, 0x2a, 0xffff_ffff] {
        assert_eq!(fed32(&[], seed), murmurhash3_x86_32(b"", seed));
        assert_eq!(fed128(&[], seed), murmurhash3_x64_128(b"", seed));
    }
    assert_eq!(fed32(&[], 0x2a), 0x087fcd5c);
    assert_eq!(fed128(&[], 0x2a), (0xf02aa77dfa1b8523, 0xd1016610da11cbb9));
}

#[test]
fn empty_chunks_change_nothing() {
    let expected32 = murmurhash3_x86_32(b"hello, world", 1);
    let expected128 = murmurhash3_x64_128(b"hello, world", 1);
    assert_eq!(expected32, 0x6f5cb2e9);
    assert_eq!(expected128, (0x8b95f808840725c6, 0x1597ed5422bd493b));
    let chunks: [&[u8]; 7] = [b"", b"hel", b"", b"", b"lo, wor", b"ld", b""];
    assert_eq!(fed32(&chunks, 1), expected32);
    assert_eq!(fed128(&chunks, 1), expected128);
}

#[test]
fn every_cut_in_two_32() {
    let expected = murmurhash3_x86_32(TEXT, 0x2a);
    for cut in 0..=TEXT.len() {
        assert_eq!(
            fed32(&[&TEXT[..cut], &TEXT[cut..]], 0x2a),
            expected,
            "cut at {}",
            cut
        );
    }
}

#[test]
fn every_cut_in_two_128() {
    let expected = murmurhash3_x64_128(TEXT, 0x2a);
    for cut in 0..=TEXT.len() {
        assert_eq!(
            fed128(&[&TEXT[..cut], &TEXT[cut..]], 0x2a),
            expected,
            "cut at {}",
            cut
        );
    }
}

#[test]
fn every_cut_in_three_32() {
    let expected = murmurhash3_x86_32(TEXT, 7);
    for first in 0..=TEXT.len() {
        for second in first..=TEXT.len() {
            let chunks = [&TEXT[..first], &TEXT[first..second], &TEXT[second..]];
            assert_eq!(fed32(&chunks, 7), expected, "cuts at {} and {}", first, second);
        }
    }
}

#[test]
fn every_cut_in_three_128() {
    let expected = murmurhash3_x64_128(TEXT, 7);
    for first in 0..=TEXT.len() {
        for second in first..=TEXT.len() {
            let chunks = [&TEXT[..first], &TEXT[first..second], &TEXT[second..]];
            assert_eq!(fed128(&chunks, 7), expected, "cuts at {} and {}", first, second);
        }
    }
}

#[test]
fn single_byte_chunks() {
    let text = b"The quick brown fox jumps over the lazy dog.";
    let mut hasher32 = Hasher32::with_seed(0x2a);
    let mut hasher128 = Hasher128::with_seed(0x2a);
    for i in 0..text.len() {
        hasher32.write(&text[i..i + 1]);
        hasher128.write(&text[i..i + 1]);
    }
    assert_eq!(hasher32.finish32(), 0xc02d1434);
    assert_eq!(
        hasher128.finish128(),
        (0x74f33c659cda5af7, 0x4ec7a891caf316f0)
    );
}

#[test]
fn chunks_of_every_fixed_size() {
    let mut data = Vec::new();
    for i in 0..1000usize {
        data.push(((i * 7 + 3) & 0xff) as u8);
    }
    for size in 1..=70usize {
        let mut hasher32 = Hasher32::with_seed(0xdeadbeef);
        let mut hasher128 = Hasher128::with_seed(0xdeadbeef);
        for chunk in data.chunks(size) {
            hasher32.write(chunk);
            hasher128.write(chunk);
        }
        assert_eq!(hasher32.finish32(), 0x766b09a7, "chunks of {}", size);
        assert_eq!(
            hasher128.finish128(),
            (0x40683759e48ac96b, 0xc4581f5e1c13bb4f),
            "chunks of {}",
            size
        );
    }
}

#[test]
fn chunks_of_varying_sizes() {
    let mut state = 0x1234_5678_9abc_def0u64;
    for round in 0..300 {
        let len = (next(&mut state) % 200) as usize;
        let seed = next(&mut state) as u32;
        let mut data = Vec::new();
        for _ in 0..len {
            data.push(next(&mut state) as u8);
        }
        let expected32 = murmurhash3_x86_32(&data, seed);
        let expected128 = murmurhash3_x64_128(&data, seed);
        let mut hasher32 = Hasher32::with_seed(seed);
        let mut hasher128 = Hasher128::with_seed(seed);
        let mut at = 0;
        while at < len {
            let size = (next(&mut state) % 40) as usize;
            let end = if at + size > len { len } else { at + size };
            hasher32.write(&data[at..end]);
            hasher128.write(&data[at..end]);
            at = end;
        }
        assert_eq!(hasher32.finish32(), expected32, "round {}", round);
        assert_eq!(hasher128.finish128(), expected128, "round {}", round);
        assert_eq!(hasher32.finish(), expected32 as u64, "round {}", round);
        assert_eq!(hasher128.finish(), expected128.0, "round {}", round);
    }
}

#[test]
fn finishing_twice_gives_the_same_hash() {
    let mut hasher32 = Hasher32::with_seed(1);
    let mut hasher128 = Hasher128::with_seed(1);
    assert_eq!(hasher32.finish32(), 0x514e28b7);
    assert_eq!(hasher32.finish32(), 0x514e28b7);
    assert_eq!(
        hasher128.finish128(),
        (0x4610abe56eff5cb5, 0x51622daa78f83583)
    );
    assert_eq!(
        hasher128.finish128(),
        (0x4610abe56eff5cb5, 0x51622daa78f83583)
    );
    hasher32.write(b"hello");
    hasher128.write(b"hello");
    for _ in 0..3 {
        assert_eq!(hasher32.finish32(), 0xbb4abcad);
        assert_eq!(hasher32.finish(), 0xbb4abcad);
        assert_eq!(
            hasher128.finish128(),
            (0xa78ddff5adae8d10, 0x128900ef20900135)
        );
        assert_eq!(hasher128.finish(), 0xa78ddff5adae8d10);
    }
}

#[test]
fn writing_goes_on_after_a_finish() {
    let mut hasher32 = Hasher32::with_seed(1);
    let mut hasher128 = Hasher128::with_seed(1);
    hasher32.write(b"hello");
    hasher128.write(b"hello");
    assert_eq!(hasher32.finish32(), 0xbb4abcad);
    assert_eq!(
        hasher128.finish128(),
        (0xa78ddff5adae8d10, 0x128900ef20900135)
    );
    hasher32.write(b", world");
    hasher128.write(b", world");
    assert_eq!(hasher32.finish32(), 0x6f5cb2e9);
    assert_eq!(
        hasher128.finish128(),
        (0x8b95f808840725c6, 0x1597ed5422bd493b)
    );
}

#[test]
fn a_finish_after_every_byte_matches_every_prefix() {
    let mut hasher32 = Hasher32::with_seed(0x9747b28c);
    let mut hasher128 = Hasher128::with_seed(0x9747b28c);
    for i in 0..TEXT.len() {
        assert_eq!(
            hasher32.finish32(),
            murmurhash3_x86_32(&TEXT[..i], 0x9747b28c),
            "prefix of {}",
            i
        );
        assert_eq!(
            hasher128.finish128(),
            murmurhash3_x64_128(&TEXT[..i], 0x9747b28c),
            "prefix of {}",
            i
        );
        hasher32.write(&TEXT[i..i + 1]);
        hasher128.write(&TEXT[i..i + 1]);
    }
    assert_eq!(hasher32.finish32(), murmurhash3_x86_32(TEXT, 0x9747b28c));
    assert_eq!(hasher128.finish128(), murmurhash3_x64_128(TEXT, 0x9747b28c));
}

#[test]
fn two_writes_are_one_write_of_the_two_joined() {
    let a = b"0123456789abcdefg";
    let b = b"hijklmnopqrstuvw";
    let mut split32 = Hasher32::with_seed(0x9747b28c);
    split32.write(b"xy");
    split32.write(a);
    split32.write(b);
    let mut joined32 = Hasher32::with_seed(0x9747b28c);
    joined32.write(b"xy");
    joined32.write(b"0123456789abcdefghijklmnopqrstuvw");
    assert_eq!(split32.finish32(), joined32.finish32());
    let mut split128 = Hasher128::with_seed(0x9747b28c);
    split128.write(a);
    split128.write(b);
    assert_eq!(
        split128.finish128(),
        (0x485de0dc1acd6c1a, 0x99c28052a93eacff)
    );
}

#[test]
fn the_start_of_a_slice_need_not_be_aligned() {
    let mut buffer = vec![0u8; 8];
    buffer.extend_from_slice(TEXT);
    for shift in 0..8usize {
        let mut moved = vec![0xaau8; shift];
        moved.extend_from_slice(TEXT);
        let slice = &moved[shift..];
        assert_eq!(
            murmurhash3_x86_32(slice, 0x2a),
            murmurhash3_x86_32(&buffer[8..], 0x2a)
        );
        assert_eq!(
            murmurhash3_x64_128(slice, 0x2a),
            murmurhash3_x64_128(&buffer[8..], 0x2a)
        );
        let mut hasher32 = Hasher32::with_seed(0x2a);
        hasher32.write(&slice[..shift + 1]);
        hasher32.write(&slice[shift + 1..]);
        assert_eq!(hasher32.finish32(), murmurhash3_x86_32(TEXT, 0x2a));
        let mut hasher128 = Hasher128::with_seed(0x2a);
        hasher128.write(&slice[..shift + 1]);
        hasher128.write(&slice[shift + 1..]);
        assert_eq!(hasher128.finish128(), murmurhash3_x64_128(TEXT, 0x2a));
    }
}
