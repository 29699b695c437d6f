use core::hash::Hasher;
use mur3::{murmurhash3_x64_128, murmurhash3_x86_32, Hasher128, Hasher32};

const SEED: u32 = 0x9747b28c;

const TEXT: &[u8] = b"0123456789abcdefghijklmnopqrstuvwxyz";

fn check32(len: usize, expected: u32) {
    let bytes = &TEXT[..len];
    assert_eq!(murmurhash3_x86_32(bytes, SEED), expected, "length {}", len);
    let mut hasher = Hasher32::with_seed(SEED);
    hasher.write(bytes);
    assert_eq!(hasher.finish32(), expected, "length {}", len);
    let mut hasher = Hasher32::with_seed(SEED);
    for b in bytes {
        hasher.write(&[*b]);
    }
    assert_eq!(hasher.finish32(), expected, "length {}", len);
}

fn check128(len: usize, expected: (u64, u64)) {
    let bytes = &TEXT[..len];
    assert_eq!(murmurhash3_x64_128(bytes, SEED), expected, "length {}", len);
    let mut hasher = Hasher128::with_seed(SEED);
    hasher.write(bytes);
    assert_eq!(hasher.finish128(), expected, "length {}", len);
    let mut hasher = Hasher128::with_seed(SEED);
    for b in bytes {
        hasher.write(&[*b]);
    }
    assert_eq!(hasher.finish128(), expected, "length {}", len);
}

#[test]
fn one_byte_short_of_a_block_32() {
    check32(3, 0x6ac4ffb2);
}

#[test]
fn exactly_one_block_32() {
    check32(4, 0xc7f814e1);
}

#[test]
fn one_byte_past_a_block_32() {
    check32(5, 0x8eba21d2);
}

#[test]
fn around_the_second_block_32() {
    check32(7, 0xab2513b7);
    check32(8, 0x7bc64fbe);
    check32(9, 0xe0cfe8fb);
}

#[test]
fn tails_of_one_and_two_bytes_32() {
    check32(1, 0xbd3a97ea);
    check32(2, 0x0c934099);
}

#[test]
fn longer_inputs_32() {
    check32(15, 0x94bb1a60);
    check32(16, 0x2ada2fcc);
    check32(17, 0x2803b4b6);
    check32(31, 0xdfabcac0);
    check32(32, 0x3eec7bc9);
    check32(33, 0x96c2ae53);
}

#[test]
fn one_byte_short_of_a_block_128() {
    check128(15, (0x615c1451116a41a0, 0xa52c516a0795ce5a));
}

#[test]
fn exactly_one_block_128() {
    check128(16, (0xd8061eb14f48c9c9, 0x521e1174e459c2cc));
}

#[test]
fn one_byte_past_a_block_128() {
    check128(17, (0xc0bf962bfd77a52b, 0xbd74af14707ce362));
}

#[test]
fn around_the_second_block_128() {
    check128(31, (0x76710a6b3ce207e0, 0x49a256efc667c918));
    check128(32, (0xb03638304c6024c9, 0xbbef11113116b0fe));
    check128(33, (0x485de0dc1acd6c1a, 0x99c28052a93eacff));
}

#[test]
fn tail_in_the_first_half_only_128() {
    check128(1, (0x3285a5782c901e9d, 0xa79bba0ee0a1208f));
    check128(2, (0x63b0cd0741443592, 0x48b677e2640f9ab8));
    check128(3, (0x071b537266073ca4, 0x9beb105024d60f60));
    check128(4, (0x5b8ce6520230377d, 0x594c5dba9bfd76a1));
    check128(5, (0xa3a1d8386e33386e, 0x1ea04328f77c5d1d));
    check128(7, (0xd4888f3a46f792e3, 0x8b6a978a6926ead7));
}

#[test]
fn tail_of_eight_and_of_nine_bytes_128() {
    check128(8, (0x295373671326d416, 0x48a9d6b322a1c07a));
    check128(9, (0xd1117cc8deeffb95, 0xc37755b336f3111b));
}
