//! MurmurHash3: the 32-bit and the 128-bit (x64) variants, each as a one-shot
//! function and as an incremental hasher fed slice by slice.
//!
//! The hash is not cryptographic: it gives no protection against an adversary
//! who picks the input.

pub mod counter;
pub mod hash128;
pub mod hash32;
pub mod words;

pub use hash128::{murmurhash3_x64_128, Hasher128};
pub use hash32::{murmurhash3_x86_32, Hasher32};
