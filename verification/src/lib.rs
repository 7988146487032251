//! xxHash: fast, non-cryptographic fingerprints of byte sequences.
//!
//! Two engines share one design: a 32-bit one (`xxh32`) and a 64-bit one
//! (`xxh64`). Each offers a one-shot function and a streaming state whose
//! digest is proved equal to the one-shot hash of all bytes fed so far,
//! however the input was split across `update` calls. The `hasher` module
//! adds a byte-sink adapter so structured values can be hashed through an
//! unambiguous byte encoding.

mod pending;

pub mod hasher;
pub mod xxh32;
pub mod xxh64;
