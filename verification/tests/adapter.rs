//! Tests of the byte-sink adapter: generic value hashing with unambiguous
//! field boundaries.

use xxhash::hasher::{hash, hash_with_seed, XXHasher};

fn zero_byte64(val: u64, byte: usize) -> u64 {
    assert!(byte < 8);
    val & !(0xff << (byte * 8))
}

fn zero_byte32(val: u32, byte: usize) -> u32 {
    assert!(byte < 4);
    val & !(0xff << (byte * 8))
}

#[test]
fn xxh32_test_hash_uint() {
    let val = 0xdeadbeef_deadbeef_u64;
    assert_eq!(hash(&(val as u64)), hash(&(val as usize)));
    assert!(hash(&(val as u32)) != hash(&(val as usize)));
}

#[test]
fn test_hash_uint() {
    let val = 0xdeadbeef_deadbeef_u64;
    assert_eq!(hash(&(val as u64)), hash(&(val as usize)));
    assert!(hash(&(val as u32)) != hash(&(val as usize)));
}

#[test]
fn test_hash_idempotent() {
    let val64 = 0xdeadbeef_deadbeef_u64;
    assert_eq!(hash(&val64), hash(&val64));
    let val32 = 0xdeadbeef_u32;
    assert_eq!(hash(&val32), hash(&val32));
}

#[test]
fn test_hash_no_bytes_dropped_64() {
    let val = 0xdeadbeef_deadbeef_u64;

    assert!(hash(&val) != hash(&zero_byte64(val, 0)));
    assert!(hash(&val) != hash(&zero_byte64(val, 1)));
    assert!(hash(&val) != hash(&zero_byte64(val, 2)));
    assert!(hash(&val) != hash(&zero_byte64(val, 3)));
    assert!(hash(&val) != hash(&zero_byte64(val, 4)));
    assert!(hash(&val) != hash(&zero_byte64(val, 5)));
    assert!(hash(&val) != hash(&zero_byte64(val, 6)));
    assert!(hash(&val) != hash(&zero_byte64(val, 7)));
}

#[test]
fn test_hash_no_bytes_dropped_32() {
    let val = 0xdeadbeef_u32;

    assert!(hash(&val) != hash(&zero_byte32(val, 0)));
    assert!(hash(&val) != hash(&zero_byte32(val, 1)));
    assert!(hash(&val) != hash(&zero_byte32(val, 2)));
    assert!(hash(&val) != hash(&zero_byte32(val, 3)));
}

#[test]
fn test_hash_no_concat_alias() {
    let s = ("aa", "bb");
    let t = ("aabb", "");
    let u = ("a", "abb");

    assert!(s != t && t != u);
    assert!(hash(&s) != hash(&t) && hash(&s) != hash(&u));

    let v: (&[u8], &[u8], &[u8]) = (&[1u8], &[0u8, 0], &[0u8]);
    let w: (&[u8], &[u8], &[u8]) = (&[1u8, 0, 0, 0], &[], &[]);

    assert!(v != w);
    assert!(hash(&v) != hash(&w));
}

#[test]
fn test_hash_with_seed_matches_hasher() {
    let val = 0x0123456789abcdef_u64;
    assert_eq!(hash_with_seed(0, &val), hash(&val));
    let seeded = XXHasher::new_with_seed(2654435761);
    assert_eq!(hash_with_seed(2654435761, &val), seeded.hash(&val));
    assert_ne!(hash_with_seed(2654435761, &val), hash(&val));
}

#[test]
fn test_adapter_matches_engine() {
    // A hashed integer feeds exactly its little-endian bytes to the engine.
    assert_eq!(hash(&0x41u8), xxhash::xxh32::oneshot(&[0x41], 0) as u64);
    assert_eq!(hash(&0x0102u16), xxhash::xxh32::oneshot(&[0x02, 0x01], 0) as u64);
    assert_eq!(
        hash(&0xdeadbeef_u32),
        xxhash::xxh32::oneshot(&[0xef, 0xbe, 0xad, 0xde], 0) as u64
    );
    assert_eq!(
        hash(&0x0123456789abcdef_u64),
        xxhash::xxh32::oneshot(&[0xef, 0xcd, 0xab, 0x89, 0x67, 0x45, 0x23, 0x01], 0) as u64
    );
}

#[test]
fn test_hasher_new_is_seed_zero() {
    let val = ("boundary", "test");
    let h = XXHasher::new();
    assert_eq!(h.hash(&val), hash(&val));
}
