//! Known-answer and streaming tests for the two engines.

use xxhash::xxh32;
use xxhash::xxh64;

const BUFSIZE: usize = 101;
const PRIME: u32 = 2654435761;

/// The sanity-test vector: a repeatable pseudo-random byte sequence.
fn test_vec() -> Vec<u8> {
    let mut random: u32 = PRIME;
    let mut buf: Vec<u8> = Vec::with_capacity(BUFSIZE);
    for _ in 0..BUFSIZE {
        buf.push((random >> 24) as u8);
        random = random.wrapping_mul(random);
    }
    buf
}

fn check32(f: impl Fn(&[u8], u32) -> u32) {
    let buf = test_vec();
    let test = |size: usize, seed: u32, expected: u32| {
        let result = f(&buf[..size], seed);
        assert_eq!(result, expected);
    };

    test(1, 0, 0xB85CBEE5);
    test(1, PRIME, 0xD5845D64);
    test(14, 0, 0xE5AA0AB4);
    test(14, PRIME, 0x4481951D);
    test(BUFSIZE, 0, 0x1F1AA412);
    test(BUFSIZE, PRIME, 0x498EC8E2);
}

fn check64(f: impl Fn(&[u8], u64) -> u64) {
    let buf = test_vec();
    let test = |size: usize, seed: u64, expected: u64| {
        let result = f(&buf[..size], seed);
        assert_eq!(result, expected);
    };

    test(1, 0, 0x4FCE394CC88952D8);
    test(1, PRIME as u64, 0x739840CB819FA723);
    test(14, 0, 0xCFFA8DB881BC3A3D);
    test(14, PRIME as u64, 0x5B9611585EFCC9CB);
    test(BUFSIZE, 0, 0x0EAB543384F878AD);
    test(BUFSIZE, PRIME as u64, 0xCAA65939306F1E21);
}

#[test]
fn lib_test_oneshot() {
    check64(xxh64::oneshot);
    check32(xxh32::oneshot);
}

#[test]
fn lib_test_state() {
    check64(|v, seed| {
        let mut state = xxh64::State::new(seed);
        state.update(v);
        state.digest()
    });
    check32(|v, seed| {
        let mut state = xxh32::State::new(seed);
        state.update(v);
        state.digest()
    });
}

#[test]
fn xxh32_test_oneshot() {
    check32(|v, seed| {
        let mut state = xxhash::hasher::XXState::new_with_seed(seed);
        state.update(v);
        state.digest()
    });
}

#[test]
fn test_chunks() {
    check32(|v, seed| {
        let mut state = xxhash::hasher::XXState::new_with_seed(seed);
        for chunk in v.chunks(15) {
            state.update(chunk);
        }
        state.digest()
    });
}

#[test]
fn test_empty_input() {
    assert_eq!(xxh32::oneshot(&[], 0), 0x02CC5D05);
    assert_eq!(xxh64::oneshot(&[], 0), 0xEF46DB3751D8E999);
    let s32 = xxh32::State::new(0);
    assert_eq!(s32.digest(), 0x02CC5D05);
    let s64 = xxh64::State::new(0);
    assert_eq!(s64.digest(), 0xEF46DB3751D8E999);
}

#[test]
fn test_chunk_invariance_all_partitions() {
    let buf = test_vec();
    let whole32 = xxh32::oneshot(&buf, PRIME);
    let whole64 = xxh64::oneshot(&buf, PRIME as u64);
    for chunk_size in 1..=BUFSIZE {
        let mut s32 = xxh32::State::new(PRIME);
        let mut s64 = xxh64::State::new(PRIME as u64);
        for chunk in buf.chunks(chunk_size) {
            s32.update(chunk);
            s64.update(chunk);
        }
        assert_eq!(s32.digest(), whole32);
        assert_eq!(s64.digest(), whole64);
    }
}

#[test]
fn test_empty_updates_change_nothing() {
    let buf = test_vec();
    let mut s32 = xxh32::State::new(0);
    let mut s64 = xxh64::State::new(0);
    s32.update(&[]);
    s64.update(&[]);
    s32.update(&buf);
    s64.update(&buf);
    s32.update(&[]);
    s64.update(&[]);
    assert_eq!(s32.digest(), xxh32::oneshot(&buf, 0));
    assert_eq!(s64.digest(), xxh64::oneshot(&buf, 0));
}

#[test]
fn test_mid_stream_digest() {
    let buf = test_vec();
    for split in [0, 1, 13, 16, 17, 31, 32, 33, 64, BUFSIZE] {
        let mut s32 = xxh32::State::new(PRIME);
        let mut s64 = xxh64::State::new(PRIME as u64);
        s32.update(&buf[..split]);
        s64.update(&buf[..split]);
        assert_eq!(s32.digest(), xxh32::oneshot(&buf[..split], PRIME));
        assert_eq!(s64.digest(), xxh64::oneshot(&buf[..split], PRIME as u64));
        s32.update(&buf[split..]);
        s64.update(&buf[split..]);
        assert_eq!(s32.digest(), xxh32::oneshot(&buf, PRIME));
        assert_eq!(s64.digest(), xxh64::oneshot(&buf, PRIME as u64));
    }
}

#[test]
fn test_digest_idempotent() {
    let buf = test_vec();
    let mut s32 = xxh32::State::new(7);
    let mut s64 = xxh64::State::new(7);
    s32.update(&buf[..33]);
    s64.update(&buf[..33]);
    assert_eq!(s32.digest(), s32.digest());
    assert_eq!(s64.digest(), s64.digest());
}

#[test]
fn test_seed_sensitivity() {
    let buf = test_vec();
    assert_ne!(xxh32::oneshot(&buf, 0), xxh32::oneshot(&buf, PRIME));
    assert_ne!(xxh64::oneshot(&buf, 0), xxh64::oneshot(&buf, PRIME as u64));
}

#[test]
fn test_reset_reuses_state() {
    let buf = test_vec();
    let mut s32 = xxh32::State::new(0);
    s32.update(&buf);
    s32.reset(PRIME);
    s32.update(&buf[..14]);
    assert_eq!(s32.digest(), 0x4481951D);
    let mut s64 = xxh64::State::new(0);
    s64.update(&buf);
    s64.reset(PRIME as u64);
    s64.update(&buf[..14]);
    assert_eq!(s64.digest(), 0x5B9611585EFCC9CB);
}

#[test]
fn test_block_boundary_lengths() {
    let buf = test_vec();
    for len in [15, 16, 17, 31, 32, 33, 48, 63, 64, 65] {
        let whole32 = xxh32::oneshot(&buf[..len], 1);
        let whole64 = xxh64::oneshot(&buf[..len], 1);
        let mut s32 = xxh32::State::new(1);
        let mut s64 = xxh64::State::new(1);
        for chunk in buf[..len].chunks(7) {
            s32.update(chunk);
            s64.update(chunk);
        }
        assert_eq!(s32.digest(), whole32);
        assert_eq!(s64.digest(), whole64);
    }
}
