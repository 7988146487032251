//! The 32-bit xxHash engine.
//!
//! The mathematical model is `spec_hash`: the hash of a byte sequence and a
//! seed. The streaming [`State`] carries the ghost sequence of all bytes fed
//! since the last reset; `update` appends to it and `digest` returns exactly
//! `spec_hash` of it, so any chunking of the input yields the one-shot hash.

use vstd::prelude::*;
use vstd::bytes::{spec_u32_from_le_bytes, u32_from_le_bytes};
use vstd::slice::slice_subrange;
use vstd::array::array_as_slice;

verus! {

broadcast use vstd::array::group_array_axioms;

pub const PRIME1: u32 = 2654435761;

pub const PRIME2: u32 = 2246822519;

pub const PRIME3: u32 = 3266489917;

pub const PRIME4: u32 = 668265263;

pub const PRIME5: u32 = 374761393;

/// Left rotation of a 32-bit word.
pub open spec fn spec_rotl(x: u32, r: u32) -> u32
    recommends
        0 < r < 32,
{
    (x << r) | (x >> ((32 - r) as u32))
}

fn rotl(x: u32, r: u32) -> (y: u32)
    requires
        0 < r < 32,
    ensures
        y == spec_rotl(x, r),
{
    (x << r) | (x >> (32 - r))
}

/// One mixing step: fold one little-endian word into one accumulator lane.
#[verifier::opaque]
pub open spec fn round(acc: u32, word: u32) -> u32 {
    spec_rotl(acc.wrapping_add(word.wrapping_mul(PRIME2)), 13).wrapping_mul(PRIME1)
}

/// The four lanes at reset time.
pub open spec fn init_lanes(seed: u32) -> (u32, u32, u32, u32) {
    (
        seed.wrapping_add(PRIME1).wrapping_add(PRIME2),
        seed.wrapping_add(PRIME2),
        seed,
        seed.wrapping_sub(PRIME1),
    )
}

/// One full 16-byte block folded into the four lanes, word by word.
pub open spec fn eat_block(l: (u32, u32, u32, u32), b: Seq<u8>) -> (u32, u32, u32, u32)
    recommends
        b.len() == 16,
{
    (
        round(l.0, spec_u32_from_le_bytes(b.subrange(0, 4))),
        round(l.1, spec_u32_from_le_bytes(b.subrange(4, 8))),
        round(l.2, spec_u32_from_le_bytes(b.subrange(8, 12))),
        round(l.3, spec_u32_from_le_bytes(b.subrange(12, 16))),
    )
}

/// The lanes after folding a block-aligned byte sequence, block by block.
pub open spec fn fold_blocks(l: (u32, u32, u32, u32), s: Seq<u8>) -> (u32, u32, u32, u32)
    recommends
        s.len() % 16 == 0,
    decreases s.len(),
{
    if s.len() < 16 {
        l
    } else {
        fold_blocks(eat_block(l, s.take(16)), s.skip(16))
    }
}

/// Length of the longest block-aligned prefix of `s`.
pub open spec fn aligned_len(s: Seq<u8>) -> int {
    16 * (s.len() as int / 16)
}

/// The block-aligned prefix of `s`: the bytes the lanes have absorbed.
pub open spec fn processed(s: Seq<u8>) -> Seq<u8> {
    s.take(aligned_len(s))
}

/// The unprocessed tail of `s`: fewer than 16 bytes, held in the pending buffer.
pub open spec fn pending_tail(s: Seq<u8>) -> Seq<u8> {
    s.skip(aligned_len(s))
}

/// Lane combination at finalization time.
pub open spec fn combine_lanes(l: (u32, u32, u32, u32)) -> u32 {
    spec_rotl(l.0, 1).wrapping_add(spec_rotl(l.1, 7)).wrapping_add(
        spec_rotl(l.2, 12),
    ).wrapping_add(spec_rotl(l.3, 18))
}

/// Tail consumption: whole little-endian words first, then single bytes.
pub open spec fn fold_tail(h: u32, t: Seq<u8>) -> u32
    decreases t.len(),
{
    if t.len() >= 4 {
        fold_tail(
            spec_rotl(
                h.wrapping_add(spec_u32_from_le_bytes(t.take(4)).wrapping_mul(PRIME3)),
                17,
            ).wrapping_mul(PRIME4),
            t.skip(4),
        )
    } else if t.len() >= 1 {
        fold_tail(
            spec_rotl(h.wrapping_add((t[0] as u32).wrapping_mul(PRIME5)), 11).wrapping_mul(PRIME1),
            t.skip(1),
        )
    } else {
        h
    }
}

/// Final avalanche: three xor-shift-multiply rounds finish bit diffusion.
pub open spec fn avalanche(h: u32) -> u32 {
    let h1 = (h ^ (h >> 15u32)).wrapping_mul(PRIME2);
    let h2 = (h1 ^ (h1 >> 13u32)).wrapping_mul(PRIME3);
    h2 ^ (h2 >> 16u32)
}

/// The 32-bit xxHash of a byte sequence under a seed. This is the whole
/// algorithm: lane combination (or the short-input path), length fold,
/// tail consumption, avalanche.
pub open spec fn spec_hash(input: Seq<u8>, seed: u32) -> u32
    recommends
        input.len() <= u64::MAX,
{
    let h0 = if input.len() < 16 {
        seed.wrapping_add(PRIME5)
    } else {
        combine_lanes(fold_blocks(init_lanes(seed), processed(input)))
    };
    let h1 = h0.wrapping_add((input.len() % 0x1_0000_0000) as u32);
    avalanche(fold_tail(h1, pending_tail(input)))
}

/// Streaming 32-bit hash state: four accumulator lanes, a pending buffer of
/// at most one block, the running total length, and the seed.
pub struct State {
    memory: [u8; 16],
    total_len: u64,
    v1: u32,
    v2: u32,
    v3: u32,
    v4: u32,
    memsize: usize,
    seed: u32,
    stream: Ghost<Seq<u8>>,
}

impl State {
    /// All bytes fed since the last reset, in order.
    pub closed spec fn stream(self) -> Seq<u8> {
        self.stream@
    }

    /// The seed this state was last reset with.
    pub closed spec fn seed(self) -> u32 {
        self.seed
    }

    /// Well-formedness: the concrete fields agree with the ghost stream.
    /// The lanes have absorbed every full block, the pending buffer holds
    /// exactly the unprocessed tail, and the length counter is exact.
    pub closed spec fn wf(self) -> bool {
        &&& self.total_len == self.stream@.len()
        &&& self.memsize == self.stream@.len() % 16
        &&& self.memory@.subrange(0, self.memsize as int) == pending_tail(self.stream@)
        &&& (self.v1, self.v2, self.v3, self.v4) == fold_blocks(
            init_lanes(self.seed),
            processed(self.stream@),
        )
    }

    /// A fresh state: fully initialized from the seed, with an empty stream.
    pub fn new(seed: u32) -> (st: State)
        ensures
            st.wf(),
            st.stream() == Seq::<u8>::empty(),
            st.seed() == seed,
    {
        let mut st = State {
            memory: [0u8; 16],
            total_len: 0,
            v1: 0,
            v2: 0,
            v3: 0,
            v4: 0,
            memsize: 0,
            seed: 0,
            stream: Ghost(Seq::empty()),
        };
        st.reset(seed);
        st
    }

    /// Same as [`State::new`]; kept under its historical name.
    pub fn new_with_seed(seed: u32) -> (st: State)
        ensures
            st.wf(),
            st.stream() == Seq::<u8>::empty(),
            st.seed() == seed,
    {
        State::new(seed)
    }

    /// Reinitialize every field from the seed, emptying the stream.
    pub fn reset(&mut self, seed: u32)
        ensures
            final(self).wf(),
            final(self).stream() == Seq::<u8>::empty(),
            final(self).seed() == seed,
    {
        self.seed = seed;
        self.v1 = seed.wrapping_add(PRIME1).wrapping_add(PRIME2);
        self.v2 = seed.wrapping_add(PRIME2);
        self.v3 = seed;
        self.v4 = seed.wrapping_sub(PRIME1);
        self.total_len = 0;
        self.memsize = 0;
        self.stream = Ghost(Seq::empty());
        proof {
            let s = Seq::<u8>::empty();
            assert(self.memory@.subrange(0, 0) =~= pending_tail(s));
            assert(processed(s) =~= s);
        }
    }
}

/// Chunk invariance of the lane fold: absorbing block-aligned data in two
/// pieces yields the same lanes as absorbing their concatenation. This is the
/// law that lets a stream be split across `update` calls at any block-aligned
/// point without changing the accumulators.
pub proof fn lemma_fold_blocks_append(l: (u32, u32, u32, u32), a: Seq<u8>, b: Seq<u8>)
    requires
        a.len() % 16 == 0,
    ensures
        fold_blocks(l, a + b) == fold_blocks(fold_blocks(l, a), b),
    decreases a.len(),
{
    if a.len() == 0 {
        assert(a + b =~= b);
    } else {
        assert((a + b).take(16) =~= a.take(16));
        assert((a + b).skip(16) =~= a.skip(16) + b);
        lemma_fold_blocks_append(eat_block(l, a.take(16)), a.skip(16), b);
    }
}

/// One more block: absorbing `a + blk` is absorbing `a`, then `blk`.
proof fn lemma_fold_blocks_step(l: (u32, u32, u32, u32), a: Seq<u8>, blk: Seq<u8>)
    requires
        a.len() % 16 == 0,
        blk.len() == 16,
    ensures
        fold_blocks(l, a + blk) == eat_block(fold_blocks(l, a), blk),
{
    lemma_fold_blocks_append(l, a, blk);
    let lanes = fold_blocks(l, a);
    assert(blk.take(16) =~= blk);
    assert(blk.skip(16) =~= Seq::<u8>::empty());
    assert(fold_blocks(lanes, blk) == fold_blocks(eat_block(lanes, blk.take(16)), blk.skip(16)));
    assert(fold_blocks(eat_block(lanes, blk), Seq::<u8>::empty()) == eat_block(lanes, blk));
}

/// Tail consumption over the first `memsize` bytes of `mem`.
fn fold_tail_exec(h0: u32, mem: &[u8], memsize: usize) -> (r: u32)
    requires
        memsize <= mem@.len(),
    ensures
        r == fold_tail(h0, mem@.subrange(0, memsize as int)),
{
    let ghost t = mem@.subrange(0, memsize as int);
    let ghost target = fold_tail(h0, t);
    let mut h = h0;
    let mut i: usize = 0;
    proof {
        assert(t.skip(0) =~= t);
    }
    while memsize >= 4 && i <= memsize - 4
        invariant
            i <= memsize,
            memsize == t.len(),
            memsize <= mem@.len(),
            mem@.subrange(0, memsize as int) == t,
            fold_tail(h, t.skip(i as int)) == target,
        decreases memsize - i,
    {
        let w = u32_from_le_bytes(slice_subrange(mem, i, i + 4));
        proof {
            assert(t.skip(i as int).take(4) =~= mem@.subrange(i as int, i as int + 4));
            assert(t.skip(i as int).skip(4) =~= t.skip(i as int + 4));
        }
        h = rotl(h.wrapping_add(w.wrapping_mul(PRIME3)), 17).wrapping_mul(PRIME4);
        i = i + 4;
    }
    while i < memsize
        invariant
            i <= memsize,
            memsize == t.len(),
            memsize <= mem@.len(),
            memsize < i + 4,
            mem@.subrange(0, memsize as int) == t,
            fold_tail(h, t.skip(i as int)) == target,
        decreases memsize - i,
    {
        let b = mem[i];
        proof {
            assert(t.skip(i as int)[0] == t[i as int]);
            assert(t.skip(i as int).skip(1) =~= t.skip(i as int + 1));
        }
        h = rotl(h.wrapping_add((b as u32).wrapping_mul(PRIME5)), 11).wrapping_mul(PRIME1);
        i = i + 1;
    }
    proof {
        assert(t.skip(memsize as int) =~= Seq::<u8>::empty());
    }
    h
}

/// The final three xor-shift-multiply rounds.
fn avalanche_exec(h0: u32) -> (r: u32)
    ensures
        r == avalanche(h0),
{
    let mut h = h0;
    h = (h ^ (h >> 15u32)).wrapping_mul(PRIME2);
    h = (h ^ (h >> 13u32)).wrapping_mul(PRIME3);
    h = h ^ (h >> 16u32);
    h
}

/// The hash is a pure function of the stream and seed: any two reads of the
/// same stream under the same seed agree. Since `digest` and `oneshot` both
/// return `spec_hash` of the bytes fed, this gives the idempotent digest
/// (two consecutive `digest` calls with no intervening `update` return the
/// same value) and the mid-stream law (`digest` after partial input equals
/// `oneshot` on exactly the bytes fed so far).
pub proof fn lemma_hash_deterministic(r1: u32, r2: u32, s: Seq<u8>, seed: u32)
    requires
        r1 == spec_hash(s, seed),
        r2 == spec_hash(s, seed),
    ensures
        r1 == r2,
{
}

/// One-shot 32-bit hash of a whole buffer: bit-identical to feeding the same
/// bytes to a fresh [`State`] in chunks of any sizes and taking the digest.
pub fn oneshot(input: &[u8], seed: u32) -> (r: u32)
    ensures
        r == spec_hash(input@, seed),
{
    let mut state = State::new(seed);
    let len = input.len();
    proof {
        assert(input@.len() <= u64::MAX) by {
            assert(len <= usize::MAX);
        }
        assert(Seq::<u8>::empty() + input@ =~= input@);
    }
    state.update(input);
    state.digest()
}

/// One lane update for one word.
fn round_exec(acc: u32, word: u32) -> (r: u32)
    ensures
        r == round(acc, word),
{
    proof {
        reveal(round);
    }
    rotl(acc.wrapping_add(word.wrapping_mul(PRIME2)), 13).wrapping_mul(PRIME1)
}

/// Fold the 16-byte block at `b[off..off + 16]` into the four lanes.
fn eat_block_exec(l: (u32, u32, u32, u32), b: &[u8], off: usize) -> (r: (u32, u32, u32, u32))
    requires
        off + 16 <= b@.len(),
    ensures
        r == eat_block(l, b@.subrange(off as int, off as int + 16)),
{
    let blen = b.len();
    let w0 = u32_from_le_bytes(slice_subrange(b, off, off + 4));
    let w1 = u32_from_le_bytes(slice_subrange(b, off + 4, off + 8));
    let w2 = u32_from_le_bytes(slice_subrange(b, off + 8, off + 12));
    let w3 = u32_from_le_bytes(slice_subrange(b, off + 12, off + 16));
    proof {
        let blk = b@.subrange(off as int, off as int + 16);
        assert(blk.subrange(0, 4) =~= b@.subrange(off as int, off as int + 4));
        assert(blk.subrange(4, 8) =~= b@.subrange(off as int + 4, off as int + 8));
        assert(blk.subrange(8, 12) =~= b@.subrange(off as int + 8, off as int + 12));
        assert(blk.subrange(12, 16) =~= b@.subrange(off as int + 12, off as int + 16));
    }
    (round_exec(l.0, w0), round_exec(l.1, w1), round_exec(l.2, w2), round_exec(l.3, w3))
}

impl State {
    /// Append `input` to the stream. The lanes absorb every block the new
    /// bytes complete; at most one block's worth of bytes stays pending.
    pub fn update(&mut self, input: &[u8])
        requires
            old(self).wf(),
            old(self).stream().len() + input@.len() <= u64::MAX,
        ensures
            final(self).wf(),
            final(self).stream() == old(self).stream() + input@,
            final(self).seed() == old(self).seed(),
    {
        let len = input.len();
        let ghost s_old = self.stream@;
        let ghost s_new = s_old + input@;
        self.stream = Ghost(s_new);
        self.total_len = self.total_len + len as u64;
        let ms = self.memsize;
        proof {
            vstd::arithmetic::div_mod::lemma_fundamental_div_mod(s_old.len() as int, 16);
        }
        let ghost q_old = s_old.len() as int / 16;

        if len < 16 - ms {
            // Not enough for one block: only the pending buffer grows.
            crate::pending::copy_into(&mut self.memory, ms, input, 0, len);
            self.memsize = ms + len;
            proof {
                vstd::arithmetic::div_mod::lemma_fundamental_div_mod_converse(
                    s_new.len() as int,
                    16,
                    q_old,
                    ms + len,
                );
                assert(processed(s_new) =~= processed(s_old));
                assert(pending_tail(s_new) =~= pending_tail(s_old) + input@);
                assert(self.memory@.subrange(0, ms + len) =~= pending_tail(s_old) + input@);
            }
            return;
        }

        let ghost seed0 = self.seed;
        let mut l = (self.v1, self.v2, self.v3, self.v4);
        let mut off: usize = 0;
        if ms != 0 {
            // Fill the pending buffer to a whole block and absorb it.
            let bump = 16 - ms;
            crate::pending::copy_into(&mut self.memory, ms, input, 0, bump);
            let mem = array_as_slice(&self.memory);
            l = eat_block_exec(l, mem, 0);
            off = bump;
            self.memsize = 0;
            proof {
                let base = aligned_len(s_old);
                let blk = s_new.subrange(base, base + 16);
                assert(mem@.subrange(0, 16) =~= blk);
                lemma_fold_blocks_step(init_lanes(seed0), s_new.take(base), blk);
                assert(s_new.take(base) =~= processed(s_old));
                assert(s_new.take(base) + blk =~= s_new.take(base + 16));
                assert(l == fold_blocks(init_lanes(seed0), s_new.take(s_old.len() + off as int)));
            }
        }
        proof {
            assert((s_old.len() + off as int) % 16 == 0);
            if off == 0 {
                assert(s_new.take(s_old.len() as int) =~= processed(s_old));
            }
        }
        while len - off >= 16
            invariant
                off <= len,
                len == input@.len(),
                s_new == s_old + input@,
                s_new.len() == s_old.len() + len,
                (s_old.len() + off as int) % 16 == 0,
                l == fold_blocks(init_lanes(seed0), s_new.take(s_old.len() + off as int)),
            decreases len - off,
        {
            let ghost pos = s_old.len() + off as int;
            let ghost blk = s_new.subrange(pos, pos + 16);
            l = eat_block_exec(l, input, off);
            proof {
                assert(input@.subrange(off as int, off as int + 16) =~= blk);
                lemma_fold_blocks_step(init_lanes(seed0), s_new.take(pos), blk);
                assert(s_new.take(pos) + blk =~= s_new.take(pos + 16));
            }
            off = off + 16;
        }
        self.v1 = l.0;
        self.v2 = l.1;
        self.v3 = l.2;
        self.v4 = l.3;
        let rem = len - off;
        crate::pending::copy_into(&mut self.memory, 0, input, off, rem);
        self.memsize = rem;
        proof {
            let pos = s_old.len() + off as int;
            vstd::arithmetic::div_mod::lemma_fundamental_div_mod_converse(
                s_new.len() as int,
                16,
                pos / 16,
                rem as int,
            );
            assert(processed(s_new) =~= s_new.take(pos));
            assert(self.memory@.subrange(0, rem as int) =~= pending_tail(s_new));
        }
    }

    /// Read the current hash without mutating the state: exactly the hash of
    /// every byte fed so far, so it may be taken mid-stream and equals
    /// [`oneshot`] on the same bytes and seed.
    pub fn digest(&self) -> (r: u32)
        requires
            self.wf(),
        ensures
            r == spec_hash(self.stream(), self.seed()),
    {
        let mut h: u32;
        if self.total_len < 16 {
            h = self.seed.wrapping_add(PRIME5);
        } else {
            h = rotl(self.v1, 1).wrapping_add(rotl(self.v2, 7)).wrapping_add(
                rotl(self.v3, 12),
            ).wrapping_add(rotl(self.v4, 18));
        }
        proof {
            let tl = self.total_len;
            assert(tl as u32 == (tl % 0x1_0000_0000) as u32) by (bit_vector);
        }
        h = h.wrapping_add(#[verifier::truncate] (self.total_len as u32));
        let mem = array_as_slice(&self.memory);
        proof {
            assert(mem@.subrange(0, self.memsize as int) == pending_tail(self.stream@));
        }
        h = fold_tail_exec(h, mem, self.memsize);
        avalanche_exec(h)
    }
}

} // verus!
