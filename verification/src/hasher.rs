//! A byte-sink adapter over the 32-bit engine, so structured values can be
//! hashed by writing their byte representation through the sink.
//!
//! Every hashable value has a spec-level `encoding`: the exact bytes it
//! writes. Variable-length fields inject unambiguous boundaries (a length
//! prefix for byte slices, a terminator for strings), so distinct field
//! splits of equal concatenated content still hash differently.

use vstd::prelude::*;
use vstd::bytes::{spec_u32_to_le_bytes, spec_u64_to_le_bytes, u32_to_le_bytes, u64_to_le_bytes};
use vstd::string::StringSliceAdditionalSpecFns;
use crate::xxh32::State;
use crate::xxh32::spec_hash;

pub use crate::xxh32::State as XXState;

verus! {

/// A length prefix makes the encoding of a byte slice self-delimiting.
pub open spec fn length_prefixed(s: Seq<u8>) -> Seq<u8>
    recommends
        s.len() <= u64::MAX,
{
    spec_u64_to_le_bytes(s.len() as u64) + s
}

/// A terminator byte delimits a string's UTF-8 bytes, which never contain it.
pub open spec fn terminated(s: Seq<u8>) -> Seq<u8> {
    s + seq![0xffu8]
}

/// A value the byte-sink can absorb: it writes exactly its `encoding`.
pub trait Hashable {
    /// The byte stream this value writes into the sink.
    spec fn encoding(&self) -> Seq<u8>;

    /// Write the value's encoding into the sink.
    fn feed(&self, state: &mut State)
        requires
            old(state).wf(),
            old(state).stream().len() + self.encoding().len() <= u64::MAX,
        ensures
            final(state).wf(),
            final(state).stream() == old(state).stream() + self.encoding(),
            final(state).seed() == old(state).seed(),
    ;
}

impl Hashable for u8 {
    open spec fn encoding(&self) -> Seq<u8> {
        seq![*self]
    }

    fn feed(&self, state: &mut State) {
        let byte: [u8; 1] = [*self];
        state.update(vstd::array::array_as_slice(&byte));
        proof {
            assert(vstd::array::array_view(byte) =~= seq![*self]);
        }
    }
}

impl Hashable for u16 {
    open spec fn encoding(&self) -> Seq<u8> {
        vstd::bytes::spec_u16_to_le_bytes(*self)
    }

    fn feed(&self, state: &mut State) {
        let bytes = vstd::bytes::u16_to_le_bytes(*self);
        state.update(bytes.as_slice());
    }
}

impl Hashable for u32 {
    open spec fn encoding(&self) -> Seq<u8> {
        spec_u32_to_le_bytes(*self)
    }

    fn feed(&self, state: &mut State) {
        let bytes = u32_to_le_bytes(*self);
        state.update(bytes.as_slice());
    }
}

impl Hashable for u64 {
    open spec fn encoding(&self) -> Seq<u8> {
        spec_u64_to_le_bytes(*self)
    }

    fn feed(&self, state: &mut State) {
        let bytes = u64_to_le_bytes(*self);
        state.update(bytes.as_slice());
    }
}

impl Hashable for usize {
    open spec fn encoding(&self) -> Seq<u8> {
        spec_u64_to_le_bytes(*self as u64)
    }

    fn feed(&self, state: &mut State) {
        let bytes = u64_to_le_bytes(*self as u64);
        state.update(bytes.as_slice());
    }
}

impl Hashable for str {
    open spec fn encoding(&self) -> Seq<u8> {
        terminated(self.spec_bytes())
    }

    fn feed(&self, state: &mut State) {
        state.update(self.as_bytes());
        let terminator: [u8; 1] = [0xffu8];
        state.update(vstd::array::array_as_slice(&terminator));
        proof {
            assert(vstd::array::array_view(terminator) =~= seq![0xffu8]);
            assert((old(state).stream() + self.spec_bytes()) + seq![0xffu8] =~= old(
                state,
            ).stream() + self.encoding());
        }
    }
}

impl Hashable for [u8] {
    open spec fn encoding(&self) -> Seq<u8> {
        length_prefixed(self@)
    }

    fn feed(&self, state: &mut State) {
        proof {
            vstd::bytes::lemma_auto_spec_u64_to_from_le_bytes();
        }
        let n = self.len();
        let prefix = u64_to_le_bytes(n as u64);
        state.update(prefix.as_slice());
        state.update(self);
        proof {
            assert((old(state).stream() + spec_u64_to_le_bytes(n as u64)) + self@ =~= old(
                state,
            ).stream() + self.encoding());
        }
    }
}

impl<T: Hashable + ?Sized> Hashable for &T {
    open spec fn encoding(&self) -> Seq<u8> {
        (*self).encoding()
    }

    fn feed(&self, state: &mut State) {
        (*self).feed(state);
    }
}

impl<A: Hashable, B: Hashable> Hashable for (A, B) {
    open spec fn encoding(&self) -> Seq<u8> {
        self.0.encoding() + self.1.encoding()
    }

    fn feed(&self, state: &mut State) {
        self.0.feed(state);
        self.1.feed(state);
        proof {
            assert((old(state).stream() + self.0.encoding()) + self.1.encoding() =~= old(
                state,
            ).stream() + self.encoding());
        }
    }
}

impl<A: Hashable, B: Hashable, C: Hashable> Hashable for (A, B, C) {
    open spec fn encoding(&self) -> Seq<u8> {
        self.0.encoding() + self.1.encoding() + self.2.encoding()
    }

    fn feed(&self, state: &mut State) {
        self.0.feed(state);
        self.1.feed(state);
        self.2.feed(state);
        proof {
            assert(((old(state).stream() + self.0.encoding()) + self.1.encoding())
                + self.2.encoding() =~= old(state).stream() + self.encoding());
        }
    }
}

/// A reusable hasher: a seed for the 32-bit engine, applied to any
/// [`Hashable`] value's encoding.
pub struct XXHasher {
    seed: u32,
}

impl XXHasher {
    /// The seed this hasher applies.
    pub closed spec fn spec_seed(self) -> u32 {
        self.seed
    }

    /// A hasher with seed zero.
    pub fn new() -> (h: XXHasher)
        ensures
            h.spec_seed() == 0,
    {
        XXHasher::new_with_seed(0)
    }

    /// A hasher with the given seed.
    pub fn new_with_seed(seed: u32) -> (h: XXHasher)
        ensures
            h.spec_seed() == seed,
    {
        XXHasher { seed }
    }

    /// Hash one value's encoding under this hasher's seed.
    pub fn hash<T: Hashable>(&self, value: &T) -> (r: u64)
        requires
            value.encoding().len() <= u64::MAX,
        ensures
            r == spec_hash(value.encoding(), self.spec_seed()) as u64,
    {
        let mut state = State::new(self.seed);
        proof {
            assert(Seq::<u8>::empty() + value.encoding() =~= value.encoding());
        }
        value.feed(&mut state);
        state.digest() as u64
    }
}

/// Hash a value's encoding with seed zero.
pub fn hash<T: Hashable>(value: &T) -> (r: u64)
    requires
        value.encoding().len() <= u64::MAX,
    ensures
        r == spec_hash(value.encoding(), 0) as u64,
{
    let hasher = XXHasher::new();
    hasher.hash(value)
}

/// Hash a value's encoding with the given seed, truncated to the engine's
/// width.
pub fn hash_with_seed<T: Hashable>(seed: u64, value: &T) -> (r: u64)
    requires
        value.encoding().len() <= u64::MAX,
    ensures
        r == spec_hash(value.encoding(), (seed % 0x1_0000_0000) as u32) as u64,
{
    proof {
        assert(seed as u32 == (seed % 0x1_0000_0000) as u32) by (bit_vector);
    }
    let hasher = XXHasher::new_with_seed(#[verifier::truncate] (seed as u32));
    hasher.hash(value)
}

/// No concatenation aliasing for length-prefixed fields: the concatenated
/// byte stream of two encoded byte slices determines both slices, so
/// different field splits never produce the same stream.
pub proof fn lemma_length_prefixed_unambiguous(a: Seq<u8>, b: Seq<u8>, c: Seq<u8>, d: Seq<u8>)
    requires
        a.len() <= u64::MAX,
        b.len() <= u64::MAX,
        c.len() <= u64::MAX,
        d.len() <= u64::MAX,
        length_prefixed(a) + length_prefixed(b) == length_prefixed(c) + length_prefixed(d),
    ensures
        a == c,
        b == d,
{
    vstd::bytes::lemma_auto_spec_u64_to_from_le_bytes();
    let lhs = length_prefixed(a) + length_prefixed(b);
    let rhs = length_prefixed(c) + length_prefixed(d);
    assert(lhs.subrange(0, 8) =~= spec_u64_to_le_bytes(a.len() as u64));
    assert(rhs.subrange(0, 8) =~= spec_u64_to_le_bytes(c.len() as u64));
    assert(vstd::bytes::spec_u64_from_le_bytes(spec_u64_to_le_bytes(a.len() as u64)) == a.len()
        as u64);
    assert(vstd::bytes::spec_u64_from_le_bytes(spec_u64_to_le_bytes(c.len() as u64)) == c.len()
        as u64);
    assert(a.len() == c.len());
    assert(a =~= lhs.subrange(8, 8 + a.len() as int));
    assert(c =~= rhs.subrange(8, 8 + c.len() as int));
    assert(b =~= lhs.subrange(16 + a.len() as int, lhs.len() as int));
    assert(d =~= rhs.subrange(16 + c.len() as int, rhs.len() as int));
}

/// No concatenation aliasing for terminated fields: as long as neither field
/// contains the terminator byte, the concatenated stream of two terminated
/// fields determines both.
pub proof fn lemma_terminated_unambiguous(a: Seq<u8>, b: Seq<u8>, c: Seq<u8>, d: Seq<u8>)
    requires
        forall|i: int| 0 <= i < a.len() ==> a[i] != 0xff,
        forall|i: int| 0 <= i < c.len() ==> c[i] != 0xff,
        terminated(a) + terminated(b) == terminated(c) + terminated(d),
    ensures
        a == c,
        b == d,
{
    let lhs = terminated(a) + terminated(b);
    let rhs = terminated(c) + terminated(d);
    if a.len() < c.len() {
        assert(lhs[a.len() as int] == 0xff);
        assert(rhs[a.len() as int] == c[a.len() as int]);
        assert(false);
    }
    if c.len() < a.len() {
        assert(rhs[c.len() as int] == 0xff);
        assert(lhs[c.len() as int] == a[c.len() as int]);
        assert(false);
    }
    assert(a =~= lhs.subrange(0, a.len() as int));
    assert(c =~= rhs.subrange(0, c.len() as int));
    assert(b =~= lhs.subrange(a.len() as int + 1, lhs.len() as int - 1));
    assert(d =~= rhs.subrange(c.len() as int + 1, rhs.len() as int - 1));
}

/// UTF-8 never produces the terminator byte: every byte of an encoded
/// character sequence is below `0xff`.
pub proof fn lemma_utf8_no_terminator(chars: Seq<char>)
    ensures
        forall|i: int|
            0 <= i < vstd::utf8::encode_utf8(chars).len() ==> vstd::utf8::encode_utf8(chars)[i]
                != 0xff,
    decreases chars.len(),
{
    if chars.len() > 0 {
        let s = chars[0] as u32;
        let head = vstd::utf8::encode_scalar(s);
        let rest = vstd::utf8::encode_utf8(chars.drop_first());
        lemma_utf8_no_terminator(chars.drop_first());
        assert(((s & 0x7F) as u8) != 0xff) by (bit_vector);
        assert((0xC0u8 | (((s >> 6) & 0x1F) as u8)) != 0xff) by (bit_vector);
        assert((0xE0u8 | (((s >> 12) & 0x0F) as u8)) != 0xff) by (bit_vector);
        assert((0xF0u8 | (((s >> 18) & 0x7) as u8)) != 0xff) by (bit_vector);
        assert((0x80u8 | ((s & 0x3F) as u8)) != 0xff) by (bit_vector);
        assert((0x80u8 | (((s >> 6) & 0x3F) as u8)) != 0xff) by (bit_vector);
        assert((0x80u8 | (((s >> 12) & 0x3F) as u8)) != 0xff) by (bit_vector);
        assert(forall|i: int| 0 <= i < head.len() ==> head[i] != 0xff);
        assert(vstd::utf8::encode_utf8(chars) == head + rest);
        assert(forall|i: int|
            0 <= i < vstd::utf8::encode_utf8(chars).len() ==> vstd::utf8::encode_utf8(chars)[i]
                != 0xff);
    }
}

/// No concatenation aliasing for strings: two pairs of character sequences
/// whose terminated UTF-8 encodings concatenate to the same byte stream are
/// the same pair. With [`lemma_terminated_unambiguous`], this is why hashing
/// `("aa", "bb")` and `("aabb", "")` cannot collide unless the hash itself
/// collides on distinct streams.
pub proof fn lemma_str_encoding_unambiguous(a: Seq<char>, b: Seq<char>, c: Seq<char>, d: Seq<char>)
    requires
        terminated(vstd::utf8::encode_utf8(a)) + terminated(vstd::utf8::encode_utf8(b))
            == terminated(vstd::utf8::encode_utf8(c)) + terminated(vstd::utf8::encode_utf8(d)),
    ensures
        a == c,
        b == d,
{
    lemma_utf8_no_terminator(a);
    lemma_utf8_no_terminator(c);
    lemma_terminated_unambiguous(
        vstd::utf8::encode_utf8(a),
        vstd::utf8::encode_utf8(b),
        vstd::utf8::encode_utf8(c),
        vstd::utf8::encode_utf8(d),
    );
    vstd::utf8::encode_utf8_decode_utf8(a);
    vstd::utf8::encode_utf8_decode_utf8(b);
    vstd::utf8::encode_utf8_decode_utf8(c);
    vstd::utf8::encode_utf8_decode_utf8(d);
}

} // verus!
