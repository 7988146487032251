//! Byte copying into the fixed-capacity pending buffers of the two engines.

use vstd::prelude::*;

verus! {

broadcast use vstd::array::group_array_axioms;

/// Copy `count` bytes of `src`, starting at `from`, into `dst` starting at
/// `at`; every other byte of `dst` is untouched.
pub(crate) fn copy_into<const N: usize>(
    dst: &mut [u8; N],
    at: usize,
    src: &[u8],
    from: usize,
    count: usize,
)
    requires
        at + count <= N,
        from + count <= src@.len(),
    ensures
        final(dst)@ == old(dst)@.take(at as int) + src@.subrange(
            from as int,
            from as int + count as int,
        ) + old(dst)@.skip(at as int + count as int),
{
    let ghost pre = dst@;
    let srclen = src.len();
    let mut i: usize = 0;
    while i < count
        invariant
            i <= count,
            at + count <= N,
            from + count <= src@.len(),
            src@.len() == srclen,
            dst@.len() == N,
            pre.len() == N,
            dst@ == pre.take(at as int) + src@.subrange(from as int, from as int + i as int)
                + pre.skip(at as int + i as int),
        decreases count - i,
    {
        let ghost before = dst@;
        dst[at + i] = src[from + i];
        proof {
            assert(dst@ =~= pre.take(at as int) + src@.subrange(
                from as int,
                from as int + i as int + 1,
            ) + pre.skip(at as int + i as int + 1));
        }
        i = i + 1;
    }
    proof {
        assert(dst@ =~= old(dst)@.take(at as int) + src@.subrange(
            from as int,
            from as int + count as int,
        ) + old(dst)@.skip(at as int + count as int));
    }
}

} // verus!
