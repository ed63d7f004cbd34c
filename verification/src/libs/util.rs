//! Memory helpers.
use vstd::prelude::*;

verus! {

/// Writes `val` to the `count` words of `dst` from `start`, leaving the
/// other words as they were.
pub fn memset32(dst: &mut Vec<u32>, start: usize, val: u32, count: usize)
    requires
        start + count <= old(dst)@.len(),
    ensures
        final(dst)@.len() == old(dst)@.len(),
        forall|i: int| start <= i < start + count ==> #[trigger] final(dst)@[i] == val,
        forall|i: int| 0 <= i < old(dst)@.len() && !(start <= i < start + count) ==> #[trigger] final(dst)@[i] == old(dst)@[i],
{
    let n = dst.len();
    let mut k: usize = 0;
    while k < count
        invariant
            0 <= k <= count,
            start + count <= n,
            n == dst@.len(),
            dst@.len() == old(dst)@.len(),
            forall|i: int| start <= i < start + k ==> #[trigger] dst@[i] == val,
            forall|i: int| 0 <= i < old(dst)@.len() && !(start <= i < start + k) ==> #[trigger] dst@[i] == old(dst)@[i],
        decreases count - k,
    {
        dst.set(start + k, val);
        k = k + 1;
    }
}

} // verus!
