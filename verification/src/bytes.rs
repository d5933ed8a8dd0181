//! Byte buffers that travel as one byte string, not as a list of numbers.

use vstd::prelude::*;

verus! {

/// The array of the `N` bytes of `b`. Where `b` has more bytes or fewer, the
/// count of the places that could be filled comes back instead: the smaller
/// of the two lengths.
pub fn to_array<const N: usize>(b: &[u8]) -> (r: Result<[u8; N], usize>)
    ensures
        b@.len() == N ==> r is Ok && r->Ok_0@ == b@,
        b@.len() != N ==> r == Err::<[u8; N], usize>(
            if b@.len() < N {
                b@.len() as usize
            } else {
                N
            },
        ),
{
    let mut arr: [u8; N] = [0u8; N];
    let mut cnt_filled: usize = 0;
    while cnt_filled < N && cnt_filled < b.len()
        invariant
            cnt_filled <= N,
            cnt_filled <= b@.len(),
            forall|i: int| 0 <= i < cnt_filled ==> arr@[i] == b@[i],
        decreases N - cnt_filled,
    {
        arr[cnt_filled] = b[cnt_filled];
        cnt_filled += 1;
    }
    if cnt_filled == N && cnt_filled == b.len() {
        assert(arr@ =~= b@);
        Ok(arr)
    } else {
        Err(cnt_filled)
    }
}

} // verus!
