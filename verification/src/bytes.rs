//! Plain work on byte slices: copying and comparing.
use vstd::prelude::*;

verus! {

/// Copies `src` over the front of `dst`. What lies in `dst` behind the copy
/// stays as it was.
pub fn copy_memory(src: &[u8], dst: &mut [u8])
    requires
        src@.len() <= old(dst)@.len(),
    ensures
        final(dst)@ == src@ + old(dst)@.subrange(src@.len() as int, old(dst)@.len() as int),
{
    let ghost before = dst@;
    let count = src.len();
    let mut i: usize = 0;
    while i < count
        invariant
            count == src@.len(),
            i <= count <= dst@.len(),
            dst@.len() == before.len(),
            forall|j: int| 0 <= j < i ==> dst@[j] == src@[j],
            forall|j: int| i <= j < before.len() ==> dst@[j] == before[j],
        decreases count - i,
    {
        dst[i] = src[i];
        i += 1;
    }
    assert(dst@ =~= src@ + before.subrange(src@.len() as int, before.len() as int));
}

/// Whether two slices hold the same bytes.
pub fn same_bytes(a: &[u8], b: &[u8]) -> (same: bool)
    ensures
        same == (a@ == b@),
{
    if a.len() != b.len() {
        return false;
    }
    let mut i: usize = 0;
    while i < a.len()
        invariant
            a@.len() == b@.len(),
            i <= a@.len(),
            forall|j: int| 0 <= j < i ==> a@[j] == b@[j],
        decreases a@.len() - i,
    {
        if a[i] != b[i] {
            return false;
        }
        i += 1;
    }
    assert(a@ =~= b@);
    true
}

/// What is left of `s` behind its first `from` items.
pub open spec fn rest(s: Seq<u8>, from: usize) -> Seq<u8> {
    s.skip(from as int)
}

/// `rest` at an index inside `s` opens with the item at that index, and
/// goes on with `rest` at the next index.
pub proof fn lemma_rest_step(s: Seq<u8>, from: usize)
    requires
        from < s.len() <= usize::MAX,
    ensures
        rest(s, from).len() == s.len() - from,
        rest(s, from)[0] == s[from as int],
        rest(s, from).drop_first() == rest(s, (from + 1) as usize),
{
    assert(rest(s, from).drop_first() =~= rest(s, (from + 1) as usize));
}

} // verus!
