//! Choosing a bounded random sample of the candidates, without replacement.
use crate::walk::FileCandidate;
use vstd::prelude::*;

verus! {

/// Relies on rand::seq::sample_indices, drawing from rand::thread_rng:
/// `amount` distinct indices below `length` (it panics where `amount` exceeds
/// `length`).
#[verifier::external_body]
fn random_indices(length: usize, amount: usize) -> (r: Vec<usize>)
    requires
        amount <= length,
    ensures
        r@.len() == amount,
        r@.no_duplicates(),
        forall|i: int| 0 <= i < r@.len() ==> r@[i] < length,
{
    rand::seq::sample_indices(&mut rand::thread_rng(), length, amount)
}

/// The candidates at the given positions, in the order of the positions.
pub fn pick(candidates: &Vec<FileCandidate>, indices: &Vec<usize>) -> (r: Vec<FileCandidate>)
    requires
        forall|i: int| 0 <= i < indices@.len() ==> indices@[i] < candidates@.len(),
    ensures
        r@.len() == indices@.len(),
        forall|i: int| 0 <= i < r@.len() ==> (#[trigger] r@[i])@ == candidates@[indices@[i] as int]@,
{
    let mut r: Vec<FileCandidate> = Vec::new();
    let mut i: usize = 0;
    while i < indices.len()
        invariant
            i <= indices@.len(),
            r@.len() == i,
            forall|j: int| 0 <= j < indices@.len() ==> indices@[j] < candidates@.len(),
            forall|j: int| 0 <= j < i ==> (#[trigger] r@[j])@ == candidates@[indices@[j] as int]@,
        decreases indices@.len() - i,
    {
        r.push(candidates[indices[i]].duplicate());
        i = i + 1;
    }
    r
}

/// `r` is `k` distinct members of `c`, as positions `idx` of `c` show.
pub open spec fn drawn_from(r: Seq<FileCandidate>, c: Seq<FileCandidate>, idx: Seq<usize>) -> bool {
    &&& idx.len() == r.len()
    &&& idx.no_duplicates()
    &&& forall|i: int| 0 <= i < idx.len() ==> idx[i] < c.len() && (#[trigger] r[i])@ == c[idx[i] as int]@
}

/// Up to `k` of the candidates: all of them, in their order, where there are
/// no more than `k`; otherwise `k` distinct ones drawn at random.
pub fn sample(candidates: Vec<FileCandidate>, k: usize) -> (r: Vec<FileCandidate>)
    ensures
        candidates@.len() <= k ==> r@ == candidates@,
        candidates@.len() > k ==> r@.len() == k && exists|idx: Seq<usize>| drawn_from(r@, candidates@, idx),
{
    if candidates.len() <= k {
        candidates
    } else {
        let indices = random_indices(candidates.len(), k);
        let r = pick(&candidates, &indices);
        assert(drawn_from(r@, candidates@, indices@));
        r
    }
}

} // verus!
