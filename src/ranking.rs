//! Ranking a scored population, best first.
use rayon::slice::ParallelSliceMut;
use vstd::prelude::*;

verus! {

/// Pairs are in descending order of their first field.
pub open spec fn descending(v: Seq<(i32, usize)>) -> bool {
    forall|i: int, j: int| 0 <= i < j < v.len() ==> v[i].0 >= v[j].0
}

/// Relies on rayon's ParallelSliceMut::par_sort_unstable_by: the pairs are
/// reordered so that their first fields do not increase; pairs with equal
/// first fields come in no promised order.
#[verifier::external_body]
fn sort_descending(v: &mut Vec<(i32, usize)>)
    ensures
        final(v)@.to_multiset() == old(v)@.to_multiset(),
        descending(final(v)@),
{
    v.par_sort_unstable_by(|a, b| b.0.cmp(&a.0));
}

/// Orders (score, index) pairs best first. Every pair of the input appears
/// in the output and vice versa; ties stay in an unspecified order.
pub fn rank(scores: Vec<(i32, usize)>) -> (ranked: Vec<(i32, usize)>)
    ensures
        ranked@.to_multiset() == scores@.to_multiset(),
        ranked@.len() == scores@.len(),
        descending(ranked@),
        forall|k: int| 0 <= k < ranked@.len() ==> scores@.contains(#[trigger] ranked@[k]),
{
    let mut ranked = scores;
    sort_descending(&mut ranked);
    proof {
        ranked@.to_multiset_ensures();
        scores@.to_multiset_ensures();
        assert forall|k: int| 0 <= k < ranked@.len() implies scores@.contains(
            #[trigger] ranked@[k],
        ) by {
            assert(ranked@.contains(ranked@[k]));
            assert(ranked@.to_multiset().count(ranked@[k]) > 0);
            assert(scores@.to_multiset().count(ranked@[k]) > 0);
        }
    }
    ranked
}

} // verus!
