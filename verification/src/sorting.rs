//! An in-place sort for sample buffers, with the two facts the percentile
//! machinery rests on: the result is ordered, and it holds exactly the
//! samples it started with.

use vstd::prelude::*;
use vstd::seq_lib::lemma_sorted_unique;
use vstd::seq_lib::to_multiset_update;
use vstd::relations::sorted_by;
use vstd::relations::total_ordering;

verus! {

/// Whether the sequence is ordered from smallest to largest.
pub open spec fn sorted(s: Seq<u64>) -> bool {
    forall|i: int, j: int| 0 <= i <= j < s.len() ==> #[trigger] s[i] <= #[trigger] s[j]
}

/// Swapping two positions of a sequence keeps its multiset of samples.
proof fn lemma_swap_keeps_multiset(s: Seq<u64>, i: int, j: int)
    requires
        0 <= i < s.len(),
        0 <= j < s.len(),
        i != j,
    ensures
        s.update(i, s[j]).update(j, s[i]).to_multiset() == s.to_multiset(),
{
    broadcast use vstd::multiset::group_multiset_axioms;
    broadcast use vstd::seq_lib::group_to_multiset_ensures;

    let s1 = s.update(i, s[j]);
    to_multiset_update(s, i, s[j]);
    to_multiset_update(s1, j, s[i]);
    assert(s1[j] == s[j]);
    assert(s.to_multiset().contains(s[i]));
    assert(s1.to_multiset() == s.to_multiset().insert(s[j]).remove(s[i]));
    assert(s1.update(j, s[i]).to_multiset() =~= s.to_multiset());
}

/// Two sorted sequences with the same samples are the same sequence.
pub proof fn lemma_sorted_same_content(a: Seq<u64>, b: Seq<u64>)
    requires
        sorted(a),
        sorted(b),
        a.to_multiset() == b.to_multiset(),
    ensures
        a == b,
{
    let leq = |x: u64, y: u64| x <= y;
    assert(total_ordering(leq));
    assert(sorted_by(a, leq));
    assert(sorted_by(b, leq));
    lemma_sorted_unique(a, b, leq);
    assert(a =~= b);
}

/// Sorts the buffer in place by insertion, smallest first.
pub fn sort_samples(data: &mut Vec<u64>)
    ensures
        sorted(final(data)@),
        final(data)@.to_multiset() == old(data)@.to_multiset(),
        final(data)@.len() == old(data)@.len(),
{
    let ghost orig = data@;
    let n = data.len();
    if n < 2 {
        return ;
    }
    let mut i: usize = 1;
    while i < n
        invariant
            1 <= i <= n,
            n == data@.len(),
            data@.to_multiset() == orig.to_multiset(),
            forall|p: int, q: int| 0 <= p <= q < i ==> #[trigger] data@[p] <= #[trigger] data@[q],
        decreases n - i,
    {
        let mut j = i;
        while j > 0 && data[j - 1] > data[j]
            invariant
                0 < i < n,
                0 <= j <= i,
                data@.len() == n,
                data@.to_multiset() == orig.to_multiset(),
                forall|p: int, q: int|
                    0 <= p <= q <= i && p != j && q != j ==> #[trigger] data@[p]
                        <= #[trigger] data@[q],
                forall|q: int| j < q <= i ==> data@[j as int] <= #[trigger] data@[q],
            decreases j,
        {
            let ghost before = data@;
            let lower = data[j - 1];
            let upper = data[j];
            data[j - 1] = upper;
            data[j] = lower;
            proof {
                lemma_swap_keeps_multiset(before, j - 1, j as int);
                assert(data@ =~= before.update(j - 1, before[j as int]).update(
                    j as int,
                    before[j - 1],
                ));
            }
            j = j - 1;
        }
        i = i + 1;
    }
}

} // verus!
