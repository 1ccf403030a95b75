//! Shellsort over 32-bit integers with the fixed gap sequence
//! 701, 301, 132, 57, 23, 10, 4, 1.
//!
//! The sort returns a fresh vector that is an ascending permutation of the
//! input slice. Since any two ascending sequences over the same multiset are
//! equal, the contract of `shellsort` determines its result completely; the
//! uniqueness and idempotence lemmas below record that.

use vstd::prelude::*;

verus! {

use vstd::seq_lib::group_to_multiset_ensures;
use vstd::seq_lib::lemma_sorted_unique;

broadcast use group_to_multiset_ensures;

/// The sequence is in ascending order: every element is at most every
/// later one.
pub open spec fn sorted(s: Seq<i32>) -> bool {
    forall|p: int, q: int| 0 <= p <= q < s.len() ==> s[p] <= s[q]
}

/// Every element is at most the element `gap` places after it. A pass of the
/// sort with a given gap establishes this; for gap 1 it chains into `sorted`.
pub open spec fn gap_sorted(s: Seq<i32>, gap: int) -> bool {
    forall|k: int| gap <= k < s.len() ==> s[k - gap] <= #[trigger] s[k]
}

/// `s` holds the same elements as `t`, with the same repetitions: the two are
/// permutations of one another.
pub open spec fn permutes(s: Seq<i32>, t: Seq<i32>) -> bool {
    s.to_multiset() == t.to_multiset()
}

proof fn lemma_gap_one_chain(s: Seq<i32>, p: int, q: int)
    requires
        gap_sorted(s, 1),
        0 <= p <= q < s.len(),
    ensures
        s[p] <= s[q],
    decreases q - p,
{
    if p < q {
        lemma_gap_one_chain(s, p, q - 1);
    }
}

/// A sequence whose neighbours are ordered is sorted outright.
proof fn lemma_gap_one_sorted(s: Seq<i32>)
    requires
        gap_sorted(s, 1),
    ensures
        sorted(s),
{
    assert forall|p: int, q: int| 0 <= p <= q < s.len() implies s[p] <= s[q] by {
        lemma_gap_one_chain(s, p, q);
    }
}

/// The fixed gap sequence of the sort, applied widest first. The final gap
/// of 1 makes the last pass a plain insertion sort, which settles the order;
/// the wider passes only move elements closer to their place.
pub open spec fn gap_sequence() -> Seq<usize> {
    seq![701usize, 301usize, 132usize, 57usize, 23usize, 10usize, 4usize, 1usize]
}

/// There is only one way to arrange given elements in ascending order: two
/// sorted sequences that are permutations of one another are equal. Together
/// with the contract of `shellsort` this determines its result completely.
pub proof fn lemma_sorted_permutation_unique(a: Seq<i32>, b: Seq<i32>)
    requires
        sorted(a),
        sorted(b),
        permutes(a, b),
    ensures
        a == b,
{
    let leq = |x: i32, y: i32| x <= y;
    lemma_sorted_unique(a, b, leq);
    assert(a =~= b);
}

/// Sorting is idempotent: if `once` is the result of sorting `s`, and `twice`
/// the result of sorting `once`, then `twice` is `once` itself.
pub proof fn lemma_sort_idempotent(s: Seq<i32>, once: Seq<i32>, twice: Seq<i32>)
    requires
        sorted(once),
        permutes(once, s),
        sorted(twice),
        permutes(twice, once),
    ensures
        twice == once,
{
    lemma_sorted_permutation_unique(twice, once);
}

/// Sorts the elements into ascending order and returns them as a new vector;
/// the input slice is left untouched. The sort is a gapped insertion sort
/// over the fixed gap sequence 701, 301, 132, 57, 23, 10, 4, 1, applied in
/// that order; gaps at least as large as the input length contribute no work.
#[verifier::loop_isolation(false)]
pub fn shellsort(elems: &[i32]) -> (sorted_elems: Vec<i32>)
    ensures
        permutes(sorted_elems@, elems@),
        sorted(sorted_elems@),
        sorted_elems@.len() == elems@.len(),
{
    let mut sorted_elems = vstd::slice::slice_to_vec(elems);
    let gaps: [usize; 8] = [701, 301, 132, 57, 23, 10, 4, 1];
    assert(gaps@ =~= gap_sequence());

    for gi in 0..8
        invariant
            sorted_elems@.len() == elems@.len(),
            permutes(sorted_elems@, elems@),
            gi == 8 ==> gap_sorted(sorted_elems@, 1),
    {
        let gap = gaps[gi];
        let mut i = gap;
        while i < sorted_elems.len()
            invariant
                1 <= gap <= i,
                sorted_elems@.len() == elems@.len(),
                permutes(sorted_elems@, elems@),
                forall|k: int|
                    gap <= k < i && k < sorted_elems@.len() ==> sorted_elems@[k - gap]
                        <= #[trigger] sorted_elems@[k],
            decreases sorted_elems@.len() - i,
        {
            let temp = sorted_elems[i];
            let mut j = i;
            proof {
                assert(sorted_elems@.update(j as int, temp) =~= sorted_elems@);
            }
            while j >= gap && sorted_elems[j - gap] > temp
                invariant
                    1 <= gap <= i < sorted_elems@.len(),
                    j <= i,
                    sorted_elems@.len() == elems@.len(),
                    permutes(sorted_elems@.update(j as int, temp), elems@),
                    forall|k: int|
                        gap <= k <= i && k != j && k != j + gap ==> sorted_elems@[k - gap]
                            <= #[trigger] sorted_elems@[k],
                    j + gap <= i ==> temp < sorted_elems@[j + gap],
                    j + gap <= i && j >= gap ==> sorted_elems@[j - gap] <= sorted_elems@[j + gap],
                decreases j,
            {
                let ghost before = sorted_elems@;
                let shifted = sorted_elems[j - gap];
                sorted_elems[j] = shifted;
                proof {
                    assert(sorted_elems@.update(j - gap, temp).to_multiset() =~= before.update(
                        j as int,
                        temp,
                    ).to_multiset());
                }
                j -= gap;
            }
            sorted_elems[j] = temp;
            i += 1;
        }
    }
    proof {
        lemma_gap_one_sorted(sorted_elems@);
    }
    sorted_elems
}

} // verus!
