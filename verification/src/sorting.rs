//! Verified ascending sort for the per-iteration totals.

use vstd::prelude::*;
use vstd::seq_lib::lemma_multiset_commutative;

verus! {

/// A sequence is sorted in non-decreasing order.
pub open spec fn sorted_asc(s: Seq<i64>) -> bool {
    forall|i: int, j: int| 0 <= i <= j < s.len() ==> s[i] <= s[j]
}

/// Inserting an element anywhere in a sequence adds exactly that element to
/// its multiset.
proof fn lemma_insert_to_multiset(s: Seq<i64>, p: int, x: i64)
    requires
        0 <= p <= s.len(),
    ensures
        s.insert(p, x).to_multiset() =~= s.to_multiset().insert(x),
{
    broadcast use vstd::seq_lib::group_to_multiset_ensures;
    broadcast use vstd::multiset::group_multiset_axioms;

    let front = s.subrange(0, p);
    let back = s.subrange(p, s.len() as int);
    assert(s =~= front + back);
    lemma_multiset_commutative(front, back);
    lemma_multiset_commutative(front.push(x), back);
    assert(front.push(x).to_multiset() =~= front.to_multiset().insert(x));
}

/// Sorts the totals ascending. The result is a permutation of the input:
/// it holds exactly the input's elements, with multiplicity.
pub fn sort_i64(v: &mut Vec<i64>)
    ensures
        sorted_asc(final(v)@),
        final(v)@.to_multiset() == old(v)@.to_multiset(),
        final(v)@.len() == old(v)@.len(),
{
    let ghost orig = v@;
    let mut out: Vec<i64> = Vec::new();
    let mut idx: usize = 0;
    proof {
        broadcast use vstd::seq_lib::group_to_multiset_ensures;

        assert(orig.subrange(0, 0) =~= Seq::<i64>::empty());
        assert(out@.to_multiset() =~= orig.subrange(0, 0).to_multiset());
    }
    while idx < v.len()
        invariant
            idx <= v@.len(),
            v@ == orig,
            sorted_asc(out@),
            out@.len() == idx,
            out@.to_multiset() == orig.subrange(0, idx as int).to_multiset(),
        decreases v@.len() - idx,
    {
        let x = v[idx];
        let ghost before = out@;
        let mut p: usize = out.len();
        while p > 0 && out[p - 1] > x
            invariant
                p <= out@.len(),
                out@ == before,
                forall|k: int| p <= k < out@.len() ==> out@[k] > x,
            decreases p,
        {
            p -= 1;
        }
        proof {
            broadcast use vstd::seq_lib::group_to_multiset_ensures;

            lemma_insert_to_multiset(before, p as int, x);
            assert(orig.subrange(0, idx as int + 1) =~= orig.subrange(0, idx as int).push(
                orig[idx as int],
            ));
            before.insert_ensures(p as int, x);
        }
        out.insert(p, x);
        proof {
            assert forall|i: int, j: int| 0 <= i <= j < out@.len() implies out@[i]
                <= out@[j] by {
                if p > 0 {
                    assert(before[p - 1] <= x);
                }
            };
        }
        idx += 1;
    }
    proof {
        assert(orig.subrange(0, orig.len() as int) =~= orig);
    }
    *v = out;
}

} // verus!
