//! Sorting of sample series.
//!
//! The statistics in this crate are defined over a series arranged in
//! ascending order; `sort_values` produces that arrangement without
//! touching the caller's data.

use vstd::prelude::*;

verus! {

/// A sequence arranged in ascending order.
pub open spec fn sorted(s: Seq<i128>) -> bool {
    forall|i: int, j: int| 0 <= i < j < s.len() ==> s[i] <= s[j]
}

/// The ascending arrangement of a sequence: the unique sorted sequence
/// holding the same values with the same multiplicities.
pub open spec fn sorted_of(s: Seq<i128>) -> Seq<i128> {
    s.sort_by(|a: i128, b: i128| a <= b)
}

/// The ascending arrangement of any sequence is sorted, keeps the
/// values, and keeps the length.
pub proof fn lemma_sorted_of_sorted(s: Seq<i128>)
    ensures
        sorted(sorted_of(s)),
        sorted_of(s).to_multiset() == s.to_multiset(),
        sorted_of(s).len() == s.len(),
{
    let leq = |a: i128, b: i128| a <= b;
    assert(vstd::relations::total_ordering(leq));
    s.lemma_sort_by_ensures(leq);
    assert forall|i: int, j: int|
        0 <= i < j < sorted_of(s).len() implies sorted_of(s)[i] <= sorted_of(s)[j] by {
        assert(vstd::relations::sorted_by(sorted_of(s), leq));
        assert(leq(sorted_of(s)[i], sorted_of(s)[j]));
    }
    broadcast use vstd::seq_lib::group_to_multiset_ensures;
    assert(sorted_of(s).to_multiset() =~= s.to_multiset());
    assert(sorted_of(s).to_multiset().len() == s.to_multiset().len());
}

/// `sorted_of` is itself sorted, keeps the values, and is the only such
/// arrangement: any sorted sequence with the multiset of `s` is it.
pub proof fn lemma_sorted_of(s: Seq<i128>, r: Seq<i128>)
    requires
        sorted(r),
        r.to_multiset() == s.to_multiset(),
    ensures
        r == sorted_of(s),
        sorted(sorted_of(s)),
        sorted_of(s).to_multiset() == s.to_multiset(),
        sorted_of(s).len() == s.len(),
{
    let leq = |a: i128, b: i128| a <= b;
    assert(vstd::relations::total_ordering(leq));
    s.lemma_sort_by_ensures(leq);
    assert(vstd::relations::sorted_by(r, leq));
    vstd::seq_lib::lemma_sorted_unique(r, s.sort_by(leq), leq);
    assert(r =~= sorted_of(s));
    assert(sorted(sorted_of(s)));
    broadcast use vstd::seq_lib::group_to_multiset_ensures;
    assert(sorted_of(s).to_multiset().len() == s.to_multiset().len());
}

/// Returns a copy of `data` arranged in ascending order: the result is
/// sorted and holds exactly the values of `data`, multiplicity included.
pub fn sort_values(data: &Vec<i128>) -> (r: Vec<i128>)
    ensures
        r@ == sorted_of(data@),
        sorted(r@),
        r@.to_multiset() == data@.to_multiset(),
        r@.len() == data@.len(),
{
    broadcast use vstd::seq_lib::to_multiset_update;
    broadcast use vstd::seq_lib::group_to_multiset_ensures;
    broadcast use vstd::multiset::group_multiset_properties;

    let mut r: Vec<i128> = Vec::new();
    let mut i: usize = 0;
    while i < data.len()
        invariant
            i <= data.len(),
            r@ == data@.take(i as int),
        decreases data.len() - i,
    {
        r.push(data[i]);
        i = i + 1;
    }
    assert(r@ == data@);

    let n = r.len();
    let mut i: usize = 0;
    while i < n
        invariant
            n == r.len() == data.len(),
            i <= n,
            sorted(r@.take(i as int)),
            r@.to_multiset() == data@.to_multiset(),
        decreases n - i,
    {
        let mut j: usize = i;
        proof {
            assert forall|a: int, b: int| 0 <= a < b <= i && b != j implies r@[a] <= r@[b] by {
                assert(r@.take(i as int)[a] == r@[a]);
                assert(r@.take(i as int)[b] == r@[b]);
            }
        }
        while j > 0 && r[j - 1] > r[j]
            invariant
                n == r.len() == data.len(),
                j <= i < n,
                r@.to_multiset() == data@.to_multiset(),
                forall|a: int, b: int| 0 <= a < b <= i && b != j ==> r@[a] <= r@[b],
            decreases j,
        {
            let lo = r[j - 1];
            let hi = r[j];
            let ghost before = r@;
            r[j - 1] = hi;
            r[j] = lo;
            proof {
                let s1 = before.update(j - 1, hi);
                assert(r@ == s1.update(j as int, lo));
                vstd::seq_lib::to_multiset_update(before, j - 1, hi);
                vstd::seq_lib::to_multiset_update(s1, j as int, lo);
                assert(s1.to_multiset() == before.to_multiset().insert(hi).remove(lo));
                assert(s1[j as int] == hi);
                assert(r@.to_multiset() == s1.to_multiset().insert(lo).remove(hi));
                assert(before.contains(lo) && before.contains(hi));
                vstd::seq_lib::to_multiset_contains(before, lo);
                vstd::seq_lib::to_multiset_contains(before, hi);
                assert(before.to_multiset().count(lo) > 0);
                assert(before.to_multiset().count(hi) > 0);
                assert(r@.to_multiset() =~= before.to_multiset());
                assert(r@.to_multiset() =~= data@.to_multiset());
                assert forall|a: int, b: int|
                    0 <= a < b <= i && b != j - 1 implies r@[a] <= r@[b] by {
                    if a == j - 1 {
                        assert(before[j as int] <= before[b]);
                    } else if a == j as int {
                        assert(before[j - 1] <= before[b]);
                    } else if b == j as int {
                        assert(before[a] <= before[j - 1]);
                    }
                }
            }
            j = j - 1;
        }
        proof {
            assert forall|a: int, b: int| 0 <= a < b <= i implies r@[a] <= r@[b] by {
                if b == j && j > 0 && a < j - 1 {
                    assert(r@[a] <= r@[j - 1]);
                }
            }
            assert forall|a: int, b: int|
                0 <= a < b < i + 1 implies #[trigger] r@.take(i as int + 1)[a]
                    <= #[trigger] r@.take(i as int + 1)[b] by {
                assert(r@.take(i as int + 1)[a] == r@[a]);
                assert(r@.take(i as int + 1)[b] == r@[b]);
            }
        }
        i = i + 1;
    }
    proof {
        assert(r@.take(n as int) == r@);
        lemma_sorted_of(data@, r@);
    }
    r
}

/// Filtering one more element keeps the filtered prefix and appends the
/// element exactly when it satisfies the predicate.
pub proof fn lemma_filter_take_step(s: Seq<i128>, pred: spec_fn(i128) -> bool, i: int)
    requires
        0 <= i < s.len(),
    ensures
        s.take(i + 1).filter(pred) == if pred(s[i]) {
            s.take(i).filter(pred).push(s[i])
        } else {
            s.take(i).filter(pred)
        },
{
    reveal_with_fuel(Seq::<_>::filter, 2);
    assert(s.take(i + 1).drop_last() =~= s.take(i));
    assert(s.take(i + 1).last() == s[i]);
    assert(s.take(i + 1).len() == i + 1 > 0);
}

} // verus!
