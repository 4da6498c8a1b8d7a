//! Counting facts about sequences of distinct bounded values.

use vstd::prelude::*;
use vstd::set_lib::{lemma_int_range, lemma_len_subset, lemma_subset_equality, set_int_range};

verus! {

/// Distinct values in `[0, n)` number at most `n`; exactly `n` of them
/// cover every value in `[0, n)`.
pub proof fn lemma_distinct_below(s: Seq<int>, n: int)
    requires
        0 <= n,
        s.no_duplicates(),
        forall|i: int| 0 <= i < s.len() ==> 0 <= #[trigger] s[i] < n,
    ensures
        s.len() <= n,
        s.len() == n ==> forall|v: int| 0 <= v < n ==> s.contains(v),
{
    s.unique_seq_to_set();
    lemma_int_range(0, n);
    let r = set_int_range(0, n);
    assert(s.to_set().subset_of(r)) by {
        assert forall|v: int| s.to_set().contains(v) implies r.contains(v) by {
            let i = choose|i: int| 0 <= i < s.len() && s[i] == v;
        }
    }
    lemma_len_subset(s.to_set(), r);
    if s.len() == n {
        lemma_subset_equality(s.to_set(), r);
        assert forall|v: int| 0 <= v < n implies s.contains(v) by {
            assert(r.contains(v));
            assert(s.to_set().contains(v));
        }
    }
}

/// `u32` values as integers.
pub open spec fn ints(s: Seq<u32>) -> Seq<int> {
    s.map_values(|x: u32| x as int)
}

/// Distinct `u32` values below `n` number at most `n`.
pub proof fn lemma_distinct_u32_below(s: Seq<u32>, n: int)
    requires
        0 <= n,
        forall|i: int, j: int| 0 <= i < j < s.len() ==> s[i] != s[j],
        forall|i: int| 0 <= i < s.len() ==> s[i] < n,
    ensures
        s.len() <= n,
        s.len() == n ==> forall|v: u32| v < n ==> #[trigger] s.contains(v),
{
    let t = ints(s);
    assert(t.no_duplicates()) by {
        assert forall|i: int, j: int| 0 <= i < t.len() && 0 <= j < t.len() && i != j implies t[i] != t[j] by {
            if i < j { assert(s[i] != s[j]); } else { assert(s[j] != s[i]); }
        }
    }
    lemma_distinct_below(t, n);
    if s.len() == n {
        assert forall|v: u32| v < n implies #[trigger] s.contains(v) by {
            assert(t.contains(v as int));
            let i = choose|i: int| 0 <= i < t.len() && t[i] == v as int;
            assert(s[i] == v);
        }
    }
}

} // verus!
