//! Lexicographic order on strings and a stable ordering of items by
//! (rank descending, name ascending).

use vstd::prelude::*;

verus! {

/// Lexicographic "strictly less" on character sequences (code point order;
/// a proper prefix comes first).
pub open spec fn seq_lt(a: Seq<char>, b: Seq<char>) -> bool
    decreases a.len(),
{
    if a.len() == 0 {
        b.len() > 0
    } else if b.len() == 0 {
        false
    } else if a[0] != b[0] {
        a[0] < b[0]
    } else {
        seq_lt(a.drop_first(), b.drop_first())
    }
}

/// `seq_lt` is irreflexive.
pub proof fn lemma_seq_lt_irrefl(a: Seq<char>)
    ensures
        !seq_lt(a, a),
    decreases a.len(),
{
    if a.len() > 0 {
        lemma_seq_lt_irrefl(a.drop_first());
    }
}

/// `seq_lt` is transitive.
pub proof fn lemma_seq_lt_trans(a: Seq<char>, b: Seq<char>, c: Seq<char>)
    requires
        seq_lt(a, b),
        seq_lt(b, c),
    ensures
        seq_lt(a, c),
    decreases a.len(),
{
    if a.len() > 0 && b.len() > 0 && c.len() > 0 && a[0] == b[0] && b[0] == c[0] {
        lemma_seq_lt_trans(a.drop_first(), b.drop_first(), c.drop_first());
    }
}

/// `seq_lt` is total on distinct sequences.
pub proof fn lemma_seq_lt_total(a: Seq<char>, b: Seq<char>)
    requires
        a != b,
    ensures
        seq_lt(a, b) || seq_lt(b, a),
    decreases a.len(),
{
    if a.len() > 0 && b.len() > 0 && a[0] == b[0] {
        if a.drop_first() == b.drop_first() {
            assert(a.len() == b.len()) by {
                assert(a.drop_first().len() == b.drop_first().len());
            }
            assert(a =~= b) by {
                assert forall|i: int| 0 <= i < a.len() implies a[i] == b[i] by {
                    if i > 0 {
                        assert(a[i] == a.drop_first()[i - 1]);
                        assert(b[i] == b.drop_first()[i - 1]);
                    }
                }
            }
        } else {
            lemma_seq_lt_total(a.drop_first(), b.drop_first());
        }
    } else if a.len() == 0 {
        assert(b.len() > 0) by {
            if b.len() == 0 { assert(a =~= b); }
        }
    }
}

/// `seq_lt` is asymmetric.
pub proof fn lemma_seq_lt_asym(a: Seq<char>, b: Seq<char>)
    requires
        seq_lt(a, b),
    ensures
        !seq_lt(b, a),
{
    if seq_lt(b, a) {
        lemma_seq_lt_trans(a, b, a);
        lemma_seq_lt_irrefl(a);
    }
}

/// Lexicographic comparison of two character vectors.
pub fn chars_lt(a: &Vec<char>, b: &Vec<char>) -> (r: bool)
    ensures
        r == seq_lt(a@, b@),
{
    let mut i: usize = 0;
    assert(a@.skip(0) == a@ && b@.skip(0) == b@);
    while i < a.len() && i < b.len()
        invariant
            i <= a.len(),
            i <= b.len(),
            seq_lt(a@, b@) == seq_lt(a@.skip(i as int), b@.skip(i as int)),
        decreases a.len() - i,
    {
        if a[i] != b[i] {
            proof {
                assert(a@.skip(i as int)[0] == a@[i as int]);
                assert(b@.skip(i as int)[0] == b@[i as int]);
            }
            return a[i] < b[i];
        }
        proof {
            assert(a@.skip(i as int).drop_first() == a@.skip(i + 1));
            assert(b@.skip(i as int).drop_first() == b@.skip(i + 1));
        }
        i += 1;
    }
    i < b.len()
}

/// Item `p` comes before item `q`: higher rank first, then smaller name,
/// then earlier position (a strict total order on positions).
pub open spec fn key_before(ranks: Seq<usize>, names: Seq<Seq<char>>, p: int, q: int) -> bool {
    ||| ranks[p] > ranks[q]
    ||| ranks[p] == ranks[q] && seq_lt(names[p], names[q])
    ||| ranks[p] == ranks[q] && names[p] == names[q] && p < q
}

/// `key_before` is transitive.
pub proof fn lemma_key_before_trans(ranks: Seq<usize>, names: Seq<Seq<char>>, p: int, q: int, r: int)
    requires
        key_before(ranks, names, p, q),
        key_before(ranks, names, q, r),
    ensures
        key_before(ranks, names, p, r),
{
    if ranks[p] == ranks[q] && ranks[q] == ranks[r] {
        if seq_lt(names[p], names[q]) && seq_lt(names[q], names[r]) {
            lemma_seq_lt_trans(names[p], names[q], names[r]);
        }
    }
}

/// `key_before` is total on distinct positions and asymmetric.
pub proof fn lemma_key_before_total(ranks: Seq<usize>, names: Seq<Seq<char>>, p: int, q: int)
    requires
        p != q,
    ensures
        key_before(ranks, names, p, q) || key_before(ranks, names, q, p),
        !(key_before(ranks, names, p, q) && key_before(ranks, names, q, p)),
{
    if ranks[p] == ranks[q] && names[p] != names[q] {
        lemma_seq_lt_total(names[p], names[q]);
    }
    if seq_lt(names[p], names[q]) {
        lemma_seq_lt_asym(names[p], names[q]);
    }
    if seq_lt(names[q], names[p]) {
        lemma_seq_lt_asym(names[q], names[p]);
    }
    if names[p] == names[q] {
        lemma_seq_lt_irrefl(names[p]);
    }
}

/// Whether `perm` lists every position of `[0, n)` exactly once, ordered by
/// `key_before`: the stable sort by (rank descending, name ascending).
pub open spec fn is_stable_order(ranks: Seq<usize>, names: Seq<Seq<char>>, perm: Seq<usize>) -> bool {
    &&& perm.len() == ranks.len()
    &&& forall|i: int| 0 <= i < perm.len() ==> #[trigger] perm[i] < ranks.len()
    &&& forall|i: int, j: int| 0 <= i < j < perm.len() ==> key_before(ranks, names, perm[i] as int, perm[j] as int)
}

/// The positions of the items, ordered by rank descending, then name
/// ascending, then position in the input: a stable sort.
pub fn stable_order(ranks: &Vec<usize>, names: &Vec<Vec<char>>) -> (perm: Vec<usize>)
    requires
        ranks.len() == names.len(),
    ensures
        is_stable_order(ranks@, names@.map_values(|v: Vec<char>| v@), perm@),
{
    let ghost nm = names@.map_values(|v: Vec<char>| v@);
    let n = ranks.len();
    let mut perm: Vec<usize> = Vec::new();
    let mut i: usize = 0;
    while i < n
        invariant
            n == ranks.len() == names.len(),
            nm == names@.map_values(|v: Vec<char>| v@),
            i <= n,
            perm.len() == i,
            forall|a: int| 0 <= a < perm.len() ==> #[trigger] perm[a] < i,
            forall|a: int, b: int| 0 <= a < b < perm.len() ==> key_before(ranks@, nm, perm[a] as int, perm[b] as int),
        decreases n - i,
    {
        // find the first slot whose item comes after item i
        let mut k: usize = 0;
        while k < perm.len() && !item_before(ranks, names, i, perm[k])
            invariant
                n == ranks.len() == names.len(),
                nm == names@.map_values(|v: Vec<char>| v@),
                i < n,
                k <= perm.len(),
                forall|a: int| 0 <= a < perm.len() ==> #[trigger] perm[a] < i,
                forall|a: int| 0 <= a < k ==> key_before(ranks@, nm, perm[a] as int, i as int),
            decreases perm.len() - k,
        {
            proof {
                lemma_key_before_total(ranks@, nm, i as int, perm[k as int] as int);
            }
            k += 1;
        }
        let ghost old_perm = perm@;
        perm.insert(k, i);
        proof {
            assert forall|a: int, b: int| 0 <= a < b < perm.len() implies key_before(ranks@, nm, perm[a] as int, perm[b] as int) by {
                if b < k {
                    assert(perm[a] == old_perm[a] && perm[b] == old_perm[b]);
                } else if b == k {
                    assert(perm[a] == old_perm[a]);
                } else if a == k {
                    assert(perm[b] == old_perm[b - 1]);
                    assert(key_before(ranks@, nm, i as int, old_perm[k as int] as int));
                    if b - 1 > k {
                        lemma_key_before_trans(ranks@, nm, i as int, old_perm[k as int] as int, old_perm[b - 1] as int);
                    }
                } else if a < k {
                    assert(perm[a] == old_perm[a] && perm[b] == old_perm[b - 1]);
                } else {
                    assert(perm[a] == old_perm[a - 1] && perm[b] == old_perm[b - 1]);
                }
            }
            assert forall|a: int| 0 <= a < perm.len() implies #[trigger] perm[a] < i + 1 by {
                if a < k {
                    assert(perm[a] == old_perm[a]);
                } else if a > k {
                    assert(perm[a] == old_perm[a - 1]);
                }
            }
        }
        i += 1;
    }
    perm
}

/// Whether item `p` comes before item `q`.
fn item_before(ranks: &Vec<usize>, names: &Vec<Vec<char>>, p: usize, q: usize) -> (r: bool)
    requires
        ranks.len() == names.len(),
        p < ranks.len(),
        q < ranks.len(),
    ensures
        r == key_before(ranks@, names@.map_values(|v: Vec<char>| v@), p as int, q as int),
{
    let ghost nm = names@.map_values(|v: Vec<char>| v@);
    assert(nm[p as int] == names@[p as int]@ && nm[q as int] == names@[q as int]@);
    if ranks[p] != ranks[q] {
        return ranks[p] > ranks[q];
    }
    if chars_lt(&names[p], &names[q]) {
        return true;
    }
    if chars_lt(&names[q], &names[p]) {
        proof { lemma_seq_lt_asym(nm[q as int], nm[p as int]); }
        return false;
    }
    proof {
        if nm[p as int] != nm[q as int] {
            lemma_seq_lt_total(nm[p as int], nm[q as int]);
        }
    }
    p < q
}


/// No item comes before itself.
pub proof fn lemma_key_before_irrefl(ranks: Seq<usize>, names: Seq<Seq<char>>, p: int)
    ensures
        !key_before(ranks, names, p, p),
{
    lemma_seq_lt_irrefl(names[p]);
}

/// The stable order of a list of items is unique.
pub proof fn lemma_stable_order_unique(ranks: Seq<usize>, names: Seq<Seq<char>>, p1: Seq<usize>, p2: Seq<usize>)
    requires
        is_stable_order(ranks, names, p1),
        is_stable_order(ranks, names, p2),
    ensures
        p1 == p2,
{
    let n = ranks.len();
    assert forall|i: int, j: int| 0 <= i < j < p1.len() implies p1[i] != p1[j] by {
        lemma_key_before_irrefl(ranks, names, p1[i] as int);
    }
    assert forall|i: int, j: int| 0 <= i < j < p2.len() implies p2[i] != p2[j] by {
        lemma_key_before_irrefl(ranks, names, p2[i] as int);
    }
    let i1 = p1.map_values(|x: usize| x as int);
    let i2 = p2.map_values(|x: usize| x as int);
    assert(i1.no_duplicates()) by {
        assert forall|a: int, b: int| 0 <= a < i1.len() && 0 <= b < i1.len() && a != b implies i1[a] != i1[b] by {
            if a < b { assert(p1[a] != p1[b]); } else { assert(p1[b] != p1[a]); }
        }
    }
    assert(i2.no_duplicates()) by {
        assert forall|a: int, b: int| 0 <= a < i2.len() && 0 <= b < i2.len() && a != b implies i2[a] != i2[b] by {
            if a < b { assert(p2[a] != p2[b]); } else { assert(p2[b] != p2[a]); }
        }
    }
    crate::counting::lemma_distinct_below(i1, n as int);
    crate::counting::lemma_distinct_below(i2, n as int);
    assert forall|v: usize| v < n implies #[trigger] p1.contains(v) by {
        assert(i1.contains(v as int));
        let j = choose|j: int| 0 <= j < i1.len() && i1[j] == v as int;
        assert(p1[j] == v);
    }
    assert forall|v: usize| v < n implies #[trigger] p2.contains(v) by {
        assert(i2.contains(v as int));
        let j = choose|j: int| 0 <= j < i2.len() && i2[j] == v as int;
        assert(p2[j] == v);
    }
    lemma_prefix_equal(ranks, names, p1, p2, n as nat);
    assert(p1 =~= p2);
}

proof fn lemma_prefix_equal(ranks: Seq<usize>, names: Seq<Seq<char>>, p1: Seq<usize>, p2: Seq<usize>, k: nat)
    requires
        is_stable_order(ranks, names, p1),
        is_stable_order(ranks, names, p2),
        k <= ranks.len(),
        forall|i: int, j: int| 0 <= i < j < p1.len() ==> p1[i] != p1[j],
        forall|i: int, j: int| 0 <= i < j < p2.len() ==> p2[i] != p2[j],
        forall|v: usize| v < ranks.len() ==> #[trigger] p1.contains(v),
        forall|v: usize| v < ranks.len() ==> #[trigger] p2.contains(v),
    ensures
        forall|i: int| 0 <= i < k ==> p1[i] == p2[i],
    decreases k,
{
    if k > 0 {
        lemma_prefix_equal(ranks, names, p1, p2, (k - 1) as nat);
        let i = k - 1;
        let a = p1[i];
        let b = p2[i];
        if a != b {
            assert(p2.contains(a));
            let j = choose|j: int| 0 <= j < p2.len() && p2[j] == a;
            assert(p1.contains(b));
            let j2 = choose|j2: int| 0 <= j2 < p1.len() && p1[j2] == b;
            if j < i {
                assert(p1[j] == a);
            } else if j2 < i {
                assert(p2[j2] == b);
            } else {
                assert(key_before(ranks, names, b as int, a as int));
                assert(key_before(ranks, names, a as int, b as int));
                lemma_key_before_total(ranks, names, a as int, b as int);
            }
        }
    }
}

/// The stable order of the items, as a mathematical sequence.
pub open spec fn stable_sorted(ranks: Seq<usize>, names: Seq<Seq<char>>) -> Seq<usize> {
    choose|perm: Seq<usize>| is_stable_order(ranks, names, perm)
}

/// A computed stable order is the stable order.
pub proof fn lemma_is_stable_sorted(ranks: Seq<usize>, names: Seq<Seq<char>>, perm: Seq<usize>)
    requires
        is_stable_order(ranks, names, perm),
    ensures
        stable_sorted(ranks, names) == perm,
{
    lemma_stable_order_unique(ranks, names, stable_sorted(ranks, names), perm);
}

/// Whether the positions in `p` ascend by `key_before`.
pub open spec fn key_sorted(ranks: Seq<usize>, names: Seq<Seq<char>>, p: Seq<usize>) -> bool {
    forall|i: int, j: int| 0 <= i < j < p.len() ==> key_before(ranks, names, p[i] as int, p[j] as int)
}

/// `p` with `x` inserted before the first position it goes before.
pub open spec fn insert_key(ranks: Seq<usize>, names: Seq<Seq<char>>, p: Seq<usize>, x: usize) -> Seq<usize>
    decreases p.len(),
{
    if p.len() == 0 {
        seq![x]
    } else if key_before(ranks, names, p.last() as int, x as int) {
        p.push(x)
    } else {
        insert_key(ranks, names, p.drop_last(), x).push(p.last())
    }
}

/// The positions `0..k` sorted by insertion.
pub open spec fn insertion_sorted(ranks: Seq<usize>, names: Seq<Seq<char>>, k: nat) -> Seq<usize>
    decreases k,
{
    if k == 0 {
        Seq::empty()
    } else {
        insert_key(ranks, names, insertion_sorted(ranks, names, (k - 1) as nat), (k - 1) as usize)
    }
}

/// Inserting a new position keeps the order and adds just that position.
proof fn lemma_insert_key(ranks: Seq<usize>, names: Seq<Seq<char>>, p: Seq<usize>, x: usize)
    requires
        key_sorted(ranks, names, p),
        !p.contains(x),
    ensures
        key_sorted(ranks, names, insert_key(ranks, names, p, x)),
        insert_key(ranks, names, p, x).len() == p.len() + 1,
        forall|y: usize| #[trigger] insert_key(ranks, names, p, x).contains(y) <==> (p.contains(y) || y == x),
    decreases p.len(),
{
    let r = insert_key(ranks, names, p, x);
    if p.len() == 0 {
        assert(r == seq![x]);
        assert forall|y: usize| #[trigger] r.contains(y) <==> (p.contains(y) || y == x) by {
            if r.contains(y) {
                let j = choose|j: int| 0 <= j < r.len() && r[j] == y;
            }
            if y == x {
                assert(r[0] == x);
            }
        }
    } else {
        let l = p.last();
        let d = p.drop_last();
        if key_before(ranks, names, l as int, x as int) {
            assert forall|i: int, j: int| 0 <= i < j < r.len() implies key_before(ranks, names, r[i] as int, r[j] as int) by {
                if j == p.len() && i < p.len() - 1 {
                    lemma_key_before_trans(ranks, names, p[i] as int, l as int, x as int);
                }
            }
            assert forall|y: usize| #[trigger] r.contains(y) <==> (p.contains(y) || y == x) by {
                if r.contains(y) {
                    let j = choose|j: int| 0 <= j < r.len() && r[j] == y;
                    if j < p.len() { assert(p[j] == y); }
                }
                if p.contains(y) {
                    let j = choose|j: int| 0 <= j < p.len() && p[j] == y;
                    assert(r[j] == y);
                }
                if y == x {
                    assert(r[p.len() as int] == x);
                }
            }
        } else {
            assert(key_sorted(ranks, names, d)) by {
                assert forall|i: int, j: int| 0 <= i < j < d.len() implies key_before(ranks, names, d[i] as int, d[j] as int) by {
                    assert(d[i] == p[i] && d[j] == p[j]);
                }
            }
            assert(!d.contains(x)) by {
                if d.contains(x) {
                    let j = choose|j: int| 0 <= j < d.len() && d[j] == x;
                    assert(p[j] == x);
                }
            }
            lemma_insert_key(ranks, names, d, x);
            let q = insert_key(ranks, names, d, x);
            assert(r == q.push(l));
            assert(x != l) by {
                assert(p[p.len() - 1] == l);
            }
            lemma_key_before_total(ranks, names, x as int, l as int);
            assert forall|i: int, j: int| 0 <= i < j < r.len() implies key_before(ranks, names, r[i] as int, r[j] as int) by {
                if j == q.len() {
                    assert(r[j] == l);
                    assert(r[i] == q[i]);
                    assert(q.contains(q[i]));
                    if q[i] != x {
                        assert(d.contains(q[i]));
                        let m = choose|m: int| 0 <= m < d.len() && d[m] == q[i];
                        assert(p[m] == d[m]);
                        assert(p[p.len() - 1] == l);
                    }
                } else {
                    assert(r[i] == q[i] && r[j] == q[j]);
                }
            }
            assert forall|y: usize| #[trigger] r.contains(y) <==> (p.contains(y) || y == x) by {
                if r.contains(y) {
                    let j = choose|j: int| 0 <= j < r.len() && r[j] == y;
                    if j < q.len() {
                        assert(q[j] == y);
                        assert(q.contains(y));
                        if d.contains(y) {
                            let m = choose|m: int| 0 <= m < d.len() && d[m] == y;
                            assert(p[m] == y);
                        }
                    } else {
                        assert(p[p.len() - 1] == y);
                    }
                }
                if p.contains(y) {
                    let j = choose|j: int| 0 <= j < p.len() && p[j] == y;
                    if j < p.len() - 1 {
                        assert(d[j] == y);
                        assert(q.contains(y));
                        let m = choose|m: int| 0 <= m < q.len() && q[m] == y;
                        assert(r[m] == y);
                    } else {
                        assert(r[q.len() as int] == y);
                    }
                }
                if y == x {
                    assert(q.contains(x));
                    let m = choose|m: int| 0 <= m < q.len() && q[m] == x;
                    assert(r[m] == x);
                }
            }
        }
    }
}

/// Insertion sorting gives an ordered list of exactly the positions `0..k`.
proof fn lemma_insertion_sorted(ranks: Seq<usize>, names: Seq<Seq<char>>, k: nat)
    requires
        k <= usize::MAX,
    ensures
        key_sorted(ranks, names, insertion_sorted(ranks, names, k)),
        insertion_sorted(ranks, names, k).len() == k,
        forall|y: usize| #[trigger] insertion_sorted(ranks, names, k).contains(y) <==> y < k,
    decreases k,
{
    if k > 0 {
        let p = insertion_sorted(ranks, names, (k - 1) as nat);
        lemma_insertion_sorted(ranks, names, (k - 1) as nat);
        let x = (k - 1) as usize;
        assert(!p.contains(x));
        lemma_insert_key(ranks, names, p, x);
    }
}

/// A stable order exists for any ranked, named positions, so the chosen
/// one is a stable order.
pub proof fn lemma_stable_sorted_ok(ranks: Seq<usize>, names: Seq<Seq<char>>)
    requires
        ranks.len() <= usize::MAX,
    ensures
        is_stable_order(ranks, names, stable_sorted(ranks, names)),
{
    let p = insertion_sorted(ranks, names, ranks.len());
    lemma_insertion_sorted(ranks, names, ranks.len());
    assert forall|i: int| 0 <= i < p.len() implies #[trigger] p[i] < ranks.len() by {
        assert(p.contains(p[i]));
    }
    assert(is_stable_order(ranks, names, p));
}

} // verus!
