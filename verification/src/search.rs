//! Text search over the package index: a case-insensitive substring of the
//! name, the attribute path, the start of the synopsis or the description.
//! Hits whose name matches rank first; within a rank hits come by id.

use vstd::prelude::*;

use crate::index::{Index, SYN_LIMIT};
use crate::options::{contains_seq, lowercase, str_contains, to_lower};
use crate::ui::{first_chars, take_chars};

verus! {

/// Whether the lowercased name of package `id` holds the lowercased query `q`.
pub open spec fn name_hit(index: &Index, id: int, q: Seq<char>) -> bool {
    contains_seq(lowercase(index.packages[id].name@), q)
}

/// Whether the lowercased attribute path, the lowercased first `SYN_LIMIT`
/// characters of the synopsis, or the lowercased description of package
/// `id` holds `q`.
pub open spec fn other_hit(index: &Index, id: int, q: Seq<char>) -> bool {
    let p = index.packages[id];
    ||| contains_seq(lowercase(p.attribute@), q)
    ||| contains_seq(lowercase(first_chars(p.synopsis@, SYN_LIMIT as nat)), q)
    ||| contains_seq(lowercase(p.description@), q)
}

/// Whether package `id` is a hit of rank `tier`: 0 when its name matches,
/// 1 when only another field does.
pub open spec fn tier_hit(index: &Index, id: int, q: Seq<char>, tier: nat) -> bool {
    if tier == 0 { name_hit(index, id, q) } else { !name_hit(index, id, q) && other_hit(index, id, q) }
}

/// The ids below `k` that are hits of rank `tier`, ascending.
pub open spec fn tier_ids(index: &Index, q: Seq<char>, k: nat, tier: nat) -> Seq<u32>
    decreases k,
{
    if k == 0 {
        Seq::empty()
    } else {
        let prev = tier_ids(index, q, (k - 1) as nat, tier);
        if tier_hit(index, k - 1, q, tier) { prev.push((k - 1) as u32) } else { prev }
    }
}

/// `s` cut to at most `c` items.
pub open spec fn cut(s: Seq<u32>, c: nat) -> Seq<u32> {
    if s.len() <= c { s } else { s.take(c as int) }
}

/// The hits of `query`, at most `limit` of them: every package by id when
/// the lowercased query is empty; else the packages whose name matches,
/// then those where only the attribute path, synopsis or description
/// matches, each group by id.
pub open spec fn search_spec(index: &Index, query: Seq<char>, limit: usize) -> Seq<u32> {
    let q = lowercase(query);
    let n = index.packages.len() as nat;
    let all = if q.len() == 0 {
        Seq::new(n, |i: int| i as u32)
    } else {
        tier_ids(index, q, n, 0) + tier_ids(index, q, n, 1)
    };
    cut(all, limit as nat)
}

/// The hits below `k` are a prefix of the hits below `m >= k`.
proof fn lemma_prefix_of_hits(index: &Index, q: Seq<char>, k: nat, m: nat, tier: nat)
    requires
        k <= m,
    ensures
        tier_ids(index, q, m, tier).len() >= tier_ids(index, q, k, tier).len(),
        tier_ids(index, q, m, tier).take(tier_ids(index, q, k, tier).len() as int) == tier_ids(index, q, k, tier),
    decreases m - k,
{
    if k < m {
        lemma_prefix_of_hits(index, q, k, (m - 1) as nat, tier);
        let a = tier_ids(index, q, (m - 1) as nat, tier);
        let b = tier_ids(index, q, m, tier);
        let c = tier_ids(index, q, k, tier);
        if tier_hit(index, m - 1, q, tier) {
            assert(b.take(c.len() as int) == a.take(c.len() as int));
        }
    } else {
        assert(tier_ids(index, q, m, tier).take(tier_ids(index, q, m, tier).len() as int) == tier_ids(index, q, m, tier));
    }
}

/// Whether package `k` is a hit of rank `tier` for the lowercased query `q`.
fn is_tier_hit(index: &Index, k: usize, q: &String, tier: u8) -> (b: bool)
    requires
        index.wf(),
        k < index.packages.len(),
    ensures
        b == tier_hit(index, k as int, q@, tier as nat),
{
    let p = &index.packages[k];
    let name = to_lower(p.name.as_str());
    let by_name = str_contains(name.as_str(), q.as_str());
    if tier == 0 {
        return by_name;
    }
    if by_name {
        return false;
    }
    let attr = to_lower(p.attribute.as_str());
    let syn = take_chars(p.synopsis.as_str(), SYN_LIMIT);
    let syn_l = to_lower(syn.as_str());
    let desc = to_lower(p.description.as_str());
    str_contains(attr.as_str(), q.as_str()) || str_contains(syn_l.as_str(), q.as_str())
        || str_contains(desc.as_str(), q.as_str())
}

/// Appends the hits of rank `tier` to `r` by id, stopping at `limit`.
fn collect_tier(index: &Index, q: &String, tier: u8, r: &mut Vec<u32>, limit: usize)
    requires
        index.wf(),
        old(r).len() <= limit,
        tier <= 1,
    ensures
        final(r)@ == cut(old(r)@ + tier_ids(index, q@, index.packages.len() as nat, tier as nat), limit as nat),
{
    let n = index.packages.len();
    let ghost start = r@;
    let ghost all = tier_ids(index, q@, n as nat, tier as nat);
    let mut k: usize = 0;
    while k < n && r.len() < limit
        invariant
            index.wf(),
            n == index.packages.len() <= 0x1_0000_0000,
            all == tier_ids(index, q@, n as nat, tier as nat),
            k <= n,
            r@ == start + tier_ids(index, q@, k as nat, tier as nat),
            r.len() <= limit,
            start.len() <= limit,
            tier <= 1,
        decreases n - k,
    {
        if is_tier_hit(index, k, q, tier) {
            r.push(k as u32);
        }
        k += 1;
    }
    proof {
        lemma_prefix_of_hits(index, q@, k as nat, n as nat, tier as nat);
        let t = tier_ids(index, q@, k as nat, tier as nat);
        if k == n {
            assert(r@ == start + all);
        } else {
            assert(r.len() == limit);
            assert((start + all).take(limit as int) =~= start + t) by {
                assert(all.take(t.len() as int) == t);
                assert forall|i: int| 0 <= i < limit implies (start + all).take(limit as int)[i] == (start + t)[i] by {
                    if i >= start.len() {
                        assert(all[i - start.len()] == all.take(t.len() as int)[i - start.len()]);
                    }
                }
            }
        }
    }
}

/// Search the index for `query`, returning at most `limit` package ids.
pub fn search(index: &Index, query: &str, limit: usize) -> (r: Vec<u32>)
    requires
        index.wf(),
    ensures
        r@ == search_spec(index, query@, limit),
{
    let q = to_lower(query);
    let n = index.packages.len();
    let mut r: Vec<u32> = Vec::new();
    if q.as_str().is_empty() {
        let mut k: usize = 0;
        while k < n && r.len() < limit
            invariant
                n == index.packages.len() <= 0x1_0000_0000,
                k <= n,
                r@ == Seq::new(k as nat, |i: int| i as u32),
                r.len() <= limit,
            decreases n - k,
        {
            r.push(k as u32);
            assert(Seq::new((k + 1) as nat, |i: int| i as u32) =~= Seq::new(k as nat, |i: int| i as u32).push(k as u32));
            k += 1;
        }
        proof {
            if k < n {
                assert(Seq::new(n as nat, |i: int| i as u32).take(limit as int) =~= r@);
            }
        }
        return r;
    }
    collect_tier(index, &q, 0, &mut r, limit);
    let ghost a = tier_ids(index, q@, n as nat, 0);
    let ghost b = tier_ids(index, q@, n as nat, 1);
    assert(Seq::<u32>::empty() + a == a);
    if r.len() < limit {
        assert(r@ == a);
        collect_tier(index, &q, 1, &mut r, limit);
    } else {
        proof {
            assert(cut(a + b, limit as nat) =~= r@);
        }
    }
    r
}

} // verus!
