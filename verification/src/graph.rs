//! Dependency graph view: budgeted BFS extraction of a subgraph around a
//! root package, plus the deterministic pseudo-random source used by the
//! force-directed layout.

use std::collections::HashMap;

use vstd::prelude::*;

use crate::index::{BfsNode, DepKind, Index, Package};
use crate::order::{is_stable_order, stable_order};
use crate::text::chars_of;

verus! {

broadcast use vstd::std_specs::hash::group_hash_axioms;

/// Maximum nodes materialized in the graph view.
pub const NODE_BUDGET: usize = 200;
/// Maximum edges materialized in the graph view.
pub const EDGE_BUDGET: usize = 3000;
/// Default BFS depth for the graph view.
pub const DEFAULT_DEPTH: u8 = 2;
/// Reverse-direction discovery cap (nodes considered before top-N selection).
pub const REVERSE_DISCOVERY_CAP: usize = 4000;

/// Which direction the graph projection follows.
#[derive(Debug, Clone, Copy, PartialEq, Eq, Structural)]
pub enum Dir {
    /// Forward: the package's dependencies.
    Deps,
    /// Reverse: the package's dependents.
    Dependents,
}

/// A budgeted subgraph extracted from the index. `nodes[0]` is always the root.
#[derive(Debug)]
pub struct Projection {
    pub nodes: Vec<u32>,
    /// Edges as indices into `nodes`, from a dependent to its dependency.
    pub edges: Vec<(u16, u16)>,
    /// Nodes discovered beyond the budget (not materialized).
    pub truncated: usize,
    pub depth_of: Vec<u8>,
    pub kind_of: Vec<Option<DepKind>>,
}

/// Clamp a depth delta against the valid graph depth range `1..=8`.
pub fn clamp_depth(cur: u8, delta: i8) -> (r: u8)
    ensures
        r == (if cur + delta < 1 { 1 } else if cur + delta > 8 { 8 } else { cur + delta }),
{
    let v: i16 = cur as i16 + delta as i16;
    if v < 1 {
        1
    } else if v > 8 {
        8
    } else {
        v as u8
    }
}

/// The last position of `d` in `nodes`.
pub open spec fn last_pos(nodes: Seq<u32>, d: u32) -> Option<int>
    decreases nodes.len(),
{
    if nodes.len() == 0 {
        None
    } else if nodes.last() == d {
        Some(nodes.len() - 1)
    } else {
        last_pos(nodes.drop_last(), d)
    }
}

/// The links from node `i` along the dependency edges `ds` that land on a
/// materialized node.
pub open spec fn links(nodes: Seq<u32>, i: int, ds: Seq<(u32, DepKind)>) -> Seq<(u16, u16)>
    decreases ds.len(),
{
    if ds.len() == 0 {
        Seq::empty()
    } else {
        let r = links(nodes, i, ds.drop_last());
        match last_pos(nodes, ds.last().0) {
            Some(j) => r.push((i as u16, j as u16)),
            None => r,
        }
    }
}

/// All candidate edges of the first `k` nodes, in node order.
pub open spec fn edge_candidates(index: &Index, nodes: Seq<u32>, k: nat) -> Seq<(u16, u16)>
    decreases k,
{
    if k == 0 {
        Seq::empty()
    } else {
        edge_candidates(index, nodes, (k - 1) as nat)
            + links(nodes, k - 1, index.packages[nodes[k - 1] as int].deps_spec())
    }
}

/// `s` cut to at most `c` elements.
pub open spec fn capped<T>(s: Seq<T>, c: nat) -> Seq<T> {
    if s.len() <= c { s } else { s.take(c as int) }
}

/// The materialized edges among `nodes`: candidates in node order, at most
/// `EDGE_BUDGET`.
pub open spec fn edges_spec(index: &Index, nodes: Seq<u32>) -> Seq<(u16, u16)> {
    capped(edge_candidates(index, nodes, nodes.len()), EDGE_BUDGET as nat)
}

/// Edges among materialized nodes (dependent -> dependency direction),
/// capped at [`EDGE_BUDGET`]. Uses an id→slot map instead of linear scans.
fn materialize_edges(index: &Index, nodes: &Vec<u32>) -> (r: Vec<(u16, u16)>)
    requires
        index.wf(),
        nodes.len() <= 0x1_0000,
        forall|i: int| 0 <= i < nodes.len() ==> #[trigger] nodes[i] < index.packages.len(),
    ensures
        r@ == edges_spec(index, nodes@),
{
    let mut slot: HashMap<u32, u16> = HashMap::new();
    let mut i: usize = 0;
    while i < nodes.len()
        invariant
            nodes.len() <= 0x1_0000,
            i <= nodes.len(),
            forall|d: u32| #![trigger slot@.contains_key(d)]
                (slot@.contains_key(d) <==> last_pos(nodes@.take(i as int), d) is Some)
                && (slot@.contains_key(d) ==> slot@[d] as int == last_pos(nodes@.take(i as int), d)->0),
        decreases nodes.len() - i,
    {
        let ghost before = slot@;
        slot.insert(nodes[i], i as u16);
        proof {
            let t = nodes@.take(i + 1);
            assert(t.drop_last() == nodes@.take(i as int));
            assert forall|d: u32| #![trigger slot@.contains_key(d)]
                (slot@.contains_key(d) <==> last_pos(t, d) is Some)
                && (slot@.contains_key(d) ==> slot@[d] as int == last_pos(t, d)->0) by {
                if d != nodes@[i as int] {
                    assert(before.contains_key(d) == slot@.contains_key(d));
                }
            }
        }
        i += 1;
    }
    assert(nodes@.take(nodes.len() as int) == nodes@);
    let mut edges: Vec<(u16, u16)> = Vec::new();
    let mut idx: usize = 0;
    while idx < nodes.len()
        invariant
            index.wf(),
            nodes.len() <= 0x1_0000,
            forall|i: int| 0 <= i < nodes.len() ==> #[trigger] nodes[i] < index.packages.len(),
            forall|d: u32| #![trigger slot@.contains_key(d)]
                (slot@.contains_key(d) <==> last_pos(nodes@, d) is Some)
                && (slot@.contains_key(d) ==> slot@[d] as int == last_pos(nodes@, d)->0),
            idx <= nodes.len(),
            edges@ == capped(edge_candidates(index, nodes@, idx as nat), EDGE_BUDGET as nat),
        decreases nodes.len() - idx,
    {
        let p: &Package = &index.packages[nodes[idx] as usize];
        let ds = p.deps();
        let ghost pre = edge_candidates(index, nodes@, idx as nat);
        let mut t: usize = 0;
        while t < ds.len()
            invariant
                nodes.len() <= 0x1_0000,
                idx < nodes.len(),
                forall|d: u32| #![trigger slot@.contains_key(d)]
                    (slot@.contains_key(d) <==> last_pos(nodes@, d) is Some)
                    && (slot@.contains_key(d) ==> slot@[d] as int == last_pos(nodes@, d)->0),
                t <= ds.len(),
                edges@ == capped(pre + links(nodes@, idx as int, ds@.take(t as int)), EDGE_BUDGET as nat),
            decreases ds.len() - t,
        {
            let dep = ds[t].0;
            let ghost lk = links(nodes@, idx as int, ds@.take(t as int));
            assert(ds@.take(t + 1).drop_last() == ds@.take(t as int));
            match slot.get(&dep) {
                Some(j) => {
                    let ghost x = (idx as u16, *j);
                    proof {
                        assert(slot@.contains_key(dep));
                        assert(links(nodes@, idx as int, ds@.take(t + 1)) == lk.push(x));
                        assert(pre + lk.push(x) == (pre + lk).push(x));
                    }
                    if edges.len() < EDGE_BUDGET {
                        edges.push((idx as u16, *j));
                    } else {
                        proof {
                            assert((pre + lk).push(x).take(EDGE_BUDGET as int) == (pre + lk).take(EDGE_BUDGET as int));
                        }
                    }
                },
                None => {
                    proof {
                        assert(!slot@.contains_key(dep));
                    }
                },
            }
            t += 1;
        }
        proof {
            assert(ds@.take(ds.len() as int) == ds@);
        }
        idx += 1;
    }
    edges
}

/// The nodes of a walk as ids, depths and kinds.
pub open spec fn bfs_ids(b: Seq<BfsNode>) -> Seq<u32> {
    b.map_values(|n: BfsNode| n.id)
}

/// Rank (dependent count) and name of each discovered node.
pub open spec fn hub_ranks(index: &Index, b: Seq<BfsNode>) -> Seq<usize> {
    b.map_values(|n: BfsNode| index.dependents[n.id as int].len())
}

/// The names of the discovered nodes.
pub open spec fn hub_names(index: &Index, b: Seq<BfsNode>) -> Seq<Seq<char>> {
    b.map_values(|n: BfsNode| index.packages[n.id as int].name@)
}

/// The node budget actually used for a requested budget.
pub open spec fn eff_budget(budget: usize) -> nat {
    if budget < NODE_BUDGET { budget as nat } else { NODE_BUDGET as nat }
}

/// What `project` returns.
pub open spec fn projection_ok(index: &Index, root: u32, dir: Dir, depth: u8, budget: usize, p: Projection) -> bool {
    let b = eff_budget(budget);
    &&& p.edges@ == edges_spec(index, p.nodes@)
    &&& p.nodes@.len() >= 1
    &&& p.nodes@[0] == root
    &&& p.depth_of@.len() == p.nodes@.len()
    &&& p.kind_of@.len() == p.nodes@.len()
    &&& p.depth_of@[0] == 0
    &&& p.kind_of@[0] == None::<DepKind>
    &&& match dir {
        Dir::Deps => {
            let (out, total) = index.bfs_spec(root, depth, b as usize, false);
            &&& p.nodes@ == seq![root] + bfs_ids(out)
            &&& p.depth_of@ == seq![0u8] + out.map_values(|n: BfsNode| n.depth)
            &&& p.kind_of@ == seq![None::<DepKind>] + out.map_values(|n: BfsNode| n.kind)
            &&& p.truncated == total - out.len()
        },
        Dir::Dependents => {
            let (out, total) = index.bfs_spec(root, depth, REVERSE_DISCOVERY_CAP, true);
            let m = if out.len() < b { out.len() } else { b };
            exists|perm: Seq<usize>| {
                &&& is_stable_order(hub_ranks(index, out), hub_names(index, out), perm)
                &&& p.nodes@ == seq![root] + perm.take(m as int).map_values(|k: usize| out[k as int].id)
                &&& p.depth_of@ == seq![0u8] + perm.take(m as int).map_values(|k: usize| out[k as int].depth)
                &&& p.kind_of@ == Seq::new(m + 1, |i: int| None::<DepKind>)
                &&& p.truncated == total - m
            }
        },
    }
}

/// Law (the reverse graph keeps the hubs): in a projection of dependents,
/// every discovered node left out has no more dependents than any node kept.
pub proof fn law_dependents_keep_hubs(index: &Index, root: u32, depth: u8, budget: usize, p: Projection, a: int, k: int)
    requires
        projection_ok(index, root, Dir::Dependents, depth, budget, p),
        1 <= a < p.nodes@.len(),
        0 <= k < index.bfs_spec(root, depth, REVERSE_DISCOVERY_CAP, true).0.len(),
        !p.nodes@.contains(index.bfs_spec(root, depth, REVERSE_DISCOVERY_CAP, true).0[k].id),
    ensures
        index.dependents[index.bfs_spec(root, depth, REVERSE_DISCOVERY_CAP, true).0[k].id as int].len()
            <= index.dependents[p.nodes@[a] as int].len(),
{
    let out = index.bfs_spec(root, depth, REVERSE_DISCOVERY_CAP, true).0;
    let b = eff_budget(budget);
    let m = if out.len() < b { out.len() } else { b };
    let ranks = hub_ranks(index, out);
    let names = hub_names(index, out);
    let perm = choose|perm: Seq<usize>| {
        &&& is_stable_order(ranks, names, perm)
        &&& p.nodes@ == seq![root] + perm.take(m as int).map_values(|x: usize| out[x as int].id)
        &&& p.depth_of@ == seq![0u8] + perm.take(m as int).map_values(|x: usize| out[x as int].depth)
        &&& p.kind_of@ == Seq::new(m + 1, |i: int| None::<DepKind>)
        &&& p.truncated == (index.bfs_spec(root, depth, REVERSE_DISCOVERY_CAP, true).1 - m)
    };
    // the order is a permutation of the discovered nodes
    let ps = perm.map_values(|x: usize| x as int);
    assert(ps.no_duplicates()) by {
        assert forall|i: int, j: int| 0 <= i < ps.len() && 0 <= j < ps.len() && i != j implies ps[i] != ps[j] by {
            crate::order::lemma_key_before_irrefl(ranks, names, perm[i] as int);
            if i < j {
                assert(crate::order::key_before(ranks, names, perm[i] as int, perm[j] as int));
            } else {
                assert(crate::order::key_before(ranks, names, perm[j] as int, perm[i] as int));
            }
        }
    }
    crate::counting::lemma_distinct_below(ps, out.len() as int);
    assert(ps.contains(k));
    let j = choose|j: int| 0 <= j < ps.len() && ps[j] == k;
    let ai = a - 1;
    assert(p.nodes@[a] == out[perm[ai] as int].id);
    if j < m {
        assert(p.nodes@[j + 1] == out[k].id);
        assert(p.nodes@.contains(out[k].id));
    }
    assert(ai < m);
    assert(crate::order::key_before(ranks, names, perm[ai] as int, perm[j] as int));
    assert(ranks[perm[ai] as int] == index.dependents[p.nodes@[a] as int].len());
    assert(ranks[k] == index.dependents[out[k].id as int].len());
}

/// Law (honest truncation of the dependency graph): when every package
/// reachable within the depth is drawn, nothing is counted as cut off; and
/// when nothing is cut off and the node budget was not filled, every
/// package reachable within the depth is drawn.
pub proof fn law_deps_truncation(index: &Index, root: u32, depth: u8, budget: usize, p: Projection)
    requires
        index.wf(),
        root < index.packages.len(),
        projection_ok(index, root, Dir::Deps, depth, budget, p),
    ensures
        (forall|v: u32, k: nat| #![trigger index.reachable_within(root, v, k, false)]
            k <= depth && v != root && index.reachable_within(root, v, k, false) ==> p.nodes@.contains(v))
            ==> p.truncated == 0,
        p.truncated == 0 && p.nodes@.len() - 1 < eff_budget(budget) ==>
            forall|v: u32, k: nat| #![trigger index.reachable_within(root, v, k, false)]
                k <= depth && v != root && index.reachable_within(root, v, k, false) ==> p.nodes@.contains(v),
{
    let b = eff_budget(budget) as usize;
    let n = index.packages.len() as nat;
    let q = index.bfs_queue(root, depth, b, false, n);
    index.lemma_bfs_inv(root, depth, b, false, n);
    let (out, total) = index.bfs_spec(root, depth, b, false);
    let end = if q.len() < b + 1 { q.len() as int } else { b + 1 };
    assert(out == q.subrange(1, end));
    assert(p.nodes@ == seq![root] + bfs_ids(out));
    if forall|v: u32, k: nat| #![trigger index.reachable_within(root, v, k, false)]
        k <= depth && v != root && index.reachable_within(root, v, k, false) ==> p.nodes@.contains(v) {
        if end < q.len() {
            let w = q[end];
            assert(index.reachable_within(root, w.id, w.depth as nat, false));
            assert(w.id != root) by { assert(q[0].id == root); }
            assert(p.nodes@.contains(w.id));
            let a = choose|a: int| 0 <= a < p.nodes@.len() && p.nodes@[a] == w.id;
            assert(a >= 1);
            assert(p.nodes@[a] == out[a - 1].id);
            assert(out[a - 1] == q[a]);
            assert(false);
        }
    }
    if p.truncated == 0 && p.nodes@.len() - 1 < eff_budget(budget) {
        assert forall|v: u32, k: nat| #![trigger index.reachable_within(root, v, k, false)]
            k <= depth && v != root && index.reachable_within(root, v, k, false) implies p.nodes@.contains(v) by {
            crate::index::law_bfs_complete(index, root, depth, b, false, v, k);
            let i = choose|i: int| 0 <= i < out.len() && (#[trigger] out[i]).id == v && out[i].depth <= k;
            assert(p.nodes@[i + 1] == v);
        }
    }
}

/// Extract the budgeted graph for `root`.
///
/// `Dir::Deps` is the forward BFS (breadth-first order, budget cap,
/// edge cap). `Dir::Dependents` discovers up to `REVERSE_DISCOVERY_CAP`
/// reverse-reachable nodes and materializes the top `budget` by dependent
/// count (name as tie-break, then discovery order) so hubs stay visible.
pub fn project(index: &Index, root: u32, dir: Dir, depth: u8, budget: usize) -> (p: Projection)
    requires
        index.wf(),
        root < index.packages.len(),
    ensures
        projection_ok(index, root, dir, depth, budget, p),
{
    let budget = if budget < NODE_BUDGET { budget } else { NODE_BUDGET };
    proof {
        crate::index::law_bfs_sound(index, root, depth, budget, false);
        crate::index::law_bfs_sound(index, root, depth, REVERSE_DISCOVERY_CAP, true);
    }
    match dir {
        Dir::Deps => {
            let (bfs, total) = index.deps_bfs(root, depth, budget);
            let mut nodes: Vec<u32> = Vec::new();
            let mut depth_of: Vec<u8> = Vec::new();
            let mut kind_of: Vec<Option<DepKind>> = Vec::new();
            nodes.push(root);
            depth_of.push(0);
            kind_of.push(None);
            let mut i: usize = 0;
            while i < bfs.len()
                invariant
                    bfs.len() <= budget <= NODE_BUDGET,
                    i <= bfs.len(),
                    forall|k: int| 0 <= k < bfs.len() ==> #[trigger] bfs@[k].id < index.packages.len(),
                    root < index.packages.len(),
                    nodes@ == seq![root] + bfs_ids(bfs@.take(i as int)),
                    depth_of@ == seq![0u8] + bfs@.take(i as int).map_values(|n: BfsNode| n.depth),
                    kind_of@ == seq![None::<DepKind>] + bfs@.take(i as int).map_values(|n: BfsNode| n.kind),
                    forall|k: int| 0 <= k < nodes.len() ==> #[trigger] nodes@[k] < index.packages.len(),
                decreases bfs.len() - i,
            {
                let n = bfs[i];
                nodes.push(n.id);
                depth_of.push(n.depth);
                kind_of.push(n.kind);
                proof {
                    let t1 = bfs@.take(i + 1);
                    let t0 = bfs@.take(i as int);
                    assert(t1 == t0.push(n));
                    assert(bfs_ids(t1) == bfs_ids(t0).push(n.id));
                    assert(t1.map_values(|n: BfsNode| n.depth) == t0.map_values(|n: BfsNode| n.depth).push(n.depth));
                    assert(t1.map_values(|n: BfsNode| n.kind) == t0.map_values(|n: BfsNode| n.kind).push(n.kind));
                }
                i += 1;
            }
            assert(bfs@.take(bfs.len() as int) == bfs@);
            let edges = materialize_edges(index, &nodes);
            Projection { nodes, edges, truncated: total - bfs.len(), depth_of, kind_of }
        },
        Dir::Dependents => {
            let (bfs, total) = index.dependents_bfs(root, depth, REVERSE_DISCOVERY_CAP);
            let mut ranks: Vec<usize> = Vec::new();
            let mut names: Vec<Vec<char>> = Vec::new();
            let mut i: usize = 0;
            while i < bfs.len()
                invariant
                    index.wf(),
                    i <= bfs.len(),
                    forall|k: int| 0 <= k < bfs.len() ==> #[trigger] bfs@[k].id < index.packages.len(),
                    ranks@ == hub_ranks(index, bfs@.take(i as int)),
                    names@.map_values(|v: Vec<char>| v@) == hub_names(index, bfs@.take(i as int)),
                    names.len() == i,
                decreases bfs.len() - i,
            {
                let id = bfs[i].id;
                ranks.push(index.dependents_count(id));
                let ghost old_names = names@;
                names.push(chars_of(index.packages[id as usize].name.as_str()));
                proof {
                    let t1 = bfs@.take(i + 1);
                    let t0 = bfs@.take(i as int);
                    assert(t1 == t0.push(bfs@[i as int]));
                    assert(hub_ranks(index, t1) == hub_ranks(index, t0).push(index.dependents[id as int].len()));
                    assert(hub_names(index, t1) == hub_names(index, t0).push(index.packages[id as int].name@));
                    assert(names@.map_values(|v: Vec<char>| v@) == old_names.map_values(|v: Vec<char>| v@).push(index.packages[id as int].name@));
                }
                i += 1;
            }
            assert(bfs@.take(bfs.len() as int) == bfs@);
            let perm = stable_order(&ranks, &names);
            let m = if perm.len() < budget { perm.len() } else { budget };
            let mut nodes: Vec<u32> = Vec::new();
            let mut depth_of: Vec<u8> = Vec::new();
            let mut kind_of: Vec<Option<DepKind>> = Vec::new();
            nodes.push(root);
            depth_of.push(0);
            kind_of.push(None);
            let mut j: usize = 0;
            while j < m
                invariant
                    m <= perm.len() == bfs.len(),
                    m <= NODE_BUDGET,
                    j <= m,
                    forall|k: int| 0 <= k < perm.len() ==> #[trigger] perm@[k] < bfs.len(),
                    forall|k: int| 0 <= k < bfs.len() ==> #[trigger] bfs@[k].id < index.packages.len(),
                    root < index.packages.len(),
                    nodes@ == seq![root] + perm@.take(j as int).map_values(|k: usize| bfs@[k as int].id),
                    depth_of@ == seq![0u8] + perm@.take(j as int).map_values(|k: usize| bfs@[k as int].depth),
                    kind_of@ == Seq::new((j + 1) as nat, |i: int| None::<DepKind>),
                    forall|k: int| 0 <= k < nodes.len() ==> #[trigger] nodes@[k] < index.packages.len(),
                decreases m - j,
            {
                let k = perm[j];
                let n = bfs[k];
                nodes.push(n.id);
                depth_of.push(n.depth);
                kind_of.push(None);
                proof {
                    let t1 = perm@.take(j + 1);
                    let t0 = perm@.take(j as int);
                    assert(t1 == t0.push(k));
                    assert(t1.map_values(|k: usize| bfs@[k as int].id) == t0.map_values(|k: usize| bfs@[k as int].id).push(n.id));
                    assert(t1.map_values(|k: usize| bfs@[k as int].depth) == t0.map_values(|k: usize| bfs@[k as int].depth).push(n.depth));
                    assert(kind_of@ == Seq::new((j + 2) as nat, |i: int| None::<DepKind>));
                }
                j += 1;
            }
            let edges = materialize_edges(index, &nodes);
            let p = Projection { nodes, edges, truncated: total - m, depth_of, kind_of };
            proof {
                assert(m == (if bfs@.len() < eff_budget(budget) { bfs@.len() } else { eff_budget(budget) }));
            }
            p
        },
    }
}


/// The selection after moving `delta` steps from `selected` among `n`
/// nodes, wrapping around at both ends.
pub fn wrap_select(selected: usize, delta: i32, n: usize) -> (r: usize)
    requires
        0 < n <= i32::MAX,
        selected < n,
    ensures
        r == (selected + delta) % (n as int),
        r < n,
{
    let s: i64 = selected as i64 + delta as i64;
    let m: u64 = n as u64;
    if s >= 0 {
        let r = (s as u64) % m;
        proof {
            assert(r as int == (selected + delta) % (n as int));
        }
        r as usize
    } else {
        let t: u64 = ((-s) as u64) % m;
        let r: u64 = if t == 0 { 0 } else { m - t };
        proof {
            let v = selected + delta;
            assert(v < 0);
            assert(t as int == (-v) % (n as int));
            lemma_neg_mod(v, n as int, t as int, r as int);
        }
        r as usize
    }
}

/// Euclidean remainder of a negative number from the remainder of its negation.
proof fn lemma_neg_mod(v: int, n: int, t: int, r: int)
    requires
        v < 0,
        n > 0,
        t == (-v) % n,
        r == (if t == 0 { 0 } else { n - t }),
    ensures
        r == v % n,
{
    let q = (-v) / n;
    assert(-v == q * n + t) by (nonlinear_arith)
        requires q == (-v) / n, t == (-v) % n, n > 0;
    assert(0 <= t < n) by (nonlinear_arith)
        requires t == (-v) % n, n > 0;
    if t == 0 {
        assert(v == (-q) * n) by (nonlinear_arith) requires -v == q * n;
        vstd::arithmetic::div_mod::lemma_mod_multiples_basic(-q, n);
    } else {
        assert(v == (-q - 1) * n + (n - t)) by (nonlinear_arith) requires -v == q * n + t;
        vstd::arithmetic::div_mod::lemma_fundamental_div_mod_converse(v, n, -q - 1, n - t);
    }
}

/// A last position lies inside the sequence.
proof fn lemma_last_pos_bound(nodes: Seq<u32>, d: u32)
    ensures
        last_pos(nodes, d) matches Some(j) ==> 0 <= j < nodes.len(),
    decreases nodes.len(),
{
    if nodes.len() > 0 && nodes.last() != d {
        lemma_last_pos_bound(nodes.drop_last(), d);
    }
}

/// Links of node `i` join node positions.
proof fn lemma_links_bound(nodes: Seq<u32>, i: int, ds: Seq<(u32, DepKind)>)
    requires
        0 <= i < nodes.len() <= 0x1_0000,
    ensures
        forall|t: int| 0 <= t < links(nodes, i, ds).len() ==>
            (#[trigger] links(nodes, i, ds)[t]).0 < nodes.len() && links(nodes, i, ds)[t].1 < nodes.len(),
    decreases ds.len(),
{
    if ds.len() > 0 {
        lemma_links_bound(nodes, i, ds.drop_last());
        lemma_last_pos_bound(nodes, ds.last().0);
        let r = links(nodes, i, ds.drop_last());
        match last_pos(nodes, ds.last().0) {
            Some(j) => {
                assert((i as u16) as int == i);
                assert((j as u16) as int == j);
                assert(links(nodes, i, ds) == r.push((i as u16, j as u16)));
            },
            None => {},
        }
    }
}

/// Candidate edges join node positions.
proof fn lemma_candidates_bound(index: &Index, nodes: Seq<u32>, k: nat)
    requires
        k <= nodes.len() <= 0x1_0000,
    ensures
        forall|t: int| 0 <= t < edge_candidates(index, nodes, k).len() ==>
            (#[trigger] edge_candidates(index, nodes, k)[t]).0 < nodes.len() && edge_candidates(index, nodes, k)[t].1 < nodes.len(),
    decreases k,
{
    if k > 0 {
        lemma_candidates_bound(index, nodes, (k - 1) as nat);
        let prev = edge_candidates(index, nodes, (k - 1) as nat);
        let l = links(nodes, k - 1, index.packages[nodes[k - 1] as int].deps_spec());
        lemma_links_bound(nodes, k - 1, index.packages[nodes[k - 1] as int].deps_spec());
        assert forall|t: int| 0 <= t < (prev + l).len() implies
            (#[trigger] (prev + l)[t]).0 < nodes.len() && (prev + l)[t].1 < nodes.len() by {
            if t >= prev.len() {
                assert((prev + l)[t] == l[t - prev.len()]);
            }
        }
    }
}

/// A projection names packages of the index, and its edges join its nodes.
pub proof fn lemma_projection_in_range(index: &Index, root: u32, dir: Dir, depth: u8, budget: usize, p: Projection)
    requires
        index.wf(),
        root < index.packages.len(),
        projection_ok(index, root, dir, depth, budget, p),
    ensures
        forall|j: int| 0 <= j < p.nodes@.len() ==> #[trigger] p.nodes@[j] < index.packages.len(),
        forall|j: int| 0 <= j < p.edges@.len() ==> (#[trigger] p.edges@[j]).0 < p.nodes@.len() && p.edges@[j].1 < p.nodes@.len(),
        p.nodes@.len() <= NODE_BUDGET + 1,
{
    crate::index::law_bfs_sound(index, root, depth, eff_budget(budget) as usize, false);
    crate::index::law_bfs_sound(index, root, depth, REVERSE_DISCOVERY_CAP, true);
    match dir {
        Dir::Deps => {
            let (out, total) = index.bfs_spec(root, depth, eff_budget(budget) as usize, false);
            assert forall|j: int| 0 <= j < p.nodes@.len() implies #[trigger] p.nodes@[j] < index.packages.len() by {
                if j > 0 {
                    assert(p.nodes@[j] == out[j - 1].id);
                }
            }
        },
        Dir::Dependents => {
            let (out, total) = index.bfs_spec(root, depth, REVERSE_DISCOVERY_CAP, true);
            let b = eff_budget(budget);
            let m = if out.len() < b { out.len() } else { b };
            let perm = choose|perm: Seq<usize>| {
                &&& is_stable_order(hub_ranks(index, out), hub_names(index, out), perm)
                &&& p.nodes@ == seq![root] + perm.take(m as int).map_values(|k: usize| out[k as int].id)
                &&& p.depth_of@ == seq![0u8] + perm.take(m as int).map_values(|k: usize| out[k as int].depth)
                &&& p.kind_of@ == Seq::new(m + 1, |i: int| None::<DepKind>)
                &&& p.truncated == total - m
            };
            assert forall|j: int| 0 <= j < p.nodes@.len() implies #[trigger] p.nodes@[j] < index.packages.len() by {
                if j > 0 {
                    assert(perm[j - 1] < out.len());
                    assert(p.nodes@[j] == out[perm[j - 1] as int].id);
                }
            }
        },
    }
    lemma_candidates_bound(index, p.nodes@, p.nodes@.len());
}

/// The graph view's logical state: which subgraph is shown and which node
/// is selected. Node positions belong to the renderer's layout.
#[derive(Debug)]
pub struct GraphView {
    pub root: u32,
    pub depth: u8,
    /// Package ids of materialized nodes.
    pub nodes: Vec<u32>,
    /// Edges as indices into `nodes` (parent -> child, dependency direction).
    pub edges: Vec<(u16, u16)>,
    pub selected: usize,
    /// Nodes discovered beyond the budget (honest truncation count).
    pub truncated: usize,
    pub laid_out: bool,
}

impl Default for GraphView {
    /// The initial graph: root 0 at the default depth.
    fn default() -> (g: GraphView)
        ensures
            g.wf(),
            g.root == 0,
            g.depth == DEFAULT_DEPTH,
            g.nodes@.len() == 0,
            g.edges@.len() == 0,
            g.selected == 0,
            g.truncated == 0,
            !g.laid_out,
    {
        GraphView::new(0, DEFAULT_DEPTH)
    }
}

impl GraphView {
    /// The selection always names a node (or is 0 when there is none), and
    /// the node list stays within the budget.
    pub open spec fn wf(&self) -> bool {
        &&& self.nodes.len() <= NODE_BUDGET + 1
        &&& if self.nodes.len() == 0 { self.selected == 0 } else { self.selected < self.nodes.len() }
    }

    /// An empty, not yet built graph for `root` at `depth`.
    pub fn new(root: u32, depth: u8) -> (g: GraphView)
        ensures
            g.wf(),
            g.root == root,
            g.depth == depth,
            g.nodes@.len() == 0,
            g.edges@.len() == 0,
            g.selected == 0,
            g.truncated == 0,
            !g.laid_out,
    {
        GraphView { root, depth, nodes: Vec::new(), edges: Vec::new(), selected: 0, truncated: 0, laid_out: false }
    }

    /// What `rebuild` makes of the graph: the forward projection of `root`
    /// at `depth` within the node budget, first node selected.
    pub open spec fn rebuilt(&self, index: &Index, root: u32, depth: u8) -> bool {
        &&& self.root == root
        &&& self.depth == depth
        &&& exists|p: Projection| {
            &&& #[trigger] projection_ok(index, root, Dir::Deps, depth, NODE_BUDGET, p)
            &&& self.nodes@ == p.nodes@
            &&& self.edges@ == p.edges@
            &&& self.truncated == p.truncated
        }
        &&& self.selected == 0
        &&& self.laid_out
    }

    /// Rebuild the graph for `root` at `depth`.
    pub fn rebuild(&mut self, index: &Index, root: u32, depth: u8)
        requires
            index.wf(),
            root < index.packages.len(),
        ensures
            final(self).wf(),
            final(self).rebuilt(index, root, depth),
    {
        let projection = project(index, root, Dir::Deps, depth, NODE_BUDGET);
        proof {
            crate::index::law_bfs_sound(index, root, depth, NODE_BUDGET, false);
            assert(projection.nodes@.len() <= NODE_BUDGET + 1);
        }
        self.root = root;
        self.depth = depth;
        self.truncated = projection.truncated;
        self.selected = 0;
        self.laid_out = true;
        let ghost pp = projection;
        self.nodes = projection.nodes;
        self.edges = projection.edges;
        assert(projection_ok(index, root, Dir::Deps, depth, NODE_BUDGET, pp));
    }

    /// Move the selection to the next/previous node (wrapping).
    pub fn select_delta(&mut self, delta: i32)
        requires
            old(self).wf(),
        ensures
            final(self).wf(),
            final(self).root == old(self).root,
            final(self).depth == old(self).depth,
            final(self).nodes@ == old(self).nodes@,
            final(self).edges@ == old(self).edges@,
            final(self).truncated == old(self).truncated,
            final(self).laid_out == old(self).laid_out,
            final(self).selected == (if old(self).nodes.len() == 0 {
                old(self).selected as int
            } else {
                (old(self).selected + delta) % (old(self).nodes.len() as int)
            }),
    {
        if self.nodes.len() == 0 {
            return;
        }
        self.selected = wrap_select(self.selected, delta, self.nodes.len());
    }

    /// The selected package id, if any.
    pub fn selected_id(&self) -> (r: Option<u32>)
        ensures
            r == (if self.selected < self.nodes.len() { Some(self.nodes@[self.selected as int]) } else { None::<u32> }),
    {
        if self.selected < self.nodes.len() {
            Some(self.nodes[self.selected])
        } else {
            None
        }
    }
}

/// One xorshift64 state transition.
pub open spec fn xorshift_step(x: u64) -> u64 {
    let a = x ^ (x >> 12u64);
    let b = a ^ (a << 25u64);
    b ^ (b >> 27u64)
}

/// Minimal deterministic xorshift64* generator.
pub struct XorShift(pub u64);

impl XorShift {
    /// A generator seeded with `seed` (zero is replaced by one).
    pub fn new(seed: u64) -> (r: XorShift)
        ensures
            r.0 == (if seed == 0 { 1 } else { seed }),
    {
        XorShift(if seed < 1 { 1 } else { seed })
    }

    /// The next 64-bit output.
    pub fn next_u64(&mut self) -> (r: u64)
        ensures
            final(self).0 == xorshift_step(old(self).0),
            r == xorshift_step(old(self).0).wrapping_mul(0x2545_F491_4F6C_DD1Du64),
    {
        let mut x = self.0;
        x = x ^ (x >> 12u64);
        x = x ^ (x << 25u64);
        x = x ^ (x >> 27u64);
        self.0 = x;
        x.wrapping_mul(0x2545_F491_4F6C_DD1Du64)
    }
}

} // verus!
