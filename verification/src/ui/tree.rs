//! Dependency and reverse-dependency trees flattened into rows.

use vstd::prelude::*;

use crate::app::{KeySet, NodeKey, NodeKind, RevState, TreeState};
use crate::index::{BfsNode, DepKind, Index};
use crate::order::{is_stable_order, lemma_is_stable_sorted, stable_order, stable_sorted};
use crate::text::{chars_of, concat, decimal, push_char, u64_to_decimal};
use crate::ui::{first_chars, take_chars, Tone};

verus! {

/// Sentinel id for the "Transitive" section header row.
pub const TRANS_SECTION: u32 = 0xFFFF_FFFFu32;
/// Row cap for any flattened tree.
pub const ROW_CAP: usize = 2000;
/// Reverse-BFS depth cap.
pub const REV_DEPTH: u8 = 8;
/// Nodes materialized for the transitive section.
pub const TRANS_CAP: usize = 500;
/// Enough steps for the flattening walk to finish.
pub open spec fn dfs_fuel() -> nat {
    4100
}

/// One row of a flattened tree.
#[derive(Debug, Clone, Copy)]
pub struct TreeRow {
    pub key: NodeKey,
    pub id: u32,
    pub depth: u8,
    pub kind: NodeKind,
    pub children_count: usize,
    pub is_section: bool,
    pub transitive_depth: Option<u8>,
}

/// The tree-key kind of a dependency edge kind.
pub open spec fn node_kind_of(k: DepKind) -> NodeKind {
    match k {
        DepKind::Input => NodeKind::Input,
        DepKind::Propagated => NodeKind::Propagated,
        DepKind::Native => NodeKind::Native,
    }
}

fn node_kind(k: DepKind) -> (r: NodeKind)
    ensures
        r == node_kind_of(k),
{
    match k {
        DepKind::Input => NodeKind::Input,
        DepKind::Propagated => NodeKind::Propagated,
        DepKind::Native => NodeKind::Native,
    }
}

/// Dependency count of a package, as shown in the tree.
pub open spec fn dep_count_of(index: &Index, id: u32) -> usize {
    let p = index.packages[id as int];
    (p.inputs.len() + p.propagated.len() + p.native.len()) as usize
}

/// The row for dependency `child` of kind `nk` at `depth`.
pub open spec fn dep_row(index: &Index, child: u32, depth: u8, nk: NodeKind) -> TreeRow {
    TreeRow {
        key: (child, nk),
        id: child,
        depth,
        kind: nk,
        children_count: dep_count_of(index, child),
        is_section: false,
        transitive_depth: None,
    }
}

/// The direct dependencies of `id`, stably sorted by name.
pub open spec fn sorted_children(index: &Index, id: u32) -> Seq<(u32, DepKind)> {
    let ds = index.packages[id as int].deps_spec();
    let names = ds.map_values(|e: (u32, DepKind)| index.packages[e.0 as int].name@);
    let ranks = Seq::new(ds.len(), |i: int| 0usize);
    stable_sorted(ranks, names).map_values(|k: usize| ds[k as int])
}

/// `s` cut to at most `c` items.
pub open spec fn take_cap<T>(s: Seq<T>, c: nat) -> Seq<T> {
    if s.len() <= c { s } else { s.take(c as int) }
}

/// The effective row cap.
pub open spec fn row_cap(cap: usize) -> nat {
    if cap < ROW_CAP { cap as nat } else { ROW_CAP as nat }
}

/// Whether the children of the dependency row for `id` with key kind `nk`
/// are listed: always for the root, otherwise when its key is expanded.
pub open spec fn shows_children(expanded: Set<NodeKey>, root: u32, id: u32, nk: NodeKind) -> bool {
    id == root || expanded.contains((id, nk))
}

/// The rows of the subtree of `id` (key kind `nk`) at `depth`, below the
/// ancestors `chain`, in pre-order: the node's row, then, when its children
/// are shown, each child by name ascending followed by its own subtree. A
/// child already on the ancestor chain is left out (cycle guard). `fuel`
/// bounds the nesting; started at the number of packages it is never the
/// limit, as a chain of distinct ids is no longer than that.
pub open spec fn subtree_rows(
    index: &Index,
    expanded: Set<NodeKey>,
    root: u32,
    id: u32,
    nk: NodeKind,
    depth: u8,
    chain: Seq<u32>,
    fuel: nat,
) -> Seq<TreeRow>
    decreases fuel, 0int, 0int,
{
    let ghost row = dep_row(index, id, depth, nk);
    if shows_children(expanded, root, id, nk) && fuel > 0 {
        seq![row] + kids_rows(index, expanded, root, sorted_children(index, id), 0, (depth + 1) as u8, chain.push(id), (fuel - 1) as nat)
    } else {
        seq![row]
    }
}

/// The subtrees of the children `kids[i..]` at `depth` below `chain`, in
/// order, leaving out children on the chain.
pub open spec fn kids_rows(
    index: &Index,
    expanded: Set<NodeKey>,
    root: u32,
    kids: Seq<(u32, DepKind)>,
    i: int,
    depth: u8,
    chain: Seq<u32>,
    fuel: nat,
) -> Seq<TreeRow>
    decreases fuel, 1int, kids.len() - i,
{
    if i < 0 || i >= kids.len() {
        Seq::empty()
    } else {
        let c = kids[i].0;
        let here = if chain.contains(c) {
            Seq::empty()
        } else {
            subtree_rows(index, expanded, root, c, node_kind_of(kids[i].1), depth, chain, fuel)
        };
        here + kids_rows(index, expanded, root, kids, i + 1, depth, chain, fuel)
    }
}

/// The flattened dependency tree of `root`: its pre-order listing (see
/// `subtree_rows`), cut to the row cap.
pub open spec fn dep_rows_spec(index: &Index, expanded: Set<NodeKey>, root: u32, cap: usize) -> Seq<TreeRow> {
    if root >= index.packages.len() {
        Seq::empty()
    } else {
        take_cap(
            subtree_rows(index, expanded, root, root, NodeKind::Input, 0, Seq::empty(), index.packages.len() as nat),
            row_cap(cap),
        )
    }
}

/// Law (cycle guard): no row of a subtree repeats an id of its ancestor
/// chain; in particular no package is listed beneath itself.
pub proof fn law_subtree_avoids_ancestors(
    index: &Index,
    expanded: Set<NodeKey>,
    root: u32,
    id: u32,
    nk: NodeKind,
    depth: u8,
    chain: Seq<u32>,
    fuel: nat,
)
    requires
        !chain.contains(id),
    ensures
        forall|j: int| 0 <= j < subtree_rows(index, expanded, root, id, nk, depth, chain, fuel).len() ==>
            !chain.contains(#[trigger] subtree_rows(index, expanded, root, id, nk, depth, chain, fuel)[j].id),
    decreases fuel, 0int, 0int,
{
    let t = subtree_rows(index, expanded, root, id, nk, depth, chain, fuel);
    if shows_children(expanded, root, id, nk) && fuel > 0 {
        let ch = chain.push(id);
        let k = kids_rows(index, expanded, root, sorted_children(index, id), 0, (depth + 1) as u8, ch, (fuel - 1) as nat);
        lemma_kids_avoid(index, expanded, root, sorted_children(index, id), 0, (depth + 1) as u8, ch, (fuel - 1) as nat);
        assert forall|j: int| 0 <= j < t.len() implies !chain.contains(#[trigger] t[j].id) by {
            if j > 0 {
                assert(t[j] == k[j - 1]);
                assert(!ch.contains(k[j - 1].id));
                if chain.contains(t[j].id) {
                    let w = choose|w: int| 0 <= w < chain.len() && chain[w] == t[j].id;
                    assert(ch[w] == chain[w]);
                }
            }
        }
    }
}

/// The children's subtrees avoid their ancestor chain.
proof fn lemma_kids_avoid(
    index: &Index,
    expanded: Set<NodeKey>,
    root: u32,
    kids: Seq<(u32, DepKind)>,
    i: int,
    depth: u8,
    chain: Seq<u32>,
    fuel: nat,
)
    ensures
        forall|j: int| 0 <= j < kids_rows(index, expanded, root, kids, i, depth, chain, fuel).len() ==>
            !chain.contains(#[trigger] kids_rows(index, expanded, root, kids, i, depth, chain, fuel)[j].id),
    decreases fuel, 1int, kids.len() - i,
{
    if 0 <= i < kids.len() {
        let c = kids[i].0;
        let here = if chain.contains(c) {
            Seq::<TreeRow>::empty()
        } else {
            subtree_rows(index, expanded, root, c, node_kind_of(kids[i].1), depth, chain, fuel)
        };
        if !chain.contains(c) {
            law_subtree_avoids_ancestors(index, expanded, root, c, node_kind_of(kids[i].1), depth, chain, fuel);
        }
        lemma_kids_avoid(index, expanded, root, kids, i + 1, depth, chain, fuel);
        let rest = kids_rows(index, expanded, root, kids, i + 1, depth, chain, fuel);
        let all = kids_rows(index, expanded, root, kids, i, depth, chain, fuel);
        assert(all == here + rest);
        assert forall|j: int| 0 <= j < all.len() implies !chain.contains(#[trigger] all[j].id) by {
            if j < here.len() {
                assert(all[j] == here[j]);
            } else {
                assert(all[j] == rest[j - here.len()]);
            }
        }
    }
}

/// Law: in the flattened dependency tree the root is listed once, first.
pub proof fn law_dep_rows_root_once(index: &Index, expanded: Set<NodeKey>, root: u32, cap: usize)
    ensures
        forall|j: int| 1 <= j < dep_rows_spec(index, expanded, root, cap).len() ==>
            (#[trigger] dep_rows_spec(index, expanded, root, cap)[j]).id != root,
{
    if root < index.packages.len() {
        let n = index.packages.len() as nat;
        let full = subtree_rows(index, expanded, root, root, NodeKind::Input, 0, Seq::empty(), n);
        let r = dep_rows_spec(index, expanded, root, cap);
        if n > 0 {
            let ch = Seq::<u32>::empty().push(root);
            let k = kids_rows(index, expanded, root, sorted_children(index, root), 0, 1u8, ch, (n - 1) as nat);
            lemma_kids_avoid(index, expanded, root, sorted_children(index, root), 0, 1u8, ch, (n - 1) as nat);
            assert(full == seq![dep_row(index, root, 0, NodeKind::Input)] + k);
            assert forall|j: int| 1 <= j < r.len() implies (#[trigger] r[j]).id != root by {
                assert(r[j] == full[j]);
                assert(full[j] == k[j - 1]);
                assert(ch.contains(root)) by { assert(ch[0] == root); }
                if k[j - 1].id == root {
                    assert(ch.contains(k[j - 1].id));
                }
            }
        }
    }
}

/// Cutting, appending more and cutting again is cutting once.
proof fn lemma_take_cap_append(a: Seq<TreeRow>, b: Seq<TreeRow>, d: Seq<TreeRow>, c: nat)
    requires
        a.len() <= c,
    ensures
        take_cap(take_cap(a + b, c) + d, c) == take_cap(a + b + d, c),
{
    if (a + b).len() > c {
        assert(take_cap(take_cap(a + b, c) + d, c) =~= take_cap(a + b + d, c));
    } else {
        assert(take_cap(a + b, c) == a + b);
    }
}

/// A full list stays as it is whatever is appended.
proof fn lemma_take_cap_full(a: Seq<TreeRow>, b: Seq<TreeRow>, c: nat)
    requires
        a.len() == c,
    ensures
        take_cap(a + b, c) == a,
{
    if b.len() > 0 {
        assert((a + b).take(c as int) =~= a);
    } else {
        assert(a + b =~= a);
    }
}

fn next_depth(depth: u8) -> (r: u8)
    ensures
        r == (depth + 1) as u8,
{
    if depth == 255 {
        assert(((depth + 1) as u8) == 0u8) by (bit_vector)
            requires depth == 255u8;
        0
    } else {
        depth + 1
    }
}

/// The name-sorted dependencies of package `id`.
fn children_sorted(index: &Index, id: u32) -> (r: Vec<(u32, DepKind)>)
    requires
        index.wf(),
        id < index.packages.len(),
    ensures
        r@ == sorted_children(index, id),
        forall|i: int| 0 <= i < r.len() ==> #[trigger] r@[i].0 < index.packages.len(),
{
    let ds = index.packages[id as usize].deps();
    proof { crate::index::lemma_deps_spec_ok(index.packages[id as int], index.packages.len() as nat); }
    let ghost names_s = ds@.map_values(|e: (u32, DepKind)| index.packages[e.0 as int].name@);
    let ghost ranks_s = Seq::new(ds@.len(), |i: int| 0usize);
    let mut ranks: Vec<usize> = Vec::new();
    let mut names: Vec<Vec<char>> = Vec::new();
    let mut i: usize = 0;
    while i < ds.len()
        invariant
            index.wf(),
            ds@ == index.packages[id as int].deps_spec(),
            forall|j: int| 0 <= j < ds.len() ==> #[trigger] ds@[j].0 < index.packages.len(),
            names_s == ds@.map_values(|e: (u32, DepKind)| index.packages[e.0 as int].name@),
            ranks_s == Seq::new(ds@.len(), |i: int| 0usize),
            i <= ds.len(),
            ranks@ == ranks_s.take(i as int),
            names@.map_values(|v: Vec<char>| v@) == names_s.take(i as int),
            names.len() == i,
        decreases ds.len() - i,
    {
        let ghost old_names = names@;
        ranks.push(0);
        names.push(chars_of(index.packages[ds[i].0 as usize].name.as_str()));
        proof {
            assert(ranks@ == ranks_s.take(i + 1));
            assert(names@.map_values(|v: Vec<char>| v@) == old_names.map_values(|v: Vec<char>| v@).push(names_s[i as int]));
            assert(names_s.take(i + 1) == names_s.take(i as int).push(names_s[i as int]));
        }
        i += 1;
    }
    proof {
        assert(ranks_s.take(ds.len() as int) == ranks_s);
        assert(names_s.take(ds.len() as int) == names_s);
    }
    let perm = stable_order(&ranks, &names);
    proof { lemma_is_stable_sorted(ranks_s, names_s, perm@); }
    let mut r: Vec<(u32, DepKind)> = Vec::new();
    let mut j: usize = 0;
    while j < perm.len()
        invariant
            perm@ == stable_sorted(ranks_s, names_s),
            is_stable_order(ranks_s, names_s, perm@),
            ranks_s.len() == ds.len(),
            forall|k: int| 0 <= k < ds.len() ==> #[trigger] ds@[k].0 < index.packages.len(),
            j <= perm.len(),
            r@ == perm@.take(j as int).map_values(|k: usize| ds@[k as int]),
            forall|k: int| 0 <= k < r.len() ==> #[trigger] r@[k].0 < index.packages.len(),
        decreases perm.len() - j,
    {
        let k = perm[j];
        r.push(ds[k]);
        assert(perm@.take(j + 1) == perm@.take(j as int).push(k));
        j += 1;
    }
    assert(perm@.take(perm.len() as int) == perm@);
    r
}


/// Whether `x` is on the ancestor chain.
fn chain_has(chain: &Vec<u32>, x: u32) -> (b: bool)
    ensures
        b == chain@.contains(x),
{
    let mut i: usize = 0;
    while i < chain.len()
        invariant
            i <= chain.len(),
            forall|j: int| 0 <= j < i ==> chain@[j] != x,
        decreases chain.len() - i,
    {
        if chain[i] == x {
            assert(chain@[i as int] == x);
            return true;
        }
        i += 1;
    }
    false
}

/// Appends the pre-order rows of the subtree of `id` to `rows`, stopping
/// once `cap` rows exist.
fn push_subtree(
    index: &Index,
    state: &TreeState,
    root: u32,
    id: u32,
    nk: NodeKind,
    depth: u8,
    chain: &mut Vec<u32>,
    fuel: usize,
    rows: &mut Vec<TreeRow>,
    cap: usize,
)
    requires
        index.wf(),
        id < index.packages.len(),
        old(rows).len() <= cap,
    ensures
        final(rows)@ == take_cap(
            old(rows)@ + subtree_rows(index, state.expanded.view(), root, id, nk, depth, old(chain)@, fuel as nat),
            cap as nat,
        ),
        final(chain)@ == old(chain)@,
    decreases fuel,
{
    let ghost ex = state.expanded.view();
    let ghost sub = subtree_rows(index, ex, root, id, nk, depth, chain@, fuel as nat);
    if rows.len() >= cap {
        proof { lemma_take_cap_full(rows@, sub, cap as nat); }
        return;
    }
    let ghost start = rows@;
    let ghost chain0 = chain@;
    rows.push(TreeRow {
        key: (id, nk),
        id,
        depth,
        kind: nk,
        children_count: index.packages[id as usize].dep_count(),
        is_section: false,
        transitive_depth: None,
    });
    let ghost row = dep_row(index, id, depth, nk);
    if (id == root || state.expanded.contains((id, nk))) && fuel > 0 {
        let kids = children_sorted(index, id);
        let d1 = next_depth(depth);
        chain.push(id);
        let ghost ch = chain@;
        let ghost kr = kids_rows(index, ex, root, kids@, 0, d1, ch, (fuel - 1) as nat);
        assert(sub == seq![row] + kr);
        assert(rows@ + kr == start + sub);
        let mut i: usize = 0;
        while i < kids.len()
            invariant_except_break
                take_cap(rows@ + kids_rows(index, ex, root, kids@, i as int, d1, ch, (fuel - 1) as nat), cap as nat)
                    == take_cap(start + sub, cap as nat),
            invariant
                index.wf(),
                ex == state.expanded.view(),
                kids@ == sorted_children(index, id),
                forall|j: int| 0 <= j < kids.len() ==> #[trigger] kids@[j].0 < index.packages.len(),
                chain@ == ch,
                i <= kids.len(),
                rows.len() <= cap,
                fuel > 0,
            ensures
                rows@ == take_cap(start + sub, cap as nat),
            decreases kids.len() - i,
        {
            let ghost rest = kids_rows(index, ex, root, kids@, i + 1, d1, ch, (fuel - 1) as nat);
            if rows.len() >= cap {
                proof {
                    lemma_take_cap_full(rows@, kids_rows(index, ex, root, kids@, i as int, d1, ch, (fuel - 1) as nat), cap as nat);
                }
                break;
            }
            let (c, kd) = kids[i];
            if chain_has(chain, c) {
                assert(kids_rows(index, ex, root, kids@, i as int, d1, ch, (fuel - 1) as nat) == Seq::<TreeRow>::empty() + rest);
                assert(Seq::<TreeRow>::empty() + rest == rest);
            } else {
                let ck = node_kind(kd);
                let ghost before = rows@;
                let ghost sc = subtree_rows(index, ex, root, c, ck, d1, ch, (fuel - 1) as nat);
                push_subtree(index, state, root, c, ck, d1, chain, fuel - 1, rows, cap);
                proof {
                    assert(kids_rows(index, ex, root, kids@, i as int, d1, ch, (fuel - 1) as nat) == sc + rest);
                    lemma_take_cap_append(before, sc, rest, cap as nat);
                    assert(before + sc + rest == before + (sc + rest));
                }
            }
            i += 1;
        }
        proof {
            if i >= kids.len() {
                assert(kids_rows(index, ex, root, kids@, i as int, d1, ch, (fuel - 1) as nat) == Seq::<TreeRow>::empty());
                assert(rows@ + Seq::<TreeRow>::empty() == rows@);
            }
        }
        chain.pop();
        assert(chain@ =~= chain0);
    } else {
        assert(sub == seq![row]);
        assert(rows@ == start + sub);
    }
}

/// Flatten the dependency tree of `root` in pre-order: each node's row,
/// then (for the root and expanded nodes) its dependencies by name
/// ascending, each followed by its own subtree. A dependency already on
/// the row's ancestor chain is left out (cycle guard), and the listing
/// stops at the row cap. Returns the rows and their number.
pub fn dep_rows(index: &Index, state: &TreeState, root: u32, cap: usize) -> (r: (Vec<TreeRow>, usize))
    requires
        index.wf(),
    ensures
        r.0@ == dep_rows_spec(index, state.expanded.view(), root, cap),
        r.1 == r.0.len(),
{
    let cap = if cap < ROW_CAP { cap } else { ROW_CAP };
    let n = index.packages.len();
    let mut rows: Vec<TreeRow> = Vec::new();
    if root as usize >= n {
        return (rows, 0);
    }
    let mut chain: Vec<u32> = Vec::new();
    push_subtree(index, state, root, root, NodeKind::Input, 0, &mut chain, n, &mut rows, cap);
    assert(Seq::<TreeRow>::empty() + subtree_rows(index, state.expanded.view(), root, root, NodeKind::Input, 0, Seq::empty(), n as nat)
        == subtree_rows(index, state.expanded.view(), root, root, NodeKind::Input, 0, Seq::empty(), n as nat));
    let total = rows.len();
    (rows, total)
}

/// A row of the reverse view.
pub open spec fn rev_row(index: &Index, id: u32, kind: NodeKind, depth: u8, td: Option<u8>) -> TreeRow {
    TreeRow {
        key: (id, kind),
        id,
        depth,
        kind,
        children_count: index.dependents[id as int].len(),
        is_section: false,
        transitive_depth: td,
    }
}

/// The walk nodes at depth two or more, in order.
pub open spec fn deeper(b: Seq<BfsNode>) -> Seq<BfsNode>
    decreases b.len(),
{
    if b.len() == 0 {
        Seq::empty()
    } else {
        let r = deeper(b.drop_last());
        if b.last().depth >= 2 { r.push(b.last()) } else { r }
    }
}

/// The "Transitive" section header row.
pub open spec fn section_row(count: nat) -> TreeRow {
    TreeRow {
        key: (TRANS_SECTION, NodeKind::RevTrans),
        id: TRANS_SECTION,
        depth: 0,
        kind: NodeKind::RevTrans,
        children_count: count as usize,
        is_section: true,
        transitive_depth: None,
    }
}

/// The flattened reverse-dependency view of `root`: the root, its direct
/// dependents in id order, the "Transitive" header (counting dependents
/// found beyond the direct ones), and, when that section is open, the
/// dependents at depth 2..=8 (at most 500 walked) sorted by name; the
/// whole list is cut to the row cap.
pub open spec fn rev_rows_spec(index: &Index, trans_open: bool, root: u32, cap: usize) -> Seq<TreeRow> {
    if root >= index.packages.len() {
        Seq::empty()
    } else {
        let direct = index.dependents[root as int]@;
        let head = seq![rev_row(index, root, NodeKind::RevDirect, 0, None)]
            + direct.map_values(|d: u32| rev_row(index, d, NodeKind::RevDirect, 1, None));
        let (trans, total) = index.bfs_spec(root, REV_DEPTH, TRANS_CAP, true);
        let tc = if total >= direct.len() { (total - direct.len()) as nat } else { 0 };
        let rows0 = head.push(section_row(tc));
        let all = if !trans_open {
            rows0
        } else {
            let deep = deeper(trans);
            let names = deep.map_values(|b: BfsNode| index.packages[b.id as int].name@);
            let perm = stable_sorted(Seq::new(deep.len(), |i: int| 0usize), names);
            rows0 + perm.map_values(|k: usize| rev_row(index, deep[k as int].id, NodeKind::RevTrans, 1, Some(deep[k as int].depth)))
        };
        if all.len() >= row_cap(cap) { all.take(row_cap(cap) as int) } else { all }
    }
}

/// Law of `deeper`: it keeps, in order, exactly the walk nodes at depth
/// two or more.
pub proof fn law_deeper_keeps_depth_two(b: Seq<BfsNode>)
    ensures
        deeper(b).len() <= b.len(),
        forall|i: int| 0 <= i < deeper(b).len() ==>
            (#[trigger] deeper(b)[i]).depth >= 2 && b.contains(deeper(b)[i]),
        forall|m: int| 0 <= m < b.len() && (#[trigger] b[m]).depth >= 2 ==> deeper(b).contains(b[m]),
    decreases b.len(),
{
    if b.len() > 0 {
        let d = b.drop_last();
        law_deeper_keeps_depth_two(d);
        let r = deeper(d);
        let x = deeper(b);
        assert forall|i: int| 0 <= i < x.len() implies (#[trigger] x[i]).depth >= 2 && b.contains(x[i]) by {
            if i < r.len() {
                assert(x[i] == r[i]);
                let m = choose|m: int| 0 <= m < d.len() && d[m] == r[i];
                assert(b[m] == d[m]);
            } else {
                assert(x[i] == b.last());
                assert(b[b.len() - 1] == b.last());
            }
        }
        assert forall|m: int| 0 <= m < b.len() && (#[trigger] b[m]).depth >= 2 implies x.contains(b[m]) by {
            if m < d.len() {
                assert(d[m] == b[m]);
                assert(r.contains(b[m]));
                let k = choose|k: int| 0 <= k < r.len() && r[k] == b[m];
                assert(x[k] == r[k]);
            } else {
                assert(x[x.len() - 1] == b[m]);
            }
        }
    }
}

/// Law (the transitive section holds only indirect dependents): every row
/// of the "Transitive" section of the reverse view is a dependent found at
/// depth 2 to `REV_DEPTH`, never the root and never a direct dependent of
/// the root.
pub proof fn law_transitive_rows(index: &Index, trans_open: bool, root: u32, cap: usize, j: int)
    requires
        index.wf(),
        0 <= j < rev_rows_spec(index, trans_open, root, cap).len(),
        rev_rows_spec(index, trans_open, root, cap)[j].kind == NodeKind::RevTrans,
        !rev_rows_spec(index, trans_open, root, cap)[j].is_section,
    ensures
        ({
            let row = rev_rows_spec(index, trans_open, root, cap)[j];
            &&& row.transitive_depth matches Some(d) && 2 <= d <= REV_DEPTH
            &&& row.id != root
            &&& !index.dependents[root as int]@.contains(row.id)
        }),
{
    let rows = rev_rows_spec(index, trans_open, root, cap);
    let direct = index.dependents[root as int]@;
    let head = seq![rev_row(index, root, NodeKind::RevDirect, 0, None)]
        + direct.map_values(|d: u32| rev_row(index, d, NodeKind::RevDirect, 1, None));
    let (trans, total) = index.bfs_spec(root, REV_DEPTH, TRANS_CAP, true);
    let tc = if total >= direct.len() { (total - direct.len()) as nat } else { 0 };
    let rows0 = head.push(section_row(tc));
    let deep = deeper(trans);
    let names = deep.map_values(|b: BfsNode| index.packages[b.id as int].name@);
    let ranks = Seq::new(deep.len(), |i: int| 0usize);
    let perm = stable_sorted(ranks, names);
    let tail = perm.map_values(|k: usize| rev_row(index, deep[k as int].id, NodeKind::RevTrans, 1, Some(deep[k as int].depth)));
    let all = if !trans_open { rows0 } else { rows0 + tail };
    assert(rows[j] == all[j]);
    if j < rows0.len() {
        if j < head.len() {
            if j > 0 {
                assert(head[j] == rev_row(index, direct[j - 1], NodeKind::RevDirect, 1, None));
            }
        } else {
            assert(rows0[j] == section_row(tc));
        }
    } else {
        assert(trans_open);
        crate::index::law_bfs_sound(index, root, REV_DEPTH, TRANS_CAP, true);
        law_deeper_keeps_depth_two(trans);
        crate::order::lemma_stable_sorted_ok(ranks, names);
        let t = j - rows0.len();
        assert(all[j] == tail[t]);
        let k = perm[t];
        assert(k < deep.len());
        let node = deep[k as int];
        assert(node.depth >= 2);
        assert(trans.contains(node));
        let m = choose|m: int| 0 <= m < trans.len() && trans[m] == node;
        assert(trans[m].id != root && trans[m].depth <= REV_DEPTH);
        if direct.contains(node.id) {
            crate::index::law_direct_dependents_depth_one(index, root, REV_DEPTH, TRANS_CAP, node.id);
            assert(trans[m].id == node.id);
        }
    }
}

/// Flatten the reverse-dependency view of `root`. Returns the rows and their number.
pub fn rev_rows(index: &Index, state: &RevState, root: u32, cap: usize) -> (r: (Vec<TreeRow>, usize))
    requires
        index.wf(),
    ensures
        r.0@ == rev_rows_spec(index, state.trans_open, root, cap),
        r.1 == r.0.len(),
{
    let cap = if cap < ROW_CAP { cap } else { ROW_CAP };
    let n = index.packages.len();
    let mut rows: Vec<TreeRow> = Vec::new();
    if root as usize >= n {
        return (rows, 0);
    }
    rows.push(TreeRow {
        key: (root, NodeKind::RevDirect),
        id: root,
        depth: 0,
        kind: NodeKind::RevDirect,
        children_count: index.dependents_count(root),
        is_section: false,
        transitive_depth: None,
    });
    let direct = &index.dependents[root as usize];
    let ghost dmap = direct@.map_values(|d: u32| rev_row(index, d, NodeKind::RevDirect, 1, None));
    let mut i: usize = 0;
    while i < direct.len()
        invariant
            index.wf(),
            root < index.packages.len(),
            direct@ == index.dependents[root as int]@,
            dmap == direct@.map_values(|d: u32| rev_row(index, d, NodeKind::RevDirect, 1, None)),
            i <= direct.len(),
            rows@ == seq![rev_row(index, root, NodeKind::RevDirect, 0, None)] + dmap.take(i as int),
        decreases direct.len() - i,
    {
        let d = direct[i];
        assert(d < index.packages.len());
        rows.push(TreeRow {
            key: (d, NodeKind::RevDirect),
            id: d,
            depth: 1,
            kind: NodeKind::RevDirect,
            children_count: index.dependents_count(d),
            is_section: false,
            transitive_depth: None,
        });
        assert(dmap.take(i + 1) == dmap.take(i as int).push(dmap[i as int]));
        i += 1;
    }
    assert(dmap.take(direct.len() as int) == dmap);
    let (trans, total_seen) = index.dependents_bfs(root, REV_DEPTH, TRANS_CAP);
    proof { crate::index::law_bfs_sound(index, root, REV_DEPTH, TRANS_CAP, true); }
    let transitive_count = if total_seen >= direct.len() { total_seen - direct.len() } else { 0 };
    rows.push(TreeRow {
        key: (TRANS_SECTION, NodeKind::RevTrans),
        id: TRANS_SECTION,
        depth: 0,
        kind: NodeKind::RevTrans,
        children_count: transitive_count,
        is_section: true,
        transitive_depth: None,
    });
    if state.trans_open {
        // the deeper nodes, in walk order
        let mut deep: Vec<BfsNode> = Vec::new();
        let mut t: usize = 0;
        while t < trans.len()
            invariant
                t <= trans.len(),
                deep@ == deeper(trans@.take(t as int)),
                forall|k: int| 0 <= k < trans.len() ==> #[trigger] trans@[k].id < index.packages.len(),
                forall|k: int| 0 <= k < deep.len() ==> #[trigger] deep@[k].id < index.packages.len(),
            decreases trans.len() - t,
        {
            assert(trans@.take(t + 1).drop_last() == trans@.take(t as int));
            if trans[t].depth >= 2 {
                deep.push(trans[t]);
            }
            t += 1;
        }
        assert(trans@.take(trans.len() as int) == trans@);
        let ghost names_s = deep@.map_values(|b: BfsNode| index.packages[b.id as int].name@);
        let ghost ranks_s = Seq::new(deep@.len(), |i: int| 0usize);
        let mut ranks: Vec<usize> = Vec::new();
        let mut names: Vec<Vec<char>> = Vec::new();
        let mut j: usize = 0;
        while j < deep.len()
            invariant
                index.wf(),
                forall|k: int| 0 <= k < deep.len() ==> #[trigger] deep@[k].id < index.packages.len(),
                names_s == deep@.map_values(|b: BfsNode| index.packages[b.id as int].name@),
                ranks_s == Seq::new(deep@.len(), |i: int| 0usize),
                j <= deep.len(),
                ranks@ == ranks_s.take(j as int),
                names@.map_values(|v: Vec<char>| v@) == names_s.take(j as int),
                names.len() == j,
            decreases deep.len() - j,
        {
            let ghost old_names = names@;
            ranks.push(0);
            names.push(chars_of(index.packages[deep[j].id as usize].name.as_str()));
            proof {
                assert(ranks@ == ranks_s.take(j + 1));
                assert(names@.map_values(|v: Vec<char>| v@) == old_names.map_values(|v: Vec<char>| v@).push(names_s[j as int]));
                assert(names_s.take(j + 1) == names_s.take(j as int).push(names_s[j as int]));
            }
            j += 1;
        }
        proof {
            assert(ranks_s.take(deep.len() as int) == ranks_s);
            assert(names_s.take(deep.len() as int) == names_s);
        }
        let perm = stable_order(&ranks, &names);
        proof { lemma_is_stable_sorted(ranks_s, names_s, perm@); }
        let ghost rows0 = rows@;
        let ghost tail = perm@.map_values(|k: usize| rev_row(index, deep@[k as int].id, NodeKind::RevTrans, 1, Some(deep@[k as int].depth)));
        let mut q: usize = 0;
        while q < perm.len()
            invariant
                index.wf(),
                is_stable_order(ranks_s, names_s, perm@),
                ranks_s.len() == deep.len(),
                forall|k: int| 0 <= k < deep.len() ==> #[trigger] deep@[k].id < index.packages.len(),
                tail == perm@.map_values(|k: usize| rev_row(index, deep@[k as int].id, NodeKind::RevTrans, 1, Some(deep@[k as int].depth))),
                q <= perm.len(),
                rows@ == rows0 + tail.take(q as int),
            decreases perm.len() - q,
        {
            let b = deep[perm[q]];
            rows.push(TreeRow {
                key: (b.id, NodeKind::RevTrans),
                id: b.id,
                depth: 1,
                kind: NodeKind::RevTrans,
                children_count: index.dependents_count(b.id),
                is_section: false,
                transitive_depth: Some(b.depth),
            });
            assert(tail.take(q + 1) == tail.take(q as int).push(tail[q as int]));
            q += 1;
        }
        assert(tail.take(perm.len() as int) == tail);
    }
    if rows.len() >= cap {
        rows.truncate(cap);
    }
    let total = rows.len();
    (rows, total)
}


/// `n` copies of two spaces.
pub open spec fn indent_spec(n: nat) -> Seq<char>
    decreases n,
{
    if n == 0 { Seq::empty() } else { indent_spec((n - 1) as nat) + seq![' ', ' '] }
}

fn indent(n: usize) -> (s: String)
    ensures
        s@ == indent_spec(n as nat),
{
    let mut s = String::new();
    let mut i: usize = 0;
    while i < n
        invariant
            i <= n,
            s@ == indent_spec(i as nat),
        decreases n - i,
    {
        push_char(&mut s, ' ');
        push_char(&mut s, ' ');
        i += 1;
    }
    s
}

/// Whether the children of `row` are shown: reverse rows by the reverse
/// set; dependency rows when they are the selection or in the tree set.
pub open spec fn row_expanded(row: TreeRow, selected: Option<u32>, tree: Set<NodeKey>, rev: Set<NodeKey>) -> bool {
    match row.kind {
        NodeKind::RevDirect | NodeKind::RevTrans => rev.contains(row.key),
        _ => row.id == (match selected { Some(s) => s, None => u32::MAX }) || tree.contains(row.key),
    }
}

/// The version piece of a row (none for an empty version).
pub open spec fn version_piece(version: Seq<char>) -> Seq<(Seq<char>, Tone)> {
    if version.len() > 0 { seq![(" "@ + version, Tone::Muted)] } else { Seq::empty() }
}

/// The badge piece of a row: `P` for propagated, `N` for native inputs,
/// the depth of a transitive dependent.
pub open spec fn badge_piece(row: TreeRow) -> Seq<(Seq<char>, Tone)> {
    match row.kind {
        NodeKind::Propagated => seq![(" P"@, Tone::BadgePBold)],
        NodeKind::Native => seq![(" N"@, Tone::BadgeNBold)],
        NodeKind::RevTrans => match row.transitive_depth {
            Some(d) => seq![(" d"@ + decimal(d as nat), Tone::Accent2)],
            None => Seq::empty(),
        },
        _ => Seq::empty(),
    }
}

/// The dependent-count piece of a row (none without dependents).
pub open spec fn dependents_piece(n: nat) -> Seq<(Seq<char>, Tone)> {
    if n > 0 { seq![(" ⤴"@ + decimal(n), Tone::BadgeP)] } else { Seq::empty() }
}

/// The synopsis preview of a direct row: its first 50 characters.
pub open spec fn synopsis_piece(depth: u8, synopsis: Seq<char>) -> Seq<(Seq<char>, Tone)> {
    if depth <= 1 && synopsis.len() > 0 { seq![("  "@ + first_chars(synopsis, 50), Tone::Muted)] } else { Seq::empty() }
}

/// The expand glyph of a row.
pub open spec fn glyph_spec(row: TreeRow, selected: Option<u32>, tree: Set<NodeKey>, rev: Set<NodeKey>) -> Seq<char> {
    if row.children_count > 0 {
        if row_expanded(row, selected, tree, rev) { "▾"@ } else { "▸"@ }
    } else {
        " "@
    }
}

/// The pieces of a tree row as rendered: indentation, then either the
/// transitive section header or the glyph, name, version, badges,
/// dependent count and (for direct rows) a synopsis preview.
pub open spec fn row_segments_spec(
    index: &Index,
    row: TreeRow,
    selected: Option<u32>,
    tree: Set<NodeKey>,
    rev: Set<NodeKey>,
    trans_open: bool,
    reverse: bool,
) -> Seq<(Seq<char>, Tone)> {
    let ind: nat = if row.is_section { if row.depth >= 1 { (row.depth - 1) as nat } else { 0 } } else { row.depth as nat };
    let head = seq![(indent_spec(ind), Tone::Plain)];
    if row.is_section {
        let glyph = if reverse && trans_open { "▾"@ } else { "▸"@ };
        head + seq![(glyph + " Transitive (depth 2+, "@ + decimal(row.children_count as nat) + " reached)"@, Tone::Accent2Bold)]
    } else {
        let p = index.packages[row.id as int];
        head + seq![(glyph_spec(row, selected, tree, rev) + " "@, Tone::Plain), (p.name@, Tone::AccentBold)]
            + version_piece(p.version@) + badge_piece(row)
            + dependents_piece(index.dependents[row.id as int].len() as nat)
            + synopsis_piece(row.depth, p.synopsis@)
    }
}

/// Text and tone of each piece.
pub open spec fn segment_views(v: Seq<(String, Tone)>) -> Seq<(Seq<char>, Tone)> {
    v.map_values(|x: (String, Tone)| (x.0@, x.1))
}

fn push_seg(v: &mut Vec<(String, Tone)>, s: String, t: Tone)
    ensures
        segment_views(final(v)@) == segment_views(old(v)@).push((s@, t)),
{
    let ghost before = old(v)@;
    v.push((s, t));
    assert(segment_views(v@) =~= segment_views(before).push((s@, t)));
}

fn push_version(v: &mut Vec<(String, Tone)>, version: &String)
    ensures
        segment_views(final(v)@) == segment_views(old(v)@) + version_piece(version@),
{
    if !version.as_str().is_empty() {
        push_seg(v, concat(" ", version.as_str()), Tone::Muted);
    }
}

fn push_badge(v: &mut Vec<(String, Tone)>, row: &TreeRow)
    ensures
        segment_views(final(v)@) == segment_views(old(v)@) + badge_piece(*row),
{
    match row.kind {
        NodeKind::Propagated => push_seg(v, " P".to_owned(), Tone::BadgePBold),
        NodeKind::Native => push_seg(v, " N".to_owned(), Tone::BadgeNBold),
        NodeKind::RevTrans => {
            if let Some(d) = row.transitive_depth {
                push_seg(v, concat(" d", u64_to_decimal(d as u64).as_str()), Tone::Accent2);
            }
        },
        _ => {},
    }
}

fn push_dependents(v: &mut Vec<(String, Tone)>, n: usize)
    ensures
        segment_views(final(v)@) == segment_views(old(v)@) + dependents_piece(n as nat),
{
    if n > 0 {
        push_seg(v, concat(" ⤴", u64_to_decimal(n as u64).as_str()), Tone::BadgeP);
    }
}

fn push_synopsis(v: &mut Vec<(String, Tone)>, depth: u8, synopsis: &String)
    ensures
        segment_views(final(v)@) == segment_views(old(v)@) + synopsis_piece(depth, synopsis@),
{
    if depth <= 1 && !synopsis.as_str().is_empty() {
        let syn = take_chars(synopsis.as_str(), 50);
        push_seg(v, concat("  ", syn.as_str()), Tone::Muted);
    }
}

/// The pieces of a tree row as rendered (`reverse`: the reverse view).
pub fn row_segments(
    index: &Index,
    row: &TreeRow,
    selected: Option<u32>,
    tree: &TreeState,
    rev: &RevState,
    reverse: bool,
) -> (r: Vec<(String, Tone)>)
    requires
        row.is_section || (row.id < index.packages.len() && index.dependents.len() == index.packages.len()),
    ensures
        segment_views(r@) == row_segments_spec(index, *row, selected, tree.expanded.view(), rev.expanded.view(), rev.trans_open, reverse),
{
    let mut r: Vec<(String, Tone)> = Vec::new();
    let ind: usize = if row.is_section { if row.depth >= 1 { (row.depth - 1) as usize } else { 0 } } else { row.depth as usize };
    push_seg(&mut r, indent(ind), Tone::Plain);
    if row.is_section {
        let glyph = if reverse && rev.trans_open { "▾" } else { "▸" };
        let a = concat(glyph, " Transitive (depth 2+, ");
        let b = concat(a.as_str(), u64_to_decimal(row.children_count as u64).as_str());
        push_seg(&mut r, concat(b.as_str(), " reached)"), Tone::Accent2Bold);
        return r;
    }
    let p = &index.packages[row.id as usize];
    let expanded = match row.kind {
        NodeKind::RevDirect | NodeKind::RevTrans => rev.expanded.contains(row.key),
        _ => row.id == (match selected { Some(s) => s, None => u32::MAX }) || tree.expanded.contains(row.key),
    };
    let glyph = if row.children_count > 0 {
        if expanded { "▾" } else { "▸" }
    } else {
        " "
    };
    assert(glyph@ == glyph_spec(*row, selected, tree.expanded.view(), rev.expanded.view()));
    push_seg(&mut r, concat(glyph, " "), Tone::Plain);
    push_seg(&mut r, p.name.clone(), Tone::AccentBold);
    push_version(&mut r, &p.version);
    push_badge(&mut r, row);
    push_dependents(&mut r, index.dependents[row.id as usize].len());
    push_synopsis(&mut r, row.depth, &p.synopsis);
    r
}

/// The title of the dependency tree of the selected package, if any.
pub fn deps_title(selected: Option<(&str, &str)>) -> (s: String)
    ensures
        s@ == match selected {
            Some((name, version)) => " dependencies of "@ + name@ + " "@ + version@ + " — Enter expand/collapse "@,
            None => " dependencies "@,
        },
{
    match selected {
        Some((name, version)) => {
            let a = concat(" dependencies of ", name);
            let b = concat(a.as_str(), " ");
            let c = concat(b.as_str(), version);
            concat(c.as_str(), " — Enter expand/collapse ")
        },
        None => " dependencies ".to_owned(),
    }
}

/// The title of the reverse-dependency tree of the selected package, if any.
pub fn revs_title(selected: Option<(&str, &str)>) -> (s: String)
    ensures
        s@ == match selected {
            Some((name, version)) => " who depends on "@ + name@ + " "@ + version@ + " — Enter expand/collapse "@,
            None => " reverse dependencies "@,
        },
{
    match selected {
        Some((name, version)) => {
            let a = concat(" who depends on ", name);
            let b = concat(a.as_str(), " ");
            let c = concat(b.as_str(), version);
            concat(c.as_str(), " — Enter expand/collapse ")
        },
        None => " reverse dependencies ".to_owned(),
    }
}

} // verus!
