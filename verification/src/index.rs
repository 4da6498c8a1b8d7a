//! In-memory package index: interned names, reverse dependency edges,
//! and bounded BFS traversals used by the tree and graph views.

use vstd::prelude::*;

use crate::error::IndexError;
use crate::model::{IndexDoc, PkgJson, SCHEMA_VERSION};
use crate::strtable::{insert_absent, seq_lookup, StrTable};
use crate::text::parse_u64;

verus! {

/// How many synopsis characters go into the fuzzy-search haystack.
pub const SYN_LIMIT: usize = 200;

/// The kind of a dependency edge.
#[derive(Debug, Clone, Copy, PartialEq, Eq, Structural, Hash)]
pub enum DepKind {
    Input,
    Propagated,
    Native,
}

impl DepKind {
    /// Badge text: empty for plain inputs, `P` for propagated, `N` for native.
    pub fn label(self) -> (s: &'static str)
        ensures
            s@ == match self {
                DepKind::Input => ""@,
                DepKind::Propagated => "P"@,
                DepKind::Native => "N"@,
            },
    {
        match self {
            DepKind::Input => "",
            DepKind::Propagated => "P",
            DepKind::Native => "N",
        }
    }
}

/// One package. Dependency lists hold package *ids*.
#[derive(Debug)]
pub struct Package {
    pub id: u32,
    pub name: String,
    pub version: String,
    pub synopsis: String,
    pub description: String,
    pub homepage: String,
    pub licenses: Vec<String>,
    pub file: String,
    pub line: u64,
    pub attribute: String,
    pub store_path: String,
    pub installed: bool,
    pub flake: String,
    pub inputs: Vec<u32>,
    pub propagated: Vec<u32>,
    pub native: Vec<u32>,
}

/// Whether some edge of `e` leads to `d`.
pub open spec fn has_id(e: Seq<(u32, DepKind)>, d: u32) -> bool {
    exists|i: int| 0 <= i < e.len() && e[i].0 == d
}

/// `acc` extended by the ids of `ids` (in order) tagged `kind`, skipping any
/// id that is already present: the first occurrence wins.
pub open spec fn dedup_push(acc: Seq<(u32, DepKind)>, ids: Seq<u32>, kind: DepKind) -> Seq<(u32, DepKind)>
    decreases ids.len(),
{
    if ids.len() == 0 {
        acc
    } else {
        let a = dedup_push(acc, ids.drop_last(), kind);
        if has_id(a, ids.last()) { a } else { a.push((ids.last(), kind)) }
    }
}

/// All direct dependencies of a package with their edge kind: inputs, then
/// propagated, then native inputs, each id once at its first occurrence.
pub open spec fn deps_of(inputs: Seq<u32>, propagated: Seq<u32>, native: Seq<u32>) -> Seq<(u32, DepKind)> {
    dedup_push(
        dedup_push(dedup_push(Seq::empty(), inputs, DepKind::Input), propagated, DepKind::Propagated),
        native,
        DepKind::Native,
    )
}

/// The ids in `e` whose edge kind is `k`, in order.
pub open spec fn kind_ids(e: Seq<(u32, DepKind)>, k: DepKind) -> Seq<u32>
    decreases e.len(),
{
    if e.len() == 0 {
        Seq::empty()
    } else {
        let r = kind_ids(e.drop_last(), k);
        if e.last().1 == k { r.push(e.last().0) } else { r }
    }
}

impl Package {
    /// `deps()` as a mathematical sequence.
    pub open spec fn deps_spec(&self) -> Seq<(u32, DepKind)> {
        deps_of(self.inputs@, self.propagated@, self.native@)
    }

    /// All direct dependencies with their edge kind, deduplicated across
    /// input kinds (a package listed in both `inputs` and `native` appears
    /// once, as its first occurrence).
    pub fn deps(&self) -> (r: Vec<(u32, DepKind)>)
        ensures
            r@ == self.deps_spec(),
    {
        let mut r: Vec<(u32, DepKind)> = Vec::new();
        push_unique(&mut r, &self.inputs, DepKind::Input);
        push_unique(&mut r, &self.propagated, DepKind::Propagated);
        push_unique(&mut r, &self.native, DepKind::Native);
        r
    }

    /// Total length of the three dependency lists (before deduplication).
    pub fn dep_count(&self) -> (n: usize)
        requires
            self.inputs.len() + self.propagated.len() + self.native.len() <= usize::MAX,
        ensures
            n == self.inputs.len() + self.propagated.len() + self.native.len(),
    {
        self.inputs.len() + self.propagated.len() + self.native.len()
    }
}

/// Whether some edge of `e` leads to `d` (executable).
fn contains_id(e: &Vec<(u32, DepKind)>, d: u32) -> (b: bool)
    ensures
        b == has_id(e@, d),
{
    let mut i: usize = 0;
    while i < e.len()
        invariant
            i <= e.len(),
            forall|j: int| 0 <= j < i ==> e@[j].0 != d,
        decreases e.len() - i,
    {
        if e[i].0 == d {
            return true;
        }
        i += 1;
    }
    false
}

/// Appends the ids of `ids` tagged `kind`, skipping those already present.
fn push_unique(acc: &mut Vec<(u32, DepKind)>, ids: &Vec<u32>, kind: DepKind)
    ensures
        final(acc)@ == dedup_push(old(acc)@, ids@, kind),
{
    let ghost start = acc@;
    let mut t: usize = 0;
    while t < ids.len()
        invariant
            t <= ids.len(),
            acc@ == dedup_push(start, ids@.take(t as int), kind),
        decreases ids.len() - t,
    {
        assert(ids@.take(t + 1).drop_last() == ids@.take(t as int));
        let d = ids[t];
        if !contains_id(acc, d) {
            acc.push((d, kind));
        }
        t += 1;
    }
    assert(ids@.take(ids.len() as int) == ids@);
}

/// The ids of `e` with kind `k`.
fn ids_of_kind(e: &Vec<(u32, DepKind)>, k: DepKind) -> (r: Vec<u32>)
    ensures
        r@ == kind_ids(e@, k),
{
    let mut r: Vec<u32> = Vec::new();
    let mut i: usize = 0;
    while i < e.len()
        invariant
            i <= e.len(),
            r@ == kind_ids(e@.take(i as int), k),
        decreases e.len() - i,
    {
        assert(e@.take(i + 1).drop_last() == e@.take(i as int));
        if e[i].1 == k {
            r.push(e[i].0);
        }
        i += 1;
    }
    assert(e@.take(e.len() as int) == e@);
    r
}

/// A node reached by a BFS walk, tagged with depth and the edge kind of the
/// link from its parent (for reverse walks the kind is always `None`).
#[derive(Debug, Clone, Copy, PartialEq, Eq)]
pub struct BfsNode {
    pub id: u32,
    pub depth: u8,
    pub kind: Option<DepKind>,
}


// ---------------------------------------------------------------------------
// The document model of an index
// ---------------------------------------------------------------------------

/// First-occurrence table of package names in document order: each
/// distinct name maps to the id of the first package that carries it.
pub open spec fn name_entries(pkgs: Seq<PkgJson>) -> Seq<(Seq<char>, u32)>
    decreases pkgs.len(),
{
    if pkgs.len() == 0 {
        Seq::empty()
    } else {
        insert_absent(name_entries(pkgs.drop_last()), pkgs.last().name@, pkgs.last().id)
    }
}

/// Module files in order of first appearance (empty files skipped); each
/// maps to its slot number.
pub open spec fn file_entries(pkgs: Seq<PkgJson>) -> Seq<(Seq<char>, u32)>
    decreases pkgs.len(),
{
    if pkgs.len() == 0 {
        Seq::empty()
    } else {
        let e = file_entries(pkgs.drop_last());
        let f = pkgs.last().file.0@;
        if f.len() == 0 { e } else { insert_absent(e, f, e.len() as u32) }
    }
}

/// Ids of the packages defined in module file `f`, in document order.
pub open spec fn module_members(pkgs: Seq<PkgJson>, f: Seq<char>) -> Seq<u32>
    decreases pkgs.len(),
{
    if pkgs.len() == 0 {
        Seq::empty()
    } else {
        let r = module_members(pkgs.drop_last(), f);
        if pkgs.last().file.0@ == f { r.push(pkgs.last().id) } else { r }
    }
}

/// The ids that `names` resolve to through `table`, in order; names the
/// table does not know are dropped.
pub open spec fn resolve_all(table: Seq<(Seq<char>, u32)>, names: Seq<String>) -> Seq<u32>
    decreases names.len(),
{
    if names.len() == 0 {
        Seq::empty()
    } else {
        let r = resolve_all(table, names.drop_last());
        match seq_lookup(table, names.last()@) {
            Some(d) => r.push(d),
            None => r,
        }
    }
}

/// The dependency edges of a document package: resolved inputs, then
/// propagated, then native inputs, each target once at its first occurrence.
pub open spec fn edges_for(table: Seq<(Seq<char>, u32)>, pj: PkgJson) -> Seq<(u32, DepKind)> {
    deps_of(
        resolve_all(table, pj.inputs@),
        resolve_all(table, pj.propagated_inputs@),
        resolve_all(table, pj.native_inputs@),
    )
}

/// The validation failure of document package `k`, judged against the
/// packages before it, if any.
pub open spec fn pkg_error(pkgs: Seq<PkgJson>, k: int, n: nat) -> Option<IndexError> {
    let p = pkgs[k];
    if p.id >= n {
        Some(IndexError::IdOutOfRange(p.id, n as usize))
    } else if exists|j: int| 0 <= j < k && pkgs[j].id == p.id {
        Some(IndexError::DuplicateId(p.id))
    } else if p.name@.len() == 0 {
        Some(IndexError::EmptyName(p.id))
    } else {
        None
    }
}

/// The first failure among the first `k` document packages.
pub open spec fn scan_error(pkgs: Seq<PkgJson>, n: nat, k: nat) -> Option<IndexError>
    decreases k,
{
    if k == 0 {
        None
    } else {
        match scan_error(pkgs, n, (k - 1) as nat) {
            Some(e) => Some(e),
            None => pkg_error(pkgs, k - 1, n),
        }
    }
}

/// Why `doc` is rejected, if it is: wrong schema, a package count that
/// disagrees with the package list, or the first bad package.
pub open spec fn doc_error(doc: IndexDoc) -> Option<IndexError> {
    let n = doc.packages@.len();
    if doc.header.schema != SCHEMA_VERSION {
        Some(IndexError::Schema(doc.header.schema, SCHEMA_VERSION))
    } else if doc.header.package_count != n {
        Some(IndexError::Count(doc.header.package_count, n as usize))
    } else {
        scan_error(doc.packages@, n, n)
    }
}

/// `p` is the in-memory form of document package `pj`, with dependency
/// names resolved through `table`.
pub open spec fn converted(p: Package, pj: PkgJson, table: Seq<(Seq<char>, u32)>) -> bool {
    let e = edges_for(table, pj);
    &&& p.id == pj.id
    &&& p.name@ == pj.name@
    &&& p.version@ == pj.version@
    &&& p.synopsis@ == pj.synopsis@
    &&& p.description@ == pj.description@
    &&& p.homepage@ == pj.homepage@
    &&& p.licenses@ == pj.licenses@
    &&& p.file@ == pj.file.0@
    &&& p.line == pj.file.1
    &&& p.attribute@ == pj.attribute@
    &&& p.store_path@ == pj.store_path@
    &&& p.installed == pj.installed
    &&& p.flake@ == pj.flake@
    &&& p.inputs@ == kind_ids(e, DepKind::Input)
    &&& p.propagated@ == kind_ids(e, DepKind::Propagated)
    &&& p.native@ == kind_ids(e, DepKind::Native)
}

/// Whether package `p` lists `d` among any of its dependency kinds.
pub open spec fn pkg_has_dep(p: Package, d: u32) -> bool {
    p.inputs@.contains(d) || p.propagated@.contains(d) || p.native@.contains(d)
}

/// Whether `s` is strictly increasing.
pub open spec fn strictly_increasing(s: Seq<u32>) -> bool {
    forall|i: int, j: int| 0 <= i < j < s.len() ==> s[i] < s[j]
}

// ---------------------------------------------------------------------------
// Lemmas on the model
// ---------------------------------------------------------------------------

/// Every name-table value is the id of some document package.
pub proof fn lemma_name_entries_ids(pkgs: Seq<PkgJson>, i: int)
    requires
        0 <= i < name_entries(pkgs).len(),
    ensures
        exists|k: int| 0 <= k < pkgs.len() && pkgs[k].id == name_entries(pkgs)[i].1,
    decreases pkgs.len(),
{
    let p = pkgs.drop_last();
    let e = name_entries(p);
    if i < e.len() {
        lemma_name_entries_ids(p, i);
        let k = choose|k: int| 0 <= k < p.len() && p[k].id == e[i].1;
        assert(pkgs[k] == p[k]);
    } else {
        assert(pkgs[pkgs.len() - 1].id == name_entries(pkgs)[i].1);
    }
}

/// A resolved id is a value of the table.
pub proof fn lemma_resolve_all_values(table: Seq<(Seq<char>, u32)>, names: Seq<String>, n: nat)
    requires
        forall|i: int| 0 <= i < table.len() ==> table[i].1 < n,
    ensures
        forall|i: int| 0 <= i < resolve_all(table, names).len() ==> resolve_all(table, names)[i] < n,
    decreases names.len(),
{
    if names.len() > 0 {
        let p = resolve_all(table, names.drop_last());
        lemma_resolve_all_values(table, names.drop_last(), n);
        if seq_lookup(table, names.last()@) is Some {
            crate::strtable::lemma_lookup_found(table, names.last()@);
            let r = resolve_all(table, names);
            assert forall|i: int| 0 <= i < r.len() implies r[i] < n by {
                if i < p.len() {
                    assert(r[i] == p[i]);
                }
            }
        }
    }
}

/// Deduplicated edges hold distinct targets, all drawn from the inputs.
pub proof fn lemma_dedup_push(acc: Seq<(u32, DepKind)>, ids: Seq<u32>, kind: DepKind, n: nat)
    requires
        forall|i: int, j: int| 0 <= i < j < acc.len() ==> acc[i].0 != acc[j].0,
        forall|i: int| 0 <= i < acc.len() ==> acc[i].0 < n,
        forall|i: int| 0 <= i < ids.len() ==> ids[i] < n,
    ensures
        ({
            let r = dedup_push(acc, ids, kind);
            &&& forall|i: int, j: int| 0 <= i < j < r.len() ==> r[i].0 != r[j].0
            &&& forall|i: int| 0 <= i < r.len() ==> r[i].0 < n
            &&& acc.len() <= r.len()
            &&& forall|i: int| 0 <= i < acc.len() ==> r[i] == acc[i]
        }),
    decreases ids.len(),
{
    if ids.len() > 0 {
        lemma_dedup_push(acc, ids.drop_last(), kind, n);
    }
}

/// The three kind-filtered id lists partition the edges.
pub proof fn lemma_kind_ids_partition(e: Seq<(u32, DepKind)>)
    ensures
        kind_ids(e, DepKind::Input).len() + kind_ids(e, DepKind::Propagated).len()
            + kind_ids(e, DepKind::Native).len() == e.len(),
        forall|d: u32| #![trigger has_id(e, d)]
            has_id(e, d) <==> (kind_ids(e, DepKind::Input).contains(d) || kind_ids(e, DepKind::Propagated).contains(d)
                || kind_ids(e, DepKind::Native).contains(d)),
    decreases e.len(),
{
    if e.len() > 0 {
        let p = e.drop_last();
        lemma_kind_ids_partition(p);
        assert forall|d: u32| #![trigger has_id(e, d)]
            has_id(e, d) <==> (kind_ids(e, DepKind::Input).contains(d) || kind_ids(e, DepKind::Propagated).contains(d)
                || kind_ids(e, DepKind::Native).contains(d)) by {
            if has_id(e, d) {
                let i = choose|i: int| 0 <= i < e.len() && e[i].0 == d;
                if i < p.len() {
                    assert(p[i] == e[i]);
                    assert(has_id(p, d));
                    if kind_ids(p, DepKind::Input).contains(d) {
                        let j = choose|j: int| 0 <= j < kind_ids(p, DepKind::Input).len() && kind_ids(p, DepKind::Input)[j] == d;
                        assert(kind_ids(e, DepKind::Input)[j] == d);
                    } else if kind_ids(p, DepKind::Propagated).contains(d) {
                        let j = choose|j: int| 0 <= j < kind_ids(p, DepKind::Propagated).len() && kind_ids(p, DepKind::Propagated)[j] == d;
                        assert(kind_ids(e, DepKind::Propagated)[j] == d);
                    } else {
                        let j = choose|j: int| 0 <= j < kind_ids(p, DepKind::Native).len() && kind_ids(p, DepKind::Native)[j] == d;
                        assert(kind_ids(e, DepKind::Native)[j] == d);
                    }
                } else {
                    let k = e.last().1;
                    assert(kind_ids(e, k).last() == d);
                }
            }
            if kind_ids(e, DepKind::Input).contains(d) || kind_ids(e, DepKind::Propagated).contains(d)
                || kind_ids(e, DepKind::Native).contains(d) {
                if e.last().0 == d {
                    assert(e[e.len() - 1].0 == d);
                } else {
                    assert(kind_ids(p, DepKind::Input).contains(d) || kind_ids(p, DepKind::Propagated).contains(d)
                        || kind_ids(p, DepKind::Native).contains(d)) by {
                        if kind_ids(e, DepKind::Input).contains(d) {
                            let j = choose|j: int| 0 <= j < kind_ids(e, DepKind::Input).len() && kind_ids(e, DepKind::Input)[j] == d;
                            assert(kind_ids(p, DepKind::Input).len() <= j ==> kind_ids(e, DepKind::Input)[j] == e.last().0);
                            assert(kind_ids(p, DepKind::Input)[j] == d);
                        } else if kind_ids(e, DepKind::Propagated).contains(d) {
                            let j = choose|j: int| 0 <= j < kind_ids(e, DepKind::Propagated).len() && kind_ids(e, DepKind::Propagated)[j] == d;
                            assert(kind_ids(p, DepKind::Propagated).len() <= j ==> kind_ids(e, DepKind::Propagated)[j] == e.last().0);
                            assert(kind_ids(p, DepKind::Propagated)[j] == d);
                        } else {
                            let j = choose|j: int| 0 <= j < kind_ids(e, DepKind::Native).len() && kind_ids(e, DepKind::Native)[j] == d;
                            assert(kind_ids(p, DepKind::Native).len() <= j ==> kind_ids(e, DepKind::Native)[j] == e.last().0);
                            assert(kind_ids(p, DepKind::Native)[j] == d);
                        }
                    }
                    assert(has_id(p, d));
                    let i = choose|i: int| 0 <= i < p.len() && p[i].0 == d;
                    assert(e[i] == p[i]);
                }
            }
        }
    }
}

/// Kind-filtered ids are drawn from the edges.
pub proof fn lemma_kind_ids_bound(e: Seq<(u32, DepKind)>, k: DepKind, n: nat)
    requires
        forall|i: int| 0 <= i < e.len() ==> e[i].0 < n,
    ensures
        forall|i: int| 0 <= i < kind_ids(e, k).len() ==> kind_ids(e, k)[i] < n,
    decreases e.len(),
{
    if e.len() > 0 {
        let p = kind_ids(e.drop_last(), k);
        lemma_kind_ids_bound(e.drop_last(), k, n);
        let r = kind_ids(e, k);
        assert forall|i: int| 0 <= i < r.len() implies r[i] < n by {
            if i < p.len() {
                assert(r[i] == p[i]);
            } else {
                assert(e[e.len() - 1].0 < n);
            }
        }
    }
}


/// Once a failure is found, later packages do not change it.
pub proof fn lemma_scan_error_stable(pkgs: Seq<PkgJson>, n: nat, k: nat, m: nat)
    requires
        k <= m,
        scan_error(pkgs, n, k) is Some,
    ensures
        scan_error(pkgs, n, m) == scan_error(pkgs, n, k),
    decreases m - k,
{
    if k < m {
        lemma_scan_error_stable(pkgs, n, k, (m - 1) as nat);
    }
}

// ---------------------------------------------------------------------------
// Building an index
// ---------------------------------------------------------------------------

/// Pass 1: validate ids and names in document order and build the name
/// table. On success also returns, for every id, the document position of
/// the package carrying it.
fn validate_packages(pkgs: &Vec<PkgJson>) -> (r: Result<(StrTable, Vec<usize>), IndexError>)
    ensures
        match r {
            Err(e) => scan_error(pkgs@, pkgs.len() as nat, pkgs.len() as nat) == Some(e),
            Ok((t, pos)) => {
                &&& scan_error(pkgs@, pkgs.len() as nat, pkgs.len() as nat) is None
                &&& pkgs.len() <= 0x1_0000_0000
                &&& forall|k: int| 0 <= k < pkgs.len() ==> #[trigger] pkgs[k].id < pkgs.len()
                &&& forall|k1: int, k2: int| 0 <= k1 < k2 < pkgs.len() ==> pkgs[k1].id != pkgs[k2].id
                &&& t.wf()
                &&& t.entries() == name_entries(pkgs@)
                &&& pos.len() == pkgs.len()
                &&& forall|id: int| 0 <= id < pkgs.len() ==> #[trigger] pos[id] < pkgs.len() && pkgs[pos[id] as int].id == id
            },
        },
{
    let n = pkgs.len();
    let mut seen: Vec<bool> = vec![false; n];
    let mut pos: Vec<usize> = vec![0; n];
    let mut names = StrTable::new();
    let mut k: usize = 0;
    while k < n
        invariant
            n == pkgs.len(),
            k <= n,
            scan_error(pkgs@, n as nat, k as nat) is None,
            seen.len() == n,
            pos.len() == n,
            forall|x: int| 0 <= x < n ==> (#[trigger] seen[x] <==> exists|j: int| 0 <= j < k && pkgs[j].id == x),
            forall|j: int| 0 <= j < k ==> #[trigger] pkgs[j].id < n,
            forall|j1: int, j2: int| 0 <= j1 < j2 < k ==> pkgs[j1].id != pkgs[j2].id,
            forall|j: int| 0 <= j < k ==> pos[#[trigger] pkgs[j].id as int] == j,
            names.wf(),
            names.entries() == name_entries(pkgs@.take(k as int)),
            names.entries().len() <= k,
        decreases n - k,
    {
        let pj = &pkgs[k];
        let id = pj.id;
        assert(scan_error(pkgs@, n as nat, (k + 1) as nat) == pkg_error(pkgs@, k as int, n as nat));
        if id as usize >= n {
            proof { lemma_scan_error_stable(pkgs@, n as nat, (k + 1) as nat, n as nat); }
            return Err(IndexError::IdOutOfRange(id, n));
        }
        if seen[id as usize] {
            proof { lemma_scan_error_stable(pkgs@, n as nat, (k + 1) as nat, n as nat); }
            return Err(IndexError::DuplicateId(id));
        }
        if pj.name.as_str().is_empty() {
            proof { lemma_scan_error_stable(pkgs@, n as nat, (k + 1) as nat, n as nat); }
            return Err(IndexError::EmptyName(id));
        }
        seen.set(id as usize, true);
        pos.set(id as usize, k);
        names.insert_if_absent(&pj.name, id);
        proof {
            assert(pkgs@.take(k + 1).drop_last() == pkgs@.take(k as int));
            assert(forall|j: int| 0 <= j < k ==> pkgs[j].id != id);
        }
        k += 1;
    }
    proof {
        assert(pkgs@.take(n as int) == pkgs@);
        let ids = pkgs@.map_values(|p: PkgJson| p.id);
        crate::counting::lemma_distinct_u32_below(ids, n as int);
        crate::counting::lemma_distinct_u32_below(ids, 0x1_0000_0000);
        assert forall|id: int| 0 <= id < n implies #[trigger] pos[id] < n && pkgs[pos[id] as int].id == id by {
            assert(ids.contains(id as u32));
            let j = choose|j: int| 0 <= j < ids.len() && ids[j] == id as u32;
            assert(ids[j] == pkgs@[j].id);
            assert(pkgs[j].id == id);
            assert(pos[pkgs[j].id as int] == j);
        }
    }
    Ok((names, pos))
}


/// A file with no table entry has no members.
pub proof fn lemma_module_members_absent(pkgs: Seq<PkgJson>, f: Seq<char>)
    requires
        f.len() > 0,
        seq_lookup(file_entries(pkgs), f) is None,
    ensures
        module_members(pkgs, f) == Seq::<u32>::empty(),
    decreases pkgs.len(),
{
    if pkgs.len() > 0 {
        let p = pkgs.drop_last();
        let e = file_entries(p);
        let g = pkgs.last().file.0@;
        if g.len() > 0 && seq_lookup(e, g) is None {
            // the new entry would have made `f` known if it were `g`
            let x = (g, e.len() as u32);
            assert(file_entries(pkgs) == e.push(x));
            assert(e.push(x).drop_last() == e);
            assert(g != f);
        }
        lemma_module_members_absent(p, f);
    }
}

/// Pass 3 (document order): group package ids by defining module file.
fn build_modules(pkgs: &Vec<PkgJson>) -> (r: (StrTable, Vec<Vec<u32>>))
    requires
        pkgs.len() <= 0x1_0000_0000,
    ensures
        r.0.wf(),
        r.0.entries() == file_entries(pkgs@),
        r.1.len() == r.0.entries().len(),
        forall|s: int| 0 <= s < r.1.len() ==> r.0.entries()[s].1 == s,
        forall|s: int| 0 <= s < r.1.len() ==> #[trigger] r.1[s]@ == module_members(pkgs@, r.0.entries()[s].0),
{
    let n = pkgs.len();
    let mut files = StrTable::new();
    let mut by_module: Vec<Vec<u32>> = Vec::new();
    let mut k: usize = 0;
    while k < n
        invariant
            n == pkgs.len() <= 0x1_0000_0000,
            k <= n,
            files.wf(),
            files.entries() == file_entries(pkgs@.take(k as int)),
            by_module.len() == files.entries().len(),
            by_module.len() <= k,
            forall|s: int| 0 <= s < by_module.len() ==> files.entries()[s].1 == s,
            forall|s: int| 0 <= s < by_module.len() ==> files.entries()[s].0.len() > 0,
            forall|s: int| 0 <= s < by_module.len() ==> #[trigger] by_module[s]@ == module_members(pkgs@.take(k as int), files.entries()[s].0),
        decreases n - k,
    {
        let pj = &pkgs[k];
        let ghost pre = pkgs@.take(k as int);
        let ghost old_entries = files.entries();
        let ghost old_mods = by_module@;
        proof {
            assert(pkgs@.take(k + 1).drop_last() == pre);
        }
        if !pj.file.0.as_str().is_empty() {
            match files.get(&pj.file.0) {
                Some(slot) => {
                    proof {
                        crate::strtable::lemma_lookup_found(old_entries, pj.file.0@);
                    }
                    proof { files.lemma_distinct(); }
                    let ghost si = choose|i: int| 0 <= i < old_entries.len() && old_entries[i].0 == pj.file.0@ && old_entries[i].1 == slot;
                    by_module[slot as usize].push(pj.id);
                    proof {
                        assert forall|s: int| 0 <= s < by_module.len() implies #[trigger] by_module[s]@ == module_members(pkgs@.take(k + 1), files.entries()[s].0) by {
                            if s == si {
                            } else {
                                assert(old_entries[s].0 != old_entries[si].0);
                                assert(by_module[s] == old_mods[s]);
                            }
                        }
                    }
                },
                None => {
                    proof { files.lemma_distinct(); }
                    let slot = by_module.len();
                    files.insert_if_absent(&pj.file.0, slot as u32);
                    let mut v: Vec<u32> = Vec::new();
                    v.push(pj.id);
                    by_module.push(v);
                    proof {
                        lemma_module_members_absent(pre, pj.file.0@);
                        assert(files.entries() == old_entries.push((pj.file.0@, slot as u32)));
                        assert forall|s: int| 0 <= s < by_module.len() implies #[trigger] by_module[s]@ == module_members(pkgs@.take(k + 1), files.entries()[s].0) by {
                            if s < slot {
                                assert(old_entries[s].0 != pj.file.0@) by {
                                    if old_entries[s].0 == pj.file.0@ {
                                        crate::strtable::lemma_lookup_hit(old_entries, s);
                                    }
                                }
                                assert(by_module[s] == old_mods[s]);
                            } else {
                                assert(module_members(pre, pj.file.0@) == Seq::<u32>::empty());
                                assert(module_members(pkgs@.take(k + 1), pj.file.0@) == seq![pj.id]);
                            }
                        }
                    }
                },
            }
        } else {
            proof {
                assert forall|s: int| 0 <= s < by_module.len() implies #[trigger] by_module[s]@ == module_members(pkgs@.take(k + 1), files.entries()[s].0) by {
                    assert(files.entries()[s].0 != pj.file.0@);
                }
            }
        }
        k += 1;
    }
    proof {
        assert(pkgs@.take(n as int) == pkgs@);
    }
    (files, by_module)
}


/// Appends the resolved ids of `list` tagged `kind`, first occurrence wins.
fn push_resolved(acc: &mut Vec<(u32, DepKind)>, list: &Vec<String>, kind: DepKind, names: &StrTable)
    requires
        names.wf(),
    ensures
        final(acc)@ == dedup_push(old(acc)@, resolve_all(names.entries(), list@), kind),
{
    let ghost start = acc@;
    let ghost table = names.entries();
    let mut t: usize = 0;
    while t < list.len()
        invariant
            names.wf(),
            table == names.entries(),
            t <= list.len(),
            acc@ == dedup_push(start, resolve_all(table, list@.take(t as int)), kind),
        decreases list.len() - t,
    {
        assert(list@.take(t + 1).drop_last() == list@.take(t as int));
        match names.get(&list[t]) {
            Some(d) => {
                assert(resolve_all(table, list@.take(t + 1)).drop_last() == resolve_all(table, list@.take(t as int)));
                if !contains_id(acc, d) {
                    acc.push((d, kind));
                }
            },
            None => {},
        }
        t += 1;
    }
    assert(list@.take(list.len() as int) == list@);
}

/// The dependency edges of document package `pj`.
fn resolve_edges(names: &StrTable, pj: &PkgJson) -> (r: Vec<(u32, DepKind)>)
    requires
        names.wf(),
    ensures
        r@ == edges_for(names.entries(), *pj),
{
    let mut edges: Vec<(u32, DepKind)> = Vec::new();
    push_resolved(&mut edges, &pj.inputs, DepKind::Input, names);
    push_resolved(&mut edges, &pj.propagated_inputs, DepKind::Propagated, names);
    push_resolved(&mut edges, &pj.native_inputs, DepKind::Native, names);
    edges
}

/// A copy of a list of strings.
pub fn clone_strings(v: &Vec<String>) -> (r: Vec<String>)
    ensures
        r@ == v@,
{
    let mut r: Vec<String> = Vec::new();
    let mut i: usize = 0;
    while i < v.len()
        invariant
            i <= v.len(),
            r@ == v@.take(i as int),
        decreases v.len() - i,
    {
        r.push(v[i].clone());
        assert(v@.take(i + 1) == v@.take(i as int).push(v@[i as int]));
        i += 1;
    }
    assert(v@.take(v.len() as int) == v@);
    r
}

/// The in-memory form of document package `pj`.
fn convert_package(pj: &PkgJson, names: &StrTable) -> (p: Package)
    requires
        names.wf(),
    ensures
        converted(p, *pj, names.entries()),
{
    let edges = resolve_edges(names, pj);
    Package {
        id: pj.id,
        name: pj.name.clone(),
        version: pj.version.clone(),
        synopsis: pj.synopsis.clone(),
        description: pj.description.clone(),
        homepage: pj.homepage.clone(),
        licenses: clone_strings(&pj.licenses),
        file: pj.file.0.clone(),
        line: pj.file.1,
        attribute: pj.attribute.clone(),
        store_path: pj.store_path.clone(),
        installed: pj.installed,
        flake: pj.flake.clone(),
        inputs: ids_of_kind(&edges, DepKind::Input),
        propagated: ids_of_kind(&edges, DepKind::Propagated),
        native: ids_of_kind(&edges, DepKind::Native),
    }
}


/// An edge target of `dedup_push` comes from the accumulator or the new ids.
pub proof fn lemma_dedup_push_has(acc: Seq<(u32, DepKind)>, ids: Seq<u32>, kind: DepKind, d: u32)
    ensures
        has_id(dedup_push(acc, ids, kind), d) <==> (has_id(acc, d) || ids.contains(d)),
    decreases ids.len(),
{
    if ids.len() > 0 {
        let p = ids.drop_last();
        let a = dedup_push(acc, p, kind);
        lemma_dedup_push_has(acc, p, kind, d);
        if p.contains(d) {
            let j = choose|j: int| 0 <= j < p.len() && p[j] == d;
            assert(ids[j] == d);
        }
        if ids.contains(d) && !p.contains(d) {
            assert(ids.last() == d) by {
                let j = choose|j: int| 0 <= j < ids.len() && ids[j] == d;
                if j < p.len() { assert(p[j] == d); }
            }
        }
        if has_id(a, d) {
            let i = choose|i: int| 0 <= i < a.len() && a[i].0 == d;
            assert(dedup_push(acc, ids, kind)[i] == a[i]);
        }
        if has_id(dedup_push(acc, ids, kind), d) && !has_id(a, d) {
            assert(ids.last() == d);
            assert(ids[ids.len() - 1] == d);
        }
        if ids.last() == d && !has_id(a, d) {
            let r = dedup_push(acc, ids, kind);
            assert(r[r.len() - 1].0 == d);
        }
    }
}

/// The deduplicated edges of a package reach exactly the ids it lists.
pub proof fn lemma_deps_of_has(inputs: Seq<u32>, propagated: Seq<u32>, native: Seq<u32>, d: u32)
    ensures
        has_id(deps_of(inputs, propagated, native), d) <==> (inputs.contains(d) || propagated.contains(d) || native.contains(d)),
{
    let a = dedup_push(Seq::empty(), inputs, DepKind::Input);
    let b = dedup_push(a, propagated, DepKind::Propagated);
    lemma_dedup_push_has(Seq::empty(), inputs, DepKind::Input, d);
    lemma_dedup_push_has(a, propagated, DepKind::Propagated, d);
    lemma_dedup_push_has(b, native, DepKind::Native, d);
}

/// The per-package facts that an index relies on: every dependency id
/// names a package, and the dependency lists are of countable length.
pub open spec fn pkg_ok(p: Package, n: nat) -> bool {
    &&& forall|j: int| 0 <= j < p.inputs.len() ==> p.inputs[j] < n
    &&& forall|j: int| 0 <= j < p.propagated.len() ==> p.propagated[j] < n
    &&& forall|j: int| 0 <= j < p.native.len() ==> p.native[j] < n
    &&& p.inputs.len() + p.propagated.len() + p.native.len() <= usize::MAX
}

/// The deduplicated edges of a well-formed package are distinct and in range.
pub proof fn lemma_deps_spec_ok(p: Package, n: nat)
    requires
        pkg_ok(p, n),
    ensures
        forall|i: int, j: int| 0 <= i < j < p.deps_spec().len() ==> p.deps_spec()[i].0 != p.deps_spec()[j].0,
        forall|i: int| 0 <= i < p.deps_spec().len() ==> p.deps_spec()[i].0 < n,
{
    let a = dedup_push(Seq::empty(), p.inputs@, DepKind::Input);
    let b = dedup_push(a, p.propagated@, DepKind::Propagated);
    lemma_dedup_push(Seq::empty(), p.inputs@, DepKind::Input, n);
    lemma_dedup_push(a, p.propagated@, DepKind::Propagated, n);
    lemma_dedup_push(b, p.native@, DepKind::Native, n);
}

/// Reverse edges: for every package id, the ids of its direct dependents in
/// increasing order.
fn build_dependents(packages: &Vec<Package>) -> (r: Vec<Vec<u32>>)
    requires
        packages.len() <= 0x1_0000_0000,
        forall|i: int| 0 <= i < packages.len() ==> pkg_ok(#[trigger] packages[i], packages.len() as nat),
    ensures
        r.len() == packages.len(),
        forall|d: int| 0 <= d < r.len() ==> strictly_increasing(#[trigger] r[d]@),
        forall|d: int, j: int| 0 <= d < r.len() && 0 <= j < r[d].len() ==> #[trigger] r[d][j] < packages.len(),
        forall|d: int, q: int| 0 <= d < r.len() && 0 <= q < packages.len() ==>
            (#[trigger] r[d]@.contains(q as u32) <==> pkg_has_dep(#[trigger] packages[q], d as u32)),
{
    let n = packages.len();
    let mut deps: Vec<Vec<u32>> = Vec::new();
    let mut i: usize = 0;
    while i < n
        invariant
            i <= n,
            deps.len() == i,
            forall|d: int| 0 <= d < i ==> #[trigger] deps[d]@ == Seq::<u32>::empty(),
        decreases n - i,
    {
        deps.push(Vec::new());
        i += 1;
    }
    let mut p: usize = 0;
    while p < n
        invariant
            n == packages.len() <= 0x1_0000_0000,
            forall|i: int| 0 <= i < packages.len() ==> pkg_ok(#[trigger] packages[i], packages.len() as nat),
            p <= n,
            deps.len() == n,
            forall|d: int| 0 <= d < n ==> strictly_increasing(#[trigger] deps[d]@),
            forall|d: int, j: int| 0 <= d < n && 0 <= j < deps[d].len() ==> #[trigger] deps[d][j] < p,
            forall|d: int, q: int| 0 <= d < n && 0 <= q < n ==>
                (#[trigger] deps[d]@.contains(q as u32) <==> (q < p && has_id(packages[q].deps_spec(), d as u32))),
        decreases n - p,
    {
        let edges = packages[p].deps();
        proof { lemma_deps_spec_ok(packages[p as int], n as nat); }
        let ghost before = deps@;
        let mut t: usize = 0;
        while t < edges.len()
            invariant
                n == packages.len() <= 0x1_0000_0000,
                p < n,
                deps.len() == n,
                edges@ == packages[p as int].deps_spec(),
                forall|i: int, j: int| 0 <= i < j < edges.len() ==> edges[i].0 != edges[j].0,
                forall|i: int| 0 <= i < edges.len() ==> edges[i].0 < n,
                t <= edges.len(),
                forall|d: int| 0 <= d < n ==> #[trigger] deps[d]@ == if has_id(edges@.take(t as int), d as u32) {
                    before[d]@.push(p as u32)
                } else {
                    before[d]@
                },
            decreases edges.len() - t,
        {
            let d = edges[t].0;
            proof {
                assert(!has_id(edges@.take(t as int), d)) by {
                    if has_id(edges@.take(t as int), d) {
                        let i = choose|i: int| 0 <= i < t && #[trigger] edges@.take(t as int)[i].0 == d;
                        assert(edges[i].0 == edges[t as int].0);
                    }
                }
            }
            deps[d as usize].push(p as u32);
            proof {
                assert forall|e: int| 0 <= e < n implies #[trigger] deps[e]@ == if has_id(edges@.take(t + 1), e as u32) {
                    before[e]@.push(p as u32)
                } else {
                    before[e]@
                } by {
                    if has_id(edges@.take(t + 1), e as u32) && e != d {
                        let i = choose|i: int| 0 <= i < t + 1 && #[trigger] edges@.take(t + 1)[i].0 == e as u32;
                        assert(edges@.take(t as int)[i].0 == e as u32);
                    }
                    if has_id(edges@.take(t as int), e as u32) {
                        let i = choose|i: int| 0 <= i < t && #[trigger] edges@.take(t as int)[i].0 == e as u32;
                        assert(edges@.take(t + 1)[i].0 == e as u32);
                    }
                    if e == d {
                        assert(edges@.take(t + 1)[t as int].0 == d);
                    }
                }
            }
            t += 1;
        }
        proof {
            assert(edges@.take(edges.len() as int) == edges@);
            assert forall|d: int| 0 <= d < n implies strictly_increasing(#[trigger] deps[d]@) by {
                if has_id(edges@, d as u32) {
                    assert forall|a: int, b: int| 0 <= a < b < deps[d]@.len() implies deps[d]@[a] < deps[d]@[b] by {
                        if b == deps[d]@.len() - 1 {
                            assert(before[d][a] < p);
                        } else {
                            assert(strictly_increasing(before[d]@));
                        }
                    }
                }
            }
            assert forall|d: int, j: int| 0 <= d < n && 0 <= j < deps[d].len() implies #[trigger] deps[d][j] < p + 1 by {
                if has_id(edges@, d as u32) && j == deps[d].len() - 1 {
                } else {
                    assert(deps[d][j] == before[d][j]);
                }
            }
            assert forall|d: int, q: int| 0 <= d < n && 0 <= q < n implies
                (#[trigger] deps[d]@.contains(q as u32) <==> (q < p + 1 && has_id(packages[q].deps_spec(), d as u32))) by {
                if has_id(edges@, d as u32) {
                    if deps[d]@.contains(q as u32) && q != p {
                        let j = choose|j: int| 0 <= j < deps[d]@.len() && deps[d]@[j] == q as u32;
                        assert(before[d]@[j] == q as u32);
                        assert(before[d]@.contains(q as u32));
                    }
                    if q < p && has_id(packages[q].deps_spec(), d as u32) {
                        assert(before[d]@.contains(q as u32));
                        let j = choose|j: int| 0 <= j < before[d]@.len() && before[d]@[j] == q as u32;
                        assert(deps[d]@[j] == q as u32);
                    }
                    if q == p {
                        assert(deps[d]@[deps[d]@.len() - 1] == p as u32);
                    }
                } else {
                    if q == p && deps[d]@.contains(q as u32) {
                        assert(before[d]@.contains(q as u32));
                    }
                }
            }
        }
        p += 1;
    }
    proof {
        assert forall|d: int, q: int| 0 <= d < deps.len() && 0 <= q < packages.len() implies
            (#[trigger] deps[d]@.contains(q as u32) <==> pkg_has_dep(#[trigger] packages[q], d as u32)) by {
            lemma_deps_of_has(packages[q].inputs@, packages[q].propagated@, packages[q].native@, d as u32);
            assert(deps[d]@.contains(q as u32) <==> (q < n && has_id(packages[q].deps_spec(), d as u32)));
        }
    }
    deps
}


/// The full index. Immutable after construction.
pub struct Index {
    pub packages: Vec<Package>,
    /// First id for a package name (names may repeat across versions).
    pub names: StrTable,
    /// Reverse edges: all direct dependents of each package id, ascending.
    pub dependents: Vec<Vec<u32>>,
    /// Module files, each mapped to its slot in `by_module`.
    pub module_files: StrTable,
    /// Packages grouped by defining module file, in document order.
    pub by_module: Vec<Vec<u32>>,
    /// Channel commit this index was generated against ("" if unknown).
    pub nixpkgs_commit: String,
    /// Epoch milliseconds at index generation.
    pub generated_ms: u64,
    /// Wall-clock time (ms) when this index was produced.
    pub built_ms: u64,
}

impl Index {
    /// A name found in the name table names a package.
    pub proof fn lemma_names_ids(&self, name: Seq<char>)
        requires
            self.wf(),
        ensures
            self.names.spec_get(name) matches Some(id) ==> id < self.packages.len(),
    {
        if self.names.spec_get(name) is Some {
            crate::strtable::lemma_lookup_found(self.names.entries(), name);
        }
    }
}

impl Index {
    /// Internal consistency: packages sit at their id, every edge names a
    /// package, and the lookup tables are well formed.
    pub open spec fn wf(&self) -> bool {
        let n = self.packages.len();
        &&& n <= 0x1_0000_0000
        &&& forall|i: int| 0 <= i < n ==> (#[trigger] self.packages[i]).id == i
        &&& forall|i: int| 0 <= i < n ==> pkg_ok(#[trigger] self.packages[i], n as nat)
        &&& self.dependents.len() == n
        &&& forall|d: int, j: int| 0 <= d < n && 0 <= j < self.dependents[d].len() ==> #[trigger] self.dependents[d][j] < n
        &&& self.names.wf()
        &&& forall|i: int| 0 <= i < self.names.entries().len() ==> #[trigger] self.names.entries()[i].1 < n
        &&& self.module_files.wf()
        &&& forall|s: int| 0 <= s < self.module_files.entries().len() ==> #[trigger] self.module_files.entries()[s].1 < self.by_module.len()
    }

    /// What `from_doc` promises of an index built from `doc`.
    pub open spec fn built_from(&self, doc: IndexDoc) -> bool {
        let pkgs = doc.packages@;
        let n = pkgs.len();
        let names = name_entries(pkgs);
        let files = file_entries(pkgs);
        &&& self.packages.len() == n
        &&& forall|k: int| 0 <= k < n ==> (#[trigger] pkgs[k]).id < n
        &&& forall|k: int| 0 <= k < n ==> converted(#[trigger] self.packages[pkgs[k].id as int], pkgs[k], names)
        &&& self.names.entries() == names
        &&& self.module_files.entries() == files
        &&& self.by_module.len() == files.len()
        &&& forall|s: int| 0 <= s < files.len() ==> #[trigger] self.by_module[s]@ == module_members(pkgs, files[s].0)
        &&& forall|d: int| 0 <= d < n ==> strictly_increasing(#[trigger] self.dependents[d]@)
        &&& forall|d: int, q: int| 0 <= d < n && 0 <= q < n ==>
            (#[trigger] self.dependents[d]@.contains(q as u32) <==> pkg_has_dep(#[trigger] self.packages[q], d as u32))
        &&& self.nixpkgs_commit@ == doc.header.nixpkgs_commit@
        &&& self.generated_ms == match crate::text::parse_u64_spec(doc.header.generated_ms@) {
            Some(v) => v,
            None => 0,
        }
    }

    /// Validate and convert a raw document. Every failure mode is typed and
    /// carries context; nothing here panics on malformed input.
    pub fn from_doc(doc: IndexDoc, built_ms: u64) -> (r: Result<Index, IndexError>)
        ensures
            match r {
                Err(e) => doc_error(doc) == Some(e),
                Ok(idx) => {
                    &&& doc_error(doc) is None
                    &&& idx.wf()
                    &&& idx.built_from(doc)
                    &&& idx.built_ms == built_ms
                },
            },
    {
        if doc.header.schema != SCHEMA_VERSION {
            return Err(IndexError::Schema(doc.header.schema, SCHEMA_VERSION));
        }
        let n = doc.packages.len();
        if doc.header.package_count != n as u64 {
            return Err(IndexError::Count(doc.header.package_count, n));
        }
        let (names, pos) = match validate_packages(&doc.packages) {
            Ok(v) => v,
            Err(e) => return Err(e),
        };
        let ghost pkgs = doc.packages@;
        let ghost table = names.entries();
        proof {
            assert forall|i: int| 0 <= i < table.len() implies table[i].1 < n by {
                lemma_name_entries_ids(pkgs, i);
            }
        }
        let (module_files, by_module) = build_modules(&doc.packages);
        let mut packages: Vec<Package> = Vec::new();
        let mut id: usize = 0;
        while id < n
            invariant
                n == doc.packages.len() <= 0x1_0000_0000,
                pkgs == doc.packages@,
                names.wf(),
                table == names.entries(),
                forall|i: int| 0 <= i < table.len() ==> table[i].1 < n,
                pos.len() == n,
                forall|i: int| 0 <= i < n ==> #[trigger] pos[i] < n && pkgs[pos[i] as int].id == i,
                id <= n,
                packages.len() == id,
                forall|i: int| 0 <= i < id ==> converted(#[trigger] packages[i], pkgs[pos[i] as int], table),
                forall|i: int| 0 <= i < id ==> pkg_ok(#[trigger] packages[i], n as nat),
            decreases n - id,
        {
            let k = pos[id];
            let p = convert_package(&doc.packages[k], &names);
            proof {
                let pj = pkgs[k as int];
                let e = edges_for(table, pj);
                let ri = resolve_all(table, pj.inputs@);
                let rp = resolve_all(table, pj.propagated_inputs@);
                let rn = resolve_all(table, pj.native_inputs@);
                lemma_resolve_all_values(table, pj.inputs@, n as nat);
                lemma_resolve_all_values(table, pj.propagated_inputs@, n as nat);
                lemma_resolve_all_values(table, pj.native_inputs@, n as nat);
                let a = dedup_push(Seq::empty(), ri, DepKind::Input);
                let b = dedup_push(a, rp, DepKind::Propagated);
                lemma_dedup_push(Seq::empty(), ri, DepKind::Input, n as nat);
                lemma_dedup_push(a, rp, DepKind::Propagated, n as nat);
                lemma_dedup_push(b, rn, DepKind::Native, n as nat);
                lemma_kind_ids_bound(e, DepKind::Input, n as nat);
                lemma_kind_ids_bound(e, DepKind::Propagated, n as nat);
                lemma_kind_ids_bound(e, DepKind::Native, n as nat);
                lemma_kind_ids_partition(e);
                let ids = e.map_values(|x: (u32, DepKind)| x.0);
                crate::counting::lemma_distinct_u32_below(ids, n as int);
            }
            packages.push(p);
            id += 1;
        }
        let dependents = build_dependents(&packages);
        let generated_ms: u64 = match parse_u64(doc.header.generated_ms.as_str()) {
            Some(v) => v,
            None => 0,
        };
        let idx = Index {
            packages,
            names,
            dependents,
            module_files,
            by_module,
            nixpkgs_commit: doc.header.nixpkgs_commit.clone(),
            generated_ms,
            built_ms,
        };
        proof {
            assert forall|k: int| 0 <= k < n implies converted(#[trigger] idx.packages[pkgs[k].id as int], pkgs[k], table) by {
                let id = pkgs[k].id as int;
                assert(pkgs[pos[id] as int].id == id);
                if pos[id] != k {
                    if pos[id] < k {
                        assert(pkgs[pos[id] as int].id != pkgs[k].id);
                    } else {
                        assert(pkgs[k].id != pkgs[pos[id] as int].id);
                    }
                }
            }
            assert forall|s: int| 0 <= s < idx.module_files.entries().len() implies #[trigger] idx.module_files.entries()[s].1 < idx.by_module.len() by {
                assert(idx.module_files.entries()[s].1 == s);
            }
        }
        Ok(idx)
    }
}


/// `skel` carries the ids, names and module files of `pkgs`, position by
/// position (all that the name and module tables are built from).
pub open spec fn mirrors(skel: Seq<PkgJson>, pkgs: Seq<Package>) -> bool {
    &&& skel.len() == pkgs.len()
    &&& forall|i: int| 0 <= i < pkgs.len() ==> {
        &&& (#[trigger] skel[i]).id == pkgs[i].id
        &&& skel[i].name@ == pkgs[i].name@
        &&& skel[i].file.0@ == pkgs[i].file@
    }
}

/// Why package `k` cannot be placed, judged against the packages before
/// it: an id outside `0..n`, an id taken by an earlier package, or an
/// empty name.
pub open spec fn package_error(pkgs: Seq<Package>, k: int, n: nat) -> Option<IndexError> {
    let p = pkgs[k];
    if p.id >= n {
        Some(IndexError::IdOutOfRange(p.id, n as usize))
    } else if exists|j: int| 0 <= j < k && pkgs[j].id == p.id {
        Some(IndexError::DuplicateId(p.id))
    } else if p.name@.len() == 0 {
        Some(IndexError::EmptyName(p.id))
    } else {
        None
    }
}

/// The first failure among the first `k` packages.
pub open spec fn packages_error(pkgs: Seq<Package>, n: nat, k: nat) -> Option<IndexError>
    decreases k,
{
    if k == 0 {
        None
    } else {
        match packages_error(pkgs, n, (k - 1) as nat) {
            Some(e) => Some(e),
            None => package_error(pkgs, k - 1, n),
        }
    }
}

/// A skeleton fails validation exactly as the packages it mirrors.
proof fn lemma_mirrors_scan(skel: Seq<PkgJson>, pkgs: Seq<Package>, n: nat, k: nat)
    requires
        mirrors(skel, pkgs),
        k <= pkgs.len(),
    ensures
        scan_error(skel, n, k) == packages_error(pkgs, n, k),
    decreases k,
{
    if k > 0 {
        lemma_mirrors_scan(skel, pkgs, n, (k - 1) as nat);
        let m = k - 1;
        assert(skel[m].id == pkgs[m].id);
        if exists|j: int| 0 <= j < m && skel[j].id == skel[m].id {
            let j = choose|j: int| 0 <= j < m && skel[j].id == skel[m].id;
            assert(skel[j].id == pkgs[j].id);
        }
        if exists|j: int| 0 <= j < m && pkgs[j].id == pkgs[m].id {
            let j = choose|j: int| 0 <= j < m && pkgs[j].id == pkgs[m].id;
            assert(skel[j].id == pkgs[j].id);
        }
    }
}

/// The first value of `s` that is not below `n`.
pub open spec fn first_at_least(s: Seq<u32>, n: nat) -> Option<u32>
    decreases s.len(),
{
    if s.len() == 0 {
        None
    } else if s[0] >= n {
        Some(s[0])
    } else {
        first_at_least(s.drop_first(), n)
    }
}

/// The first dependency id of `p` (inputs, then propagated, then native)
/// that names no package of an index of `n` packages.
pub open spec fn first_bad_dep(p: Package, n: nat) -> Option<u32> {
    first_at_least(p.inputs@ + p.propagated@ + p.native@, n)
}

/// With nothing found, every value is below `n`.
proof fn lemma_first_at_least_none(s: Seq<u32>, n: nat, j: int)
    requires
        first_at_least(s, n) is None,
        0 <= j < s.len(),
    ensures
        s[j] < n,
    decreases s.len(),
{
    if j > 0 {
        lemma_first_at_least_none(s.drop_first(), n, j - 1);
    }
}

/// The first out-of-range dependency among the first `k` packages.
pub open spec fn bad_dep_scan(pkgs: Seq<Package>, n: nat, k: nat) -> Option<u32>
    decreases k,
{
    if k == 0 {
        None
    } else {
        match bad_dep_scan(pkgs, n, (k - 1) as nat) {
            Some(d) => Some(d),
            None => first_bad_dep(pkgs[k - 1], n),
        }
    }
}

/// The ids, names and files of `pkgs`, as document packages.
fn skeleton(pkgs: &Vec<Package>) -> (r: Vec<PkgJson>)
    ensures
        mirrors(r@, pkgs@),
{
    let mut r: Vec<PkgJson> = Vec::new();
    let mut i: usize = 0;
    while i < pkgs.len()
        invariant
            i <= pkgs.len(),
            r@.len() == i,
            forall|t: int| 0 <= t < i ==> {
                &&& (#[trigger] r@[t]).id == pkgs@[t].id
                &&& r@[t].name@ == pkgs@[t].name@
                &&& r@[t].file.0@ == pkgs@[t].file@
            },
        decreases pkgs.len() - i,
    {
        let p = &pkgs[i];
        r.push(PkgJson {
            id: p.id,
            name: p.name.clone(),
            attribute: String::new(),
            version: String::new(),
            synopsis: String::new(),
            description: String::new(),
            homepage: String::new(),
            licenses: Vec::new(),
            file: (p.file.clone(), p.line),
            inputs: Vec::new(),
            propagated_inputs: Vec::new(),
            native_inputs: Vec::new(),
            store_path: String::new(),
            installed: false,
            flake: String::new(),
        });
        i += 1;
    }
    r
}

/// The first dependency of `p` that is not below `n`, if any.
fn find_bad_dep(p: &Package, n: usize) -> (r: Option<u32>)
    ensures
        r == first_bad_dep(*p, n as nat),
{
    let mut all: Vec<u32> = Vec::new();
    all.extend_from_slice(p.inputs.as_slice());
    all.extend_from_slice(p.propagated.as_slice());
    all.extend_from_slice(p.native.as_slice());
    let ghost s = all@;
    assert(s == p.inputs@ + p.propagated@ + p.native@);
    assert(s.skip(0) == s);
    let mut j: usize = 0;
    while j < all.len()
        invariant
            s == all@,
            s == p.inputs@ + p.propagated@ + p.native@,
            j <= all.len(),
            first_at_least(s, n as nat) == first_at_least(s.skip(j as int), n as nat),
        decreases all.len() - j,
    {
        assert(s.skip(j as int).len() > 0);
        assert(s.skip(j as int)[0] == s[j as int]);
        if all[j] as usize >= n {
            assert(all[j as int] >= n);
            assert(first_at_least(s.skip(j as int), n as nat) == Some(s[j as int]));
            return Some(all[j]);
        }
        assert(s.skip(j as int).drop_first() == s.skip(j + 1));
        j += 1;
    }
    None
}

impl Index {
    /// Build an index from packages whose dependency lists already hold
    /// package ids. The ids must be exactly `0..n` (each once, in any
    /// order), names non-empty, and every dependency id must name a
    /// package; the first violation is reported. Packages are placed by
    /// id; the generation and build times are left at 0.
    pub fn from_packages(packages: Vec<Package>, nixpkgs_commit: String) -> (r: Result<Index, IndexError>)
        requires
            forall|i: int| 0 <= i < packages@.len() ==>
                (#[trigger] packages@[i]).inputs.len() + packages@[i].propagated.len() + packages@[i].native.len() <= usize::MAX,
        ensures
            ({
                let pkgs = packages@;
                let n = pkgs.len();
                match r {
                    Err(e) => match packages_error(pkgs, n, n) {
                        Some(x) => e == x,
                        None => bad_dep_scan(pkgs, n, n) matches Some(d) && e == IndexError::IdOutOfRange(d, n as usize),
                    },
                    Ok(idx) => {
                        &&& idx.wf()
                        &&& packages_error(pkgs, n, n) is None
                        &&& bad_dep_scan(pkgs, n, n) is None
                        &&& idx.packages.len() == n
                        &&& forall|k: int| 0 <= k < n ==> (#[trigger] pkgs[k]).id < n && idx.packages[pkgs[k].id as int] == pkgs[k]
                        &&& exists|skel: Seq<PkgJson>| {
                            &&& #[trigger] mirrors(skel, pkgs)
                            &&& scan_error(skel, n, n) is None
                            &&& idx.names.entries() == name_entries(skel)
                            &&& idx.module_files.entries() == file_entries(skel)
                            &&& idx.by_module.len() == file_entries(skel).len()
                            &&& forall|s: int| 0 <= s < file_entries(skel).len() ==>
                                #[trigger] idx.by_module[s]@ == module_members(skel, file_entries(skel)[s].0)
                        }
                        &&& forall|d: int| 0 <= d < n ==> strictly_increasing(#[trigger] idx.dependents[d]@)
                        &&& forall|d: int, q: int| 0 <= d < n && 0 <= q < n ==>
                            (#[trigger] idx.dependents[d]@.contains(q as u32) <==> pkg_has_dep(#[trigger] idx.packages[q], d as u32))
                        &&& idx.nixpkgs_commit@ == nixpkgs_commit@
                        &&& idx.generated_ms == 0
                        &&& idx.built_ms == 0
                    },
                }
            }),
    {
        let n = packages.len();
        let skel = skeleton(&packages);
        proof {
            lemma_mirrors_scan(skel@, packages@, n as nat, n as nat);
        }
        let (names, pos) = match validate_packages(&skel) {
            Ok(v) => v,
            Err(e) => {
                return Err(e);
            },
        };
        let ghost pkgs = packages@;
        let mut k: usize = 0;
        while k < n
            invariant
                n == packages.len(),
                pkgs == packages@,
                k <= n,
                bad_dep_scan(pkgs, n as nat, k as nat) is None,
                mirrors(skel@, pkgs),
                scan_error(skel@, n as nat, n as nat) is None,
                packages_error(pkgs, n as nat, n as nat) is None,
            decreases n - k,
        {
            match find_bad_dep(&packages[k], n) {
                Some(d) => {
                    proof {
                        assert(bad_dep_scan(pkgs, n as nat, (k + 1) as nat) == Some(d));
                        lemma_bad_dep_scan_stable(pkgs, n as nat, (k + 1) as nat, n as nat);
                        assert(mirrors(skel@, pkgs));
                    }
                    return Err(IndexError::IdOutOfRange(d, n));
                },
                None => {},
            }
            k += 1;
        }
        proof {
            assert forall|i: int| 0 <= i < n implies pkg_ok(#[trigger] pkgs[i], n as nat) by {
                lemma_bad_dep_scan_none(pkgs, n as nat, n as nat, i);
            }
        }
        let (module_files, by_module) = build_modules(&skel);
        let mut slots: Vec<Option<Package>> = Vec::new();
        for p in it: packages.into_iter()
            invariant
                it.seq() == pkgs,
                slots@.len() == it.index(),
                forall|t: int| 0 <= t < slots@.len() ==> #[trigger] slots@[t] == Some(pkgs[t]),
        {
            slots.push(Some(p));
        }
        let mut placed: Vec<Package> = Vec::new();
        let mut id: usize = 0;
        while id < n
            invariant
                n == pkgs.len() <= 0x1_0000_0000,
                slots@.len() == n,
                pos.len() == n,
                forall|i: int| 0 <= i < n ==> #[trigger] pos[i] < n && skel@[pos[i] as int].id == i,
                mirrors(skel@, pkgs),
                forall|k1: int, k2: int| 0 <= k1 < k2 < n ==> skel@[k1].id != skel@[k2].id,
                id <= n,
                placed@.len() == id,
                forall|i: int| 0 <= i < id ==> #[trigger] placed@[i] == pkgs[pos[i] as int],
                forall|i: int| id <= i < n ==> #[trigger] slots@[pos[i] as int] == Some(pkgs[pos[i] as int]),
            decreases n - id,
        {
            let k = pos[id];
            let mut tmp: Option<Package> = None;
            slots.set_and_swap(k, &mut tmp);
            proof {
                assert forall|i: int| id < i < n implies #[trigger] slots@[pos[i] as int] == Some(pkgs[pos[i] as int]) by {
                    if pos[i] == k {
                        assert(skel@[pos[i] as int].id == i);
                        assert(skel@[k as int].id == id);
                    }
                }
            }
            match tmp {
                Some(p) => {
                    placed.push(p);
                },
                None => {
                    proof { assert(false); }
                },
            }
            id += 1;
        }
        proof {
            assert forall|i: int| 0 <= i < n implies (#[trigger] placed@[i]).id == i && pkg_ok(placed@[i], n as nat) by {
                assert(skel@[pos[i] as int].id == i);
            }
        }
        let dependents = build_dependents(&placed);
        let idx = Index {
            packages: placed,
            names,
            dependents,
            module_files,
            by_module,
            nixpkgs_commit,
            generated_ms: 0,
            built_ms: 0,
        };
        proof {
            assert forall|k: int| 0 <= k < n implies (#[trigger] pkgs[k]).id < n && idx.packages[pkgs[k].id as int] == pkgs[k] by {
                let id = pkgs[k].id as int;
                assert(skel@[k].id == pkgs[k].id);
                assert(skel@[pos[id] as int].id == id);
                if pos[id] != k {
                    if pos[id] < k {
                        assert(skel@[pos[id] as int].id != skel@[k].id);
                    } else {
                        assert(skel@[k].id != skel@[pos[id] as int].id);
                    }
                }
            }
            assert forall|s: int| 0 <= s < idx.module_files.entries().len() implies #[trigger] idx.module_files.entries()[s].1 < idx.by_module.len() by {
                assert(idx.module_files.entries()[s].1 == s);
            }
            assert(mirrors(skel@, pkgs));
            assert forall|i: int| 0 <= i < idx.names.entries().len() implies #[trigger] idx.names.entries()[i].1 < n by {
                lemma_name_entries_ids(skel@, i);
            }
        }
        Ok(idx)
    }
}

/// Once a scan finds a bad dependency, later scans report the same one.
proof fn lemma_bad_dep_scan_stable(pkgs: Seq<Package>, n: nat, k: nat, m: nat)
    requires
        k <= m,
        bad_dep_scan(pkgs, n, k) is Some,
    ensures
        bad_dep_scan(pkgs, n, m) == bad_dep_scan(pkgs, n, k),
    decreases m - k,
{
    if k < m {
        lemma_bad_dep_scan_stable(pkgs, n, k, (m - 1) as nat);
    }
}

/// With no bad dependency among the first `k` packages, each of them has
/// every dependency below `n`.
proof fn lemma_bad_dep_scan_none(pkgs: Seq<Package>, n: nat, k: nat, i: int)
    requires
        bad_dep_scan(pkgs, n, k) is None,
        0 <= i < k,
        k <= pkgs.len(),
        pkgs[i].inputs.len() + pkgs[i].propagated.len() + pkgs[i].native.len() <= usize::MAX,
    ensures
        pkg_ok(pkgs[i], n),
    decreases k,
{
    if i < k - 1 {
        lemma_bad_dep_scan_none(pkgs, n, (k - 1) as nat, i);
    } else {
        let p = pkgs[i];
        let all = p.inputs@ + p.propagated@ + p.native@;
        assert(first_bad_dep(p, n) is None);
        assert forall|j: int| 0 <= j < p.inputs.len() implies p.inputs[j] < n by {
            lemma_first_at_least_none(all, n, j);
            assert(all[j] == p.inputs@[j]);
        }
        assert forall|j: int| 0 <= j < p.propagated.len() implies p.propagated[j] < n by {
            lemma_first_at_least_none(all, n, p.inputs.len() + j);
            assert(all[p.inputs.len() + j] == p.propagated@[j]);
        }
        assert forall|j: int| 0 <= j < p.native.len() implies p.native[j] < n by {
            lemma_first_at_least_none(all, n, p.inputs.len() + p.propagated.len() + j);
            assert(all[p.inputs.len() + p.propagated.len() + j] == p.native@[j]);
        }
    }
}

// ---------------------------------------------------------------------------
// Breadth-first walks
// ---------------------------------------------------------------------------

/// Whether some queue entry carries `id`.
pub open spec fn queued(q: Seq<BfsNode>, id: u32) -> bool {
    exists|i: int| 0 <= i < q.len() && q[i].id == id
}

/// `q` after offering the neighbours `nb` (in order) of a node at `depth`:
/// each neighbour not yet queued is appended at `depth + 1` with its edge kind.
pub open spec fn enqueue(q: Seq<BfsNode>, nb: Seq<(u32, Option<DepKind>)>, depth: u8) -> Seq<BfsNode>
    decreases nb.len(),
{
    if nb.len() == 0 {
        q
    } else {
        let r = enqueue(q, nb.drop_last(), depth);
        if queued(r, nb.last().0) {
            r
        } else {
            r.push(BfsNode { id: nb.last().0, depth: (depth + 1) as u8, kind: nb.last().1 })
        }
    }
}

/// Whether the ids of `q` are pairwise distinct and below `n`.
pub open spec fn queue_ok(q: Seq<BfsNode>, n: nat) -> bool {
    &&& forall|i: int, j: int| 0 <= i < j < q.len() ==> q[i].id != q[j].id
    &&& forall|i: int| 0 <= i < q.len() ==> q[i].id < n
}

impl Index {
    /// The neighbours of `id` in walk order: its deduplicated dependencies
    /// with their kind, or (reverse) its dependents with no kind.
    pub open spec fn nbrs(&self, id: u32, reverse: bool) -> Seq<(u32, Option<DepKind>)> {
        if reverse {
            self.dependents[id as int]@.map_values(|d: u32| (d, None::<DepKind>))
        } else {
            self.packages[id as int].deps_spec().map_values(|e: (u32, DepKind)| (e.0, Some(e.1)))
        }
    }

    /// The BFS queue (every node discovered so far, root first) after the
    /// first `steps` queue entries have been taken. An entry is expanded only
    /// while fewer than `cap` non-root nodes were materialized before it and
    /// its depth is below `max_depth`.
    pub open spec fn bfs_queue(&self, root: u32, max_depth: u8, cap: usize, reverse: bool, steps: nat) -> Seq<BfsNode>
        decreases steps,
    {
        if steps == 0 {
            seq![BfsNode { id: root, depth: 0, kind: None }]
        } else {
            let q = self.bfs_queue(root, max_depth, cap, reverse, (steps - 1) as nat);
            let i = steps - 1;
            if i < q.len() && i <= cap && q[i].depth < max_depth {
                enqueue(q, self.nbrs(q[i].id, reverse), q[i].depth)
            } else {
                q
            }
        }
    }

    /// The bounded walk from `root`: the materialized nodes (root excluded,
    /// at most `cap`, in breadth-first order) and the number of nodes
    /// discovered, root excluded. An unknown root gives nothing.
    pub open spec fn bfs_spec(&self, root: u32, max_depth: u8, cap: usize, reverse: bool) -> (Seq<BfsNode>, nat) {
        if root >= self.packages.len() {
            (Seq::empty(), 0)
        } else {
            let q = self.bfs_queue(root, max_depth, cap, reverse, self.packages.len() as nat);
            let end = if q.len() < cap + 1 { q.len() as int } else { cap + 1 };
            (q.subrange(1, end), (q.len() - 1) as nat)
        }
    }

    /// Once nothing is left to expand, further steps change nothing.
    pub proof fn lemma_bfs_stable(&self, root: u32, max_depth: u8, cap: usize, reverse: bool, k: nat, m: nat)
        requires
            k <= m,
            k >= self.bfs_queue(root, max_depth, cap, reverse, k).len() || k > cap,
        ensures
            self.bfs_queue(root, max_depth, cap, reverse, m) == self.bfs_queue(root, max_depth, cap, reverse, k),
        decreases m - k,
    {
        if k < m {
            self.lemma_bfs_stable(root, max_depth, cap, reverse, k, (m - 1) as nat);
        }
    }

    /// Number of packages.
    pub fn len(&self) -> (n: usize)
        ensures
            n == self.packages.len(),
    {
        self.packages.len()
    }

    /// Whether the index holds no package.
    pub fn is_empty(&self) -> (b: bool)
        ensures
            b == (self.packages.len() == 0),
    {
        self.packages.len() == 0
    }

    /// Direct dependent count of a package.
    pub fn dependents_count(&self, id: u32) -> (n: usize)
        requires
            self.wf(),
            id < self.packages.len(),
        ensures
            n == self.dependents[id as int].len(),
    {
        self.dependents[id as usize].len()
    }

    /// The ids of the module group of package `id`, or nothing.
    pub open spec fn module_list(&self, id: int) -> Seq<u32> {
        if 0 <= id < self.packages.len() {
            match self.module_files.spec_get(self.packages[id].file@) {
                Some(s) => if s < self.by_module.len() { self.by_module[s as int]@ } else { Seq::empty() },
                None => Seq::empty(),
            }
        } else {
            Seq::empty()
        }
    }

    /// Packages defined in the same module file as `id` (including itself).
    pub fn module_neighbors(&self, id: u32) -> (r: &[u32])
        requires
            self.wf(),
        ensures
            r@ == self.module_list(id as int),
    {
        if (id as usize) < self.packages.len() {
            match self.module_files.get(&self.packages[id as usize].file) {
                Some(s) => if (s as usize) < self.by_module.len() {
                    self.by_module[s as usize].as_slice()
                } else {
                    &[]
                },
                None => &[],
            }
        } else {
            &[]
        }
    }

    /// The neighbours of `id` in walk order.
    fn neighbors(&self, id: u32, reverse: bool) -> (r: Vec<(u32, Option<DepKind>)>)
        requires
            self.wf(),
            id < self.packages.len(),
        ensures
            r@ == self.nbrs(id, reverse),
    {
        let mut r: Vec<(u32, Option<DepKind>)> = Vec::new();
        if reverse {
            let ds = &self.dependents[id as usize];
            let mut t: usize = 0;
            while t < ds.len()
                invariant
                    t <= ds.len(),
                    r@ == ds@.take(t as int).map_values(|d: u32| (d, None::<DepKind>)),
                decreases ds.len() - t,
            {
                r.push((ds[t], None));
                assert(ds@.take(t + 1).map_values(|d: u32| (d, None::<DepKind>))
                    == ds@.take(t as int).map_values(|d: u32| (d, None::<DepKind>)).push((ds@[t as int], None)));
                t += 1;
            }
            assert(ds@.take(ds.len() as int) == ds@);
        } else {
            let es = self.packages[id as usize].deps();
            let mut t: usize = 0;
            while t < es.len()
                invariant
                    t <= es.len(),
                    r@ == es@.take(t as int).map_values(|e: (u32, DepKind)| (e.0, Some(e.1))),
                decreases es.len() - t,
            {
                r.push((es[t].0, Some(es[t].1)));
                assert(es@.take(t + 1).map_values(|e: (u32, DepKind)| (e.0, Some(e.1)))
                    == es@.take(t as int).map_values(|e: (u32, DepKind)| (e.0, Some(e.1))).push((es@[t as int].0, Some(es@[t as int].1))));
                t += 1;
            }
            assert(es@.take(es.len() as int) == es@);
        }
        r
    }

    /// Neighbour ids are package ids.
    proof fn lemma_nbrs_bound(&self, id: u32, reverse: bool)
        requires
            self.wf(),
            id < self.packages.len(),
        ensures
            forall|i: int| 0 <= i < self.nbrs(id, reverse).len() ==> #[trigger] self.nbrs(id, reverse)[i].0 < self.packages.len(),
    {
        if !reverse {
            lemma_deps_spec_ok(self.packages[id as int], self.packages.len() as nat);
        }
    }

    /// Bounded BFS over forward (dependency) edges. Root excluded from the
    /// result. `total` reports every node discovered before the cap.
    pub fn deps_bfs(&self, root: u32, max_depth: u8, cap: usize) -> (r: (Vec<BfsNode>, usize))
        requires
            self.wf(),
        ensures
            (r.0@, r.1 as nat) == self.bfs_spec(root, max_depth, cap, false),
    {
        self.bfs(root, max_depth, cap, false)
    }

    /// Bounded BFS over reverse (dependent) edges.
    pub fn dependents_bfs(&self, root: u32, max_depth: u8, cap: usize) -> (r: (Vec<BfsNode>, usize))
        requires
            self.wf(),
        ensures
            (r.0@, r.1 as nat) == self.bfs_spec(root, max_depth, cap, true),
    {
        self.bfs(root, max_depth, cap, true)
    }

    fn bfs(&self, root: u32, max_depth: u8, cap: usize, reverse: bool) -> (r: (Vec<BfsNode>, usize))
        requires
            self.wf(),
        ensures
            (r.0@, r.1 as nat) == self.bfs_spec(root, max_depth, cap, reverse),
    {
        let n = self.packages.len();
        let mut out: Vec<BfsNode> = Vec::new();
        if root as usize >= n {
            return (out, 0);
        }
        let mut visited: Vec<bool> = vec![false; n];
        let mut queue: Vec<BfsNode> = Vec::new();
        visited.set(root as usize, true);
        queue.push(BfsNode { id: root, depth: 0, kind: None });
        let mut head: usize = 0;
        proof {
            assert(queue@ == self.bfs_queue(root, max_depth, cap, reverse, 0));
            assert forall|x: int| 0 <= x < n implies (#[trigger] visited[x] <==> queued(queue@, x as u32)) by {
                if x == root as int {
                    assert(queue@[0].id == root);
                }
                if queued(queue@, x as u32) {
                    let i = choose|i: int| 0 <= i < queue@.len() && queue@[i].id == x as u32;
                    assert(i == 0);
                }
            }
        }
        while head < queue.len()
            invariant
                self.wf(),
                n == self.packages.len(),
                root < n,
                queue@ == self.bfs_queue(root, max_depth, cap, reverse, head as nat),
                queue_ok(queue@, n as nat),
                queue.len() >= 1,
                head <= queue.len(),
                head <= cap + 1,
                visited.len() == n,
                forall|x: int| 0 <= x < n ==> (#[trigger] visited[x] <==> queued(queue@, x as u32)),
                out@ == (if head == 0 { Seq::empty() } else { queue@.subrange(1, head as int) }),
            ensures
                queue@ == self.bfs_queue(root, max_depth, cap, reverse, head as nat),
                queue_ok(queue@, n as nat),
                head <= queue.len(),
                head >= queue.len() || head > cap,
                out@ == (if head == 0 { Seq::empty() } else { queue@.subrange(1, head as int) }),
            decreases n - head,
        {
            proof {
                let ids = queue@.map_values(|b: BfsNode| b.id);
                crate::counting::lemma_distinct_u32_below(ids, n as int);
            }
            let node = queue[head];
            if head > 0 {
                if out.len() >= cap {
                    break;
                }
                out.push(node);
                assert(queue@.subrange(1, head + 1) == queue@.subrange(1, head as int).push(node));
            }
            let ghost q0 = queue@;
            if node.depth < max_depth {
                proof { self.lemma_nbrs_bound(node.id, reverse); }
                let nb = self.neighbors(node.id, reverse);
                let mut t: usize = 0;
                while t < nb.len()
                    invariant
                        n == self.packages.len() <= 0x1_0000_0000,
                        nb@ == self.nbrs(node.id, reverse),
                        forall|i: int| 0 <= i < nb.len() ==> #[trigger] nb@[i].0 < n,
                        node.depth < max_depth,
                        t <= nb.len(),
                        queue@ == enqueue(q0, nb@.take(t as int), node.depth),
                        queue_ok(queue@, n as nat),
                        queue.len() >= q0.len(),
                        forall|i: int| 0 <= i < q0.len() ==> queue@[i] == q0[i],
                        visited.len() == n,
                        forall|x: int| 0 <= x < n ==> (#[trigger] visited[x] <==> queued(queue@, x as u32)),
                    decreases nb.len() - t,
                {
                    let (d, k) = nb[t];
                    assert(nb@.take(t + 1).drop_last() == nb@.take(t as int));
                    assert(d < n);
                    if !visited[d as usize] {
                        let ghost vis0 = visited@;
                        visited.set(d as usize, true);
                        let ghost before = queue@;
                        queue.push(BfsNode { id: d, depth: node.depth + 1, kind: k });
                        proof {
                            assert forall|x: int| 0 <= x < n implies (#[trigger] visited[x] <==> queued(queue@, x as u32)) by {
                                let xu = x as u32;
                                assert(xu as int == x);
                                assert(vis0[x] <==> queued(before, xu));
                                assert(visited[x] == (x == d as int || vis0[x]));
                                if queued(before, xu) {
                                    let i = choose|i: int| 0 <= i < before.len() && before[i].id == xu;
                                    assert(queue@[i] == before[i]);
                                }
                                if queued(queue@, xu) && xu != d {
                                    let i = choose|i: int| 0 <= i < queue@.len() && queue@[i].id == xu;
                                    assert(i < before.len());
                                    assert(before[i] == queue@[i]);
                                }
                                if xu == d {
                                    assert(queue@[queue@.len() - 1].id == d);
                                }
                            }
                        }
                    } else {
                        assert(queued(queue@, d));
                    }
                    t += 1;
                }
                assert(nb@.take(nb.len() as int) == nb@);
            }
            proof {
                assert(queue@ == self.bfs_queue(root, max_depth, cap, reverse, (head + 1) as nat));
            }
            head += 1;
        }
        proof {
            let ids = queue@.map_values(|b: BfsNode| b.id);
            crate::counting::lemma_distinct_u32_below(ids, n as int);
            self.lemma_bfs_stable(root, max_depth, cap, reverse, head as nat, n as nat);
        }
        let total = queue.len() - 1;
        (out, total)
    }
}


// ---------------------------------------------------------------------------
// Laws of the breadth-first walk
// ---------------------------------------------------------------------------

/// What offering neighbours does to a queue: it only appends; every offered
/// neighbour ends up queued; appended entries are fresh offered neighbours
/// one level deeper.
pub proof fn lemma_enqueue(q: Seq<BfsNode>, nb: Seq<(u32, Option<DepKind>)>, depth: u8, n: nat)
    requires
        queue_ok(q, n),
        forall|t: int| 0 <= t < nb.len() ==> #[trigger] nb[t].0 < n,
    ensures
        ({
            let r = enqueue(q, nb, depth);
            &&& queue_ok(r, n)
            &&& q.len() <= r.len()
            &&& forall|i: int| 0 <= i < q.len() ==> #[trigger] r[i] == q[i]
            &&& forall|t: int| 0 <= t < nb.len() ==> queued(r, #[trigger] nb[t].0)
            &&& forall|i: int| q.len() <= i < r.len() ==> {
                &&& (#[trigger] r[i]).depth == (depth + 1) as u8
                &&& !queued(q, r[i].id)
                &&& exists|t: int| 0 <= t < nb.len() && nb[t].0 == r[i].id && nb[t].1 == r[i].kind
            }
        }),
    decreases nb.len(),
{
    if nb.len() > 0 {
        let p = nb.drop_last();
        lemma_enqueue(q, p, depth, n);
        let a = enqueue(q, p, depth);
        let r = enqueue(q, nb, depth);
        let x = nb.last();
        assert forall|t: int| 0 <= t < nb.len() implies queued(r, #[trigger] nb[t].0) by {
            if t < p.len() {
                assert(p[t] == nb[t]);
                assert(queued(a, p[t].0));
                let i = choose|i: int| 0 <= i < a.len() && a[i].id == p[t].0;
                assert(r[i] == a[i]);
            } else if !queued(a, x.0) {
                assert(r[r.len() - 1].id == x.0);
            }
        }
        assert forall|i: int| q.len() <= i < r.len() implies {
            &&& (#[trigger] r[i]).depth == (depth + 1) as u8
            &&& !queued(q, r[i].id)
            &&& exists|t: int| 0 <= t < nb.len() && nb[t].0 == r[i].id && nb[t].1 == r[i].kind
        } by {
            if i < a.len() {
                assert(r[i] == a[i]);
                let t = choose|t: int| 0 <= t < p.len() && p[t].0 == a[i].id && p[t].1 == a[i].kind;
                assert(nb[t] == p[t]);
            } else {
                assert(nb[nb.len() - 1] == x);
                if queued(q, x.0) {
                    let j = choose|j: int| 0 <= j < q.len() && q[j].id == x.0;
                    assert(a[j] == q[j]);
                }
            }
        }
        if !queued(a, x.0) {
            assert(nb[nb.len() - 1].0 < n);
            assert forall|i: int, j: int| 0 <= i < j < r.len() implies r[i].id != r[j].id by {
                if j == r.len() - 1 {
                    assert(r[i] == a[i]);
                }
            }
        }
    }
}

impl Index {
    /// Whether `v` is a neighbour of `u` in the walk direction.
    pub open spec fn is_nbr(&self, u: u32, v: u32, reverse: bool) -> bool {
        &&& u < self.packages.len()
        &&& exists|t: int| 0 <= t < self.nbrs(u, reverse).len() && (#[trigger] self.nbrs(u, reverse)[t]).0 == v
    }

    /// Whether `w` is a walk that starts at `root` and follows neighbour edges.
    pub open spec fn is_walk(&self, root: u32, w: Seq<u32>, reverse: bool) -> bool {
        &&& w.len() >= 1
        &&& w[0] == root
        &&& forall|i: int| 0 <= i < w.len() - 1 ==> self.is_nbr(#[trigger] w[i], w[i + 1], reverse)
    }

    /// Whether `v` can be reached from `root` in at most `k` steps.
    pub open spec fn reachable_within(&self, root: u32, v: u32, k: nat, reverse: bool) -> bool {
        exists|w: Seq<u32>| #[trigger] self.is_walk(root, w, reverse) && w.len() <= k + 1 && w.last() == v
    }

    /// A walk extended by one edge.
    pub proof fn lemma_reachable_step(&self, root: u32, u: u32, v: u32, k: nat, reverse: bool)
        requires
            self.reachable_within(root, u, k, reverse),
            self.is_nbr(u, v, reverse),
        ensures
            self.reachable_within(root, v, k + 1, reverse),
    {
        let w = choose|w: Seq<u32>| #[trigger] self.is_walk(root, w, reverse) && w.len() <= k + 1 && w.last() == u;
        let w2 = w.push(v);
        assert forall|i: int| 0 <= i < w2.len() - 1 implies self.is_nbr(#[trigger] w2[i], w2[i + 1], reverse) by {
            if i < w.len() - 1 {
                assert(w2[i] == w[i] && w2[i + 1] == w[i + 1]);
            }
        }
        assert(self.is_walk(root, w2, reverse));
    }

    /// The root reaches itself in no steps.
    pub proof fn lemma_reachable_root(&self, root: u32, reverse: bool)
        ensures
            self.reachable_within(root, root, 0, reverse),
    {
        let w = seq![root];
        assert(self.is_walk(root, w, reverse));
    }

    /// The facts that hold of the queue after every step.
    pub open spec fn bfs_inv(&self, root: u32, max_depth: u8, cap: usize, reverse: bool, s: nat) -> bool {
        let q = self.bfs_queue(root, max_depth, cap, reverse, s);
        &&& queue_ok(q, self.packages.len() as nat)
        &&& q.len() >= 1
        &&& q[0] == BfsNode { id: root, depth: 0, kind: None }
        &&& forall|i: int, j: int| 0 <= i < j < q.len() ==> q[i].depth <= q[j].depth
        &&& (s >= 1 && s - 1 < q.len() ==> forall|j: int| 0 <= j < q.len() ==> (#[trigger] q[j]).depth <= q[s - 1].depth + 1)
        &&& forall|j: int| 1 <= j < q.len() ==> (#[trigger] q[j]).depth <= max_depth
        &&& forall|j: int| 1 <= j < q.len() ==> self.reachable_within(root, (#[trigger] q[j]).id, q[j].depth as nat, reverse)
        &&& forall|j: int| 1 <= j < q.len() ==> (#[trigger] q[j]).depth >= 1
    }

    /// The queue invariant holds at every step, and each step only appends.
    pub proof fn lemma_bfs_inv(&self, root: u32, max_depth: u8, cap: usize, reverse: bool, s: nat)
        requires
            self.wf(),
            root < self.packages.len(),
        ensures
            self.bfs_inv(root, max_depth, cap, reverse, s),
            ({
                let q = self.bfs_queue(root, max_depth, cap, reverse, s);
                let q1 = self.bfs_queue(root, max_depth, cap, reverse, s + 1);
                &&& q.len() <= q1.len()
                &&& forall|i: int| 0 <= i < q.len() ==> #[trigger] q1[i] == q[i]
            }),
        decreases s,
    {
        let n = self.packages.len() as nat;
        let q = self.bfs_queue(root, max_depth, cap, reverse, s);
        if s == 0 {
        } else {
            self.lemma_bfs_inv(root, max_depth, cap, reverse, (s - 1) as nat);
            let p = self.bfs_queue(root, max_depth, cap, reverse, (s - 1) as nat);
            let i = s - 1;
            if i < p.len() && i <= cap && p[i].depth < max_depth {
                self.lemma_nbrs_bound(p[i].id, reverse);
                let nb = self.nbrs(p[i].id, reverse);
                lemma_enqueue(p, nb, p[i].depth, n);
                assert forall|j: int| 1 <= j < q.len() implies self.reachable_within(root, (#[trigger] q[j]).id, q[j].depth as nat, reverse) by {
                    if j < p.len() {
                        assert(q[j] == p[j]);
                    } else {
                        let t = choose|t: int| 0 <= t < nb.len() && nb[t].0 == q[j].id && nb[t].1 == q[j].kind;
                        let u = p[i].id;
                        assert(self.is_nbr(u, q[j].id, reverse));
                        if i == 0 {
                            self.lemma_reachable_root(root, reverse);
                        }
                        assert(self.reachable_within(root, u, p[i].depth as nat, reverse));
                        self.lemma_reachable_step(root, u, q[j].id, p[i].depth as nat, reverse);
                    }
                }
                assert forall|j: int| 1 <= j < q.len() implies (#[trigger] q[j]).depth <= max_depth by {
                    if j < p.len() { assert(q[j] == p[j]); }
                }
                assert forall|j: int| 1 <= j < q.len() implies (#[trigger] q[j]).depth >= 1 by {
                    if j < p.len() { assert(q[j] == p[j]); }
                }
                assert forall|a: int, b: int| 0 <= a < b < q.len() implies q[a].depth <= q[b].depth by {
                    if b < p.len() {
                        assert(q[a] == p[a] && q[b] == p[b]);
                    } else if a < p.len() {
                        assert(q[a] == p[a]);
                        if i >= 1 {
                            assert(p[a].depth <= p[i - 1].depth + 1);
                            assert(p[i - 1].depth <= p[i].depth);
                        } else {
                            assert(p.len() == 1 || p[a].depth <= p[0].depth + 1) by {
                                if p.len() > 1 {
                                    assert(p[1].depth >= 1);
                                }
                            }
                        }
                    }
                }
                assert(q[i] == p[i]);
                assert forall|j: int| 0 <= j < q.len() implies (#[trigger] q[j]).depth <= q[s - 1].depth + 1 by {
                    if j < p.len() {
                        assert(q[j] == p[j]);
                        if i >= 1 {
                            assert(p[j].depth <= p[i - 1].depth + 1);
                            assert(p[i - 1].depth <= p[i].depth);
                        } else if j >= 1 {
                            assert(p[j].depth >= 1);
                        }
                    }
                }
            } else {
                if s >= 1 && s - 1 < q.len() {
                    assert forall|j: int| 0 <= j < q.len() implies (#[trigger] q[j]).depth <= q[s - 1].depth + 1 by {
                        if i >= 1 {
                            assert(p[j].depth <= p[i - 1].depth + 1);
                            assert(p[i - 1].depth <= p[i].depth);
                        } else if j >= 1 {
                            assert(p[j].depth >= 1);
                        }
                    }
                }
            }
        }
        // one more step only appends
        let q1 = self.bfs_queue(root, max_depth, cap, reverse, s + 1);
        if s < q.len() && s <= cap && q[s as int].depth < max_depth {
            self.lemma_nbrs_bound(q[s as int].id, reverse);
            lemma_enqueue(q, self.nbrs(q[s as int].id, reverse), q[s as int].depth, n);
        }
    }
}


impl Index {
    /// Later queues extend earlier ones.
    pub proof fn lemma_bfs_prefix(&self, root: u32, max_depth: u8, cap: usize, reverse: bool, a: nat, b: nat)
        requires
            self.wf(),
            root < self.packages.len(),
            a <= b,
        ensures
            ({
                let qa = self.bfs_queue(root, max_depth, cap, reverse, a);
                let qb = self.bfs_queue(root, max_depth, cap, reverse, b);
                &&& qa.len() <= qb.len()
                &&& forall|i: int| 0 <= i < qa.len() ==> #[trigger] qb[i] == qa[i]
            }),
        decreases b - a,
    {
        if a < b {
            self.lemma_bfs_prefix(root, max_depth, cap, reverse, a, (b - 1) as nat);
            self.lemma_bfs_inv(root, max_depth, cap, reverse, (b - 1) as nat);
            let qa = self.bfs_queue(root, max_depth, cap, reverse, a);
            let qm = self.bfs_queue(root, max_depth, cap, reverse, (b - 1) as nat);
            let qb = self.bfs_queue(root, max_depth, cap, reverse, b);
            assert forall|i: int| 0 <= i < qa.len() implies #[trigger] qb[i] == qa[i] by {
                assert(qm[i] == qa[i]);
            }
        }
    }

    /// The final queue holds at most one entry per package.
    pub proof fn lemma_bfs_final_len(&self, root: u32, max_depth: u8, cap: usize, reverse: bool)
        requires
            self.wf(),
            root < self.packages.len(),
        ensures
            self.bfs_queue(root, max_depth, cap, reverse, self.packages.len() as nat).len() <= self.packages.len(),
    {
        let n = self.packages.len() as nat;
        self.lemma_bfs_inv(root, max_depth, cap, reverse, n);
        let q = self.bfs_queue(root, max_depth, cap, reverse, n);
        crate::counting::lemma_distinct_u32_below(q.map_values(|b: BfsNode| b.id), n as int);
    }

    /// In an uncapped walk every expanded node has all its neighbours queued,
    /// at most one level deeper.
    pub proof fn lemma_bfs_closed(&self, root: u32, max_depth: u8, cap: usize, reverse: bool, i: int, w: u32)
        requires
            self.wf(),
            root < self.packages.len(),
            ({
                let q = self.bfs_queue(root, max_depth, cap, reverse, self.packages.len() as nat);
                &&& q.len() <= cap
                &&& 0 <= i < q.len()
                &&& q[i].depth < max_depth
                &&& self.is_nbr(q[i].id, w, reverse)
            }),
        ensures
            ({
                let q = self.bfs_queue(root, max_depth, cap, reverse, self.packages.len() as nat);
                exists|a: int| 0 <= a < q.len() && (#[trigger] q[a]).id == w && q[a].depth <= q[i].depth + 1
            }),
    {
        let n = self.packages.len() as nat;
        let q = self.bfs_queue(root, max_depth, cap, reverse, n);
        self.lemma_bfs_final_len(root, max_depth, cap, reverse);
        let p = self.bfs_queue(root, max_depth, cap, reverse, i as nat);
        if i >= p.len() {
            self.lemma_bfs_stable(root, max_depth, cap, reverse, i as nat, n);
            assert(false);
        }
        self.lemma_bfs_prefix(root, max_depth, cap, reverse, i as nat, n);
        self.lemma_bfs_prefix(root, max_depth, cap, reverse, (i + 1) as nat, n);
        self.lemma_bfs_inv(root, max_depth, cap, reverse, i as nat);
        assert(p[i] == q[i]);
        let p1 = self.bfs_queue(root, max_depth, cap, reverse, (i + 1) as nat);
        let nb = self.nbrs(p[i].id, reverse);
        self.lemma_nbrs_bound(p[i].id, reverse);
        lemma_enqueue(p, nb, p[i].depth, n);
        assert(p1 == enqueue(p, nb, p[i].depth));
        let t = choose|t: int| 0 <= t < nb.len() && (#[trigger] nb[t]).0 == w;
        assert(queued(p1, nb[t].0));
        let a = choose|a: int| 0 <= a < p1.len() && p1[a].id == w;
        assert(q[a] == p1[a]);
        if a < p.len() {
            assert(p1[a] == p[a]);
            if i >= 1 {
                assert(p[a].depth <= p[i - 1].depth + 1);
                assert(p[i - 1].depth <= p[i].depth);
            } else {
                assert(p.len() >= 1);
                assert(p[a].depth <= p[0].depth + 1) by {
                    if a >= 1 {
                        assert(p[a].depth <= p[0].depth + 1);
                    }
                }
            }
        }
    }

    /// In an uncapped walk every node reachable in `k <= max_depth` steps is
    /// queued at depth at most `k`.
    pub proof fn lemma_bfs_reaches(&self, root: u32, max_depth: u8, cap: usize, reverse: bool, wk: Seq<u32>, j: int)
        requires
            self.wf(),
            root < self.packages.len(),
            self.bfs_queue(root, max_depth, cap, reverse, self.packages.len() as nat).len() <= cap,
            self.is_walk(root, wk, reverse),
            0 <= j < wk.len(),
            j <= max_depth,
        ensures
            ({
                let q = self.bfs_queue(root, max_depth, cap, reverse, self.packages.len() as nat);
                exists|a: int| 0 <= a < q.len() && (#[trigger] q[a]).id == wk[j] && q[a].depth <= j
            }),
        decreases j,
    {
        let n = self.packages.len() as nat;
        let q = self.bfs_queue(root, max_depth, cap, reverse, n);
        self.lemma_bfs_inv(root, max_depth, cap, reverse, n);
        if j == 0 {
            assert(q[0].id == wk[0]);
        } else {
            self.lemma_bfs_reaches(root, max_depth, cap, reverse, wk, j - 1);
            let b = choose|b: int| 0 <= b < q.len() && (#[trigger] q[b]).id == wk[j - 1] && q[b].depth <= j - 1;
            assert(self.is_nbr(wk[j - 1], wk[j], reverse));
            self.lemma_bfs_closed(root, max_depth, cap, reverse, b, wk[j]);
        }
    }
}

/// Law of the bounded BFS (soundness): the walk materializes at most `cap`
/// nodes, never the root, each once, in non-decreasing depth between 1 and
/// `max_depth`; each is reachable from the root within its depth; and the
/// discovered total is never below the materialized count.
pub proof fn law_bfs_sound(idx: &Index, root: u32, max_depth: u8, cap: usize, reverse: bool)
    requires
        idx.wf(),
    ensures
        ({
            let (out, total) = idx.bfs_spec(root, max_depth, cap, reverse);
            &&& out.len() <= cap
            &&& out.len() <= total
            &&& forall|i: int| 0 <= i < out.len() ==> {
                &&& (#[trigger] out[i]).id < idx.packages.len()
                &&& out[i].id != root
                &&& 1 <= out[i].depth <= max_depth
                &&& idx.reachable_within(root, out[i].id, out[i].depth as nat, reverse)
            }
            &&& forall|i: int, j: int| 0 <= i < j < out.len() ==> out[i].id != out[j].id && out[i].depth <= out[j].depth
        }),
{
    let n = idx.packages.len() as nat;
    if root < n {
        idx.lemma_bfs_inv(root, max_depth, cap, reverse, n);
        let q = idx.bfs_queue(root, max_depth, cap, reverse, n);
        let (out, total) = idx.bfs_spec(root, max_depth, cap, reverse);
        assert forall|i: int| 0 <= i < out.len() implies {
            &&& (#[trigger] out[i]).id < idx.packages.len()
            &&& out[i].id != root
            &&& 1 <= out[i].depth <= max_depth
            &&& idx.reachable_within(root, out[i].id, out[i].depth as nat, reverse)
        } by {
            assert(out[i] == q[i + 1]);
            assert(q[0].id == root);
        }
        assert forall|i: int, j: int| 0 <= i < j < out.len() implies out[i].id != out[j].id && out[i].depth <= out[j].depth by {
            assert(out[i] == q[i + 1] && out[j] == q[j + 1]);
        }
    }
}

/// Law of the bounded BFS (completeness): when the cap was not reached,
/// every package other than the root that is reachable within `k <=
/// max_depth` steps is materialized, at depth at most `k` (so its depth is
/// its distance from the root), and the total equals the materialized count.
pub proof fn law_bfs_complete(idx: &Index, root: u32, max_depth: u8, cap: usize, reverse: bool, v: u32, k: nat)
    requires
        idx.wf(),
        root < idx.packages.len(),
        idx.bfs_spec(root, max_depth, cap, reverse).0.len() < cap,
        k <= max_depth,
        idx.reachable_within(root, v, k, reverse),
        v != root,
    ensures
        ({
            let (out, total) = idx.bfs_spec(root, max_depth, cap, reverse);
            &&& total == out.len()
            &&& exists|i: int| 0 <= i < out.len() && (#[trigger] out[i]).id == v && out[i].depth <= k
        }),
{
    let n = idx.packages.len() as nat;
    let q = idx.bfs_queue(root, max_depth, cap, reverse, n);
    idx.lemma_bfs_inv(root, max_depth, cap, reverse, n);
    let (out, total) = idx.bfs_spec(root, max_depth, cap, reverse);
    assert(q.len() <= cap);
    let wk = choose|w: Seq<u32>| #[trigger] idx.is_walk(root, w, reverse) && w.len() <= k + 1 && w.last() == v;
    idx.lemma_bfs_reaches(root, max_depth, cap, reverse, wk, wk.len() - 1);
    let a = choose|a: int| 0 <= a < q.len() && (#[trigger] q[a]).id == wk[wk.len() - 1] && q[a].depth <= wk.len() - 1;
    assert(a != 0) by {
        assert(q[0].id == root);
    }
    assert(out[a - 1] == q[a]);
}


/// The file table numbers its entries by position.
pub proof fn lemma_file_entries_slots(pkgs: Seq<PkgJson>)
    requires
        pkgs.len() <= 0x1_0000_0000,
    ensures
        forall|i: int| 0 <= i < file_entries(pkgs).len() ==> (#[trigger] file_entries(pkgs)[i]).1 == i,
        forall|i: int| 0 <= i < file_entries(pkgs).len() ==> (#[trigger] file_entries(pkgs)[i]).0.len() > 0,
        file_entries(pkgs).len() <= pkgs.len(),
    decreases pkgs.len(),
{
    if pkgs.len() > 0 {
        lemma_file_entries_slots(pkgs.drop_last());
    }
}

/// A non-empty module file of some package is in the file table, and the
/// package is among that file's members.
pub proof fn lemma_module_member_of_own_file(pkgs: Seq<PkgJson>, k: int)
    requires
        0 <= k < pkgs.len(),
        pkgs[k].file.0@.len() > 0,
    ensures
        seq_lookup(file_entries(pkgs), pkgs[k].file.0@) is Some,
        module_members(pkgs, pkgs[k].file.0@).contains(pkgs[k].id),
    decreases pkgs.len(),
{
    let p = pkgs.drop_last();
    let f = pkgs[k].file.0@;
    let e = file_entries(p);
    if k < p.len() {
        assert(p[k] == pkgs[k]);
        lemma_module_member_of_own_file(p, k);
        let m = module_members(p, f);
        let j = choose|j: int| 0 <= j < m.len() && m[j] == pkgs[k].id;
        assert(module_members(pkgs, f)[j] == pkgs[k].id);
        if pkgs.last().file.0@.len() > 0 && seq_lookup(e, pkgs.last().file.0@) is None {
            assert(file_entries(pkgs) == e.push((pkgs.last().file.0@, e.len() as u32)));
            assert(file_entries(pkgs).drop_last() == e);
        }
    } else {
        if seq_lookup(e, f) is None {
            assert(file_entries(pkgs) == e.push((f, e.len() as u32)));
            assert(file_entries(pkgs).drop_last() == e);
        }
        let m = module_members(pkgs, f);
        assert(m[m.len() - 1] == pkgs[k].id);
    }
}

/// Law: every package with a module file is among the module neighbours
/// of itself, and those neighbours are the packages of that file in
/// document order.
pub proof fn law_module_neighbors_include_self(idx: &Index, doc: IndexDoc, k: int)
    requires
        idx.wf(),
        idx.built_from(doc),
        0 <= k < doc.packages@.len(),
        doc.packages@[k].file.0@.len() > 0,
    ensures
        idx.module_list(doc.packages@[k].id as int) == module_members(doc.packages@, doc.packages@[k].file.0@),
        idx.module_list(doc.packages@[k].id as int).contains(doc.packages@[k].id),
{
    let pkgs = doc.packages@;
    let f = pkgs[k].file.0@;
    lemma_module_member_of_own_file(pkgs, k);
    lemma_file_entries_slots(pkgs);
    let e = file_entries(pkgs);
    crate::strtable::lemma_lookup_found(e, f);
    let i = choose|i: int| 0 <= i < e.len() && e[i].0 == f && e[i].1 == seq_lookup(e, f)->0;
    assert(converted(idx.packages[pkgs[k].id as int], pkgs[k], name_entries(pkgs)));
    assert(idx.by_module[i]@ == module_members(pkgs, e[i].0));
}

/// Law: a package's dependency list names each target once, and names
/// exactly the ids found in any of its three input lists.
pub proof fn law_deps_dedup(p: Package, d: u32)
    ensures
        forall|i: int, j: int| 0 <= i < j < p.deps_spec().len() ==> p.deps_spec()[i].0 != p.deps_spec()[j].0,
        has_id(p.deps_spec(), d) <==> pkg_has_dep(p, d),
{
    lemma_dedup_push(Seq::empty(), p.inputs@, DepKind::Input, 0x1_0000_0000);
    let a = dedup_push(Seq::empty(), p.inputs@, DepKind::Input);
    lemma_dedup_push(a, p.propagated@, DepKind::Propagated, 0x1_0000_0000);
    let b = dedup_push(a, p.propagated@, DepKind::Propagated);
    lemma_dedup_push(b, p.native@, DepKind::Native, 0x1_0000_0000);
    lemma_deps_of_has(p.inputs@, p.propagated@, p.native@, d);
}

/// Below the cap, a capped and a wider-capped walk take the same steps.
proof fn lemma_bfs_cap_same(idx: &Index, root: u32, max_depth: u8, c: usize, m: usize, reverse: bool, s: nat)
    requires
        c <= m,
        s <= c + 1,
    ensures
        idx.bfs_queue(root, max_depth, c, reverse, s) == idx.bfs_queue(root, max_depth, m, reverse, s),
    decreases s,
{
    if s > 0 {
        lemma_bfs_cap_same(idx, root, max_depth, c, m, reverse, (s - 1) as nat);
    }
}

/// Law: a capped walk materializes exactly the first `cap` nodes of the
/// uncapped walk.
pub proof fn law_bfs_cap_prefix(idx: &Index, root: u32, max_depth: u8, cap: usize, reverse: bool)
    requires
        idx.wf(),
        root < idx.packages.len(),
    ensures
        ({
            let full = idx.bfs_spec(root, max_depth, usize::MAX, reverse).0;
            idx.bfs_spec(root, max_depth, cap, reverse).0 == full.take(if cap < full.len() { cap as int } else { full.len() as int })
        }),
{
    let n = idx.packages.len() as nat;
    let m = usize::MAX;
    let qc = idx.bfs_queue(root, max_depth, cap, reverse, n);
    let qm = idx.bfs_queue(root, max_depth, m, reverse, n);
    idx.lemma_bfs_final_len(root, max_depth, m, reverse);
    idx.lemma_bfs_final_len(root, max_depth, cap, reverse);
    idx.lemma_bfs_prefix(root, max_depth, m, reverse, 0, n);
    idx.lemma_bfs_prefix(root, max_depth, cap, reverse, 0, n);
    assert(qm.len() >= 1 && qc.len() >= 1);
    let full = qm.subrange(1, qm.len() as int);
    assert(idx.bfs_spec(root, max_depth, m, reverse).0 == full);
    if n <= cap + 1 {
        lemma_bfs_cap_same(idx, root, max_depth, cap, m, reverse, n);
        assert(qc == qm);
        assert(qc.subrange(1, if qc.len() < cap + 1 { qc.len() as int } else { cap + 1 })
            =~= full.take(if cap < full.len() { cap as int } else { full.len() as int }));
    } else {
        let k = (cap + 1) as nat;
        idx.lemma_bfs_stable(root, max_depth, cap, reverse, k, n);
        lemma_bfs_cap_same(idx, root, max_depth, cap, m, reverse, k);
        let qk = idx.bfs_queue(root, max_depth, m, reverse, k);
        assert(qc == qk);
        idx.lemma_bfs_prefix(root, max_depth, m, reverse, k, n);
        if qk.len() < cap + 1 {
            idx.lemma_bfs_stable(root, max_depth, m, reverse, k, n);
            assert(qk == qm);
            assert(qc.subrange(1, qc.len() as int) =~= full.take(full.len() as int));
        } else {
            assert(qc.subrange(1, cap + 1) =~= full.take(cap as int));
        }
    }
}

/// An uncapped walk to a smaller depth stays a prefix of the walk to a
/// larger depth, step by step; once the shallow walk reaches its depth
/// limit it grows no more.
proof fn lemma_deeper_prefix(idx: &Index, root: u32, d1: u8, d2: u8, reverse: bool, s: nat)
    requires
        idx.wf(),
        root < idx.packages.len(),
        d1 <= d2,
        s <= idx.packages.len(),
    ensures
        ({
            let a = idx.bfs_queue(root, d1, usize::MAX, reverse, s);
            let b = idx.bfs_queue(root, d2, usize::MAX, reverse, s);
            &&& a.len() <= b.len()
            &&& forall|j: int| 0 <= j < a.len() ==> #[trigger] b[j] == a[j]
            &&& (a == b || forall|j: int| s <= j < a.len() ==> (#[trigger] a[j]).depth >= d1)
        }),
    decreases s,
{
    if s > 0 {
        let t = (s - 1) as nat;
        lemma_deeper_prefix(idx, root, d1, d2, reverse, t);
        idx.lemma_bfs_inv(root, d1, usize::MAX, reverse, t);
        idx.lemma_bfs_inv(root, d2, usize::MAX, reverse, t);
        let a0 = idx.bfs_queue(root, d1, usize::MAX, reverse, t);
        let b0 = idx.bfs_queue(root, d2, usize::MAX, reverse, t);
        let a = idx.bfs_queue(root, d1, usize::MAX, reverse, s);
        let b = idx.bfs_queue(root, d2, usize::MAX, reverse, s);
        let i = t as int;
        if a0 == b0 {
            if i < a0.len() && a0[i].depth < d1 {
                assert(a == b);
            } else if i < a0.len() && a0[i].depth < d2 {
                assert(a == a0);
                assert forall|j: int| s <= j < a.len() implies (#[trigger] a[j]).depth >= d1 by {
                    assert(a0[i].depth <= a0[j].depth);
                }
            } else {
                assert(a == a0);
                assert(b == b0);
            }
        } else {
            if i < a0.len() {
                assert(a0[i].depth >= d1);
            }
            assert(a == a0);
        }
    }
}

/// Law (a deeper walk only appends): the uncapped walk to depth `d1`
/// materializes a prefix of what the uncapped walk to depth `d2 >= d1`
/// materializes.
pub proof fn law_bfs_deeper_prefix(idx: &Index, root: u32, d1: u8, d2: u8, reverse: bool)
    requires
        idx.wf(),
        root < idx.packages.len(),
        d1 <= d2,
    ensures
        ({
            let s = idx.bfs_spec(root, d1, usize::MAX, reverse).0;
            let l = idx.bfs_spec(root, d2, usize::MAX, reverse).0;
            &&& s.len() <= l.len()
            &&& l.take(s.len() as int) == s
        }),
{
    let n = idx.packages.len() as nat;
    lemma_deeper_prefix(idx, root, d1, d2, reverse, n);
    let a = idx.bfs_queue(root, d1, usize::MAX, reverse, n);
    let b = idx.bfs_queue(root, d2, usize::MAX, reverse, n);
    idx.lemma_bfs_final_len(root, d1, usize::MAX, reverse);
    idx.lemma_bfs_final_len(root, d2, usize::MAX, reverse);
    idx.lemma_bfs_inv(root, d1, usize::MAX, reverse, n);
    idx.lemma_bfs_inv(root, d2, usize::MAX, reverse, n);
    let s = idx.bfs_spec(root, d1, usize::MAX, reverse).0;
    let l = idx.bfs_spec(root, d2, usize::MAX, reverse).0;
    assert(s == a.subrange(1, a.len() as int));
    assert(l == b.subrange(1, b.len() as int));
    assert(l.take(s.len() as int) =~= s);
}

/// The entries a dedup pass adds carry its kind and come from its ids.
proof fn lemma_dedup_push_members(acc: Seq<(u32, DepKind)>, ids: Seq<u32>, kind: DepKind)
    ensures
        dedup_push(acc, ids, kind).len() >= acc.len(),
        forall|i: int| 0 <= i < acc.len() ==> #[trigger] dedup_push(acc, ids, kind)[i] == acc[i],
        forall|i: int| acc.len() <= i < dedup_push(acc, ids, kind).len() ==>
            (#[trigger] dedup_push(acc, ids, kind)[i]).1 == kind && ids.contains(dedup_push(acc, ids, kind)[i].0),
    decreases ids.len(),
{
    if ids.len() > 0 {
        let d = ids.drop_last();
        lemma_dedup_push_members(acc, d, kind);
        let a = dedup_push(acc, d, kind);
        let r = dedup_push(acc, ids, kind);
        assert forall|i: int| acc.len() <= i < r.len() implies (#[trigger] r[i]).1 == kind && ids.contains(r[i].0) by {
            if i < a.len() {
                assert(r[i] == a[i]);
                let j = choose|j: int| 0 <= j < d.len() && d[j] == a[i].0;
                assert(ids[j] == d[j]);
            } else {
                assert(r[i] == (ids.last(), kind));
                assert(ids[ids.len() - 1] == ids.last());
            }
        }
        assert forall|i: int| 0 <= i < acc.len() implies #[trigger] r[i] == acc[i] by {
            assert(r[i] == a[i]);
        }
    }
}

/// The kind of a dependency edge names a list that holds its target.
proof fn lemma_deps_kind_member(p: Package, t: int)
    requires
        0 <= t < p.deps_spec().len(),
    ensures
        match p.deps_spec()[t].1 {
            DepKind::Input => p.inputs@.contains(p.deps_spec()[t].0),
            DepKind::Propagated => p.propagated@.contains(p.deps_spec()[t].0),
            DepKind::Native => p.native@.contains(p.deps_spec()[t].0),
        },
{
    let e = Seq::<(u32, DepKind)>::empty();
    let a = dedup_push(e, p.inputs@, DepKind::Input);
    let b = dedup_push(a, p.propagated@, DepKind::Propagated);
    let c = dedup_push(b, p.native@, DepKind::Native);
    lemma_dedup_push_members(e, p.inputs@, DepKind::Input);
    lemma_dedup_push_members(a, p.propagated@, DepKind::Propagated);
    lemma_dedup_push_members(b, p.native@, DepKind::Native);
    if t < a.len() {
        assert(c[t] == b[t] && b[t] == a[t]);
    } else if t < b.len() {
        assert(c[t] == b[t]);
    }
}

/// Law (the forward walk follows every dependency): package `v` is a
/// forward neighbour of package `u` exactly when `v` is among `u`'s inputs,
/// propagated inputs or native inputs; each is offered once, tagged with a
/// kind whose list holds it; and a forward step from `u` to `v` is exactly
/// such a dependency edge.
pub proof fn law_forward_neighbours(idx: &Index, u: u32, v: u32)
    requires
        idx.wf(),
        u < idx.packages.len(),
    ensures
        (exists|t: int| 0 <= t < idx.nbrs(u, false).len() && (#[trigger] idx.nbrs(u, false)[t]).0 == v)
            <==> (idx.packages[u as int].inputs@.contains(v) || idx.packages[u as int].propagated@.contains(v)
                || idx.packages[u as int].native@.contains(v)),
        idx.is_nbr(u, v, false) <==> pkg_has_dep(idx.packages[u as int], v),
        forall|t: int| 0 <= t < idx.nbrs(u, false).len() ==> match (#[trigger] idx.nbrs(u, false)[t]).1 {
            Some(DepKind::Input) => idx.packages[u as int].inputs@.contains(idx.nbrs(u, false)[t].0),
            Some(DepKind::Propagated) => idx.packages[u as int].propagated@.contains(idx.nbrs(u, false)[t].0),
            Some(DepKind::Native) => idx.packages[u as int].native@.contains(idx.nbrs(u, false)[t].0),
            None => false,
        },
        forall|s: int, t: int| 0 <= s < t < idx.nbrs(u, false).len() ==> idx.nbrs(u, false)[s].0 != idx.nbrs(u, false)[t].0,
{
    let p = idx.packages[u as int];
    let ds = p.deps_spec();
    let nb = idx.nbrs(u, false);
    law_deps_dedup(p, v);
    assert(nb.len() == ds.len());
    if has_id(ds, v) {
        let t = choose|t: int| 0 <= t < ds.len() && ds[t].0 == v;
        assert(nb[t].0 == v);
    }
    if exists|t: int| 0 <= t < nb.len() && (#[trigger] nb[t]).0 == v {
        let t = choose|t: int| 0 <= t < nb.len() && (#[trigger] nb[t]).0 == v;
        assert(ds[t].0 == v);
    }
    assert forall|t: int| 0 <= t < nb.len() implies match (#[trigger] nb[t]).1 {
        Some(DepKind::Input) => p.inputs@.contains(nb[t].0),
        Some(DepKind::Propagated) => p.propagated@.contains(nb[t].0),
        Some(DepKind::Native) => p.native@.contains(nb[t].0),
        None => false,
    } by {
        assert(nb[t] == (ds[t].0, Some(ds[t].1)));
        lemma_deps_kind_member(p, t);
    }
    assert forall|a: int, b: int| 0 <= a < b < nb.len() implies nb[a].0 != nb[b].0 by {
        assert(nb[a].0 == ds[a].0 && nb[b].0 == ds[b].0);
    }
}

/// Law (direct dependents sit at depth one): in a reverse walk from
/// `root`, every direct dependent of `root` that is materialized is at
/// depth 1, never deeper.
pub proof fn law_direct_dependents_depth_one(idx: &Index, root: u32, max_depth: u8, cap: usize, d: u32)
    requires
        idx.wf(),
        root < idx.packages.len(),
        idx.dependents[root as int]@.contains(d),
    ensures
        forall|i: int| 0 <= i < idx.bfs_spec(root, max_depth, cap, true).0.len()
            && (#[trigger] idx.bfs_spec(root, max_depth, cap, true).0[i]).id == d
            ==> idx.bfs_spec(root, max_depth, cap, true).0[i].depth == 1,
{
    let n = idx.packages.len() as nat;
    let q0 = idx.bfs_queue(root, max_depth, cap, true, 0);
    let q1 = idx.bfs_queue(root, max_depth, cap, true, 1);
    let q = idx.bfs_queue(root, max_depth, cap, true, n);
    let out = idx.bfs_spec(root, max_depth, cap, true).0;
    idx.lemma_bfs_inv(root, max_depth, cap, true, n);
    idx.lemma_bfs_inv(root, max_depth, cap, true, 0);
    idx.lemma_bfs_prefix(root, max_depth, cap, true, 1, n);
    let nb = idx.nbrs(root, true);
    let t = choose|t: int| 0 <= t < idx.dependents[root as int]@.len() && idx.dependents[root as int]@[t] == d;
    assert(nb[t].0 == d);
    if max_depth == 0 {
        // nothing is expanded: the walk holds only the root
        assert(q1 == q0);
        idx.lemma_bfs_stable(root, max_depth, cap, true, 1, n);
        assert(q.len() == 1);
        assert(out.len() == 0);
    } else {
        idx.lemma_nbrs_bound(root, true);
        lemma_enqueue(q0, nb, 0, n);
        assert(q1 == enqueue(q0, nb, 0));
        assert(queued(q1, nb[t].0));
        let a = choose|a: int| 0 <= a < q1.len() && q1[a].id == d;
        assert(q1[a].depth <= 1) by {
            if a >= 1 {
                assert(q1[a].depth == 1);
            } else {
                assert(q1[0] == q0[0]);
            }
        }
        assert(q[a] == q1[a]);
        assert forall|i: int| 0 <= i < out.len() && (#[trigger] out[i]).id == d implies out[i].depth == 1 by {
            assert(out[i] == q[i + 1]);
            if i + 1 != a {
                assert(q[i + 1].id != q[a].id);
            }
            assert(q[i + 1].depth >= 1);
        }
    }
}

} // verus!
