//! The local web API's decisions: which hosts may ask, how requests are
//! read and refused, what the server state becomes on loader events, and
//! what a package or graph answer holds.

use std::sync::Arc;

use vstd::prelude::*;

use crate::graph::{bfs_ids, project, projection_ok, Dir, Projection, NODE_BUDGET};
use crate::index::{DepKind, Index};
use crate::indexer::IndexEvent;
use crate::text::{chars_of, concat, str_eq, string_from_range};

verus! {

// ---------------------------------------------------------------------------
// Host check
// ---------------------------------------------------------------------------

/// Whether `c` has the Unicode `White_Space` property (`char::is_whitespace`).
pub open spec fn is_ws(c: char) -> bool {
    let u = c as u32;
    (0x9 <= u <= 0xD) || u == 0x20 || u == 0x85 || u == 0xA0 || u == 0x1680 || (0x2000 <= u <= 0x200A)
        || u == 0x2028 || u == 0x2029 || u == 0x202F || u == 0x205F || u == 0x3000
}

fn is_ws_char(c: char) -> (b: bool)
    ensures
        b == is_ws(c),
{
    let u = c as u32;
    (0x9 <= u && u <= 0xD) || u == 0x20 || u == 0x85 || u == 0xA0 || u == 0x1680 || (0x2000 <= u && u <= 0x200A)
        || u == 0x2028 || u == 0x2029 || u == 0x202F || u == 0x205F || u == 0x3000
}

/// `s` without leading whitespace.
pub open spec fn trim_start_spec(s: Seq<char>) -> Seq<char>
    decreases s.len(),
{
    if s.len() > 0 && is_ws(s[0]) { trim_start_spec(s.drop_first()) } else { s }
}

/// `s` without trailing whitespace.
pub open spec fn trim_end_spec(s: Seq<char>) -> Seq<char>
    decreases s.len(),
{
    if s.len() > 0 && is_ws(s.last()) { trim_end_spec(s.drop_last()) } else { s }
}

/// `s` without leading and trailing whitespace (`str::trim`).
pub open spec fn trim_spec(s: Seq<char>) -> Seq<char> {
    trim_end_spec(trim_start_spec(s))
}

/// The part of `s` before the first `c` (all of `s` without one).
pub open spec fn before_char(s: Seq<char>, c: char) -> Seq<char> {
    match s.index_of_first(c) {
        Some(i) => s.take(i),
        None => s,
    }
}

/// The host of a `Host` header without its port: inside the brackets of
/// an IPv6 literal, else before the first `:`.
pub open spec fn host_part(h: Seq<char>) -> Seq<char> {
    let t = trim_spec(h);
    if t.len() > 0 && t[0] == '[' { before_char(t.drop_first(), ']') } else { before_char(t, ':') }
}

/// Whether a `Host` header names this machine: `localhost`, `127.0.0.1` or
/// `::1`, with any port.
pub open spec fn is_local_host_spec(h: Seq<char>) -> bool {
    let x = host_part(h);
    x == "localhost"@ || x == "127.0.0.1"@ || x == "::1"@
}

/// Bounds of the trimmed part of `cs`.
fn trim_bounds(cs: &Vec<char>) -> (r: (usize, usize))
    ensures
        r.0 <= r.1 <= cs.len(),
        cs@.subrange(r.0 as int, r.1 as int) == trim_spec(cs@),
{
    let ghost s = cs@;
    let mut a: usize = 0;
    assert(s.skip(0) == s);
    while a < cs.len() && is_ws_char(cs[a])
        invariant
            s == cs@,
            a <= cs.len(),
            trim_start_spec(s) == trim_start_spec(s.skip(a as int)),
        decreases cs.len() - a,
    {
        assert(s.skip(a as int)[0] == s[a as int]);
        assert(s.skip(a as int).drop_first() == s.skip(a + 1));
        a += 1;
    }
    proof {
        if a < cs.len() {
            assert(s.skip(a as int)[0] == s[a as int]);
        }
        assert(trim_start_spec(s) == s.skip(a as int));
        assert(s.skip(a as int) == s.subrange(a as int, s.len() as int));
    }
    let mut b: usize = cs.len();
    while b > a && is_ws_char(cs[b - 1])
        invariant
            s == cs@,
            a <= b <= cs.len(),
            trim_end_spec(s.subrange(a as int, s.len() as int)) == trim_end_spec(s.subrange(a as int, b as int)),
        decreases b,
    {
        assert(s.subrange(a as int, b as int).last() == s[b - 1]);
        assert(s.subrange(a as int, b as int).drop_last() == s.subrange(a as int, b - 1));
        b -= 1;
    }
    proof {
        if b > a {
            assert(s.subrange(a as int, b as int).last() == s[b - 1]);
        }
    }
    (a, b)
}

/// The end of the part of `cs[from..to]` before the first `c`.
fn find_char(cs: &Vec<char>, from: usize, to: usize, c: char) -> (e: usize)
    requires
        from <= to <= cs.len(),
    ensures
        from <= e <= to,
        cs@.subrange(from as int, e as int) == before_char(cs@.subrange(from as int, to as int), c),
{
    let ghost t = cs@.subrange(from as int, to as int);
    let mut i: usize = from;
    while i < to && cs[i] != c
        invariant
            from <= i <= to <= cs.len(),
            t == cs@.subrange(from as int, to as int),
            forall|j: int| from <= j < i ==> cs@[j] != c,
        decreases to - i,
    {
        i += 1;
    }
    proof {
        t.index_of_first_ensures(c);
        if i < to {
            assert(t[i - from] == c);
            assert(t.contains(c));
            let k = t.index_of_first(c).unwrap();
            assert(t[k] == cs@[from + k]);
            assert(k == i - from);
            assert(t.take(k) == cs@.subrange(from as int, i as int));
        } else {
            assert forall|j: int| 0 <= j < t.len() implies t[j] != c by {
                assert(t[j] == cs@[from + j]);
            }
            assert(!t.contains(c));
            assert(t == cs@.subrange(from as int, i as int));
        }
    }
    i
}

/// Whether a `Host` header names this machine (the DNS-rebinding guard).
pub fn is_local_host(host: &str) -> (b: bool)
    ensures
        b == is_local_host_spec(host@),
{
    let cs = chars_of(host);
    let (a, z) = trim_bounds(&cs);
    let ghost t = cs@.subrange(a as int, z as int);
    let e = if a < z && cs[a] == '[' {
        assert(t[0] == cs@[a as int]);
        assert(t.drop_first() == cs@.subrange(a + 1, z as int));
        find_char(&cs, a + 1, z, ']')
    } else {
        find_char(&cs, a, z, ':')
    };
    let start = if a < z && cs[a] == '[' { a + 1 } else { a };
    let h = string_from_range(&cs, start, e);
    str_eq(h.as_str(), "localhost") || str_eq(h.as_str(), "127.0.0.1") || str_eq(h.as_str(), "::1")
}

// ---------------------------------------------------------------------------
// Requests
// ---------------------------------------------------------------------------

/// What `format!("{:?}", s)` gives for a string: `s` quoted, with special
/// characters escaped.
pub uninterp spec fn debug_quoted(s: Seq<char>) -> Seq<char>;

/// `s` in its `Debug` form (std's `format!("{:?}", s)`).
#[verifier::external_body]
fn debug_str(s: &str) -> (r: String)
    ensures
        r@ == debug_quoted(s@),
{
    format!("{:?}", s)
}

/// The parameters of a graph request: direction (`deps`, the default, or
/// `reverse`/`dependents`), depth (default 2, within `1..=8`) and node
/// budget (default and cap `NODE_BUDGET`); or the reason it is refused.
pub open spec fn graph_query_spec(dir: Option<Seq<char>>, depth: Option<u8>, budget: Option<usize>) -> Result<(Dir, u8, usize), Seq<char>> {
    let d = match dir {
        None => Some(Dir::Deps),
        Some(s) => if s == "deps"@ {
            Some(Dir::Deps)
        } else if s == "reverse"@ || s == "dependents"@ {
            Some(Dir::Dependents)
        } else {
            None
        },
    };
    match d {
        None => Err("invalid dir "@ + debug_quoted(dir.unwrap()) + " (use deps|reverse)"@),
        Some(dir) => {
            let depth = match depth { Some(x) => x, None => 2u8 };
            if !(1 <= depth <= 8) {
                Err("depth must be 1..=8"@)
            } else {
                let b = match budget { Some(b) => b, None => NODE_BUDGET };
                Ok((dir, depth, if b < NODE_BUDGET { b } else { NODE_BUDGET }))
            }
        },
    }
}

/// Read the parameters of a graph request.
pub fn graph_query(dir: Option<&str>, depth: Option<u8>, budget: Option<usize>) -> (r: Result<(Dir, u8, usize), String>)
    ensures
        match (r, graph_query_spec(match dir { Some(s) => Some(s@), None => None }, depth, budget)) {
            (Ok(x), Ok(y)) => x == y,
            (Err(m), Err(n)) => m@ == n,
            _ => false,
        },
{
    let d = match dir {
        None => Dir::Deps,
        Some(s) => {
            if str_eq(s, "deps") {
                Dir::Deps
            } else if str_eq(s, "reverse") || str_eq(s, "dependents") {
                Dir::Dependents
            } else {
                let q = debug_str(s);
                let a = concat("invalid dir ", q.as_str());
                return Err(concat(a.as_str(), " (use deps|reverse)"));
            }
        },
    };
    let depth = match depth {
        Some(x) => x,
        None => 2,
    };
    if !(1 <= depth && depth <= 8) {
        return Err("depth must be 1..=8".to_owned());
    }
    let b = match budget {
        Some(b) => b,
        None => NODE_BUDGET,
    };
    Ok((d, depth, if b < NODE_BUDGET { b } else { NODE_BUDGET }))
}

/// The parameters of a search request: the query (empty by default, at
/// most 200 characters) and the result limit (default 50, within
/// `1..=500`); or the reason it is refused.
pub open spec fn search_query_spec(q: Option<Seq<char>>, limit: Option<usize>) -> Result<(Seq<char>, usize), Seq<char>> {
    let q = match q { Some(s) => s, None => Seq::empty() };
    if q.len() > 200 {
        Err("query too long (max 200 chars)"@)
    } else {
        let l = match limit { Some(l) => l, None => 50usize };
        Ok((q, if l < 1 { 1usize } else if l > 500 { 500usize } else { l }))
    }
}

/// Read the parameters of a search request.
pub fn search_query(q: Option<String>, limit: Option<usize>) -> (r: Result<(String, usize), String>)
    ensures
        match (r, search_query_spec(match q { Some(s) => Some(s@), None => None }, limit)) {
            (Ok(x), Ok(y)) => x.0@ == y.0 && x.1 == y.1,
            (Err(m), Err(n)) => m@ == n,
            _ => false,
        },
{
    let q = match q {
        Some(s) => s,
        None => String::new(),
    };
    let n = chars_of(q.as_str()).len();
    if n > 200 {
        return Err("query too long (max 200 chars)".to_owned());
    }
    let l = match limit {
        Some(l) => l,
        None => 50,
    };
    Ok((q, if l < 1 { 1 } else if l > 500 { 500 } else { l }))
}

// ---------------------------------------------------------------------------
// Server state
// ---------------------------------------------------------------------------

/// The phase of the web server's index.
#[derive(Debug, Clone)]
pub enum WebPhase {
    Loading { done: u64, total: u64 },
    Ready,
    Failed { msg: String },
}

/// The served index, its generation (bumped at every swap) and phase.
pub struct WebCore {
    pub index: Option<Arc<Index>>,
    pub generation: u64,
    pub phase: WebPhase,
}

impl WebCore {
    /// The state before any index: loading, generation 0.
    pub fn new() -> (s: WebCore)
        ensures
            s.index is None,
            s.generation == 0,
            s.phase == (WebPhase::Loading { done: 0, total: 0 }),
    {
        WebCore { index: None, generation: 0, phase: WebPhase::Loading { done: 0, total: 0 } }
    }

    /// A state serving `index` from the start (generation 1).
    pub fn with_index(index: Index) -> (s: WebCore)
        ensures
            s.index matches Some(i) && *i == index,
            s.generation == 1,
            s.phase == WebPhase::Ready,
    {
        WebCore { index: Some(Arc::new(index)), generation: 1, phase: WebPhase::Ready }
    }

    /// Take in a loader event: progress updates the phase, a ready index
    /// is swapped in under the next generation, a failure is recorded.
    pub fn apply(&mut self, ev: IndexEvent)
        ensures
            match ev {
                IndexEvent::Progress { done, total } => {
                    &&& final(self).phase == (WebPhase::Loading { done, total })
                    &&& final(self).index == old(self).index
                    &&& final(self).generation == old(self).generation
                },
                IndexEvent::Ready { index, .. } => {
                    &&& final(self).index == Some(index)
                    &&& final(self).generation == old(self).generation.wrapping_add(1)
                    &&& final(self).phase == WebPhase::Ready
                },
                IndexEvent::Failed { msg } => {
                    &&& final(self).phase == (WebPhase::Failed { msg })
                    &&& final(self).index == old(self).index
                    &&& final(self).generation == old(self).generation
                },
            },
    {
        match ev {
            IndexEvent::Progress { done, total } => {
                self.phase = WebPhase::Loading { done, total };
            },
            IndexEvent::Ready { index, .. } => {
                self.index = Some(index);
                self.generation = self.generation.wrapping_add(1);
                self.phase = WebPhase::Ready;
            },
            IndexEvent::Failed { msg } => {
                self.phase = WebPhase::Failed { msg };
            },
        }
    }
}

// ---------------------------------------------------------------------------
// Answers
// ---------------------------------------------------------------------------

/// The name of a dependency kind in answers.
pub open spec fn kind_name(k: DepKind) -> Seq<char> {
    match k {
        DepKind::Input => "input"@,
        DepKind::Propagated => "propagated"@,
        DepKind::Native => "native"@,
    }
}

/// Law (the kind text names the kind): each edge kind is answered by its
/// own lower-case name, and no two kinds share a text.
pub proof fn law_kind_names(k1: DepKind, k2: DepKind)
    ensures
        k1 == DepKind::Input ==> kind_name(k1) == "input"@,
        k1 == DepKind::Propagated ==> kind_name(k1) == "propagated"@,
        k1 == DepKind::Native ==> kind_name(k1) == "native"@,
        kind_name(k1) == kind_name(k2) ==> k1 == k2,
{
    reveal_strlit("input");
    reveal_strlit("propagated");
    reveal_strlit("native");
    assert("input"@[0] != "propagated"@[0]);
    assert("input"@[0] != "native"@[0]);
    assert("propagated"@[0] != "native"@[0]);
}

fn kind_str(k: DepKind) -> (s: &'static str)
    ensures
        s@ == kind_name(k),
{
    match k {
        DepKind::Input => "input",
        DepKind::Propagated => "propagated",
        DepKind::Native => "native",
    }
}

/// A dependency in a package answer.
#[derive(Debug, Clone)]
pub struct DepView {
    pub name: String,
    pub version: String,
    pub kind: &'static str,
}

/// A dependent in a package answer.
#[derive(Debug, Clone)]
pub struct DependentView {
    pub name: String,
    pub version: String,
    pub dependents: usize,
}

/// The lists of a package answer.
#[derive(Debug)]
pub struct PackageDetail {
    pub id: u32,
    pub deps: Vec<DepView>,
    pub dependents: Vec<DependentView>,
}

/// `v` describes dependency edge `e` of the index.
pub open spec fn dep_view_ok(index: &Index, e: (u32, DepKind), v: DepView) -> bool {
    &&& v.name@ == index.packages[e.0 as int].name@
    &&& v.version@ == index.packages[e.0 as int].version@
    &&& v.kind@ == kind_name(e.1)
}

/// `v` describes dependent `d` of the index.
pub open spec fn dependent_view_ok(index: &Index, d: u32, v: DependentView) -> bool {
    &&& v.name@ == index.packages[d as int].name@
    &&& v.version@ == index.packages[d as int].version@
    &&& v.dependents == index.dependents[d as int].len()
}

/// The package answer for `name`: its deduplicated dependencies (name,
/// version, kind) and its dependents (name, version, dependent count);
/// `None` for an unknown name.
pub fn package_detail(index: &Index, name: &String) -> (r: Option<PackageDetail>)
    requires
        index.wf(),
    ensures
        match index.names.spec_get(name@) {
            None => r is None,
            Some(id) => r matches Some(d) && {
                let p = index.packages[id as int];
                &&& d.id == id
                &&& d.deps@.len() == p.deps_spec().len()
                &&& forall|i: int| 0 <= i < d.deps@.len() ==> dep_view_ok(index, p.deps_spec()[i], #[trigger] d.deps@[i])
                &&& d.dependents@.len() == index.dependents[id as int].len()
                &&& forall|i: int| 0 <= i < d.dependents@.len() ==>
                    dependent_view_ok(index, index.dependents[id as int]@[i], #[trigger] d.dependents@[i])
            },
        },
{
    let id = match index.names.get(name) {
        Some(id) => id,
        None => {
            return None;
        },
    };
    proof { index.lemma_names_ids(name@); }
    let p = &index.packages[id as usize];
    let es = p.deps();
    proof { crate::index::lemma_deps_spec_ok(*p, index.packages.len() as nat); }
    let mut deps: Vec<DepView> = Vec::new();
    let mut i: usize = 0;
    while i < es.len()
        invariant
            index.wf(),
            id < index.packages.len(),
            es@ == index.packages[id as int].deps_spec(),
            forall|j: int| 0 <= j < es.len() ==> es@[j].0 < index.packages.len(),
            i <= es.len(),
            deps@.len() == i,
            forall|j: int| 0 <= j < i ==> dep_view_ok(index, es@[j], #[trigger] deps@[j]),
        decreases es.len() - i,
    {
        let (d, k) = es[i];
        let q = &index.packages[d as usize];
        deps.push(DepView { name: q.name.clone(), version: q.version.clone(), kind: kind_str(k) });
        i += 1;
    }
    let ds = &index.dependents[id as usize];
    let mut dependents: Vec<DependentView> = Vec::new();
    let mut i: usize = 0;
    while i < ds.len()
        invariant
            index.wf(),
            id < index.packages.len(),
            *ds == index.dependents[id as int],
            i <= ds.len(),
            dependents@.len() == i,
            forall|j: int| 0 <= j < i ==> dependent_view_ok(index, ds@[j], #[trigger] dependents@[j]),
        decreases ds.len() - i,
    {
        let d = ds[i];
        let q = &index.packages[d as usize];
        dependents.push(DependentView {
            name: q.name.clone(),
            version: q.version.clone(),
            dependents: index.dependents[d as usize].len(),
        });
        i += 1;
    }
    Some(PackageDetail { id, deps, dependents })
}

/// A node in a graph answer.
#[derive(Debug, Clone)]
pub struct NodeView {
    pub name: String,
    pub version: String,
    /// Dependent count plus dependency count (saturating).
    pub degree: usize,
    pub depth: u8,
    pub kind: Option<&'static str>,
}

/// The lists of a graph answer.
#[derive(Debug)]
pub struct GraphDetail {
    pub nodes: Vec<NodeView>,
    /// Edges as (from name, to name).
    pub edges: Vec<(String, String)>,
    pub truncated: usize,
}

/// The degree shown for package `id`.
pub open spec fn degree_spec(index: &Index, id: u32) -> int {
    let p = index.packages[id as int];
    let s = index.dependents[id as int].len() + (p.inputs.len() + p.propagated.len() + p.native.len());
    if s > usize::MAX { usize::MAX as int } else { s }
}

/// `v` describes node `i` of projection `p`.
pub open spec fn node_view_ok(index: &Index, p: Projection, i: int, v: NodeView) -> bool {
    let id = p.nodes@[i];
    &&& v.name@ == index.packages[id as int].name@
    &&& v.version@ == index.packages[id as int].version@
    &&& v.degree == degree_spec(index, id)
    &&& v.depth == p.depth_of@[i]
    &&& match p.kind_of@[i] {
        Some(k) => v.kind matches Some(s) && s@ == kind_name(k),
        None => v.kind is None,
    }
}

/// `v` describes edge `i` of projection `p` by the names of its ends.
pub open spec fn edge_view_ok(index: &Index, p: Projection, i: int, v: (String, String)) -> bool {
    let (a, b) = p.edges@[i];
    &&& v.0@ == index.packages[p.nodes@[a as int] as int].name@
    &&& v.1@ == index.packages[p.nodes@[b as int] as int].name@
}

/// The graph answer for `name`: the projection around it (see `project`)
/// with each node's name, version, degree, depth and edge kind, and each
/// edge by the names of its ends; `None` for an unknown name.
pub fn graph_detail(index: &Index, name: &String, dir: Dir, depth: u8, budget: usize) -> (r: Option<GraphDetail>)
    requires
        index.wf(),
    ensures
        match index.names.spec_get(name@) {
            None => r is None,
            Some(root) => r matches Some(g) && exists|p: Projection| {
                &&& #[trigger] projection_ok(index, root, dir, depth, budget, p)
                &&& g.truncated == p.truncated
                &&& g.nodes@.len() == p.nodes@.len()
                &&& forall|i: int| 0 <= i < g.nodes@.len() ==> node_view_ok(index, p, i, #[trigger] g.nodes@[i])
                &&& g.edges@.len() == p.edges@.len()
                &&& forall|i: int| 0 <= i < g.edges@.len() ==> edge_view_ok(index, p, i, #[trigger] g.edges@[i])
            },
        },
{
    let root = match index.names.get(name) {
        Some(id) => id,
        None => {
            return None;
        },
    };
    proof { index.lemma_names_ids(name@); }
    let proj = project(index, root, dir, depth, budget);
    proof { crate::graph::lemma_projection_in_range(index, root, dir, depth, budget, proj); }
    let mut nodes: Vec<NodeView> = Vec::new();
    let mut i: usize = 0;
    while i < proj.nodes.len()
        invariant
            index.wf(),
            projection_ok(index, root, dir, depth, budget, proj),
            forall|j: int| 0 <= j < proj.nodes@.len() ==> #[trigger] proj.nodes@[j] < index.packages.len(),
            i <= proj.nodes.len(),
            nodes@.len() == i,
            forall|j: int| 0 <= j < i ==> node_view_ok(index, proj, j, #[trigger] nodes@[j]),
        decreases proj.nodes.len() - i,
    {
        let id = proj.nodes[i];
        let q = &index.packages[id as usize];
        let dc = q.inputs.len() as u128 + q.propagated.len() as u128 + q.native.len() as u128;
        let total = index.dependents[id as usize].len() as u128 + dc;
        let degree: usize = if total > usize::MAX as u128 { usize::MAX } else { total as usize };
        let kind = match proj.kind_of[i] {
            Some(k) => Some(kind_str(k)),
            None => None,
        };
        nodes.push(NodeView { name: q.name.clone(), version: q.version.clone(), degree, depth: proj.depth_of[i], kind });
        i += 1;
    }
    let mut edges: Vec<(String, String)> = Vec::new();
    let mut i: usize = 0;
    while i < proj.edges.len()
        invariant
            index.wf(),
            projection_ok(index, root, dir, depth, budget, proj),
            forall|j: int| 0 <= j < proj.nodes@.len() ==> #[trigger] proj.nodes@[j] < index.packages.len(),
            forall|j: int| 0 <= j < proj.edges@.len() ==> (#[trigger] proj.edges@[j]).0 < proj.nodes@.len() && proj.edges@[j].1 < proj.nodes@.len(),
            i <= proj.edges.len(),
            edges@.len() == i,
            forall|j: int| 0 <= j < i ==> edge_view_ok(index, proj, j, #[trigger] edges@[j]),
        decreases proj.edges.len() - i,
    {
        let (a, b) = proj.edges[i];
        let from = index.packages[proj.nodes[a as usize] as usize].name.clone();
        let to = index.packages[proj.nodes[b as usize] as usize].name.clone();
        edges.push((from, to));
        i += 1;
    }
    let truncated = proj.truncated;
    Some(GraphDetail { nodes, edges, truncated })
}

} // verus!
