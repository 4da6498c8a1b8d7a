//! The loader's decisions: what a cache outcome or a finished build
//! reports to the views, and how `nix search --json` output becomes an
//! index document.

use std::sync::Arc;

use vstd::prelude::*;

use crate::cache::CacheStatus;
use crate::error::{cache_error_text, index_error_text, indexer_error_text, CacheError, IndexerError};
use crate::index::{doc_error, Index};
use crate::model::{Header, IndexDoc, PkgJson, SCHEMA_VERSION};
use crate::text::{concat, decimal, u64_to_decimal};

verus! {

/// Hard timeout for a full index build, in seconds.
pub const TIMEOUT_SECS: u64 = 900;
/// Upper bound on the JSON document `nix search` may emit, in bytes.
pub const MAX_OUTPUT: u64 = 268435456;
/// At most this many `nix search` entries are read.
pub const MAX_ENTRIES: usize = 50000;

/// What the loader reports to the views.
pub enum IndexEvent {
    /// Progress of a build.
    Progress { done: u64, total: u64 },
    /// A valid index is available (from cache or a finished build).
    Ready { index: Arc<Index>, fresh: bool, unkeyed: bool },
    /// The load/build failed; `msg` is safe to show in the status bar.
    Failed { msg: String },
}

/// `event` reports failure `msg`.
pub open spec fn failed_with(event: IndexEvent, msg: Seq<char>) -> bool {
    event matches IndexEvent::Failed { msg: m } && m@ == msg
}

/// `event` reports a ready index built from `doc` at `now_ms`.
pub open spec fn ready_from(event: IndexEvent, doc: IndexDoc, now_ms: u64, fresh: bool, unkeyed: bool) -> bool {
    event matches IndexEvent::Ready { index, fresh: f, unkeyed: u }
        && f == fresh && u == unkeyed && index.wf() && index.built_from(doc) && index.built_ms == now_ms
}

/// What the loader does after looking at the cache.
pub struct CacheStage {
    /// Events to report, in order.
    pub events: Vec<IndexEvent>,
    /// Move the broken cache file aside.
    pub quarantine: bool,
    /// Go on to build a fresh index.
    pub rebuild: bool,
}

fn failed(a: &str, b: &str, c: &str) -> (e: IndexEvent)
    ensures
        failed_with(e, a@ + b@ + c@),
{
    let ab = concat(a, b);
    IndexEvent::Failed { msg: concat(ab.as_str(), c) }
}

/// The cache stage of the loader, given what loading the cache gave
/// (`unkeyed`: the live commit is unknown; `now_ms`: the build time).
/// A fresh document that validates is reported ready and ends the load; a
/// rejected or unreadable cache is reported and quarantined; a stale one
/// is reported; an absent one reports empty progress. Every case but the
/// first goes on to a rebuild.
pub fn cache_stage(outcome: Result<CacheStatus, CacheError>, unkeyed: bool, now_ms: u64) -> (s: CacheStage)
    ensures
        match outcome {
            Ok(CacheStatus::Fresh(doc, _)) => match doc_error(doc) {
                None => s.events@.len() == 1 && ready_from(s.events@[0], doc, now_ms, true, unkeyed) && !s.quarantine && !s.rebuild,
                Some(e) => s.events@.len() == 1 && failed_with(s.events@[0], "cached index rejected ("@ + index_error_text(e) + "); rebuilding"@)
                    && s.quarantine && s.rebuild,
            },
            Ok(CacheStatus::Stale { reason, .. }) => s.events@.len() == 1
                && failed_with(s.events@[0], "cache stale ("@ + reason@ + "); rebuilding"@) && !s.quarantine && s.rebuild,
            Ok(CacheStatus::Absent) => s.events@.len() == 1
                && s.events@[0] == (IndexEvent::Progress { done: 0, total: 0 }) && !s.quarantine && s.rebuild,
            Err(e) => s.events@.len() == 1 && failed_with(s.events@[0], "cache unreadable ("@ + cache_error_text(e) + "); rebuilding"@)
                && s.quarantine && s.rebuild,
        },
{
    let mut events: Vec<IndexEvent> = Vec::new();
    match outcome {
        Ok(CacheStatus::Fresh(doc, _)) => {
            match Index::from_doc(doc, now_ms) {
                Ok(index) => {
                    events.push(IndexEvent::Ready { index: Arc::new(index), fresh: true, unkeyed });
                    CacheStage { events, quarantine: false, rebuild: false }
                },
                Err(e) => {
                    let m = e.message();
                    events.push(failed("cached index rejected (", m.as_str(), "); rebuilding"));
                    CacheStage { events, quarantine: true, rebuild: true }
                },
            }
        },
        Ok(CacheStatus::Stale { reason, .. }) => {
            events.push(failed("cache stale (", reason.as_str(), "); rebuilding"));
            CacheStage { events, quarantine: false, rebuild: true }
        },
        Ok(CacheStatus::Absent) => {
            events.push(IndexEvent::Progress { done: 0, total: 0 });
            CacheStage { events, quarantine: false, rebuild: true }
        },
        Err(e) => {
            let m = e.message();
            events.push(failed("cache unreadable (", m.as_str(), "); rebuilding"));
            CacheStage { events, quarantine: true, rebuild: true }
        },
    }
}

/// What the loader reports once a build produced `doc`: a failed cache
/// save first (if any), then the index built from `doc` or why it is
/// rejected.
pub fn build_stage(doc: IndexDoc, cache_save: Result<(), CacheError>, unkeyed: bool, now_ms: u64) -> (events: Vec<IndexEvent>)
    ensures
        ({
            let k: int = if cache_save is Err { 1 } else { 0 };
            &&& events@.len() == k + 1
            &&& (cache_save matches Err(e) ==> failed_with(events@[0], "cache save failed: "@ + cache_error_text(e)))
            &&& match doc_error(doc) {
                None => ready_from(events@[k], doc, now_ms, false, unkeyed),
                Some(e) => failed_with(events@[k], "indexer output invalid: "@ + index_error_text(e)),
            }
        }),
{
    let mut events: Vec<IndexEvent> = Vec::new();
    if let Err(e) = cache_save {
        let m = e.message();
        events.push(IndexEvent::Failed { msg: concat("cache save failed: ", m.as_str()) });
    }
    match Index::from_doc(doc, now_ms) {
        Ok(index) => {
            events.push(IndexEvent::Ready { index: Arc::new(index), fresh: false, unkeyed });
        },
        Err(e) => {
            let m = e.message();
            events.push(IndexEvent::Failed { msg: concat("indexer output invalid: ", m.as_str()) });
        },
    }
    events
}

/// What the loader reports when the build failed.
pub fn build_failed(e: &IndexerError) -> (event: IndexEvent)
    ensures
        failed_with(event, "index build failed: "@ + indexer_error_text(*e)),
{
    let m = e.message();
    IndexEvent::Failed { msg: concat("index build failed: ", m.as_str()) }
}

/// What the loader reports when the cached database could not be loaded.
pub fn db_load_failed(e: &CacheError) -> (event: IndexEvent)
    ensures
        failed_with(event, "DB load failed ("@ + cache_error_text(*e) + "); press R to rebuild"@),
{
    let m = e.message();
    failed("DB load failed (", m.as_str(), "); press R to rebuild")
}

/// What is reported when `nix search` failed and the embedded index is used.
pub fn nix_search_fallback(e: &IndexerError) -> (event: IndexEvent)
    ensures
        failed_with(event, "nix search failed ("@ + indexer_error_text(*e) + "); falling back to embedded JSON"@),
{
    let m = e.message();
    failed("nix search failed (", m.as_str(), "); falling back to embedded JSON")
}

/// The verdict on a finished `nix search` run: it must have exited
/// successfully (`status` is its exit status as shown), produced some
/// output, and no more than `MAX_OUTPUT` bytes.
pub fn check_nix_output(success: bool, status: &str, out_len: u64) -> (r: Result<(), IndexerError>)
    ensures
        !success ==> (r matches Err(IndexerError::Exited(m)) && m@ == "nix search exited with "@ + status@),
        success && out_len == 0 ==> (r matches Err(IndexerError::Exited(m)) && m@ == "nix search produced no output"@),
        success && out_len > MAX_OUTPUT ==> (r matches Err(IndexerError::Exited(m))
            && m@ == "nix search output too large ("@ + decimal(out_len as nat) + " bytes)"@),
        success && 0 < out_len <= MAX_OUTPUT ==> r is Ok,
{
    if !success {
        return Err(IndexerError::Exited(concat("nix search exited with ", status)));
    }
    if out_len == 0 {
        return Err(IndexerError::Exited("nix search produced no output".to_owned()));
    }
    if out_len > MAX_OUTPUT {
        let n = u64_to_decimal(out_len);
        let a = concat("nix search output too large (", n.as_str());
        return Err(IndexerError::Exited(concat(a.as_str(), " bytes)")));
    }
    Ok(())
}

/// One top-level entry of `nix search --json` output: its attribute path,
/// whether its value is an object, and the string fields it carries
/// (`None` when absent or not a string).
#[derive(Debug)]
pub struct NixSearchEntry {
    pub attr_path: String,
    pub is_object: bool,
    pub name: Option<String>,
    pub description: Option<String>,
    pub version: Option<String>,
    pub pname: Option<String>,
}

/// The value of an optional string, or `d` when absent.
pub open spec fn or_else(o: Option<String>, d: Seq<char>) -> Seq<char> {
    match o {
        Some(s) => s@,
        None => d,
    }
}

/// The entries that become packages: the first `MAX_ENTRIES` entries,
/// keeping those whose value is an object.
pub open spec fn kept_entries(entries: Seq<NixSearchEntry>) -> Seq<NixSearchEntry> {
    let first = if entries.len() > MAX_ENTRIES { entries.take(MAX_ENTRIES as int) } else { entries };
    first.filter(|e: NixSearchEntry| e.is_object)
}

/// Package `p` is what `nix search` entry `e` becomes at id `id`: named by
/// its `pname`, else its `name`, else its attribute path; described by its
/// description as synopsis.
pub open spec fn entry_package(e: NixSearchEntry, id: u32, p: PkgJson) -> bool {
    &&& p.id == id
    &&& p.name@ == or_else(e.pname, or_else(e.name, e.attr_path@))
    &&& p.attribute@ == e.attr_path@
    &&& p.version@ == or_else(e.version, Seq::empty())
    &&& p.synopsis@ == or_else(e.description, Seq::empty())
    &&& p.description@.len() == 0
    &&& p.licenses@.len() == 0
    &&& p.homepage@.len() == 0
    &&& p.file.0@.len() == 0
    &&& p.file.1 == 0
    &&& p.inputs@.len() == 0
    &&& p.propagated_inputs@.len() == 0
    &&& p.native_inputs@.len() == 0
    &&& p.store_path@.len() == 0
    &&& !p.installed
    &&& p.flake@.len() == 0
}

fn or_else_string(o: Option<String>, d: String) -> (s: String)
    ensures
        s@ == or_else(o, d@),
{
    match o {
        Some(s) => s,
        None => d,
    }
}

/// Convert `nix search --json` output into an index document generated at
/// `now_ms`; `entries` is `None` when the output is not a JSON object.
pub fn doc_from_nix_search(entries: Option<Vec<NixSearchEntry>>, now_ms: u64) -> (r: Result<IndexDoc, IndexerError>)
    ensures
        match entries {
            None => r matches Err(IndexerError::Exited(m)) && m@ == "nix search output is not an object"@,
            Some(es) => r matches Ok(doc) && {
                let kept = kept_entries(es@);
                &&& doc.header.schema == SCHEMA_VERSION
                &&& doc.header.nixpkgs_commit@.len() == 0
                &&& doc.header.generated_ms@ == decimal(now_ms as nat)
                &&& doc.header.package_count == kept.len()
                &&& doc.packages@.len() == kept.len()
                &&& forall|i: int| 0 <= i < kept.len() ==> entry_package(kept[i], i as u32, #[trigger] doc.packages@[i])
            },
        },
{
    let es = match entries {
        Some(es) => es,
        None => {
            return Err(IndexerError::Exited("nix search output is not an object".to_owned()));
        },
    };
    let ghost all = es@;
    let ghost first = if all.len() > MAX_ENTRIES { all.take(MAX_ENTRIES as int) } else { all };
    let ghost keep = |e: NixSearchEntry| e.is_object;
    let mut packages: Vec<PkgJson> = Vec::new();
    let mut id: u32 = 0;
    let mut seen: usize = 0;
    for e in it: es.into_iter()
        invariant
            it.seq() == all,
            first == (if all.len() > MAX_ENTRIES { all.take(MAX_ENTRIES as int) } else { all }),
            keep == (|e: NixSearchEntry| e.is_object),
            seen == (if it.index() <= MAX_ENTRIES { it.index() as int } else { MAX_ENTRIES as int }),
            packages@.len() == id,
            id <= seen,
            packages@.len() == first.take(seen as int).filter(keep).len(),
            forall|i: int| 0 <= i < packages@.len() ==>
                entry_package(first.take(seen as int).filter(keep)[i], i as u32, #[trigger] packages@[i]),
    {
        let ghost k = seen as int;
        if seen < MAX_ENTRIES {
            let ghost before = first.take(k);
            proof {
                assert(first.take(k + 1).drop_last() == before);
                assert(first.take(k + 1).last() == all[k]);
                reveal(Seq::filter);
            }
            if e.is_object {
                let name = or_else_string(e.pname, or_else_string(e.name, e.attr_path.clone()));
                let pkg = PkgJson {
                    id,
                    name,
                    attribute: e.attr_path,
                    version: or_else_string(e.version, String::new()),
                    synopsis: or_else_string(e.description, String::new()),
                    description: String::new(),
                    licenses: Vec::new(),
                    homepage: String::new(),
                    file: (String::new(), 0),
                    inputs: Vec::new(),
                    propagated_inputs: Vec::new(),
                    native_inputs: Vec::new(),
                    store_path: String::new(),
                    installed: false,
                    flake: String::new(),
                };
                packages.push(pkg);
                id += 1;
            }
            seen += 1;
        }
    }
    proof {
        assert(first.take(seen as int) == first);
    }
    let count = packages.len() as u64;
    Ok(IndexDoc {
        header: Header {
            schema: SCHEMA_VERSION,
            nixpkgs_commit: String::new(),
            generated_ms: u64_to_decimal(now_ms),
            package_count: count,
        },
        packages,
    })
}

/// The plain fields of a `nix search` entry: attribute path, whether its
/// value is an object, then name, description, version and pname.
pub type EntryView = (Seq<char>, bool, Option<Seq<char>>, Option<Seq<char>>, Option<Seq<char>>, Option<Seq<char>>);

/// The characters of an optional string.
pub open spec fn opt_chars(o: Option<String>) -> Option<Seq<char>> {
    match o {
        Some(s) => Some(s@),
        None => None,
    }
}

/// The plain fields of an entry.
pub open spec fn entry_view(e: NixSearchEntry) -> EntryView {
    (e.attr_path@, e.is_object, opt_chars(e.name), opt_chars(e.description), opt_chars(e.version), opt_chars(e.pname))
}

/// What serde_json makes of `nix search --json` output `out` (parsed as a
/// `serde_json::Value`, walked in the order of its object's keys): the
/// entries' plain fields, `None` when the value is not an object, or the
/// parser's error message.
pub uninterp spec fn nix_search_parse(out: Seq<u8>) -> Result<Option<Seq<EntryView>>, Seq<char>>;

/// `serde_json::from_slice` into a `serde_json::Value`, and its top-level
/// object read as entries (each key with its value's string fields
/// `name`, `description`, `version`, `pname`). Claims only that the result
/// is what `nix_search_parse` names.
#[verifier::external_body]
fn parse_nix_search_output(out: &[u8]) -> (r: Result<Option<Vec<NixSearchEntry>>, String>)
    ensures
        match (r, nix_search_parse(out@)) {
            (Ok(None), Ok(None)) => true,
            (Ok(Some(es)), Ok(Some(vs))) => es@.map_values(|e: NixSearchEntry| entry_view(e)) == vs,
            (Err(m), Err(n)) => m@ == n,
            _ => false,
        },
{
    let v: serde_json::Value = serde_json::from_slice(out).map_err(|e| e.to_string())?;
    Ok(v.as_object().map(|obj| obj.iter().map(|(a, x)| {
        let f = |k: &str| x.get(k).and_then(|s| s.as_str()).map(String::from);
        NixSearchEntry {
            attr_path: a.clone(), is_object: x.is_object(), name: f("name"),
            description: f("description"), version: f("version"), pname: f("pname"),
        }
    }).collect()))
}

/// The optional string `o`, or `d` when absent.
pub open spec fn or_else_v(o: Option<Seq<char>>, d: Seq<char>) -> Seq<char> {
    match o {
        Some(s) => s,
        None => d,
    }
}

/// The entries that become packages, by their plain fields: the first
/// `MAX_ENTRIES`, keeping those whose value is an object.
pub open spec fn kept_views(vs: Seq<EntryView>) -> Seq<EntryView> {
    let first = if vs.len() > MAX_ENTRIES { vs.take(MAX_ENTRIES as int) } else { vs };
    first.filter(|v: EntryView| v.1)
}

/// Package `p` is what the entry with plain fields `v` becomes at id `id`
/// (see `entry_package`).
pub open spec fn entry_package_v(v: EntryView, id: u32, p: PkgJson) -> bool {
    &&& p.id == id
    &&& p.name@ == or_else_v(v.5, or_else_v(v.2, v.0))
    &&& p.attribute@ == v.0
    &&& p.version@ == or_else_v(v.4, Seq::empty())
    &&& p.synopsis@ == or_else_v(v.3, Seq::empty())
    &&& p.description@.len() == 0
    &&& p.licenses@.len() == 0
    &&& p.homepage@.len() == 0
    &&& p.file.0@.len() == 0
    &&& p.file.1 == 0
    &&& p.inputs@.len() == 0
    &&& p.propagated_inputs@.len() == 0
    &&& p.native_inputs@.len() == 0
    &&& p.store_path@.len() == 0
    &&& !p.installed
    &&& p.flake@.len() == 0
}

/// Keeping the object entries commutes with taking their plain fields.
proof fn lemma_filter_views(es: Seq<NixSearchEntry>)
    ensures
        es.filter(|e: NixSearchEntry| e.is_object).map_values(|e: NixSearchEntry| entry_view(e))
            == es.map_values(|e: NixSearchEntry| entry_view(e)).filter(|v: EntryView| v.1),
    decreases es.len(),
{
    reveal(Seq::filter);
    if es.len() > 0 {
        lemma_filter_views(es.drop_last());
        assert(es.map_values(|e: NixSearchEntry| entry_view(e)).drop_last()
            == es.drop_last().map_values(|e: NixSearchEntry| entry_view(e)));
        let a = es.drop_last().filter(|e: NixSearchEntry| e.is_object);
        if es.last().is_object {
            assert(a.push(es.last()).map_values(|e: NixSearchEntry| entry_view(e))
                == a.map_values(|e: NixSearchEntry| entry_view(e)).push(entry_view(es.last())));
        }
    } else {
        assert(es.map_values(|e: NixSearchEntry| entry_view(e)) == Seq::<EntryView>::empty());
    }
}

/// The index document for a finished `nix search --json` run: the exit,
/// emptiness and size checks of `check_nix_output` in that order, then an
/// output that does not parse (`invalid JSON from nix search: ` and the
/// parser's message) or is not an object; otherwise the document of the
/// entries (see `doc_from_nix_search`), generated at `now_ms`.
pub fn doc_from_nix_output(success: bool, status: &str, out: &[u8], now_ms: u64) -> (r: Result<IndexDoc, IndexerError>)
    ensures
        !success ==> (r matches Err(IndexerError::Exited(m)) && m@ == "nix search exited with "@ + status@),
        success && out@.len() == 0 ==> (r matches Err(IndexerError::Exited(m)) && m@ == "nix search produced no output"@),
        success && out@.len() > MAX_OUTPUT ==> (r matches Err(IndexerError::Exited(m))
            && m@ == "nix search output too large ("@ + decimal(out@.len()) + " bytes)"@),
        success && 0 < out@.len() <= MAX_OUTPUT ==> match nix_search_parse(out@) {
            Err(msg) => r matches Err(IndexerError::Exited(m)) && m@ == "invalid JSON from nix search: "@ + msg,
            Ok(None) => r matches Err(IndexerError::Exited(m)) && m@ == "nix search output is not an object"@,
            Ok(Some(vs)) => r matches Ok(doc) && {
                let kept = kept_views(vs);
                &&& doc.header.schema == SCHEMA_VERSION
                &&& doc.header.nixpkgs_commit@.len() == 0
                &&& doc.header.generated_ms@ == decimal(now_ms as nat)
                &&& doc.header.package_count == kept.len()
                &&& doc.packages@.len() == kept.len()
                &&& forall|i: int| 0 <= i < kept.len() ==> entry_package_v(kept[i], i as u32, #[trigger] doc.packages@[i])
            },
        },
{
    match check_nix_output(success, status, out.len() as u64) {
        Ok(()) => {},
        Err(e) => {
            return Err(e);
        },
    }
    match parse_nix_search_output(out) {
        Err(msg) => Err(IndexerError::Exited(concat("invalid JSON from nix search: ", msg.as_str()))),
        Ok(None) => doc_from_nix_search(None, now_ms),
        Ok(Some(es)) => {
            let ghost all = es@;
            let r = doc_from_nix_search(Some(es), now_ms);
            proof {
                let f = |e: NixSearchEntry| entry_view(e);
                let vs = all.map_values(f);
                let first = if all.len() > MAX_ENTRIES { all.take(MAX_ENTRIES as int) } else { all };
                lemma_filter_views(first);
                assert(first.map_values(f) == (if vs.len() > MAX_ENTRIES { vs.take(MAX_ENTRIES as int) } else { vs }));
                let kept = kept_entries(all);
                assert(kept.map_values(f) == kept_views(vs));
                if r is Ok {
                    let doc = r->Ok_0;
                    assert forall|i: int| 0 <= i < kept.len() implies entry_package_v(kept_views(vs)[i], i as u32, #[trigger] doc.packages@[i]) by {
                        assert(entry_package(kept[i], i as u32, doc.packages@[i]));
                        assert(kept_views(vs)[i] == entry_view(kept[i]));
                    }
                }
            }
            r
        },
    }
}

} // verus!
