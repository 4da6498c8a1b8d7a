//! The gzipped index cache: where it lives, what its metadata says, and
//! whether a cached document is current.

use vstd::prelude::*;

use crate::error::CacheError;
use crate::model::IndexDoc;
use crate::text::{chars_of, concat, decimal, push_char, str_eq, string_from_chars, u64_to_decimal};

verus! {

/// File name of the cache inside its directory.
pub const CACHE_FILE: &'static str = "index-v3.json.gz";

/// Metadata about a cache file without fully loading it.
#[derive(Debug, Clone)]
pub struct CacheInfo {
    pub exists: bool,
    pub size_bytes: u64,
    /// UNIX epoch seconds.
    pub modified: u64,
}

/// Whether a cached document is usable and current.
#[derive(Debug)]
pub enum CacheStatus {
    /// Cache parsed successfully and matches the live channel commit; the
    /// `u64` is the UNIX epoch timestamp (seconds) when it was saved.
    Fresh(IndexDoc, u64),
    /// Cache is valid but was produced against a different commit.
    Stale { reason: String, timestamp: u64 },
    /// No cache file present.
    Absent,
}

/// The cache, rooted at a directory.
#[derive(Debug, Clone)]
pub struct Cache {
    pub dir: String,
}

/// `dir` joined with the relative file name `file`: a `/` goes between
/// them unless `dir` is empty or already ends with one.
pub open spec fn join_path(dir: Seq<char>, file: Seq<char>) -> Seq<char> {
    if dir.len() == 0 {
        file
    } else if dir.last() == '/' {
        dir + file
    } else {
        dir + seq!['/'] + file
    }
}

/// `dir` joined with the relative file name `file`.
pub fn join_path_str(dir: &str, file: &str) -> (r: String)
    ensures
        r@ == join_path(dir@, file@),
{
    let cs = chars_of(dir);
    if cs.len() == 0 {
        return string_from_chars(&chars_of(file));
    }
    if cs[cs.len() - 1] == '/' {
        concat(dir, file)
    } else {
        let mut d = string_from_chars(&cs);
        push_char(&mut d, '/');
        concat(d.as_str(), file)
    }
}

impl Cache {
    /// A cache rooted at `dir`.
    pub fn at(dir: String) -> (c: Cache)
        ensures
            c.dir@ == dir@,
    {
        Cache { dir }
    }

    /// The cache file.
    pub fn path(&self) -> (p: String)
        ensures
            p@ == join_path(self.dir@, CACHE_FILE@),
    {
        join_path_str(self.dir.as_str(), CACHE_FILE)
    }

    /// The temporary file an atomic save writes first (`pid` tells
    /// concurrent writers apart).
    pub fn temp_path(&self, pid: u32) -> (p: String)
        ensures
            p@ == join_path(self.dir@, CACHE_FILE@ + ".tmp-"@ + decimal(pid as nat)),
    {
        let n = u64_to_decimal(pid as u64);
        let a = concat(CACHE_FILE, ".tmp-");
        let f = concat(a.as_str(), n.as_str());
        join_path_str(self.dir.as_str(), f.as_str())
    }

    /// Where a broken cache file is moved at time `ts` (UNIX seconds).
    pub fn quarantine_path(&self, ts: u64) -> (p: String)
        ensures
            p@ == join_path(self.dir@, CACHE_FILE@ + ".corrupt-"@ + decimal(ts as nat)),
    {
        let n = u64_to_decimal(ts);
        let a = concat(CACHE_FILE, ".corrupt-");
        let f = concat(a.as_str(), n.as_str());
        join_path_str(self.dir.as_str(), f.as_str())
    }
}

/// The reason given for a stale cache.
pub open spec fn stale_reason(cache_commit: Seq<char>, live: Seq<char>) -> Seq<char> {
    "cache commit "@ + cache_commit + " != live commit "@ + live
}

/// What a parsed cache document saved at `modified` is worth against the
/// live channel commit: stale when a non-empty live commit differs from
/// the document's, fresh otherwise (an unknown or empty live commit
/// accepts the document unverified).
pub open spec fn classify_spec(doc: IndexDoc, live: Option<Seq<char>>, modified: u64, s: CacheStatus) -> bool {
    match live {
        Some(c) => if c.len() > 0 && doc.header.nixpkgs_commit@ != c {
            s matches CacheStatus::Stale { reason, timestamp }
                && reason@ == stale_reason(doc.header.nixpkgs_commit@, c) && timestamp == modified
        } else {
            s == CacheStatus::Fresh(doc, modified)
        },
        None => s == CacheStatus::Fresh(doc, modified),
    }
}

/// Law (a cache is fresh only for the live commit): with a known live
/// commit `c`, a document is judged fresh exactly when it was made for `c`
/// (a document not tied to any commit is stale), and stale otherwise; with
/// no live commit every document is fresh. Either way the judgement keeps
/// the document and its save time.
pub proof fn law_fresh_only_for_live_commit(doc: IndexDoc, live: Option<Seq<char>>, modified: u64, s: CacheStatus)
    requires
        classify_spec(doc, live, modified, s),
    ensures
        forall|c: Seq<char>| live == Some(c) && c.len() > 0 ==> (s is Fresh <==> doc.header.nixpkgs_commit@ == c),
        forall|c: Seq<char>| live == Some(c) && c.len() > 0 && doc.header.nixpkgs_commit@ != c ==> s is Stale,
        forall|c: Seq<char>| (live is None || live == Some(c) && c.len() == 0) ==> s == CacheStatus::Fresh(doc, modified),
        s matches CacheStatus::Fresh(d, m) ==> d == doc && m == modified,
        s matches CacheStatus::Stale { timestamp, .. } ==> timestamp == modified,
        !(s is Absent),
{
}

/// Classify a parsed cache document against the live commit.
pub fn classify(doc: IndexDoc, live_commit: Option<&str>, modified: u64) -> (s: CacheStatus)
    ensures
        classify_spec(doc, match live_commit { Some(c) => Some(c@), None => None }, modified, s),
{
    if let Some(live) = live_commit {
        if !live.is_empty() && !str_eq(doc.header.nixpkgs_commit.as_str(), live) {
            let a = concat("cache commit ", doc.header.nixpkgs_commit.as_str());
            let b = concat(a.as_str(), " != live commit ");
            let reason = concat(b.as_str(), live);
            return CacheStatus::Stale { reason, timestamp: modified };
        }
    }
    CacheStatus::Fresh(doc, modified)
}

/// The commit shown in the startup prompt for a cache load outcome: the
/// document's commit when fresh, the staleness reason when stale, else
/// `unknown`.
pub fn startup_commit_label(status: &Option<CacheStatus>) -> (s: String)
    ensures
        s@ == match *status {
            Some(CacheStatus::Fresh(doc, _)) => doc.header.nixpkgs_commit@,
            Some(CacheStatus::Stale { reason, .. }) => reason@,
            _ => "unknown"@,
        },
{
    match status {
        Some(CacheStatus::Fresh(doc, _)) => doc.header.nixpkgs_commit.clone(),
        Some(CacheStatus::Stale { reason, .. }) => reason.clone(),
        _ => "unknown".to_owned(),
    }
}

/// Compression level of the cache file.
pub const CACHE_LEVEL: u32 = 6;

/// What flate2's gzip encoder (`write::GzEncoder::new`, default header)
/// writes for `data` at compression level `level`.
pub uninterp spec fn gzip_bytes(data: Seq<u8>, level: u32) -> Seq<u8>;

/// What flate2's gzip decoder (`read::GzDecoder`, read to the end) gives
/// for `data`: the decompressed bytes, or `None` when it reports an error.
pub uninterp spec fn gunzip_bytes(data: Seq<u8>) -> Option<Seq<u8>>;

/// flate2's `write::GzEncoder` over an in-memory buffer, finished. Claims
/// that the result is named by `gzip_bytes` and that flate2's decoder reads
/// `data` back out of it; writing into a `Vec` reports no error.
#[verifier::external_body]
fn gzip(data: &[u8], level: u32) -> (r: Vec<u8>)
    requires
        level <= 9,
    ensures
        r@ == gzip_bytes(data@, level),
        gunzip_bytes(r@) == Some(data@),
{
    let mut enc = flate2::write::GzEncoder::new(Vec::new(), flate2::Compression::new(level));
    let _ = std::io::Write::write_all(&mut enc, data);
    enc.finish().unwrap_or_default()
}

/// flate2's `read::GzDecoder` over `data`, read to the end. Claims that
/// the bytes, or the failure, are what `gunzip_bytes` names; the text of
/// the error (std's `io::Error` message) is not stated.
#[verifier::external_body]
fn gunzip(data: &[u8]) -> (r: Result<Vec<u8>, String>)
    ensures
        match r {
            Ok(v) => gunzip_bytes(data@) == Some(v@),
            Err(_) => gunzip_bytes(data@) is None,
        },
{
    let mut out = Vec::new();
    match std::io::Read::read_to_end(&mut flate2::read::GzDecoder::new(data), &mut out) {
        Ok(_) => Ok(out),
        Err(e) => Err(e.to_string()),
    }
}

/// The bytes of a cache file holding `json`: gzip at `CACHE_LEVEL`. What
/// is written reads back: decoding these bytes gives `json` again.
pub fn encode_cache(json: &[u8]) -> (r: Vec<u8>)
    ensures
        r@ == gzip_bytes(json@, CACHE_LEVEL),
        gunzip_bytes(r@) == Some(json@),
{
    gzip(json, CACHE_LEVEL)
}

/// The JSON held by the bytes of a cache file; bytes that do not
/// decompress are a parse failure.
pub fn decode_cache(bytes: &[u8]) -> (r: Result<Vec<u8>, CacheError>)
    ensures
        match gunzip_bytes(bytes@) {
            Some(v) => r matches Ok(w) && w@ == v,
            None => r matches Err(CacheError::Parse(_)),
        },
{
    match gunzip(bytes) {
        Ok(v) => Ok(v),
        Err(m) => Err(CacheError::Parse(m)),
    }
}

/// What serde_json reads out of `nix describe --format=json` output `out`:
/// the string `commit` of the first element of the top-level array, or
/// `None` when the output does not parse or holds no such string.
pub uninterp spec fn describe_commit(out: Seq<u8>) -> Option<Seq<char>>;

/// `serde_json::from_slice` into a `serde_json::Value`, then its
/// `[0]["commit"]` string. Claims only that the result is what
/// `describe_commit` names.
#[verifier::external_body]
fn parse_describe_commit(out: &[u8]) -> (r: Option<String>)
    ensures
        match (r, describe_commit(out@)) {
            (Some(s), Some(c)) => s@ == c,
            (None, None) => true,
            _ => false,
        },
{
    let v: serde_json::Value = serde_json::from_slice(out).ok()?;
    v.as_array()?.first()?.get("commit")?.as_str().map(String::from)
}

/// The live channel commit from a finished `nix describe --format=json`
/// run: none when it failed or printed nothing, else what its output
/// names as the commit.
pub fn commit_from_describe(success: bool, out: &[u8]) -> (r: Option<String>)
    ensures
        !success || out@.len() == 0 ==> r is None,
        success && out@.len() > 0 ==> match (r, describe_commit(out@)) {
            (Some(s), Some(c)) => s@ == c,
            (None, None) => true,
            _ => false,
        },
{
    if !success || out.len() == 0 {
        return None;
    }
    parse_describe_commit(out)
}

} // verus!
