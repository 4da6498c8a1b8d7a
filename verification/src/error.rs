//! Typed errors for index data, the indexer subprocess, and the disk cache.

use vstd::prelude::*;

use crate::text::{concat, decimal, u64_to_decimal};

verus! {

/// Validation failures while turning an `IndexDoc` into an in-memory `Index`.
#[derive(Debug, Clone)]
pub enum IndexError {
    Schema(u32, u32),
    Commit(String, String),
    Count(u64, usize),
    IdOutOfRange(u32, usize),
    DuplicateId(u32),
    EmptyName(u32),
    UnknownDep(String, String),
}

/// Failures of the indexer subprocess.
#[derive(Debug, Clone)]
pub enum IndexerError {
    NotFound(String),
    Timeout(u64),
    Exited(String),
    NoOutput,
}

/// Failures while reading, validating, or writing the on-disk cache.
#[derive(Debug, Clone)]
pub enum CacheError {
    Read(String),
    Parse(String),
    Write(String),
    Invalid(IndexError),
}

/// The text shown for an index validation failure.
pub open spec fn index_error_text(e: IndexError) -> Seq<char> {
    match e {
        IndexError::Schema(a, b) => "cache schema "@ + decimal(a as nat) + " unsupported (expected "@ + decimal(b as nat) + ")"@,
        IndexError::Commit(a, b) => "channel commit mismatch: cache="@ + a@ + " live="@ + b@,
        IndexError::Count(a, b) => "package count mismatch: header="@ + decimal(a as nat) + " packages="@ + decimal(b as nat),
        IndexError::IdOutOfRange(a, b) => "package id "@ + decimal(a as nat) + " out of range (len "@ + decimal(b as nat) + ")"@,
        IndexError::DuplicateId(a) => "duplicate package id "@ + decimal(a as nat),
        IndexError::EmptyName(a) => "package #"@ + decimal(a as nat) + " has an empty name"@,
        IndexError::UnknownDep(a, b) => "package `"@ + b@ + "` references unknown dependency `"@ + a@ + "`"@,
    }
}

/// The text shown for an indexer failure.
pub open spec fn indexer_error_text(e: IndexerError) -> Seq<char> {
    match e {
        IndexerError::NotFound(s) => "`nix` binary not found; looked at: "@ + s@,
        IndexerError::Timeout(n) => "indexer timed out after "@ + decimal(n as nat) + "s"@,
        IndexerError::Exited(s) => "indexer exited with: "@ + s@,
        IndexerError::NoOutput => "indexer produced no output"@,
    }
}

/// The text shown for a cache failure.
pub open spec fn cache_error_text(e: CacheError) -> Seq<char> {
    match e {
        CacheError::Read(s) => "cache read failed: "@ + s@,
        CacheError::Parse(s) => "cache parse failed: "@ + s@,
        CacheError::Write(s) => "cache write failed: "@ + s@,
        CacheError::Invalid(i) => "cache index invalid: "@ + index_error_text(i),
    }
}

/// Decimal rendering of a `usize`.
pub fn usize_to_decimal(n: usize) -> (s: String)
    ensures
        s@ == decimal(n as nat),
{
    u64_to_decimal(n as u64)
}

fn cat3(a: &str, b: &str, c: &str) -> (s: String)
    ensures
        s@ == a@ + b@ + c@,
{
    let ab = concat(a, b);
    concat(ab.as_str(), c)
}

fn cat4(a: &str, b: &str, c: &str, d: &str) -> (s: String)
    ensures
        s@ == a@ + b@ + c@ + d@,
{
    let abc = cat3(a, b, c);
    concat(abc.as_str(), d)
}

fn cat5(a: &str, b: &str, c: &str, d: &str, e: &str) -> (s: String)
    ensures
        s@ == a@ + b@ + c@ + d@ + e@,
{
    let abcd = cat4(a, b, c, d);
    concat(abcd.as_str(), e)
}

impl IndexError {
    /// The message of this error, as its `Display` form shows it.
    pub fn message(&self) -> (s: String)
        ensures
            s@ == index_error_text(*self),
    {
        match self {
            IndexError::Schema(a, b) => {
                let x = u64_to_decimal(*a as u64);
                let y = u64_to_decimal(*b as u64);
                cat5("cache schema ", x.as_str(), " unsupported (expected ", y.as_str(), ")")
            },
            IndexError::Commit(a, b) => cat4("channel commit mismatch: cache=", a.as_str(), " live=", b.as_str()),
            IndexError::Count(a, b) => {
                let x = u64_to_decimal(*a);
                let y = usize_to_decimal(*b);
                cat4("package count mismatch: header=", x.as_str(), " packages=", y.as_str())
            },
            IndexError::IdOutOfRange(a, b) => {
                let x = u64_to_decimal(*a as u64);
                let y = usize_to_decimal(*b);
                cat5("package id ", x.as_str(), " out of range (len ", y.as_str(), ")")
            },
            IndexError::DuplicateId(a) => {
                let x = u64_to_decimal(*a as u64);
                concat("duplicate package id ", x.as_str())
            },
            IndexError::EmptyName(a) => {
                let x = u64_to_decimal(*a as u64);
                cat3("package #", x.as_str(), " has an empty name")
            },
            IndexError::UnknownDep(a, b) => cat5("package `", b.as_str(), "` references unknown dependency `", a.as_str(), "`"),
        }
    }
}

impl IndexerError {
    /// The message of this error, as its `Display` form shows it.
    pub fn message(&self) -> (s: String)
        ensures
            s@ == indexer_error_text(*self),
    {
        match self {
            IndexerError::NotFound(p) => concat("`nix` binary not found; looked at: ", p.as_str()),
            IndexerError::Timeout(n) => {
                let x = u64_to_decimal(*n);
                cat3("indexer timed out after ", x.as_str(), "s")
            },
            IndexerError::Exited(m) => concat("indexer exited with: ", m.as_str()),
            IndexerError::NoOutput => "indexer produced no output".to_owned(),
        }
    }
}

impl CacheError {
    /// The message of this error, as its `Display` form shows it.
    pub fn message(&self) -> (s: String)
        ensures
            s@ == cache_error_text(*self),
    {
        match self {
            CacheError::Read(m) => concat("cache read failed: ", m.as_str()),
            CacheError::Parse(m) => concat("cache parse failed: ", m.as_str()),
            CacheError::Write(m) => concat("cache write failed: ", m.as_str()),
            CacheError::Invalid(e) => {
                let x = e.message();
                concat("cache index invalid: ", x.as_str())
            },
        }
    }
}

impl From<IndexError> for CacheError {
    fn from(e: IndexError) -> (r: CacheError) {
        CacheError::Invalid(e)
    }
}

impl vstd::std_specs::convert::FromSpecImpl<IndexError> for CacheError {
    open spec fn obeys_from_spec() -> bool {
        true
    }

    open spec fn from_spec(e: IndexError) -> CacheError {
        CacheError::Invalid(e)
    }
}

} // verus!
