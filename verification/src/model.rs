//! Plain data types mirroring the JSON index document.

use vstd::prelude::*;

verus! {

/// Schema version of the on-disk index format.
pub const SCHEMA_VERSION: u32 = 3;

/// Document header.
#[derive(Debug, Clone)]
pub struct Header {
    pub schema: u32,
    pub nixpkgs_commit: String,
    pub generated_ms: String,
    pub package_count: u64,
}

/// One package as emitted by the indexer; dependencies are package names.
#[derive(Debug)]
pub struct PkgJson {
    pub id: u32,
    pub name: String,
    pub attribute: String,
    pub version: String,
    pub synopsis: String,
    pub description: String,
    pub homepage: String,
    pub licenses: Vec<String>,
    /// `(file, line)`; `("", 0)` when unknown.
    pub file: (String, u64),
    pub inputs: Vec<String>,
    pub propagated_inputs: Vec<String>,
    pub native_inputs: Vec<String>,
    pub store_path: String,
    pub installed: bool,
    pub flake: String,
}

/// A whole index document.
#[derive(Debug)]
pub struct IndexDoc {
    pub header: Header,
    pub packages: Vec<PkgJson>,
}

} // verus!
