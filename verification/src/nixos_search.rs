//! Package records from the search.nixos.org Elasticsearch backend and
//! their conversion into index documents.

use vstd::prelude::*;

use crate::model::{Header, IndexDoc, PkgJson, SCHEMA_VERSION};
use crate::text::{concat, u64_to_decimal, decimal};

verus! {

/// Backend index version expected by the search.nixos.org frontend.
pub const BACKEND_VERSION: u32 = 51;

/// Default channel to query.
pub const DEFAULT_CHANNEL: &'static str = "nixos-unstable";

/// Commit label of documents built from the online search.
pub const ONLINE_COMMIT: &'static str = "nixos-unstable (online)";

/// One license of a package record.
#[derive(Debug, Clone)]
pub struct EsLicense {
    pub short_name: String,
    pub full_name: String,
}

/// The `_source` of one package hit.
#[derive(Debug, Clone)]
pub struct EsPackageSource {
    pub package_attr_name: String,
    pub package_pname: String,
    pub package_pversion: String,
    pub package_description: Option<String>,
    pub package_long_description: Option<String>,
    pub package_license: Vec<EsLicense>,
    pub package_homepage: Vec<String>,
    pub package_position: Option<String>,
    pub package_dep_count: u32,
}

/// The search endpoint for `channel`.
pub open spec fn search_url_spec(channel: Seq<char>) -> Seq<char> {
    "https://search.nixos.org/backend/latest-"@ + decimal(BACKEND_VERSION as nat) + "-"@ + channel + "/_search"@
}

/// The search endpoint for `channel`.
pub fn search_url(channel: &str) -> (r: String)
    ensures
        r@ == search_url_spec(channel@),
{
    let v = u64_to_decimal(BACKEND_VERSION as u64);
    let a = concat("https://search.nixos.org/backend/latest-", v.as_str());
    let b = concat(a.as_str(), "-");
    let c = concat(b.as_str(), channel);
    concat(c.as_str(), "/_search")
}

/// The value of an optional string, empty when absent.
pub open spec fn or_empty(o: Option<String>) -> Seq<char> {
    match o {
        Some(s) => s@,
        None => Seq::empty(),
    }
}

/// The name shown for a license: its short name, or its full name when the
/// short one is empty.
pub open spec fn license_label(l: EsLicense) -> Seq<char> {
    if l.short_name@.len() == 0 { l.full_name@ } else { l.short_name@ }
}

/// What `pkg_from_source` makes of a search record: its id is 0, to be
/// assigned by whoever collects the packages.
pub open spec fn pkg_from_source_spec(src: EsPackageSource, p: PkgJson) -> bool {
    &&& p.id == 0
    &&& pkg_fields_from_source(src, p)
}

/// The fields other than the id that a search record gives a package.
pub open spec fn pkg_fields_from_source(src: EsPackageSource, p: PkgJson) -> bool {
    &&& p.name@ == (if src.package_pname@.len() == 0 {
        src.package_attr_name@
    } else {
        src.package_pname@ + "-"@ + src.package_pversion@
    })
    &&& p.attribute@ == src.package_attr_name@
    &&& p.version@ == src.package_pversion@
    &&& p.synopsis@ == or_empty(src.package_description)
    &&& p.description@ == or_empty(src.package_long_description)
    &&& p.homepage@ == (if src.package_homepage@.len() > 0 { src.package_homepage@[0]@ } else { Seq::empty() })
    &&& p.licenses@.len() == src.package_license@.len()
    &&& forall|i: int| 0 <= i < p.licenses@.len() ==> #[trigger] p.licenses@[i]@ == license_label(src.package_license@[i])
    &&& p.file.0@.len() == 0
    &&& p.file.1 == 0
    &&& p.inputs@.len() == 0
    &&& p.propagated_inputs@.len() == 0
    &&& p.native_inputs@.len() == 0
    &&& p.store_path@.len() == 0
    &&& !p.installed
    &&& p.flake@.len() == 0
}

fn unwrap_or_empty(o: Option<String>) -> (s: String)
    ensures
        s@ == or_empty(o),
{
    match o {
        Some(s) => s,
        None => String::new(),
    }
}

/// Convert one search record into a document package (its id is assigned later).
pub fn pkg_from_source(src: EsPackageSource) -> (p: PkgJson)
    ensures
        pkg_from_source_spec(src, p),
{
    let ghost s0 = src;
    let name = if src.package_pname.as_str().is_empty() {
        src.package_attr_name.clone()
    } else {
        let a = concat(src.package_pname.as_str(), "-");
        concat(a.as_str(), src.package_pversion.as_str())
    };
    let mut licenses: Vec<String> = Vec::new();
    let mut i: usize = 0;
    while i < src.package_license.len()
        invariant
            src == s0,
            i <= src.package_license.len(),
            licenses@.len() == i,
            forall|t: int| 0 <= t < i ==> #[trigger] licenses@[t]@ == license_label(src.package_license@[t]),
        decreases src.package_license.len() - i,
    {
        let l = &src.package_license[i];
        if l.short_name.as_str().is_empty() {
            licenses.push(l.full_name.clone());
        } else {
            licenses.push(l.short_name.clone());
        }
        i += 1;
    }
    let homepage = if src.package_homepage.len() > 0 {
        src.package_homepage[0].clone()
    } else {
        String::new()
    };
    PkgJson {
        id: 0,
        name,
        attribute: src.package_attr_name,
        version: src.package_pversion,
        synopsis: unwrap_or_empty(src.package_description),
        description: unwrap_or_empty(src.package_long_description),
        homepage,
        licenses,
        file: (String::new(), 0),
        inputs: Vec::new(),
        propagated_inputs: Vec::new(),
        native_inputs: Vec::new(),
        store_path: String::new(),
        installed: false,
        flake: String::new(),
    }
}

/// The index document made of the search records `sources`, fetched at
/// `now_ms` (epoch milliseconds): one package per record, in order, the
/// `i`-th with id `i`.
pub fn doc_from_sources(sources: Vec<EsPackageSource>, now_ms: u64) -> (d: IndexDoc)
    requires
        sources@.len() <= u32::MAX,
    ensures
        d.header.schema == SCHEMA_VERSION,
        d.header.nixpkgs_commit@ == ONLINE_COMMIT@,
        d.header.generated_ms@ == decimal(now_ms as nat),
        d.header.package_count == sources@.len(),
        d.packages@.len() == sources@.len(),
        forall|i: int| 0 <= i < sources@.len() ==> pkg_fields_from_source(#[trigger] sources@[i], d.packages@[i]),
        forall|i: int| 0 <= i < sources@.len() ==> (#[trigger] d.packages@[i]).id == i,
{
    let ghost s0 = sources@;
    let mut packages: Vec<PkgJson> = Vec::new();
    for src in it: sources.into_iter()
        invariant
            it.seq() == s0,
            packages@.len() == it.index(),
            s0.len() <= u32::MAX,
            forall|i: int| 0 <= i < packages@.len() ==>
                pkg_fields_from_source(#[trigger] s0[i], packages@[i]) && packages@[i].id == i,
    {
        let mut p = pkg_from_source(src);
        p.id = packages.len() as u32;
        packages.push(p);
    }
    assert(packages@.len() == s0.len());
    assert forall|i: int| 0 <= i < s0.len() implies (#[trigger] packages@[i]).id == i by {
        assert(pkg_fields_from_source(s0[i], packages@[i]));
    }
    let count = packages.len() as u64;
    IndexDoc {
        header: Header {
            schema: SCHEMA_VERSION,
            nixpkgs_commit: ONLINE_COMMIT.to_owned(),
            generated_ms: u64_to_decimal(now_ms),
            package_count: count,
        },
        packages,
    }
}

} // verus!
