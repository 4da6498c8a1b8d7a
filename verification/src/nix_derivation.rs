//! Dependency lists of a single derivation, as reported by
//! `nix derivation show`, reduced to human-readable package names.

use vstd::prelude::*;

use crate::text::{chars_of, concat, string_from_chars, string_from_range};

verus! {

/// Result of a single derivation query.
#[derive(Debug, Clone)]
pub struct DerivationInfo {
    pub attr: String,
    pub inputs: Vec<String>,
    pub propagated: Vec<String>,
    pub native: Vec<String>,
}

/// The part of a store path after its last `/` (the whole path when it has none).
pub open spec fn last_segment(p: Seq<char>) -> Seq<char> {
    match p.index_of_last('/') {
        Some(i) => p.subrange(i + 1, p.len() as int),
        None => p,
    }
}

/// The human-readable name of a store path or drv path: what follows the
/// first `-` of its last segment (the hash is dropped); the whole path
/// when that segment has no `-`.
pub open spec fn extract_name_spec(p: Seq<char>) -> Seq<char> {
    let seg = last_segment(p);
    match seg.index_of_first('-') {
        Some(d) => seg.subrange(d + 1, seg.len() as int),
        None => p,
    }
}

/// Index just past the last `/` of `cs` (0 when there is none).
fn segment_start(cs: &Vec<char>) -> (k: usize)
    ensures
        k <= cs.len(),
        cs@.subrange(k as int, cs.len() as int) == last_segment(cs@),
{
    let mut i: usize = cs.len();
    while i > 0 && cs[i - 1] != '/'
        invariant
            i <= cs.len(),
            forall|j: int| i <= j < cs.len() ==> cs@[j] != '/',
        decreases i,
    {
        i -= 1;
    }
    proof {
        cs@.index_of_last_ensures('/');
        if i == 0 {
            assert(!cs@.contains('/'));
            assert(cs@.subrange(0, cs.len() as int) == cs@);
        } else {
            assert(cs@[i - 1] == '/');
            assert(cs@.contains('/'));
            let idx = cs@.index_of_last('/').unwrap();
            assert(idx == i - 1);
        }
    }
    i
}

/// Extract a human-readable name from a store path or drv path,
/// e.g. `/nix/store/…-glibc-2.39` becomes `glibc-2.39`.
pub fn extract_name(path: &str) -> (r: String)
    ensures
        r@ == extract_name_spec(path@),
{
    let cs = chars_of(path);
    let k = segment_start(&cs);
    let ghost seg = last_segment(path@);
    let mut j: usize = k;
    while j < cs.len() && cs[j] != '-'
        invariant
            k <= j <= cs.len(),
            seg == cs@.subrange(k as int, cs.len() as int),
            forall|t: int| k <= t < j ==> cs@[t] != '-',
        decreases cs.len() - j,
    {
        j += 1;
    }
    proof {
        seg.index_of_first_ensures('-');
        if j == cs.len() {
            assert forall|t: int| 0 <= t < seg.len() implies seg[t] != '-' by {
                assert(seg[t] == cs@[k + t]);
            }
            assert(!seg.contains('-'));
        } else {
            assert(seg[j - k] == '-');
            assert(seg.contains('-'));
            let d = seg.index_of_first('-').unwrap();
            assert(seg[d] == cs@[k + d]);
            assert(d == j - k);
            assert(seg.subrange(d + 1, seg.len() as int) == cs@.subrange(j + 1, cs.len() as int));
        }
    }
    if j == cs.len() {
        string_from_range(&cs, 0, cs.len())
    } else {
        string_from_range(&cs, j + 1, cs.len())
    }
}

/// Names of every path in `paths`, in order.
pub fn extract_names(paths: &Vec<String>) -> (r: Vec<String>)
    ensures
        r@.len() == paths@.len(),
        forall|i: int| 0 <= i < paths@.len() ==> #[trigger] r@[i]@ == extract_name_spec(paths@[i]@),
{
    let mut r: Vec<String> = Vec::new();
    let mut i: usize = 0;
    while i < paths.len()
        invariant
            i <= paths.len(),
            r@.len() == i,
            forall|t: int| 0 <= t < i ==> #[trigger] r@[t]@ == extract_name_spec(paths@[t]@),
        decreases paths.len() - i,
    {
        r.push(extract_name(paths[i].as_str()));
        i += 1;
    }
    r
}

/// The installable handed to `nix derivation show`: `attr` itself when it
/// already names a flake (`…#…`), else `nixpkgs#attr`.
pub open spec fn installable_spec(attr: Seq<char>) -> Seq<char> {
    if attr.contains('#') { attr } else { "nixpkgs#"@ + attr }
}

/// Normalize an attribute path into an installable.
pub fn installable(attr: &str) -> (r: String)
    ensures
        r@ == installable_spec(attr@),
{
    let cs = chars_of(attr);
    let mut i: usize = 0;
    while i < cs.len()
        invariant
            i <= cs.len(),
            cs@ == attr@,
            forall|t: int| 0 <= t < i ==> cs@[t] != '#',
        decreases cs.len() - i,
    {
        if cs[i] == '#' {
            assert(attr@[i as int] == '#');
            return string_from_range(&cs, 0, cs.len());
        }
        i += 1;
    }
    assert(!attr@.contains('#'));
    concat("nixpkgs#", attr)
}

/// The derivation's dependency lists: build inputs (`input_builds` then
/// `input_drves`) and sources, each reduced to a package name; nothing is
/// reported as propagated.
pub fn derivation_info_from(
    attr: &str,
    input_builds: &Vec<String>,
    input_drves: &Vec<String>,
    input_sources: &Vec<String>,
) -> (r: DerivationInfo)
    ensures
        r.attr@ == attr@,
        r.inputs@.len() == input_builds@.len() + input_drves@.len(),
        forall|i: int| 0 <= i < input_builds@.len() ==> #[trigger] r.inputs@[i]@ == extract_name_spec(input_builds@[i]@),
        forall|i: int| 0 <= i < input_drves@.len() ==>
            #[trigger] r.inputs@[input_builds@.len() + i]@ == extract_name_spec(input_drves@[i]@),
        r.propagated@.len() == 0,
        r.native@.len() == input_sources@.len(),
        forall|i: int| 0 <= i < input_sources@.len() ==> #[trigger] r.native@[i]@ == extract_name_spec(input_sources@[i]@),
{
    let mut inputs = extract_names(input_builds);
    let n0 = inputs.len();
    let mut i: usize = 0;
    while i < input_drves.len()
        invariant
            n0 == input_builds@.len(),
            i <= input_drves.len(),
            inputs@.len() == n0 + i,
            forall|t: int| 0 <= t < n0 ==> #[trigger] inputs@[t]@ == extract_name_spec(input_builds@[t]@),
            forall|t: int| 0 <= t < i ==> #[trigger] inputs@[n0 + t]@ == extract_name_spec(input_drves@[t]@),
        decreases input_drves.len() - i,
    {
        inputs.push(extract_name(input_drves[i].as_str()));
        i += 1;
    }
    DerivationInfo {
        attr: string_from_chars(&chars_of(attr)),
        inputs,
        propagated: Vec::new(),
        native: extract_names(input_sources),
    }
}

} // verus!
