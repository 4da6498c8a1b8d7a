//! NixOS and Home-Manager configuration options and their search.

use vstd::prelude::*;

verus! {

/// A single NixOS configuration option.
#[derive(Debug, Clone)]
pub struct NixosOption {
    pub name: String,
    pub description: String,
    pub option_type: String,
    pub default: String,
    pub example: String,
    pub declared_in: String,
}

/// A single Home-Manager configuration option.
#[derive(Debug, Clone)]
pub struct HmOption {
    pub name: String,
    pub description: String,
    pub option_type: String,
    pub default: String,
    pub example: String,
    pub declared_in: String,
}

/// Collection of NixOS and Home-Manager options.
#[derive(Debug, Clone)]
pub struct OptionsDoc {
    pub nixos_options: Vec<NixosOption>,
    pub hm_options: Vec<HmOption>,
}

/// An in-memory searchable index over options.
#[derive(Debug)]
pub struct OptionsIndex {
    pub doc: OptionsDoc,
}

/// What `str::to_lowercase` returns for `s` (Unicode lowercase mapping).
pub uninterp spec fn lowercase(s: Seq<char>) -> Seq<char>;

/// The lowercase of an ASCII character (`A`-`Z` to `a`-`z`, others kept).
pub open spec fn ascii_lower(c: char) -> char {
    if 'A' <= c && c <= 'Z' { ((c as u32) + 32) as char } else { c }
}

/// `str::to_lowercase` of std. Besides naming the result, states what std
/// documents of it: the empty string stays empty, and a string of ASCII
/// characters is lowercased character by character (`A`-`Z` to `a`-`z`).
/// What it does to other characters is left to the name.
#[verifier::external_body]
pub(crate) fn to_lower(s: &str) -> (r: String)
    ensures
        r@ == lowercase(s@),
        s@.len() == 0 ==> r@.len() == 0,
        (forall|i: int| 0 <= i < s@.len() ==> (#[trigger] s@[i] as u32) < 128) ==>
            r@ == s@.map_values(|c: char| ascii_lower(c)),
{
    s.to_lowercase()
}

/// Whether `needle` occurs in `hay` as a contiguous run.
pub open spec fn contains_seq(hay: Seq<char>, needle: Seq<char>) -> bool {
    exists|i: int| 0 <= i <= hay.len() - needle.len() && #[trigger] hay.subrange(i, i + needle.len()) == needle
}

/// Whether `needle` occurs in `hay` (substring search).
pub fn str_contains(hay: &str, needle: &str) -> (r: bool)
    ensures
        r == contains_seq(hay@, needle@),
{
    let h = crate::text::chars_of(hay);
    let nd = crate::text::chars_of(needle);
    if nd.len() > h.len() {
        return false;
    }
    let mut i: usize = 0;
    while i <= h.len() - nd.len()
        invariant
            h@ == hay@,
            nd@ == needle@,
            nd.len() <= h.len(),
            i <= h.len() - nd.len() + 1,
            forall|k: int| 0 <= k < i ==> #[trigger] h@.subrange(k, k + nd.len()) != nd@,
        decreases h.len() - nd.len() + 1 - i,
    {
        let mut j: usize = 0;
        while j < nd.len() && h[i + j] == nd[j]
            invariant
                nd.len() <= h.len(),
                i <= h.len() - nd.len(),
                j <= nd.len(),
                forall|t: int| 0 <= t < j ==> h@[i + t] == nd@[t],
            decreases nd.len() - j,
        {
            j += 1;
        }
        if j == nd.len() {
            assert(h@.subrange(i as int, i + nd.len()) =~= nd@);
            return true;
        }
        assert(h@.subrange(i as int, i + nd.len())[j as int] != nd@[j as int]);
        i += 1;
    }
    proof {
        assert forall|k: int| 0 <= k <= hay@.len() - needle@.len() implies #[trigger] hay@.subrange(k, k + needle@.len()) != needle@ by {
            assert(h@.subrange(k, k + nd.len()) != nd@);
        }
    }
    false
}

/// The match rule on lowercased text: the lowercased query occurs in the
/// lowercased name or in the lowercased description.
pub open spec fn matches_lowered(name_l: Seq<char>, desc_l: Seq<char>, q_l: Seq<char>) -> bool {
    contains_seq(name_l, q_l) || contains_seq(desc_l, q_l)
}

/// Whether an option with the given lowercased name and description
/// matches the lowercased query.
pub fn option_matches_lowered(name_l: &str, desc_l: &str, q_l: &str) -> (r: bool)
    ensures
        r == matches_lowered(name_l@, desc_l@, q_l@),
{
    str_contains(name_l, q_l) || str_contains(desc_l, q_l)
}

/// Whether an option with `name` and `description` matches `query`,
/// ignoring case.
pub open spec fn option_matches_spec(name: Seq<char>, description: Seq<char>, query: Seq<char>) -> bool {
    matches_lowered(lowercase(name), lowercase(description), lowercase(query))
}

/// Whether an option matches `query`, ignoring case.
pub fn option_matches(name: &str, description: &str, query: &str) -> (r: bool)
    ensures
        r == option_matches_spec(name@, description@, query@),
        query@.len() == 0 ==> r,
{
    let q = to_lower(query);
    let n = to_lower(name);
    let d = to_lower(description);
    proof {
        if query@.len() == 0 {
            lemma_contains_empty(n@, q@);
        }
    }
    option_matches_lowered(n.as_str(), d.as_str(), q.as_str())
}

/// Every text contains the empty text.
pub proof fn lemma_contains_empty(hay: Seq<char>, needle: Seq<char>)
    requires
        needle.len() == 0,
    ensures
        contains_seq(hay, needle),
{
    assert(hay.subrange(0int, 0int + needle.len()) =~= needle);
}

/// Law (case-insensitive matching): the matches depend on the query only
/// through its lowercase form.
pub proof fn law_matching_by_lowercase(names: Seq<Seq<char>>, descs: Seq<Seq<char>>, q1: Seq<char>, q2: Seq<char>)
    requires
        lowercase(q1) == lowercase(q2),
    ensures
        matching_indices(names, descs, q1) == matching_indices(names, descs, q2),
    decreases names.len(),
{
    if names.len() > 0 {
        law_matching_by_lowercase(names.drop_last(), descs, q1, q2);
    }
}

/// Law (ASCII case is ignored): two queries that lowercase as std's
/// `to_lowercase` does for ASCII text (character by character, see
/// `to_lower`) and agree once lowercased select the same options. The
/// requirements on `lowercase` are what `to_lower` states of every ASCII
/// string it is called on.
pub proof fn law_matching_ascii_case(names: Seq<Seq<char>>, descs: Seq<Seq<char>>, q1: Seq<char>, q2: Seq<char>)
    requires
        lowercase(q1) == q1.map_values(|c: char| ascii_lower(c)),
        lowercase(q2) == q2.map_values(|c: char| ascii_lower(c)),
        q1.map_values(|c: char| ascii_lower(c)) == q2.map_values(|c: char| ascii_lower(c)),
    ensures
        matching_indices(names, descs, q1) == matching_indices(names, descs, q2),
{
    law_matching_by_lowercase(names, descs, q1, q2);
}

/// Law (a longer query never adds matches): when the lowercase of `q1`
/// occurs in the lowercase of `q2`, every match of `q2` is a match of `q1`.
pub proof fn law_matching_narrows(names: Seq<Seq<char>>, descs: Seq<Seq<char>>, q1: Seq<char>, q2: Seq<char>)
    requires
        contains_seq(lowercase(q2), lowercase(q1)),
    ensures
        forall|i: int| 0 <= i < matching_indices(names, descs, q2).len() ==>
            matching_indices(names, descs, q1).contains(#[trigger] matching_indices(names, descs, q2)[i]),
    decreases names.len(),
{
    if names.len() > 0 {
        let p = names.drop_last();
        law_matching_narrows(p, descs, q1, q2);
        let k = (names.len() - 1) as int;
        let r1 = matching_indices(p, descs, q1);
        let r2 = matching_indices(p, descs, q2);
        let m1 = matching_indices(names, descs, q1);
        let m2 = matching_indices(names, descs, q2);
        if option_matches_spec(names[k], descs[k], q2) {
            let l2 = lowercase(q2);
            let l1 = lowercase(q1);
            let a = choose|a: int| 0 <= a <= l2.len() - l1.len() && #[trigger] l2.subrange(a, a + l1.len()) == l1;
            if contains_seq(lowercase(names[k]), l2) {
                lemma_contains_trans(lowercase(names[k]), l2, l1);
            } else {
                lemma_contains_trans(lowercase(descs[k]), l2, l1);
            }
            assert(option_matches_spec(names[k], descs[k], q1));
        }
        assert forall|i: int| 0 <= i < m2.len() implies m1.contains(#[trigger] m2[i]) by {
            if i < r2.len() {
                assert(m2[i] == r2[i]);
                assert(r1.contains(r2[i]));
                let j = choose|j: int| 0 <= j < r1.len() && r1[j] == r2[i];
                assert(m1[j] == r1[j]);
            } else {
                assert(m1[m1.len() - 1] == m2[i]);
            }
        }
    }
}

/// Containment is transitive.
pub proof fn lemma_contains_trans(a: Seq<char>, b: Seq<char>, c: Seq<char>)
    requires
        contains_seq(a, b),
        contains_seq(b, c),
    ensures
        contains_seq(a, c),
{
    let i = choose|i: int| 0 <= i <= a.len() - b.len() && #[trigger] a.subrange(i, i + b.len()) == b;
    let j = choose|j: int| 0 <= j <= b.len() - c.len() && #[trigger] b.subrange(j, j + c.len()) == c;
    assert(a.subrange(i + j, i + j + c.len()) =~= c) by {
        assert forall|t: int| 0 <= t < c.len() implies a.subrange(i + j, i + j + c.len())[t] == c[t] by {
            assert(b.subrange(j, j + c.len())[t] == b[j + t]);
            assert(a.subrange(i, i + b.len())[j + t] == a[i + j + t]);
        }
    }
}

/// The indices `i` in `0..names.len()` whose entry matches, in order.
pub open spec fn matching_indices(names: Seq<Seq<char>>, descs: Seq<Seq<char>>, query: Seq<char>) -> Seq<usize>
    decreases names.len(),
{
    if names.len() == 0 {
        Seq::empty()
    } else {
        let k = (names.len() - 1) as int;
        let r = matching_indices(names.drop_last(), descs, query);
        if option_matches_spec(names[k], descs[k], query) { r.push(k as usize) } else { r }
    }
}

/// Option names as character sequences.
pub open spec fn nixos_names(v: Seq<NixosOption>) -> Seq<Seq<char>> {
    v.map_values(|o: NixosOption| o.name@)
}

/// Option descriptions as character sequences.
pub open spec fn nixos_descs(v: Seq<NixosOption>) -> Seq<Seq<char>> {
    v.map_values(|o: NixosOption| o.description@)
}

/// Option names as character sequences.
pub open spec fn hm_names(v: Seq<HmOption>) -> Seq<Seq<char>> {
    v.map_values(|o: HmOption| o.name@)
}

/// Option descriptions as character sequences.
pub open spec fn hm_descs(v: Seq<HmOption>) -> Seq<Seq<char>> {
    v.map_values(|o: HmOption| o.description@)
}

/// Indices of the NixOS options that match `query` (case-insensitive
/// substring of name or description), in order.
pub fn filter_nixos(opts: &Vec<NixosOption>, query: &str) -> (r: Vec<usize>)
    ensures
        r@ == matching_indices(nixos_names(opts@), nixos_descs(opts@), query@),
        query@.len() == 0 ==> r@ == Seq::new(opts@.len(), |i: int| i as usize),
{
    let mut r: Vec<usize> = Vec::new();
    let mut i: usize = 0;
    while i < opts.len()
        invariant
            i <= opts.len(),
            r@ == matching_indices(nixos_names(opts@).take(i as int), nixos_descs(opts@), query@),
            query@.len() == 0 ==> r@ == Seq::new(i as nat, |k: int| k as usize),
        decreases opts.len() - i,
    {
        let ghost names = nixos_names(opts@);
        assert(names.take(i + 1).drop_last() == names.take(i as int));
        assert(names.take(i + 1)[i as int] == opts@[i as int].name@);
        if option_matches(opts[i].name.as_str(), opts[i].description.as_str(), query) {
            r.push(i);
        }
        i += 1;
    }
    assert(nixos_names(opts@).take(opts.len() as int) == nixos_names(opts@));
    r
}

/// Indices of the Home-Manager options that match `query`, in order.
pub fn filter_hm(opts: &Vec<HmOption>, query: &str) -> (r: Vec<usize>)
    ensures
        r@ == matching_indices(hm_names(opts@), hm_descs(opts@), query@),
        query@.len() == 0 ==> r@ == Seq::new(opts@.len(), |i: int| i as usize),
{
    let mut r: Vec<usize> = Vec::new();
    let mut i: usize = 0;
    while i < opts.len()
        invariant
            i <= opts.len(),
            r@ == matching_indices(hm_names(opts@).take(i as int), hm_descs(opts@), query@),
            query@.len() == 0 ==> r@ == Seq::new(i as nat, |k: int| k as usize),
        decreases opts.len() - i,
    {
        let ghost names = hm_names(opts@);
        assert(names.take(i + 1).drop_last() == names.take(i as int));
        assert(names.take(i + 1)[i as int] == opts@[i as int].name@);
        if option_matches(opts[i].name.as_str(), opts[i].description.as_str(), query) {
            r.push(i);
        }
        i += 1;
    }
    assert(hm_names(opts@).take(opts.len() as int) == hm_names(opts@));
    r
}

/// Law: every matching index names an option, and they ascend.
pub proof fn law_matching_indices_sorted(names: Seq<Seq<char>>, descs: Seq<Seq<char>>, query: Seq<char>)
    requires
        names.len() <= usize::MAX,
    ensures
        forall|i: int| 0 <= i < matching_indices(names, descs, query).len() ==> #[trigger] matching_indices(names, descs, query)[i] < names.len(),
        forall|i: int, j: int| 0 <= i < j < matching_indices(names, descs, query).len() ==>
            matching_indices(names, descs, query)[i] < matching_indices(names, descs, query)[j],
        forall|k: int| 0 <= k < names.len() ==>
            (matching_indices(names, descs, query).contains(k as usize) <==> #[trigger] option_matches_spec(names[k], descs[k], query)),
    decreases names.len(),
{
    if names.len() > 0 {
        let p = names.drop_last();
        law_matching_indices_sorted(p, descs, query);
        let r = matching_indices(p, descs, query);
        let m = matching_indices(names, descs, query);
        let last = (names.len() - 1) as int;
        assert forall|i: int, j: int| 0 <= i < j < m.len() implies m[i] < m[j] by {
            if j < r.len() {
                assert(m[i] == r[i] && m[j] == r[j]);
            } else {
                assert(m[i] == r[i]);
                assert(r[i] < p.len());
                assert(m[j] == last as usize);
            }
        }
        assert forall|k: int| 0 <= k < names.len() implies
            (m.contains(k as usize) <==> #[trigger] option_matches_spec(names[k], descs[k], query)) by {
            if k < last {
                assert(p[k] == names[k]);
                if r.contains(k as usize) {
                    let j = choose|j: int| 0 <= j < r.len() && r[j] == k as usize;
                    assert(m[j] == k as usize);
                }
                if m.contains(k as usize) {
                    let j = choose|j: int| 0 <= j < m.len() && m[j] == k as usize;
                    if j < r.len() { assert(r[j] == k as usize); }
                }
            } else {
                if option_matches_spec(names[k], descs[k], query) {
                    assert(m[m.len() - 1] == k as usize);
                }
                if m.contains(k as usize) {
                    let j = choose|j: int| 0 <= j < m.len() && m[j] == k as usize;
                    if j < r.len() { assert(r[j] < p.len()); }
                }
            }
        }
    }
}

impl OptionsIndex {
    /// Search NixOS options by name or description (case-insensitive substring).
    pub fn search_nixos(&self, query: &str) -> (r: Vec<&NixosOption>)
        ensures
            r@ == matching_indices(nixos_names(self.doc.nixos_options@), nixos_descs(self.doc.nixos_options@), query@)
                .map_values(|i: usize| &self.doc.nixos_options@[i as int]),
            query@.len() == 0 ==> r@.len() == self.doc.nixos_options.len()
                && forall|k: int| 0 <= k < r@.len() ==> #[trigger] r@[k] == &self.doc.nixos_options@[k],
    {
        let idx = filter_nixos(&self.doc.nixos_options, query);
        assert(nixos_names(self.doc.nixos_options@).len() == self.doc.nixos_options.len());
        proof { law_matching_indices_sorted(nixos_names(self.doc.nixos_options@), nixos_descs(self.doc.nixos_options@), query@); }
        let mut r: Vec<&NixosOption> = Vec::new();
        let mut i: usize = 0;
        while i < idx.len()
            invariant
                idx@ == matching_indices(nixos_names(self.doc.nixos_options@), nixos_descs(self.doc.nixos_options@), query@),
                forall|k: int| 0 <= k < idx.len() ==> #[trigger] idx@[k] < self.doc.nixos_options.len(),
                i <= idx.len(),
                r@ == idx@.take(i as int).map_values(|i: usize| &self.doc.nixos_options@[i as int]),
            decreases idx.len() - i,
        {
            r.push(&self.doc.nixos_options[idx[i]]);
            assert(idx@.take(i + 1) == idx@.take(i as int).push(idx@[i as int]));
            i += 1;
        }
        assert(idx@.take(idx.len() as int) == idx@);
        r
    }

    /// Search Home-Manager options by name or description.
    pub fn search_hm(&self, query: &str) -> (r: Vec<&HmOption>)
        ensures
            r@ == matching_indices(hm_names(self.doc.hm_options@), hm_descs(self.doc.hm_options@), query@)
                .map_values(|i: usize| &self.doc.hm_options@[i as int]),
            query@.len() == 0 ==> r@.len() == self.doc.hm_options.len()
                && forall|k: int| 0 <= k < r@.len() ==> #[trigger] r@[k] == &self.doc.hm_options@[k],
    {
        let idx = filter_hm(&self.doc.hm_options, query);
        assert(hm_names(self.doc.hm_options@).len() == self.doc.hm_options.len());
        proof { law_matching_indices_sorted(hm_names(self.doc.hm_options@), hm_descs(self.doc.hm_options@), query@); }
        let mut r: Vec<&HmOption> = Vec::new();
        let mut i: usize = 0;
        while i < idx.len()
            invariant
                idx@ == matching_indices(hm_names(self.doc.hm_options@), hm_descs(self.doc.hm_options@), query@),
                forall|k: int| 0 <= k < idx.len() ==> #[trigger] idx@[k] < self.doc.hm_options.len(),
                i <= idx.len(),
                r@ == idx@.take(i as int).map_values(|i: usize| &self.doc.hm_options@[i as int]),
            decreases idx.len() - i,
        {
            r.push(&self.doc.hm_options[idx[i]]);
            assert(idx@.take(i + 1) == idx@.take(i as int).push(idx@[i as int]));
            i += 1;
        }
        assert(idx@.take(idx.len() as int) == idx@);
        r
    }

    /// Number of NixOS options.
    pub fn nixos_count(&self) -> (n: usize)
        ensures
            n == self.doc.nixos_options.len(),
    {
        self.doc.nixos_options.len()
    }

    /// Number of Home-Manager options.
    pub fn hm_count(&self) -> (n: usize)
        ensures
            n == self.doc.hm_options.len(),
    {
        self.doc.hm_options.len()
    }
}

} // verus!
