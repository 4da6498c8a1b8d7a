//! The local package database: the rows written for an index document,
//! the rows read back, and what the loaded index is made of.

use std::collections::HashMap;

use vstd::prelude::*;

use crate::error::{index_error_text, CacheError, IndexError};
use crate::index::{bad_dep_scan, converted, dedup_push, deps_of, edges_for, first_at_least, first_bad_dep, has_id, kind_ids, name_entries, packages_error, resolve_all, DepKind, Index, Package};
use crate::strtable::{insert_absent, seq_lookup, StrTable};
use crate::model::{Header, IndexDoc, PkgJson};
use crate::text::{chars_of, concat, decimal, parse_u64, parse_u64_spec, push_char, str_eq, string_from_range, u64_to_decimal};

verus! {

broadcast use vstd::seq_lib::group_seq_properties;

/// Schema version stored in the database.
pub const DB_SCHEMA_VERSION: u32 = 4;

/// The separator between licenses in the `licenses` column.
pub open spec fn sep() -> Seq<char> {
    seq![',', ' ']
}

/// Whether `s` holds the separator `", "` somewhere.
pub open spec fn has_sep(s: Seq<char>) -> bool {
    exists|i: int| 0 <= i < s.len() - 1 && s[i] == ',' && #[trigger] s[i + 1] == ' '
}

/// The licenses of a package, joined with `", "`.
pub open spec fn join_spec(v: Seq<Seq<char>>) -> Seq<char>
    decreases v.len(),
{
    if v.len() == 0 {
        Seq::empty()
    } else if v.len() == 1 {
        v[0]
    } else {
        join_spec(v.drop_last()) + sep() + v.last()
    }
}

/// The pieces of `s` between the occurrences of `", "`, scanning from the
/// left; `cur` is the piece read so far.
pub open spec fn pieces_from(s: Seq<char>, cur: Seq<char>) -> Seq<Seq<char>>
    decreases s.len(),
{
    if s.len() == 0 {
        seq![cur]
    } else if s.len() >= 2 && s[0] == ',' && s[1] == ' ' {
        seq![cur] + pieces_from(s.skip(2), Seq::empty())
    } else {
        pieces_from(s.drop_first(), cur.push(s[0]))
    }
}

/// The pieces of `s` split at `", "` (what `str::split(", ")` yields).
pub open spec fn pieces(s: Seq<char>) -> Seq<Seq<char>> {
    pieces_from(s, Seq::empty())
}

/// Whether a piece is kept when reading licenses back.
pub open spec fn non_empty(p: Seq<char>) -> bool {
    p.len() > 0
}

/// The non-empty strings of `v`, in order.
pub open spec fn kept(v: Seq<Seq<char>>) -> Seq<Seq<char>> {
    v.filter(|p: Seq<char>| non_empty(p))
}

/// The licenses read back from a `licenses` column: its non-empty pieces.
pub open spec fn split_spec(s: Seq<char>) -> Seq<Seq<char>> {
    kept(pieces(s))
}

/// The characters of each string.
pub open spec fn views(v: Seq<String>) -> Seq<Seq<char>> {
    v.map_values(|s: String| s@)
}

/// The `licenses` column of a package: its licenses joined with `", "`.
pub fn join_licenses(v: &Vec<String>) -> (s: String)
    ensures
        s@ == join_spec(views(v@)),
{
    let mut s = String::new();
    let mut i: usize = 0;
    while i < v.len()
        invariant
            i <= v.len(),
            s@ == join_spec(views(v@).take(i as int)),
        decreases v.len() - i,
    {
        let ghost pre = views(v@).take(i as int);
        assert(views(v@).take(i + 1).drop_last() == pre);
        if i > 0 {
            push_char(&mut s, ',');
            push_char(&mut s, ' ');
        }
        let cs = chars_of(v[i].as_str());
        let mut j: usize = 0;
        let ghost base = s@;
        while j < cs.len()
            invariant
                j <= cs.len(),
                s@ == base + cs@.take(j as int),
            decreases cs.len() - j,
        {
            push_char(&mut s, cs[j]);
            assert(cs@.take(j + 1) == cs@.take(j as int).push(cs@[j as int]));
            j += 1;
        }
        assert(cs@.take(cs.len() as int) == cs@);
        if i == 0 {
            assert(base == Seq::<char>::empty());
        }
        i += 1;
    }
    assert(views(v@).take(v.len() as int) == views(v@));
    s
}

/// The licenses stored in a `licenses` column: the non-empty pieces
/// between its `", "` separators.
#[verifier::rlimit(40)]
pub fn split_licenses(text: &str) -> (r: Vec<String>)
    ensures
        views(r@) == split_spec(text@),
{
    let cs = chars_of(text);
    let ghost s = text@;
    let mut done: Vec<String> = Vec::new();
    let mut cur: Vec<char> = Vec::new();
    let mut i: usize = 0;
    let ghost keep = |p: Seq<char>| non_empty(p);
    assert(s.skip(0) == s);
    while i < cs.len()
        invariant
            cs@ == s,
            i <= cs.len(),
            views(done@) + pieces_from(s.skip(i as int), cur@).filter(keep) == pieces(s).filter(keep),
            keep == (|p: Seq<char>| non_empty(p)),
        decreases cs.len() - i,
    {
        let ghost rest = s.skip(i as int);
        if i + 1 < cs.len() && cs[i] == ',' && cs[i + 1] == ' ' {
            proof {
                assert(rest[0] == ',' && rest[1] == ' ');
                assert(rest.skip(2) == s.skip(i + 2));
                assert(pieces_from(rest, cur@) == seq![cur@] + pieces_from(s.skip(i + 2), Seq::empty()));
                Seq::filter_distributes_over_add(seq![cur@], pieces_from(s.skip(i + 2), Seq::empty()), keep);
                reveal_with_fuel(Seq::filter, 2);
            }
            if cur.len() > 0 {
                let ghost before = done@;
                let piece = string_from_range(&cur, 0, cur.len());
                assert(cur@.subrange(0, cur.len() as int) == cur@);
                done.push(piece);
                assert(views(done@) == views(before).push(cur@));
            }
            cur = Vec::new();
            i += 2;
        } else {
            proof {
                assert(rest.drop_first() == s.skip(i + 1));
                assert(pieces_from(rest, cur@) == pieces_from(s.skip(i + 1), cur@.push(s[i as int])));
            }
            cur.push(cs[i]);
            i += 1;
        }
    }
    proof {
        assert(s.skip(i as int) == Seq::<char>::empty());
        reveal_with_fuel(Seq::filter, 2);
    }
    if cur.len() > 0 {
        let ghost before = done@;
        let piece = string_from_range(&cur, 0, cur.len());
        assert(cur@.subrange(0, cur.len() as int) == cur@);
        done.push(piece);
        assert(views(done@) == views(before).push(cur@));
    }
    done
}


/// A piece without separator is read whole, after what was read before it.
proof fn lemma_pieces_plain(a: Seq<char>, cur: Seq<char>)
    requires
        !has_sep(a),
    ensures
        pieces_from(a, cur) == seq![cur + a],
    decreases a.len(),
{
    if a.len() == 0 {
        assert(cur + a == cur);
    } else {
        if a.len() >= 2 {
            assert(!(a[0] == ',' && a[1] == ' ')) by {
                if a[0] == ',' && a[1] == ' ' {
                    assert(a[0int + 1] == ' ');
                }
            }
        }
        assert(!has_sep(a.drop_first())) by {
            if has_sep(a.drop_first()) {
                let i = choose|i: int| 0 <= i < a.drop_first().len() - 1 && a.drop_first()[i] == ',' && #[trigger] a.drop_first()[i + 1] == ' ';
                assert(a[(i + 1) + 1] == ' ');
            }
        }
        lemma_pieces_plain(a.drop_first(), cur.push(a[0]));
        assert(cur.push(a[0]) + a.drop_first() == cur + a);
    }
}

/// A piece without separator followed by `", "` is cut there.
proof fn lemma_pieces_sep(a: Seq<char>, rest: Seq<char>, cur: Seq<char>)
    requires
        !has_sep(a),
    ensures
        pieces_from(a + sep() + rest, cur) == seq![cur + a] + pieces_from(rest, Seq::empty()),
    decreases a.len(),
{
    let s = a + sep() + rest;
    if a.len() == 0 {
        assert(s == sep() + rest);
        assert(s.skip(2) == rest);
        assert(cur + a == cur);
    } else {
        assert(s[0] == a[0]);
        if a.len() >= 2 {
            assert(s[1] == a[1]);
            assert(!(a[0] == ',' && a[1] == ' ')) by {
                if a[0] == ',' && a[1] == ' ' {
                    assert(a[0int + 1] == ' ');
                }
            }
        } else {
            assert(s[1] == ',');
        }
        assert(!has_sep(a.drop_first())) by {
            if has_sep(a.drop_first()) {
                let i = choose|i: int| 0 <= i < a.drop_first().len() - 1 && a.drop_first()[i] == ',' && #[trigger] a.drop_first()[i + 1] == ' ';
                assert(a[(i + 1) + 1] == ' ');
            }
        }
        assert(s.drop_first() == a.drop_first() + sep() + rest);
        lemma_pieces_sep(a.drop_first(), rest, cur.push(a[0]));
        assert(cur.push(a[0]) + a.drop_first() == cur + a);
    }
}

/// The join of two or more licenses starts with the first, then `", "`.
proof fn lemma_join_front(v: Seq<Seq<char>>)
    requires
        v.len() >= 2,
    ensures
        join_spec(v) == v[0] + sep() + join_spec(v.drop_first()),
    decreases v.len(),
{
    if v.len() == 2 {
        assert(v.drop_last().len() == 1);
        assert(v.drop_first().len() == 1);
        assert(join_spec(v.drop_first()) == v[1]);
        assert(join_spec(v.drop_last()) == v[0]);
        assert(v.last() == v[1]);
    } else {
        lemma_join_front(v.drop_last());
        let x = v.drop_last().drop_first();
        assert(x == v.drop_first().drop_last());
        assert(v.drop_first().last() == v.last());
        assert(v.drop_last()[0] == v[0]);
        assert(join_spec(v.drop_first()) == join_spec(x) + sep() + v.last());
        assert((v[0] + sep() + join_spec(x)) + sep() + v.last() =~= v[0] + sep() + (join_spec(x) + sep() + v.last()));
    }
}

/// Reading back a join of separator-free licenses gives them all back.
proof fn lemma_pieces_join(v: Seq<Seq<char>>)
    requires
        v.len() >= 1,
        forall|i: int| 0 <= i < v.len() ==> !has_sep(#[trigger] v[i]),
    ensures
        pieces(join_spec(v)) == v,
    decreases v.len(),
{
    if v.len() == 1 {
        lemma_pieces_plain(v[0], Seq::empty());
        assert(Seq::<char>::empty() + v[0] == v[0]);
        assert(seq![v[0]] == v);
    } else {
        lemma_join_front(v);
        let rest = v.drop_first();
        assert forall|i: int| 0 <= i < rest.len() implies !has_sep(#[trigger] rest[i]) by {
            assert(rest[i] == v[i + 1]);
        }
        lemma_pieces_join(rest);
        lemma_pieces_sep(v[0], join_spec(rest), Seq::empty());
        assert(Seq::<char>::empty() + v[0] == v[0]);
        assert(seq![v[0]] + rest == v);
    }
}

/// Law (what a read gives back of a write): the licenses column written
/// for a package reads back as its non-empty licenses, in order, as long
/// as no license itself holds `", "`.
pub proof fn law_licenses_round_trip(v: Seq<Seq<char>>)
    requires
        forall|i: int| 0 <= i < v.len() ==> !has_sep(#[trigger] v[i]),
    ensures
        split_spec(join_spec(v)) == kept(v),
{
    if v.len() == 0 {
        assert(pieces(join_spec(v)) == seq![Seq::<char>::empty()]);
        reveal_with_fuel(Seq::filter, 2);
        assert(kept(seq![Seq::<char>::empty()]) == Seq::<Seq<char>>::empty());
        assert(kept(v) == Seq::<Seq<char>>::empty());
    } else {
        lemma_pieces_join(v);
    }
}


/// Meta key of the schema version.
pub const KEY_SCHEMA_VERSION: &'static str = "schema_version";
/// Meta key of the save time (UNIX epoch seconds).
pub const KEY_SAVED_AT: &'static str = "saved_at";
/// Meta key of the channel commit.
pub const KEY_NIXPKGS_COMMIT: &'static str = "nixpkgs_commit";
/// Meta key of the channel name.
pub const KEY_CHANNEL: &'static str = "channel";
/// Meta key of the generation time of the document.
pub const KEY_GENERATED_AT: &'static str = "generated_at";
/// Meta key of the package count.
pub const KEY_PACKAGE_COUNT: &'static str = "package_count";
/// The channel recorded with every saved index.
pub const SAVED_CHANNEL: &'static str = "nixos-unstable";

/// Info about an existing database file (without loading data).
#[derive(Debug, Clone)]
pub struct DbInfo {
    pub package_count: u64,
    pub size_bytes: u64,
    /// UNIX epoch seconds of the last change (0 when unknown).
    pub modified: u64,
    pub nixpkgs_commit: String,
    pub channel: String,
}

/// How long ago `modified` was, seen at `now` (both UNIX epoch seconds):
/// whole days, else hours, else minutes, else seconds.
pub open spec fn age_text_spec(modified: u64, now: u64) -> Seq<char> {
    if modified == 0 {
        "unknown date"@
    } else {
        let diff: nat = if now >= modified { (now - modified) as nat } else { 0 };
        let days = diff / 86400;
        let hrs = (diff % 86400) / 3600;
        let mins = (diff % 3600) / 60;
        if days > 0 {
            decimal(days) + "d ago"@
        } else if hrs > 0 {
            decimal(hrs) + "h ago"@
        } else if mins > 0 {
            decimal(mins) + "m ago"@
        } else {
            decimal(diff) + "s ago"@
        }
    }
}

/// The current time in UNIX epoch seconds (0 if the clock is before the
/// epoch); `SystemTime::now` of std. Nothing is promised of the value.
#[verifier::external_body]
fn unix_now_secs() -> u64 {
    std::time::SystemTime::now().duration_since(std::time::UNIX_EPOCH).map(|d| d.as_secs()).unwrap_or(0)
}

/// How long ago `modified` was, seen at `now` (both UNIX epoch seconds).
pub fn age_text_between(modified: u64, now: u64) -> (s: String)
    ensures
        s@ == age_text_spec(modified, now),
{
    if modified == 0 {
        return "unknown date".to_owned();
    }
    let diff = now.saturating_sub(modified);
    let days = diff / 86400;
    let hrs = (diff % 86400) / 3600;
    let mins = (diff % 3600) / 60;
    if days > 0 {
        concat(u64_to_decimal(days).as_str(), "d ago")
    } else if hrs > 0 {
        concat(u64_to_decimal(hrs).as_str(), "h ago")
    } else if mins > 0 {
        concat(u64_to_decimal(mins).as_str(), "m ago")
    } else {
        concat(u64_to_decimal(diff).as_str(), "s ago")
    }
}

impl DbInfo {
    /// How long ago the database was written, seen at `now`.
    pub fn age_text_at(&self, now: u64) -> (s: String)
        ensures
            s@ == age_text_spec(self.modified, now),
    {
        age_text_between(self.modified, now)
    }

    /// How long ago the database was written, seen from the system clock.
    pub fn age_text(&self) -> (s: String)
        ensures
            exists|now: u64| s@ == age_text_spec(self.modified, now),
            self.modified == 0 ==> s@ == "unknown date"@,
    {
        let now = unix_now_secs();
        self.age_text_at(now)
    }
}

/// The metadata of a usable database, or `None` when its schema version
/// (stored as decimal text) is not the current one.
pub fn db_info_from(modified: u64, size_bytes: u64, schema: &str, count: i64, nixpkgs_commit: String, channel: String) -> (r: Option<DbInfo>)
    ensures
        parse_u64_spec(schema@) != Some(DB_SCHEMA_VERSION as u64) ==> r is None,
        parse_u64_spec(schema@) == Some(DB_SCHEMA_VERSION as u64) ==> (r matches Some(i) && i.package_count == count as u64
            && i.size_bytes == size_bytes && i.modified == modified
            && i.nixpkgs_commit@ == nixpkgs_commit@ && i.channel@ == channel@),
{
    match parse_u64(schema) {
        Some(v) => {
            if v != DB_SCHEMA_VERSION as u64 {
                return None;
            }
        },
        None => {
            return None;
        },
    }
    Some(DbInfo { package_count: count as u64, size_bytes, modified, nixpkgs_commit, channel })
}

/// The value of the last row with key `key` (later rows replace earlier ones).
pub open spec fn meta_get(rows: Seq<(String, String)>, key: Seq<char>) -> Option<Seq<char>>
    decreases rows.len(),
{
    if rows.len() == 0 {
        None
    } else if rows.last().0@ == key {
        Some(rows.last().1@)
    } else {
        meta_get(rows.drop_last(), key)
    }
}

/// What `str::parse::<u32>` returns.
pub open spec fn parse_u32_spec(s: Seq<char>) -> Option<u32> {
    match parse_u64_spec(s) {
        Some(v) => if v <= u32::MAX { Some(v as u32) } else { None },
        None => None,
    }
}

fn meta_lookup<'a>(rows: &'a Vec<(String, String)>, key: &str) -> (r: Option<&'a String>)
    ensures
        match r {
            Some(v) => meta_get(rows@, key@) == Some(v@),
            None => meta_get(rows@, key@) is None,
        },
{
    let mut i: usize = rows.len();
    while i > 0
        invariant
            i <= rows.len(),
            meta_get(rows@, key@) == meta_get(rows@.take(i as int), key@),
        decreases i,
    {
        let ghost pre = rows@.take(i as int);
        assert(pre.drop_last() == rows@.take(i - 1));
        assert(pre.last() == rows@[i - 1]);
        if str_eq(rows[i - 1].0.as_str(), key) {
            return Some(&rows[i - 1].1);
        }
        i -= 1;
    }
    None
}

/// The document header kept in the metadata rows: unreadable or missing
/// numbers fall back to the current schema and a zero count.
pub open spec fn header_from_meta_spec(rows: Seq<(String, String)>, h: Header) -> bool {
    &&& h.schema == match meta_get(rows, KEY_SCHEMA_VERSION@) {
        Some(v) => match parse_u32_spec(v) { Some(x) => x, None => DB_SCHEMA_VERSION },
        None => DB_SCHEMA_VERSION,
    }
    &&& h.nixpkgs_commit@ == match meta_get(rows, KEY_NIXPKGS_COMMIT@) { Some(v) => v, None => Seq::empty() }
    &&& h.generated_ms@ == match meta_get(rows, KEY_GENERATED_AT@) { Some(v) => v, None => Seq::empty() }
    &&& h.package_count == match meta_get(rows, KEY_PACKAGE_COUNT@) {
        Some(v) => match parse_u64_spec(v) { Some(x) => x, None => 0 },
        None => 0,
    }
}

/// The header recorded in the metadata rows `(key, value)`.
pub fn header_from_meta(rows: &Vec<(String, String)>) -> (h: Header)
    ensures
        header_from_meta_spec(rows@, h),
{
    let schema: u32 = match meta_lookup(rows, KEY_SCHEMA_VERSION) {
        Some(v) => match parse_u64(v.as_str()) {
            Some(x) => if x <= u32::MAX as u64 { x as u32 } else { DB_SCHEMA_VERSION },
            None => DB_SCHEMA_VERSION,
        },
        None => DB_SCHEMA_VERSION,
    };
    let nixpkgs_commit = match meta_lookup(rows, KEY_NIXPKGS_COMMIT) {
        Some(v) => v.clone(),
        None => String::new(),
    };
    let generated_ms = match meta_lookup(rows, KEY_GENERATED_AT) {
        Some(v) => v.clone(),
        None => String::new(),
    };
    let package_count: u64 = match meta_lookup(rows, KEY_PACKAGE_COUNT) {
        Some(v) => match parse_u64(v.as_str()) {
            Some(x) => x,
            None => 0,
        },
        None => 0,
    };
    Header { schema, nixpkgs_commit, generated_ms, package_count }
}

/// The metadata rows saved with `doc` at `now` (UNIX epoch seconds), in order.
pub open spec fn meta_rows_spec(doc: IndexDoc, now: u64) -> Seq<(Seq<char>, Seq<char>)> {
    seq![
        (KEY_SCHEMA_VERSION@, decimal(DB_SCHEMA_VERSION as nat)),
        (KEY_SAVED_AT@, decimal(now as nat)),
        (KEY_NIXPKGS_COMMIT@, doc.header.nixpkgs_commit@),
        (KEY_CHANNEL@, SAVED_CHANNEL@),
        (KEY_GENERATED_AT@, doc.header.generated_ms@),
        (KEY_PACKAGE_COUNT@, decimal(doc.header.package_count as nat)),
    ]
}

/// Key and value characters of metadata rows.
pub open spec fn pair_views(v: Seq<(String, String)>) -> Seq<(Seq<char>, Seq<char>)> {
    v.map_values(|p: (String, String)| (p.0@, p.1@))
}

/// The metadata rows saved with `doc` at `now`.
pub fn meta_rows(doc: &IndexDoc, now: u64) -> (r: Vec<(String, String)>)
    ensures
        pair_views(r@) == meta_rows_spec(*doc, now),
{
    let mut r: Vec<(String, String)> = Vec::new();
    r.push((KEY_SCHEMA_VERSION.to_owned(), u64_to_decimal(DB_SCHEMA_VERSION as u64)));
    r.push((KEY_SAVED_AT.to_owned(), u64_to_decimal(now)));
    r.push((KEY_NIXPKGS_COMMIT.to_owned(), doc.header.nixpkgs_commit.clone()));
    r.push((KEY_CHANNEL.to_owned(), SAVED_CHANNEL.to_owned()));
    r.push((KEY_GENERATED_AT.to_owned(), doc.header.generated_ms.clone()));
    r.push((KEY_PACKAGE_COUNT.to_owned(), u64_to_decimal(doc.header.package_count)));
    assert(pair_views(r@) =~= meta_rows_spec(*doc, now));
    r
}

/// The column values written for a package, in column order: id, name,
/// version, synopsis, description, homepage, attribute, store path,
/// installed (`1`/`0`), flake, licenses, file path, file line.
pub open spec fn package_params_spec(p: PkgJson) -> Seq<Seq<char>> {
    seq![
        decimal(p.id as nat),
        p.name@,
        p.version@,
        p.synopsis@,
        p.description@,
        p.homepage@,
        p.attribute@,
        p.store_path@,
        if p.installed { seq!['1'] } else { seq!['0'] },
        p.flake@,
        join_spec(views(p.licenses@)),
        p.file.0@,
        decimal(p.file.1 as nat),
    ]
}

/// The column values written for a package.
pub fn package_params(p: &PkgJson) -> (r: Vec<String>)
    ensures
        views(r@) == package_params_spec(*p),
{
    let mut r: Vec<String> = Vec::new();
    r.push(u64_to_decimal(p.id as u64));
    r.push(p.name.clone());
    r.push(p.version.clone());
    r.push(p.synopsis.clone());
    r.push(p.description.clone());
    r.push(p.homepage.clone());
    r.push(p.attribute.clone());
    r.push(p.store_path.clone());
    let mut flag = String::new();
    push_char(&mut flag, if p.installed { '1' } else { '0' });
    r.push(flag);
    r.push(p.flake.clone());
    r.push(join_licenses(&p.licenses));
    r.push(p.file.0.clone());
    r.push(u64_to_decimal(p.file.1));
    assert(views(r@) =~= package_params_spec(*p));
    r
}

/// The dependency rows `(package id, dependency name, kind)` of one
/// package: inputs (kind 0), then propagated inputs (1), then native ones (2).
pub open spec fn pkg_dep_rows(p: PkgJson) -> Seq<(u32, Seq<char>, i64)> {
    tagged(views(p.inputs@), p.id, 0) + tagged(views(p.propagated_inputs@), p.id, 1)
        + tagged(views(p.native_inputs@), p.id, 2)
}

/// Each name as a dependency row of package `id` with `kind`.
pub open spec fn tagged(names: Seq<Seq<char>>, id: u32, kind: i64) -> Seq<(u32, Seq<char>, i64)> {
    names.map_values(|n: Seq<char>| (id, n, kind))
}

/// The dependency rows of all packages, package by package.
pub open spec fn dep_rows_spec(pkgs: Seq<PkgJson>) -> Seq<(u32, Seq<char>, i64)>
    decreases pkgs.len(),
{
    if pkgs.len() == 0 {
        Seq::empty()
    } else {
        dep_rows_spec(pkgs.drop_last()) + pkg_dep_rows(pkgs.last())
    }
}

/// Characters of dependency rows.
pub open spec fn dep_views(v: Seq<(u32, String, i64)>) -> Seq<(u32, Seq<char>, i64)> {
    v.map_values(|r: (u32, String, i64)| (r.0, r.1@, r.2))
}

fn push_dep_rows(out: &mut Vec<(u32, String, i64)>, id: u32, names: &Vec<String>, kind: i64)
    ensures
        dep_views(final(out)@) == dep_views(old(out)@) + tagged(views(names@), id, kind),
{
    let ghost base = dep_views(out@);
    let mut i: usize = 0;
    while i < names.len()
        invariant
            i <= names.len(),
            dep_views(out@) == base + tagged(views(names@).take(i as int), id, kind),
        decreases names.len() - i,
    {
        let ghost before = dep_views(out@);
        out.push((id, names[i].clone(), kind));
        assert(dep_views(out@) == before.push((id, names@[i as int]@, kind)));
        assert(views(names@).take(i + 1) == views(names@).take(i as int).push(names@[i as int]@));
        assert(tagged(views(names@).take(i + 1), id, kind) == tagged(views(names@).take(i as int), id, kind).push((id, names@[i as int]@, kind)));
        i += 1;
    }
    assert(views(names@).take(names.len() as int) == views(names@));
}

/// The dependency rows saved for `doc` (by name; resolved to ids on load).
pub fn dep_rows(doc: &IndexDoc) -> (r: Vec<(u32, String, i64)>)
    ensures
        dep_views(r@) == dep_rows_spec(doc.packages@),
{
    let mut r: Vec<(u32, String, i64)> = Vec::new();
    let mut k: usize = 0;
    while k < doc.packages.len()
        invariant
            k <= doc.packages.len(),
            dep_views(r@) == dep_rows_spec(doc.packages@.take(k as int)),
        decreases doc.packages.len() - k,
    {
        let p = &doc.packages[k];
        push_dep_rows(&mut r, p.id, &p.inputs, 0);
        push_dep_rows(&mut r, p.id, &p.propagated_inputs, 1);
        push_dep_rows(&mut r, p.id, &p.native_inputs, 2);
        assert(doc.packages@.take(k + 1).drop_last() == doc.packages@.take(k as int));
        k += 1;
    }
    assert(doc.packages@.take(doc.packages.len() as int) == doc.packages@);
    r
}


/// One row of the `packages` table.
#[derive(Debug)]
pub struct PackageRow {
    pub id: u32,
    pub name: String,
    pub version: String,
    pub synopsis: String,
    pub description: String,
    pub homepage: String,
    pub attribute: String,
    pub store_path: String,
    pub installed: i64,
    pub flake: String,
    pub licenses: String,
    pub file_path: String,
    pub file_line: i64,
}

/// One row of the `deps` table.
#[derive(Debug)]
pub struct DepRow {
    pub pkg_id: u32,
    pub dep_name: String,
    pub kind: i64,
}

/// Id and name of each package row.
pub open spec fn id_names(rows: Seq<PackageRow>) -> Seq<(u32, Seq<char>)> {
    rows.map_values(|r: PackageRow| (r.id, r.name@))
}

/// The id of the last package named `name` (a later row replaces an
/// earlier one of the same name).
pub open spec fn name_id(p: Seq<(u32, Seq<char>)>, name: Seq<char>) -> Option<u32>
    decreases p.len(),
{
    if p.len() == 0 {
        None
    } else {
        match name_id(p.drop_first(), name) {
            Some(x) => Some(x),
            None => if p[0].1 == name { Some(p[0].0) } else { None },
        }
    }
}

/// Whether row `k` is the first with its id (it receives the dependencies
/// stored under that id).
pub open spec fn first_with_id(rows: Seq<PackageRow>, k: int) -> bool {
    forall|j: int| 0 <= j < k ==> rows[j].id != rows[k].id
}

/// The dependency ids of package `pid` of `kind`, in row order: the rows of
/// that package and kind whose name names a package.
pub open spec fn dep_ids(p: Seq<(u32, Seq<char>)>, deps: Seq<DepRow>, pid: u32, kind: i64) -> Seq<u32>
    decreases deps.len(),
{
    if deps.len() == 0 {
        Seq::empty()
    } else {
        let prev = dep_ids(p, deps.drop_last(), pid, kind);
        let d = deps.last();
        if d.pkg_id == pid && d.kind == kind && name_id(p, d.dep_name@) is Some {
            prev.push(name_id(p, d.dep_name@)->0)
        } else {
            prev
        }
    }
}

/// Package `pkg` is what row `row` loads as, with `deps` resolved against
/// the package rows `p`; `first` tells whether it is the first row with its id.
pub open spec fn loaded(row: PackageRow, pkg: Package, p: Seq<(u32, Seq<char>)>, deps: Seq<DepRow>, first: bool) -> bool {
    &&& pkg.id == row.id
    &&& pkg.name@ == row.name@
    &&& pkg.version@ == row.version@
    &&& pkg.synopsis@ == row.synopsis@
    &&& pkg.description@ == row.description@
    &&& pkg.homepage@ == row.homepage@
    &&& pkg.attribute@ == row.attribute@
    &&& pkg.store_path@ == row.store_path@
    &&& pkg.installed == (row.installed != 0)
    &&& pkg.flake@ == row.flake@
    &&& views(pkg.licenses@) == split_spec(row.licenses@)
    &&& pkg.file@ == row.file_path@
    &&& pkg.line == row.file_line as u64
    &&& pkg.inputs@ == (if first { dep_ids(p, deps, row.id, 0) } else { Seq::empty() })
    &&& pkg.propagated@ == (if first { dep_ids(p, deps, row.id, 1) } else { Seq::empty() })
    &&& pkg.native@ == (if first { dep_ids(p, deps, row.id, 2) } else { Seq::empty() })
}

/// Looking up in `insert_absent(e, k, v)`.
proof fn lemma_lookup_insert_absent(e: Seq<(Seq<char>, u32)>, k: Seq<char>, v: u32, q: Seq<char>)
    ensures
        seq_lookup(insert_absent(e, k, v), q) == match seq_lookup(e, q) {
            Some(x) => Some(x),
            None => if q == k { Some(v) } else { None },
        },
{
    if seq_lookup(e, k) is None {
        assert(e.push((k, v)).drop_last() == e);
    }
}

/// The name table of the package rows: each name maps to the id of the
/// last row with that name.
fn name_table(rows: &Vec<PackageRow>) -> (t: StrTable)
    requires
        rows.len() < usize::MAX,
    ensures
        t.wf(),
        forall|q: Seq<char>| #[trigger] t.spec_get(q) == name_id(id_names(rows@), q),
{
    let n = rows.len();
    let mut t = StrTable::new();
    let mut k: usize = n;
    let ghost p = id_names(rows@);
    assert(p.skip(n as int) == Seq::<(u32, Seq<char>)>::empty());
    while k > 0
        invariant
            k <= n == rows.len() < usize::MAX,
            p == id_names(rows@),
            t.wf(),
            t.entries().len() <= n - k,
            forall|q: Seq<char>| #[trigger] t.spec_get(q) == name_id(p.skip(k as int), q),
        decreases k,
    {
        let ghost before = t.entries();
        let ghost told = t;
        t.insert_if_absent(&rows[k - 1].name, rows[k - 1].id);
        proof {
            let s = p.skip(k - 1);
            assert(s.drop_first() == p.skip(k as int));
            assert(s[0] == (rows@[k - 1].id, rows@[k - 1].name@));
            assert forall|q: Seq<char>| #[trigger] t.spec_get(q) == name_id(s, q) by {
                lemma_lookup_insert_absent(before, rows@[k - 1].name@, rows@[k - 1].id, q);
                assert(told.spec_get(q) == name_id(p.skip(k as int), q));
                assert(seq_lookup(before, q) == told.spec_get(q));
            }
        }
        k -= 1;
    }
    assert(p.skip(0) == p);
    t
}

/// Position of the first row with each id.
fn first_positions(rows: &Vec<PackageRow>) -> (m: HashMap<u32, usize>)
    ensures
        forall|pid: u32| #![trigger m@.contains_key(pid)]
            (m@.contains_key(pid) <==> exists|j: int| 0 <= j < rows@.len() && rows@[j].id == pid),
        forall|pid: u32| #![trigger m@.contains_key(pid)]
            m@.contains_key(pid) ==> m@[pid] < rows@.len() && rows@[m@[pid] as int].id == pid && first_with_id(rows@, m@[pid] as int),
{
    broadcast use vstd::std_specs::hash::group_hash_axioms;
    let mut m: HashMap<u32, usize> = HashMap::new();
    let mut k: usize = 0;
    while k < rows.len()
        invariant
            k <= rows.len(),
            forall|pid: u32| #![trigger m@.contains_key(pid)]
                (m@.contains_key(pid) <==> exists|j: int| 0 <= j < k && rows@[j].id == pid),
            forall|pid: u32| #![trigger m@.contains_key(pid)]
                m@.contains_key(pid) ==> m@[pid] < k && rows@[m@[pid] as int].id == pid && first_with_id(rows@, m@[pid] as int),
        decreases rows.len() - k,
    {
        let id = rows[k].id;
        if !m.contains_key(&id) {
            let ghost before = m@;
            m.insert(id, k);
            proof {
                assert forall|pid: u32| #![trigger m@.contains_key(pid)]
                    (m@.contains_key(pid) <==> exists|j: int| 0 <= j < k + 1 && rows@[j].id == pid) by {
                    if pid != id {
                        assert(m@.contains_key(pid) == before.contains_key(pid));
                        if exists|j: int| 0 <= j < k + 1 && rows@[j].id == pid {
                            let j = choose|j: int| 0 <= j < k + 1 && rows@[j].id == pid;
                            assert(j < k);
                        }
                    } else {
                        assert(rows@[k as int].id == pid);
                    }
                }
                assert forall|j: int| 0 <= j < k implies rows@[j].id != rows@[k as int].id by {
                    if rows@[j].id == id {
                        assert(before.contains_key(id));
                    }
                }
                assert forall|pid: u32| #![trigger m@.contains_key(pid)]
                    m@.contains_key(pid) implies m@[pid] < k + 1 && rows@[m@[pid] as int].id == pid && first_with_id(rows@, m@[pid] as int) by {
                    if pid != id {
                        assert(before.contains_key(pid));
                    }
                }
            }
        } else {
            proof {
                assert forall|pid: u32| #![trigger m@.contains_key(pid)]
                    (m@.contains_key(pid) <==> exists|j: int| 0 <= j < k + 1 && rows@[j].id == pid) by {
                    if exists|j: int| 0 <= j < k + 1 && rows@[j].id == pid {
                        let j = choose|j: int| 0 <= j < k + 1 && rows@[j].id == pid;
                        if j == k {
                            assert(m@.contains_key(id));
                        }
                    }
                }
            }
        }
        k += 1;
    }
    m
}


/// The dependency lists per row position, for one kind: rows that are the
/// first with their id get `dep_ids` of the dependency rows seen so far.
pub open spec fn lists_ok(lists: Seq<Vec<u32>>, rows: Seq<PackageRow>, deps: Seq<DepRow>, kind: i64) -> bool {
    &&& lists.len() == rows.len()
    &&& forall|k: int| 0 <= k < rows.len() ==> #[trigger] lists[k]@ == (if first_with_id(rows, k) {
        dep_ids(id_names(rows), deps, rows[k].id, kind)
    } else {
        Seq::empty()
    })
}

fn empty_lists(n: usize) -> (r: Vec<Vec<u32>>)
    ensures
        r.len() == n,
        forall|k: int| 0 <= k < n ==> #[trigger] r[k]@ == Seq::<u32>::empty(),
{
    let mut r: Vec<Vec<u32>> = Vec::new();
    let mut i: usize = 0;
    while i < n
        invariant
            i <= n,
            r.len() == i,
            forall|k: int| 0 <= k < i ==> #[trigger] r[k]@ == Seq::<u32>::empty(),
        decreases n - i,
    {
        r.push(Vec::new());
        i += 1;
    }
    r
}

/// After one more dependency row `d` resolved to `dep` for the first row
/// `pos` with its id, the lists of its kind get `dep` at `pos`.
proof fn lemma_lists_step(lists: Seq<Vec<u32>>, next: Seq<Vec<u32>>, rows: Seq<PackageRow>, deps: Seq<DepRow>, j: int, kind: i64, hit: Option<int>)
    requires
        0 <= j < deps.len(),
        lists_ok(lists, rows, deps.take(j), kind),
        next.len() == lists.len(),
        match hit {
            Some(pos) => {
                &&& 0 <= pos < rows.len()
                &&& rows[pos].id == deps[j].pkg_id
                &&& first_with_id(rows, pos)
                &&& deps[j].kind == kind
                &&& name_id(id_names(rows), deps[j].dep_name@) is Some
                &&& next[pos]@ == lists[pos]@.push(name_id(id_names(rows), deps[j].dep_name@)->0)
                &&& forall|k: int| 0 <= k < rows.len() && k != pos ==> #[trigger] next[k]@ == lists[k]@
            },
            None => {
                &&& forall|k: int| 0 <= k < rows.len() ==> #[trigger] next[k]@ == lists[k]@
                &&& (deps[j].kind != kind || name_id(id_names(rows), deps[j].dep_name@) is None
                    || forall|k: int| 0 <= k < rows.len() ==> #[trigger] rows[k].id != deps[j].pkg_id)
            },
        },
    ensures
        lists_ok(next, rows, deps.take(j + 1), kind),
{
    let t = deps.take(j + 1);
    assert(t.drop_last() == deps.take(j));
    assert(t.last() == deps[j]);
    assert forall|k: int| 0 <= k < rows.len() implies #[trigger] next[k]@ == (if first_with_id(rows, k) {
        dep_ids(id_names(rows), t, rows[k].id, kind)
    } else {
        Seq::empty()
    }) by {
        assert(lists[k]@ == (if first_with_id(rows, k) { dep_ids(id_names(rows), deps.take(j), rows[k].id, kind) } else { Seq::empty() }));
        match hit {
            Some(pos) => {
                if k != pos && first_with_id(rows, k) && rows[k].id == deps[j].pkg_id {
                    if k < pos {
                        assert(rows[k].id != rows[pos].id);
                    } else {
                        assert(rows[pos].id != rows[k].id);
                    }
                }
            },
            None => {},
        }
    }
}

/// The packages loaded from the package rows (in order) and the
/// dependency rows: each dependency name resolves to the id of the last
/// package with that name (unknown names are dropped), and the lists of an
/// id go to the first row with that id.
pub fn packages_from_rows(rows: Vec<PackageRow>, deps: &Vec<DepRow>) -> (r: Vec<Package>)
    requires
        rows@.len() < usize::MAX,
    ensures
        r@.len() == rows@.len(),
        forall|k: int| 0 <= k < rows@.len() ==>
            loaded(rows@[k], #[trigger] r@[k], id_names(rows@), deps@, first_with_id(rows@, k)),
{
    broadcast use vstd::std_specs::hash::group_hash_axioms;
    let n = rows.len();
    let table = name_table(&rows);
    let first = first_positions(&rows);
    let mut ins = empty_lists(n);
    let mut props = empty_lists(n);
    let mut nats = empty_lists(n);
    let ghost rs = rows@;
    assert(deps@.take(0) == Seq::<DepRow>::empty());
    let mut j: usize = 0;
    while j < deps.len()
        invariant
            rs == rows@,
            n == rows@.len(),
            table.wf(),
            forall|q: Seq<char>| #[trigger] table.spec_get(q) == name_id(id_names(rs), q),
            forall|pid: u32| #![trigger first@.contains_key(pid)]
                (first@.contains_key(pid) <==> exists|t: int| 0 <= t < rs.len() && rs[t].id == pid),
            forall|pid: u32| #![trigger first@.contains_key(pid)]
                first@.contains_key(pid) ==> first@[pid] < rs.len() && rs[first@[pid] as int].id == pid && first_with_id(rs, first@[pid] as int),
            j <= deps.len(),
            lists_ok(ins@, rs, deps@.take(j as int), 0),
            lists_ok(props@, rs, deps@.take(j as int), 1),
            lists_ok(nats@, rs, deps@.take(j as int), 2),
        decreases deps.len() - j,
    {
        let d = &deps[j];
        let ghost (i0, p0, n0) = (ins@, props@, nats@);
        let ghost nm = name_id(id_names(rs), d.dep_name@);
        let mut hit: Option<usize> = None;
        match table.get(&d.dep_name) {
            Some(dep) => {
                match first.get(&d.pkg_id) {
                    Some(pos) => {
                        let pos = *pos;
                        if d.kind == 0 {
                            ins[pos].push(dep);
                            hit = Some(pos);
                        } else if d.kind == 1 {
                            props[pos].push(dep);
                            hit = Some(pos);
                        } else if d.kind == 2 {
                            nats[pos].push(dep);
                            hit = Some(pos);
                        }
                    },
                    None => {
                        proof {
                            assert forall|k: int| 0 <= k < rs.len() implies #[trigger] rs[k].id != d.pkg_id by {
                                if rs[k].id == d.pkg_id {
                                    assert(first@.contains_key(d.pkg_id));
                                }
                            }
                        }
                    },
                }
            },
            None => {},
        }
        proof {
            let h0: Option<int> = if hit is Some && d.kind == 0 { Some(hit->0 as int) } else { None };
            let h1: Option<int> = if hit is Some && d.kind == 1 { Some(hit->0 as int) } else { None };
            let h2: Option<int> = if hit is Some && d.kind == 2 { Some(hit->0 as int) } else { None };
            lemma_lists_step(i0, ins@, rs, deps@, j as int, 0, h0);
            lemma_lists_step(p0, props@, rs, deps@, j as int, 1, h1);
            lemma_lists_step(n0, nats@, rs, deps@, j as int, 2, h2);
        }
        j += 1;
    }
    assert(deps@.take(deps.len() as int) == deps@);
    let mut out: Vec<Package> = Vec::new();
    for row in it: rows.into_iter()
        invariant
            it.seq() == rs,
            n == rs.len(),
            out@.len() == it.index(),
            lists_ok(ins@, rs, deps@, 0),
            lists_ok(props@, rs, deps@, 1),
            lists_ok(nats@, rs, deps@, 2),
            forall|k: int| 0 <= k < out@.len() ==>
                loaded(rs[k], #[trigger] out@[k], id_names(rs), deps@, first_with_id(rs, k)),
    {
        let k = out.len();
        let licenses = split_licenses(row.licenses.as_str());
        let pkg = Package {
            id: row.id,
            name: row.name,
            version: row.version,
            synopsis: row.synopsis,
            description: row.description,
            homepage: row.homepage,
            licenses,
            file: row.file_path,
            line: row.file_line as u64,
            attribute: row.attribute,
            store_path: row.store_path,
            installed: row.installed != 0,
            flake: row.flake,
            inputs: copy_ids(&ins[k]),
            propagated: copy_ids(&props[k]),
            native: copy_ids(&nats[k]),
        };
        out.push(pkg);
    }
    out
}

fn copy_ids(v: &Vec<u32>) -> (r: Vec<u32>)
    ensures
        r@ == v@,
{
    let mut r: Vec<u32> = Vec::new();
    let mut i: usize = 0;
    while i < v.len()
        invariant
            i <= v.len(),
            r@ == v@.take(i as int),
        decreases v.len() - i,
    {
        r.push(v[i]);
        assert(v@.take(i + 1) == v@.take(i as int).push(v@[i as int]));
        i += 1;
    }
    assert(v@.take(v.len() as int) == v@);
    r
}


/// A dependency list loaded for one package is no longer than the rows.
proof fn lemma_dep_ids_len(p: Seq<(u32, Seq<char>)>, deps: Seq<DepRow>, pid: u32, kind: i64)
    ensures
        dep_ids(p, deps, pid, kind).len() <= deps.len(),
    decreases deps.len(),
{
    if deps.len() > 0 {
        lemma_dep_ids_len(p, deps.drop_last(), pid, kind);
    }
}

/// Why package row `k` makes the rows unloadable, judged against the rows
/// before it: an id outside `0..n`, an id taken by an earlier row, or an
/// empty name.
pub open spec fn row_error(rows: Seq<PackageRow>, k: int, n: nat) -> Option<IndexError> {
    let r = rows[k];
    if r.id >= n {
        Some(IndexError::IdOutOfRange(r.id, n as usize))
    } else if exists|j: int| 0 <= j < k && rows[j].id == r.id {
        Some(IndexError::DuplicateId(r.id))
    } else if r.name@.len() == 0 {
        Some(IndexError::EmptyName(r.id))
    } else {
        None
    }
}

/// The first failure among the first `k` package rows.
pub open spec fn rows_error(rows: Seq<PackageRow>, n: nat, k: nat) -> Option<IndexError>
    decreases k,
{
    if k == 0 {
        None
    } else {
        match rows_error(rows, n, (k - 1) as nat) {
            Some(e) => Some(e),
            None => row_error(rows, k - 1, n),
        }
    }
}

/// Packages with the ids and names of the rows fail placement exactly as
/// the rows do.
proof fn lemma_rows_error_packages(rows: Seq<PackageRow>, pkgs: Seq<Package>, n: nat, k: nat)
    requires
        k <= rows.len(),
        pkgs.len() == rows.len(),
        forall|i: int| 0 <= i < rows.len() ==> (#[trigger] pkgs[i]).id == rows[i].id && pkgs[i].name@ == rows[i].name@,
    ensures
        packages_error(pkgs, n, k) == rows_error(rows, n, k),
    decreases k,
{
    if k > 0 {
        lemma_rows_error_packages(rows, pkgs, n, (k - 1) as nat);
        let m = k - 1;
        assert(pkgs[m].id == rows[m].id);
        if exists|j: int| 0 <= j < m && pkgs[j].id == pkgs[m].id {
            let j = choose|j: int| 0 <= j < m && pkgs[j].id == pkgs[m].id;
            assert(pkgs[j].id == rows[j].id);
        }
        if exists|j: int| 0 <= j < m && rows[j].id == rows[m].id {
            let j = choose|j: int| 0 <= j < m && rows[j].id == rows[m].id;
            assert(pkgs[j].id == rows[j].id);
        }
    }
}

/// Rows without a failure all have ids below `n`.
proof fn lemma_rows_ok_ids(rows: Seq<PackageRow>, n: nat, k: nat)
    requires
        k <= rows.len(),
        rows_error(rows, n, k) is None,
    ensures
        forall|i: int| 0 <= i < k ==> (#[trigger] rows[i]).id < n,
    decreases k,
{
    if k > 0 {
        lemma_rows_ok_ids(rows, n, (k - 1) as nat);
    }
}

/// A resolved name is the id of one of the rows.
proof fn lemma_name_id_member(p: Seq<(u32, Seq<char>)>, q: Seq<char>)
    requires
        name_id(p, q) is Some,
    ensures
        exists|t: int| 0 <= t < p.len() && (#[trigger] p[t]).0 == name_id(p, q)->0,
    decreases p.len(),
{
    if name_id(p.drop_first(), q) is Some {
        lemma_name_id_member(p.drop_first(), q);
        let t = choose|t: int| 0 <= t < p.drop_first().len() && (#[trigger] p.drop_first()[t]).0 == name_id(p.drop_first(), q)->0;
        assert(p[t + 1] == p.drop_first()[t]);
    } else {
        assert(p[0].0 == name_id(p, q)->0);
    }
}

/// With every row id below `n`, so is every loaded dependency id.
proof fn lemma_dep_ids_below(rows: Seq<PackageRow>, deps: Seq<DepRow>, pid: u32, kind: i64, n: nat)
    requires
        forall|i: int| 0 <= i < rows.len() ==> (#[trigger] rows[i]).id < n,
    ensures
        forall|j: int| 0 <= j < dep_ids(id_names(rows), deps, pid, kind).len() ==>
            (#[trigger] dep_ids(id_names(rows), deps, pid, kind)[j]) < n,
    decreases deps.len(),
{
    if deps.len() > 0 {
        lemma_dep_ids_below(rows, deps.drop_last(), pid, kind, n);
        let p = id_names(rows);
        let d = deps.last();
        if d.pkg_id == pid && d.kind == kind && name_id(p, d.dep_name@) is Some {
            lemma_name_id_member(p, d.dep_name@);
            let t = choose|t: int| 0 <= t < p.len() && (#[trigger] p[t]).0 == name_id(p, d.dep_name@)->0;
            assert(p[t].0 == rows[t].id);
        }
        let prev = dep_ids(p, deps.drop_last(), pid, kind);
        let cur = dep_ids(p, deps, pid, kind);
        assert forall|j: int| 0 <= j < cur.len() implies (#[trigger] cur[j]) < n by {
            if j < prev.len() {
                assert(cur[j] == prev[j]);
            }
        }
    }
}

/// With every value below `n`, none is at least `n`.
proof fn lemma_first_at_least_below(s: Seq<u32>, n: nat)
    requires
        forall|j: int| 0 <= j < s.len() ==> (#[trigger] s[j]) < n,
    ensures
        first_at_least(s, n) is None,
    decreases s.len(),
{
    if s.len() > 0 {
        assert forall|j: int| 0 <= j < s.drop_first().len() implies (#[trigger] s.drop_first()[j]) < n by {
            assert(s.drop_first()[j] == s[j + 1]);
        }
        lemma_first_at_least_below(s.drop_first(), n);
    }
}

/// Packages loaded from rows whose ids are all below `n` have no
/// dependency outside `0..n`.
proof fn lemma_loaded_deps_ok(rows: Seq<PackageRow>, pkgs: Seq<Package>, deps: Seq<DepRow>, n: nat, k: nat)
    requires
        k <= rows.len(),
        pkgs.len() == rows.len(),
        forall|i: int| 0 <= i < rows.len() ==> (#[trigger] rows[i]).id < n,
        forall|i: int| 0 <= i < rows.len() ==> loaded(rows[i], #[trigger] pkgs[i], id_names(rows), deps, first_with_id(rows, i)),
    ensures
        bad_dep_scan(pkgs, n, k) is None,
    decreases k,
{
    if k > 0 {
        lemma_loaded_deps_ok(rows, pkgs, deps, n, (k - 1) as nat);
        let i = k - 1;
        let p = pkgs[i];
        assert(loaded(rows[i], pkgs[i], id_names(rows), deps, first_with_id(rows, i)));
        lemma_dep_ids_below(rows, deps, rows[i].id, 0, n);
        lemma_dep_ids_below(rows, deps, rows[i].id, 1, n);
        lemma_dep_ids_below(rows, deps, rows[i].id, 2, n);
        let s = p.inputs@ + p.propagated@ + p.native@;
        assert forall|j: int| 0 <= j < s.len() implies (#[trigger] s[j]) < n by {
            if j < p.inputs@.len() {
                assert(s[j] == p.inputs@[j]);
            } else if j < p.inputs@.len() + p.propagated@.len() {
                assert(s[j] == p.propagated@[j - p.inputs@.len()]);
            } else {
                assert(s[j] == p.native@[j - p.inputs@.len() - p.propagated@.len()]);
            }
        }
        lemma_first_at_least_below(s, n);
        assert(first_bad_dep(p, n) is None);
    }
}

/// The index stored in the database: its header from the metadata rows,
/// its packages from the package and dependency rows (see
/// `packages_from_rows`), checked and placed by `Index::from_packages`;
/// a rejected package set is a read failure carrying the reason.
pub fn load_index_from_rows(meta: &Vec<(String, String)>, rows: Vec<PackageRow>, deps: &Vec<DepRow>) -> (r: Result<(Index, Header), CacheError>)
    requires
        rows@.len() < usize::MAX,
        deps@.len() <= usize::MAX / 3,
    ensures
        match r {
            Ok((idx, h)) => {
                &&& header_from_meta_spec(meta@, h)
                &&& idx.wf()
                &&& idx.nixpkgs_commit@ == h.nixpkgs_commit@
                &&& idx.packages@.len() == rows@.len()
                &&& forall|k: int| 0 <= k < rows@.len() ==> (#[trigger] rows@[k]).id < rows@.len()
                    && loaded(rows@[k], idx.packages@[rows@[k].id as int], id_names(rows@), deps@, first_with_id(rows@, k))
            },
            Err(e) => rows_error(rows@, rows@.len(), rows@.len()) matches Some(x)
                && e matches CacheError::Read(m) && m@ == index_error_text(x),
        },
        r is Ok <==> rows_error(rows@, rows@.len(), rows@.len()) is None,
{
    let header = header_from_meta(meta);
    let ghost rs = rows@;
    let pkgs = packages_from_rows(rows, deps);
    proof {
        assert forall|i: int| 0 <= i < pkgs@.len() implies
            (#[trigger] pkgs@[i]).inputs.len() + pkgs@[i].propagated.len() + pkgs@[i].native.len() <= usize::MAX by {
            lemma_dep_ids_len(id_names(rs), deps@, rs[i].id, 0);
            lemma_dep_ids_len(id_names(rs), deps@, rs[i].id, 1);
            lemma_dep_ids_len(id_names(rs), deps@, rs[i].id, 2);
        }
    }
    let ghost ps = pkgs@;
    let ghost n = rs.len();
    proof {
        assert forall|i: int| 0 <= i < rs.len() implies (#[trigger] ps[i]).id == rs[i].id && ps[i].name@ == rs[i].name@ by {
            assert(loaded(rs[i], ps[i], id_names(rs), deps@, first_with_id(rs, i)));
        }
        lemma_rows_error_packages(rs, ps, n, n);
        if rows_error(rs, n, n) is None {
            lemma_rows_ok_ids(rs, n, n);
            lemma_loaded_deps_ok(rs, ps, deps@, n, n);
        }
    }
    match Index::from_packages(pkgs, header.nixpkgs_commit.clone()) {
        Ok(idx) => {
            proof {
                assert forall|k: int| 0 <= k < rs.len() implies (#[trigger] rs[k]).id < rs.len()
                    && loaded(rs[k], idx.packages@[rs[k].id as int], id_names(rs), deps@, first_with_id(rs, k)) by {
                    assert(ps[k].id == rs[k].id);
                    assert(idx.packages[ps[k].id as int] == ps[k]);
                }
            }
            Ok((idx, header))
        },
        Err(e) => {
            let m = e.message();
            Err(CacheError::Read(m))
        },
    }
}

/// Row `r` is what the `packages` table gives back of the column values
/// written for `p` (see `package_params_spec`).
pub open spec fn row_written(p: PkgJson, r: PackageRow) -> bool {
    &&& r.id == p.id
    &&& r.name@ == p.name@
    &&& r.version@ == p.version@
    &&& r.synopsis@ == p.synopsis@
    &&& r.description@ == p.description@
    &&& r.homepage@ == p.homepage@
    &&& r.attribute@ == p.attribute@
    &&& r.store_path@ == p.store_path@
    &&& r.installed == (if p.installed { 1i64 } else { 0i64 })
    &&& r.flake@ == p.flake@
    &&& r.licenses@ == join_spec(views(p.licenses@))
    &&& r.file_path@ == p.file.0@
    &&& r.file_line == p.file.1 as i64
}

/// Row `d` is what the `deps` table gives back of the written row `w`.
pub open spec fn dep_written(w: (u32, Seq<char>, i64), d: DepRow) -> bool {
    d.pkg_id == w.0 && d.dep_name@ == w.1 && d.kind == w.2
}

/// The ids of the packages named `names`, in order, unknown names dropped.
pub open spec fn resolve_names(p: Seq<(u32, Seq<char>)>, names: Seq<Seq<char>>) -> Seq<u32>
    decreases names.len(),
{
    if names.len() == 0 {
        Seq::empty()
    } else {
        let r = resolve_names(p, names.drop_last());
        match name_id(p, names.last()) {
            Some(x) => r.push(x),
            None => r,
        }
    }
}

/// The dependency names of `p` of `kind` (0 inputs, 1 propagated, 2 native).
pub open spec fn names_of_kind(p: PkgJson, kind: i64) -> Seq<Seq<char>> {
    if kind == 0 {
        views(p.inputs@)
    } else if kind == 1 {
        views(p.propagated_inputs@)
    } else {
        views(p.native_inputs@)
    }
}

/// `dep_ids` over written dependency rows.
pub open spec fn dep_ids_w(p: Seq<(u32, Seq<char>)>, ws: Seq<(u32, Seq<char>, i64)>, pid: u32, kind: i64) -> Seq<u32>
    decreases ws.len(),
{
    if ws.len() == 0 {
        Seq::empty()
    } else {
        let prev = dep_ids_w(p, ws.drop_last(), pid, kind);
        let d = ws.last();
        if d.0 == pid && d.2 == kind && name_id(p, d.1) is Some {
            prev.push(name_id(p, d.1)->0)
        } else {
            prev
        }
    }
}

proof fn lemma_dep_ids_written(p: Seq<(u32, Seq<char>)>, ws: Seq<(u32, Seq<char>, i64)>, deps: Seq<DepRow>, pid: u32, kind: i64)
    requires
        deps.len() == ws.len(),
        forall|j: int| 0 <= j < ws.len() ==> dep_written(ws[j], #[trigger] deps[j]),
    ensures
        dep_ids(p, deps, pid, kind) == dep_ids_w(p, ws, pid, kind),
    decreases ws.len(),
{
    if ws.len() > 0 {
        assert forall|j: int| 0 <= j < ws.drop_last().len() implies dep_written(ws.drop_last()[j], #[trigger] deps.drop_last()[j]) by {
            assert(dep_written(ws[j], deps[j]));
        }
        lemma_dep_ids_written(p, ws.drop_last(), deps.drop_last(), pid, kind);
        assert(dep_written(ws[ws.len() - 1], deps[deps.len() - 1]));
    }
}

proof fn lemma_dep_ids_w_append(p: Seq<(u32, Seq<char>)>, a: Seq<(u32, Seq<char>, i64)>, b: Seq<(u32, Seq<char>, i64)>, pid: u32, kind: i64)
    ensures
        dep_ids_w(p, a + b, pid, kind) == dep_ids_w(p, a, pid, kind) + dep_ids_w(p, b, pid, kind),
    decreases b.len(),
{
    if b.len() == 0 {
        assert(a + b =~= a);
        assert(dep_ids_w(p, a, pid, kind) + Seq::<u32>::empty() =~= dep_ids_w(p, a, pid, kind));
    } else {
        assert((a + b).drop_last() =~= a + b.drop_last());
        assert((a + b).last() == b.last());
        lemma_dep_ids_w_append(p, a, b.drop_last(), pid, kind);
        let x = dep_ids_w(p, a, pid, kind);
        let y = dep_ids_w(p, b.drop_last(), pid, kind);
        let d = b.last();
        if d.0 == pid && d.2 == kind && name_id(p, d.1) is Some {
            assert(x + y.push(name_id(p, d.1)->0) =~= (x + y).push(name_id(p, d.1)->0));
        }
    }
}

proof fn lemma_dep_ids_w_tagged(p: Seq<(u32, Seq<char>)>, names: Seq<Seq<char>>, id: u32, k2: i64, pid: u32, kind: i64)
    ensures
        dep_ids_w(p, tagged(names, id, k2), pid, kind) == (if id == pid && k2 == kind { resolve_names(p, names) } else { Seq::empty() }),
    decreases names.len(),
{
    if names.len() > 0 {
        assert(tagged(names, id, k2).drop_last() =~= tagged(names.drop_last(), id, k2));
        lemma_dep_ids_w_tagged(p, names.drop_last(), id, k2, pid, kind);
    } else {
        assert(tagged(names, id, k2) =~= Seq::<(u32, Seq<char>, i64)>::empty());
    }
}

proof fn lemma_dep_ids_w_pkg(p: Seq<(u32, Seq<char>)>, q: PkgJson, pid: u32, kind: i64)
    requires
        0 <= kind <= 2,
    ensures
        dep_ids_w(p, pkg_dep_rows(q), pid, kind) == (if q.id == pid { resolve_names(p, names_of_kind(q, kind)) } else { Seq::empty() }),
{
    let a = tagged(views(q.inputs@), q.id, 0);
    let b = tagged(views(q.propagated_inputs@), q.id, 1);
    let c = tagged(views(q.native_inputs@), q.id, 2);
    lemma_dep_ids_w_append(p, a + b, c, pid, kind);
    lemma_dep_ids_w_append(p, a, b, pid, kind);
    lemma_dep_ids_w_tagged(p, views(q.inputs@), q.id, 0, pid, kind);
    lemma_dep_ids_w_tagged(p, views(q.propagated_inputs@), q.id, 1, pid, kind);
    lemma_dep_ids_w_tagged(p, views(q.native_inputs@), q.id, 2, pid, kind);
    let e = Seq::<u32>::empty();
    if q.id == pid {
        let r = resolve_names(p, names_of_kind(q, kind));
        if kind == 0 {
            assert(r + e + e =~= r);
        } else if kind == 1 {
            assert(e + r + e =~= r);
        } else {
            assert(e + e + r =~= r);
        }
    } else {
        assert(e + e + e =~= e);
    }
}

proof fn lemma_dep_ids_w_all(p: Seq<(u32, Seq<char>)>, pkgs: Seq<PkgJson>, pid: u32, kind: i64)
    requires
        0 <= kind <= 2,
        forall|i: int| 0 <= i < pkgs.len() ==> (#[trigger] pkgs[i]).id == i,
    ensures
        dep_ids_w(p, dep_rows_spec(pkgs), pid, kind) == (if pid < pkgs.len() { resolve_names(p, names_of_kind(pkgs[pid as int], kind)) } else { Seq::empty() }),
    decreases pkgs.len(),
{
    if pkgs.len() > 0 {
        let q = pkgs.drop_last();
        assert forall|i: int| 0 <= i < q.len() implies (#[trigger] q[i]).id == i by {
            assert(q[i] == pkgs[i]);
        }
        lemma_dep_ids_w_all(p, q, pid, kind);
        lemma_dep_ids_w_append(p, dep_rows_spec(q), pkg_dep_rows(pkgs.last()), pid, kind);
        lemma_dep_ids_w_pkg(p, pkgs.last(), pid, kind);
        assert(pkgs.last().id == pkgs.len() - 1);
        if pid < q.len() {
            assert(q[pid as int] == pkgs[pid as int]);
            let r = resolve_names(p, names_of_kind(pkgs[pid as int], kind));
            assert(r + Seq::<u32>::empty() =~= r);
        } else if pid == pkgs.len() - 1 {
            let r = resolve_names(p, names_of_kind(pkgs[pid as int], kind));
            assert(Seq::<u32>::empty() + r =~= r);
        } else {
            assert(Seq::<u32>::empty() + Seq::<u32>::empty() =~= Seq::<u32>::empty());
        }
    }
}

/// Rows with ids `0..n` in order and non-empty names load without error.
proof fn lemma_rows_error_none(rows: Seq<PackageRow>, n: nat, k: nat)
    requires
        k <= rows.len(),
        n == rows.len(),
        forall|i: int| 0 <= i < rows.len() ==> (#[trigger] rows[i]).id == i && rows[i].name@.len() > 0,
    ensures
        rows_error(rows, n, k) is None,
    decreases k,
{
    if k > 0 {
        lemma_rows_error_none(rows, n, (k - 1) as nat);
        let m = k - 1;
        assert(rows[m].id == m);
        if exists|j: int| 0 <= j < m && rows[j].id == rows[m].id {
            let j = choose|j: int| 0 <= j < m && rows[j].id == rows[m].id;
            assert(rows[j].id == j);
        }
    }
}

/// Law (what a load gives back of a save): package rows and dependency
/// rows read back as written for a document whose packages have ids
/// `0..n` in order and non-empty names load without error, and each
/// loaded package carries its document package's fields, its non-empty
/// licenses (when no license holds `", "`), and per kind its dependency
/// names resolved to the ids of the packages of those names (unknown
/// names dropped).
pub proof fn law_save_load(doc: IndexDoc, rows: Seq<PackageRow>, deps: Seq<DepRow>, k: int, pkg: Package)
    requires
        rows.len() == doc.packages@.len(),
        rows.len() < usize::MAX,
        forall|i: int| 0 <= i < rows.len() ==> (#[trigger] doc.packages@[i]).id == i && doc.packages@[i].name@.len() > 0,
        forall|i: int| 0 <= i < rows.len() ==> row_written(doc.packages@[i], #[trigger] rows[i]),
        deps.len() == dep_rows_spec(doc.packages@).len(),
        forall|j: int| 0 <= j < deps.len() ==> dep_written(dep_rows_spec(doc.packages@)[j], #[trigger] deps[j]),
        0 <= k < rows.len(),
        doc.packages@[k].file.1 <= i64::MAX,
        loaded(rows[k], pkg, id_names(rows), deps, first_with_id(rows, k)),
    ensures
        rows_error(rows, rows.len(), rows.len()) is None,
        ({
            let p = doc.packages@[k];
            &&& pkg.id == k
            &&& pkg.name@ == p.name@
            &&& pkg.version@ == p.version@
            &&& pkg.synopsis@ == p.synopsis@
            &&& pkg.description@ == p.description@
            &&& pkg.homepage@ == p.homepage@
            &&& pkg.attribute@ == p.attribute@
            &&& pkg.store_path@ == p.store_path@
            &&& pkg.installed == p.installed
            &&& pkg.flake@ == p.flake@
            &&& pkg.file@ == p.file.0@
            &&& pkg.line == p.file.1
            &&& (forall|i: int| 0 <= i < p.licenses@.len() ==> !has_sep(#[trigger] p.licenses@[i]@))
                ==> views(pkg.licenses@) == kept(views(p.licenses@))
            &&& pkg.inputs@ == resolve_names(id_names(rows), views(p.inputs@))
            &&& pkg.propagated@ == resolve_names(id_names(rows), views(p.propagated_inputs@))
            &&& pkg.native@ == resolve_names(id_names(rows), views(p.native_inputs@))
        }),
{
    let pkgs = doc.packages@;
    let p = pkgs[k];
    assert forall|i: int| 0 <= i < rows.len() implies (#[trigger] rows[i]).id == i && rows[i].name@.len() > 0 by {
        assert(row_written(pkgs[i], rows[i]));
    }
    lemma_rows_error_none(rows, rows.len(), rows.len());
    assert(row_written(p, rows[k]));
    assert(first_with_id(rows, k)) by {
        assert forall|j: int| 0 <= j < k implies rows[j].id != rows[k].id by {
            assert(rows[j].id == j);
        }
    }
    let ws = dep_rows_spec(pkgs);
    let pn = id_names(rows);
    let pid = rows[k].id;
    assert(pid == k);
    lemma_dep_ids_written(pn, ws, deps, pid, 0);
    lemma_dep_ids_written(pn, ws, deps, pid, 1);
    lemma_dep_ids_written(pn, ws, deps, pid, 2);
    lemma_dep_ids_w_all(pn, pkgs, pid, 0);
    lemma_dep_ids_w_all(pn, pkgs, pid, 1);
    lemma_dep_ids_w_all(pn, pkgs, pid, 2);
    assert(pkgs[pid as int] == p);
    if forall|i: int| 0 <= i < p.licenses@.len() ==> !has_sep(#[trigger] p.licenses@[i]@) {
        let v = views(p.licenses@);
        assert forall|i: int| 0 <= i < v.len() implies !has_sep(#[trigger] v[i]) by {
            assert(v[i] == p.licenses@[i]@);
        }
        law_licenses_round_trip(v);
    }
    assert(((p.file.1 as i64) as u64) == p.file.1);
}

/// With distinct names, the document's name table finds each package by
/// its name and nothing else.
proof fn lemma_name_entries_unique(pkgs: Seq<PkgJson>, q: Seq<char>)
    requires
        forall|i: int, j: int| 0 <= i < j < pkgs.len() ==> pkgs[i].name@ != pkgs[j].name@,
    ensures
        forall|i: int| 0 <= i < pkgs.len() && pkgs[i].name@ == q ==> seq_lookup(name_entries(pkgs), q) == Some(pkgs[i].id),
        (forall|i: int| 0 <= i < pkgs.len() ==> pkgs[i].name@ != q) ==> seq_lookup(name_entries(pkgs), q) is None,
    decreases pkgs.len(),
{
    if pkgs.len() > 0 {
        let p = pkgs.drop_last();
        let l = pkgs.last();
        lemma_name_entries_unique(p, q);
        lemma_lookup_insert_absent(name_entries(p), l.name@, l.id, q);
        assert forall|i: int| 0 <= i < pkgs.len() && pkgs[i].name@ == q implies seq_lookup(name_entries(pkgs), q) == Some(pkgs[i].id) by {
            if i < p.len() {
                assert(p[i] == pkgs[i]);
            } else {
                assert forall|j: int| 0 <= j < p.len() implies p[j].name@ != q by {
                    assert(p[j] == pkgs[j]);
                }
            }
        }
        if forall|i: int| 0 <= i < pkgs.len() ==> pkgs[i].name@ != q {
            assert forall|j: int| 0 <= j < p.len() implies p[j].name@ != q by {
                assert(p[j] == pkgs[j]);
            }
            assert(pkgs[pkgs.len() - 1].name@ != q);
        }
    }
}

/// With distinct names, the row name table finds each row by its name and
/// nothing else.
proof fn lemma_name_id_unique(p: Seq<(u32, Seq<char>)>, q: Seq<char>)
    requires
        forall|i: int, j: int| 0 <= i < j < p.len() ==> p[i].1 != p[j].1,
    ensures
        forall|i: int| 0 <= i < p.len() && p[i].1 == q ==> name_id(p, q) == Some(p[i].0),
        (forall|i: int| 0 <= i < p.len() ==> p[i].1 != q) ==> name_id(p, q) is None,
    decreases p.len(),
{
    if p.len() > 0 {
        let t = p.drop_first();
        assert forall|i: int, j: int| 0 <= i < j < t.len() implies t[i].1 != t[j].1 by {
            assert(t[i] == p[i + 1] && t[j] == p[j + 1]);
        }
        lemma_name_id_unique(t, q);
        assert forall|i: int| 0 <= i < p.len() && p[i].1 == q implies name_id(p, q) == Some(p[i].0) by {
            if i > 0 {
                assert(t[i - 1] == p[i]);
            } else {
                assert forall|j: int| 0 <= j < t.len() implies t[j].1 != q by {
                    assert(t[j] == p[j + 1]);
                }
            }
        }
        if forall|i: int| 0 <= i < p.len() ==> p[i].1 != q {
            assert forall|j: int| 0 <= j < t.len() implies t[j].1 != q by {
                assert(t[j] == p[j + 1]);
            }
            assert(p[0].1 != q);
        }
    }
}

/// Rows written for a document with ids `0..n` in order and distinct
/// names resolve a name as the document's name table does.
proof fn lemma_tables_agree(pkgs: Seq<PkgJson>, rows: Seq<PackageRow>, q: Seq<char>)
    requires
        rows.len() == pkgs.len(),
        forall|i: int| 0 <= i < pkgs.len() ==> (#[trigger] pkgs[i]).id == i,
        forall|i: int| 0 <= i < rows.len() ==> (#[trigger] rows[i]).id == pkgs[i].id && rows[i].name@ == pkgs[i].name@,
        forall|i: int, j: int| 0 <= i < j < pkgs.len() ==> pkgs[i].name@ != pkgs[j].name@,
    ensures
        seq_lookup(name_entries(pkgs), q) == name_id(id_names(rows), q),
        name_id(id_names(rows), q) matches Some(v) ==> v < rows.len() && pkgs[v as int].name@ == q,
{
    let pn = id_names(rows);
    assert forall|i: int, j: int| 0 <= i < j < pn.len() implies pn[i].1 != pn[j].1 by {
        assert(pn[i] == (rows[i].id, rows[i].name@) && pn[j] == (rows[j].id, rows[j].name@));
    }
    lemma_name_entries_unique(pkgs, q);
    lemma_name_id_unique(pn, q);
    if exists|i: int| 0 <= i < pkgs.len() && pkgs[i].name@ == q {
        let i = choose|i: int| 0 <= i < pkgs.len() && pkgs[i].name@ == q;
        assert(pn[i] == (rows[i].id, rows[i].name@));
        assert(pkgs[i].id == i);
    } else {
        assert forall|i: int| 0 <= i < pn.len() implies pn[i].1 != q by {
            assert(pn[i] == (rows[i].id, rows[i].name@));
        }
    }
}

/// Resolving through two tables that agree gives the same ids.
proof fn lemma_resolve_agree(t: Seq<(Seq<char>, u32)>, pn: Seq<(u32, Seq<char>)>, names: Seq<String>)
    requires
        forall|q: Seq<char>| #[trigger] seq_lookup(t, q) == name_id(pn, q),
    ensures
        resolve_all(t, names) == resolve_names(pn, views(names)),
    decreases names.len(),
{
    if names.len() > 0 {
        lemma_resolve_agree(t, pn, names.drop_last());
        assert(views(names).drop_last() == views(names.drop_last()));
        assert(views(names).last() == names.last()@);
        assert(seq_lookup(t, names.last()@) == name_id(pn, names.last()@));
    }
}

/// Resolving a concatenation resolves each part.
proof fn lemma_resolve_append(pn: Seq<(u32, Seq<char>)>, a: Seq<Seq<char>>, b: Seq<Seq<char>>)
    ensures
        resolve_names(pn, a + b) == resolve_names(pn, a) + resolve_names(pn, b),
    decreases b.len(),
{
    if b.len() == 0 {
        assert(a + b == a);
        assert(resolve_names(pn, a) + Seq::<u32>::empty() == resolve_names(pn, a));
    } else {
        assert((a + b).drop_last() == a + b.drop_last());
        assert((a + b).last() == b.last());
        lemma_resolve_append(pn, a, b.drop_last());
        let x = resolve_names(pn, a);
        let y = resolve_names(pn, b.drop_last());
        if name_id(pn, b.last()) is Some {
            assert(x + y.push(name_id(pn, b.last())->0) == (x + y).push(name_id(pn, b.last())->0));
        }
    }
}

/// Each resolved id is what some name resolves to.
proof fn lemma_resolve_members(pn: Seq<(u32, Seq<char>)>, names: Seq<Seq<char>>)
    ensures
        forall|t: int| 0 <= t < resolve_names(pn, names).len() ==>
            exists|j: int| 0 <= j < names.len() && name_id(pn, names[j]) == Some(#[trigger] resolve_names(pn, names)[t]),
    decreases names.len(),
{
    if names.len() > 0 {
        let d = names.drop_last();
        lemma_resolve_members(pn, d);
        let r = resolve_names(pn, names);
        let r0 = resolve_names(pn, d);
        assert forall|t: int| 0 <= t < r.len() implies
            exists|j: int| 0 <= j < names.len() && name_id(pn, names[j]) == Some(#[trigger] r[t]) by {
            if t < r0.len() {
                assert(r[t] == r0[t]);
                let j = choose|j: int| 0 <= j < d.len() && name_id(pn, d[j]) == Some(r0[t]);
                assert(names[j] == d[j]);
            } else {
                assert(name_id(pn, names[names.len() - 1]) == Some(r[t]));
            }
        }
    }
}

/// Distinct names resolve to distinct ids when no two names share an id.
proof fn lemma_resolve_distinct(pn: Seq<(u32, Seq<char>)>, names: Seq<Seq<char>>)
    requires
        names.no_duplicates(),
        forall|q1: Seq<char>, q2: Seq<char>| #[trigger] name_id(pn, q1) is Some && name_id(pn, q1) == #[trigger] name_id(pn, q2) ==> q1 == q2,
    ensures
        resolve_names(pn, names).no_duplicates(),
    decreases names.len(),
{
    if names.len() > 0 {
        let d = names.drop_last();
        assert(d.no_duplicates()) by {
            assert forall|i: int, j: int| 0 <= i < d.len() && 0 <= j < d.len() && i != j implies d[i] != d[j] by {
                assert(d[i] == names[i] && d[j] == names[j]);
            }
        }
        lemma_resolve_distinct(pn, d);
        lemma_resolve_members(pn, d);
        let r0 = resolve_names(pn, d);
        let l = names.last();
        if name_id(pn, l) is Some {
            let v = name_id(pn, l)->0;
            assert forall|t: int| 0 <= t < r0.len() implies r0[t] != v by {
                let j = choose|j: int| 0 <= j < d.len() && name_id(pn, d[j]) == Some(#[trigger] r0[t]);
                if r0[t] == v {
                    assert(d[j] == l);
                    assert(names[j] == names[names.len() - 1]);
                }
            }
            let r = r0.push(v);
            assert forall|i: int, j: int| 0 <= i < r.len() && 0 <= j < r.len() && i != j implies r[i] != r[j] by {
                if i < r0.len() && j < r0.len() {
                } else if i < r0.len() {
                    assert(r[j] == v);
                } else {
                    assert(r[i] == v);
                }
            }
        }
    }
}

/// Pushing ids that are new and distinct appends them all.
proof fn lemma_dedup_fresh(acc: Seq<(u32, DepKind)>, ids: Seq<u32>, kind: DepKind)
    requires
        ids.no_duplicates(),
        forall|i: int| 0 <= i < ids.len() ==> !has_id(acc, #[trigger] ids[i]),
    ensures
        dedup_push(acc, ids, kind) == acc + ids.map_values(|x: u32| (x, kind)),
    decreases ids.len(),
{
    if ids.len() == 0 {
        assert(acc + ids.map_values(|x: u32| (x, kind)) == acc);
    } else {
        let d = ids.drop_last();
        assert(d.no_duplicates()) by {
            assert forall|i: int, j: int| 0 <= i < d.len() && 0 <= j < d.len() && i != j implies d[i] != d[j] by {
                assert(d[i] == ids[i] && d[j] == ids[j]);
            }
        }
        assert forall|i: int| 0 <= i < d.len() implies !has_id(acc, #[trigger] d[i]) by {
            assert(d[i] == ids[i]);
        }
        lemma_dedup_fresh(acc, d, kind);
        let a = acc + d.map_values(|x: u32| (x, kind));
        let l = ids.last();
        assert(!has_id(acc, ids[ids.len() - 1]));
        assert(!has_id(a, l)) by {
            if has_id(a, l) {
                let i = choose|i: int| 0 <= i < a.len() && a[i].0 == l;
                if i < acc.len() {
                    assert(acc[i] == a[i]);
                } else {
                    assert(a[i] == (d[i - acc.len()], kind));
                    assert(d[i - acc.len()] == ids[i - acc.len()]);
                }
            }
        }
        assert(a.push((l, kind)) == acc + ids.map_values(|x: u32| (x, kind)));
    }
}

/// The ids of kind `k` among edges all of kind `kind`.
proof fn lemma_kind_ids_tagged(ids: Seq<u32>, kind: DepKind, k: DepKind)
    ensures
        kind_ids(ids.map_values(|x: u32| (x, kind)), k) == (if kind == k { ids } else { Seq::empty() }),
    decreases ids.len(),
{
    if ids.len() > 0 {
        assert(ids.map_values(|x: u32| (x, kind)).drop_last() == ids.drop_last().map_values(|x: u32| (x, kind)));
        lemma_kind_ids_tagged(ids.drop_last(), kind, k);
        if kind == k {
            assert(ids.drop_last().push(ids.last()) == ids);
        }
    } else {
        assert(ids.map_values(|x: u32| (x, kind)) == Seq::<(u32, DepKind)>::empty());
    }
}

/// The ids of kind `k` in a concatenation.
proof fn lemma_kind_ids_append(a: Seq<(u32, DepKind)>, b: Seq<(u32, DepKind)>, k: DepKind)
    ensures
        kind_ids(a + b, k) == kind_ids(a, k) + kind_ids(b, k),
    decreases b.len(),
{
    if b.len() == 0 {
        assert(a + b == a);
        assert(kind_ids(a, k) + Seq::<u32>::empty() == kind_ids(a, k));
    } else {
        assert((a + b).drop_last() == a + b.drop_last());
        assert((a + b).last() == b.last());
        lemma_kind_ids_append(a, b.drop_last(), k);
        if b.last().1 == k {
            assert(kind_ids(a, k) + kind_ids(b.drop_last(), k).push(b.last().0) == (kind_ids(a, k) + kind_ids(b.drop_last(), k)).push(b.last().0));
        }
    }
}

/// Without an id listed twice, the edges of each kind are that kind's list.
proof fn lemma_deps_of_split(i: Seq<u32>, p: Seq<u32>, n: Seq<u32>)
    requires
        (i + p + n).no_duplicates(),
    ensures
        kind_ids(deps_of(i, p, n), DepKind::Input) == i,
        kind_ids(deps_of(i, p, n), DepKind::Propagated) == p,
        kind_ids(deps_of(i, p, n), DepKind::Native) == n,
{
    let all = i + p + n;
    let e0 = Seq::<(u32, DepKind)>::empty();
    let mi = i.map_values(|x: u32| (x, DepKind::Input));
    let mp = p.map_values(|x: u32| (x, DepKind::Propagated));
    let mn = n.map_values(|x: u32| (x, DepKind::Native));
    assert(i.no_duplicates()) by {
        assert forall|a: int, b: int| 0 <= a < i.len() && 0 <= b < i.len() && a != b implies i[a] != i[b] by {
            assert(all[a] == i[a] && all[b] == i[b]);
        }
    }
    assert(p.no_duplicates()) by {
        assert forall|a: int, b: int| 0 <= a < p.len() && 0 <= b < p.len() && a != b implies p[a] != p[b] by {
            assert(all[i.len() + a] == p[a] && all[i.len() + b] == p[b]);
        }
    }
    assert(n.no_duplicates()) by {
        assert forall|a: int, b: int| 0 <= a < n.len() && 0 <= b < n.len() && a != b implies n[a] != n[b] by {
            assert(all[i.len() + p.len() + a] == n[a] && all[i.len() + p.len() + b] == n[b]);
        }
    }
    lemma_dedup_fresh(e0, i, DepKind::Input);
    assert(e0 + mi == mi);
    assert forall|b: int| 0 <= b < p.len() implies !has_id(mi, #[trigger] p[b]) by {
        if has_id(mi, p[b]) {
            let a = choose|a: int| 0 <= a < mi.len() && mi[a].0 == p[b];
            assert(all[a] == i[a] && all[i.len() + b] == p[b]);
        }
    }
    lemma_dedup_fresh(mi, p, DepKind::Propagated);
    let a1 = mi + mp;
    assert forall|b: int| 0 <= b < n.len() implies !has_id(a1, #[trigger] n[b]) by {
        if has_id(a1, n[b]) {
            let a = choose|a: int| 0 <= a < a1.len() && a1[a].0 == n[b];
            assert(all[i.len() + p.len() + b] == n[b]);
            if a < mi.len() {
                assert(a1[a] == mi[a]);
                assert(all[a] == i[a]);
            } else {
                assert(a1[a] == mp[a - mi.len()]);
                assert(all[a] == p[a - i.len()]);
            }
        }
    }
    lemma_dedup_fresh(a1, n, DepKind::Native);
    assert(deps_of(i, p, n) == mi + mp + mn);
    lemma_kind_ids_append(mi + mp, mn, DepKind::Input);
    lemma_kind_ids_append(mi + mp, mn, DepKind::Propagated);
    lemma_kind_ids_append(mi + mp, mn, DepKind::Native);
    lemma_kind_ids_append(mi, mp, DepKind::Input);
    lemma_kind_ids_append(mi, mp, DepKind::Propagated);
    lemma_kind_ids_append(mi, mp, DepKind::Native);
    lemma_kind_ids_tagged(i, DepKind::Input, DepKind::Input);
    lemma_kind_ids_tagged(i, DepKind::Input, DepKind::Propagated);
    lemma_kind_ids_tagged(i, DepKind::Input, DepKind::Native);
    lemma_kind_ids_tagged(p, DepKind::Propagated, DepKind::Input);
    lemma_kind_ids_tagged(p, DepKind::Propagated, DepKind::Propagated);
    lemma_kind_ids_tagged(p, DepKind::Propagated, DepKind::Native);
    lemma_kind_ids_tagged(n, DepKind::Native, DepKind::Input);
    lemma_kind_ids_tagged(n, DepKind::Native, DepKind::Propagated);
    lemma_kind_ids_tagged(n, DepKind::Native, DepKind::Native);
    let e = Seq::<u32>::empty();
    assert(i + e + e == i);
    assert(e + p + e == p);
    assert(e + e + n == n);
}

/// Law (a load gives back what `from_doc` builds): for a document whose
/// packages have ids `0..n` in order, distinct non-empty names, and no
/// dependency name listed twice for one package (over its three lists),
/// each package loaded from the rows written for it has, per kind, the
/// same dependency ids as the package `from_doc` builds from the document.
pub proof fn law_save_load_deps(doc: IndexDoc, idx: Index, rows: Seq<PackageRow>, deps: Seq<DepRow>, k: int, pkg: Package)
    requires
        idx.built_from(doc),
        rows.len() == doc.packages@.len(),
        rows.len() < usize::MAX,
        forall|i: int| 0 <= i < rows.len() ==> (#[trigger] doc.packages@[i]).id == i && doc.packages@[i].name@.len() > 0,
        forall|i: int, j: int| 0 <= i < j < rows.len() ==> doc.packages@[i].name@ != doc.packages@[j].name@,
        forall|i: int| 0 <= i < rows.len() ==> row_written(doc.packages@[i], #[trigger] rows[i]),
        deps.len() == dep_rows_spec(doc.packages@).len(),
        forall|j: int| 0 <= j < deps.len() ==> dep_written(dep_rows_spec(doc.packages@)[j], #[trigger] deps[j]),
        0 <= k < rows.len(),
        (views(doc.packages@[k].inputs@) + views(doc.packages@[k].propagated_inputs@) + views(doc.packages@[k].native_inputs@)).no_duplicates(),
        doc.packages@[k].file.1 <= i64::MAX,
        loaded(rows[k], pkg, id_names(rows), deps, first_with_id(rows, k)),
    ensures
        pkg.inputs@ == idx.packages[k].inputs@,
        pkg.propagated@ == idx.packages[k].propagated@,
        pkg.native@ == idx.packages[k].native@,
{
    let pkgs = doc.packages@;
    let p = pkgs[k];
    let pn = id_names(rows);
    let t = name_entries(pkgs);
    law_save_load(doc, rows, deps, k, pkg);
    assert forall|i: int| 0 <= i < rows.len() implies (#[trigger] rows[i]).id == pkgs[i].id && rows[i].name@ == pkgs[i].name@ by {
        assert(row_written(pkgs[i], rows[i]));
    }
    assert forall|q: Seq<char>| #[trigger] seq_lookup(t, q) == name_id(pn, q) by {
        lemma_tables_agree(pkgs, rows, q);
    }
    assert forall|q1: Seq<char>, q2: Seq<char>| #[trigger] name_id(pn, q1) is Some && name_id(pn, q1) == #[trigger] name_id(pn, q2)
        implies q1 == q2 by {
        lemma_tables_agree(pkgs, rows, q1);
        lemma_tables_agree(pkgs, rows, q2);
    }
    lemma_resolve_agree(t, pn, p.inputs@);
    lemma_resolve_agree(t, pn, p.propagated_inputs@);
    lemma_resolve_agree(t, pn, p.native_inputs@);
    let a = views(p.inputs@);
    let b = views(p.propagated_inputs@);
    let c = views(p.native_inputs@);
    lemma_resolve_append(pn, a + b, c);
    lemma_resolve_append(pn, a, b);
    lemma_resolve_distinct(pn, a + b + c);
    assert(pkgs[k].id == k);
    assert(converted(idx.packages[pkgs[k].id as int], pkgs[k], t));
    lemma_deps_of_split(resolve_names(pn, a), resolve_names(pn, b), resolve_names(pn, c));
}

} // verus!
