use nixvis::db::{
    db_info_from, dep_rows, header_from_meta, join_licenses, load_index_from_rows, meta_rows, package_params,
    packages_from_rows, split_licenses, DbInfo, DepRow, PackageRow, DB_SCHEMA_VERSION,
};
use nixvis::error::CacheError;
use nixvis::model::{Header, IndexDoc, PkgJson, SCHEMA_VERSION};

fn info(modified: u64) -> DbInfo {
    DbInfo { package_count: 0, size_bytes: 0, modified, nixpkgs_commit: "".to_string(), channel: "".to_string() }
}

#[test]
fn test_db_info_empty() {
    assert_eq!(info(0).age_text(), "unknown date");
}

#[test]
fn age_text_units() {
    assert_eq!(info(1000).age_text_at(1030), "30s ago");
    assert_eq!(info(1000).age_text_at(1000 + 125), "2m ago");
    assert_eq!(info(1000).age_text_at(1000 + 3 * 3600 + 5), "3h ago");
    assert_eq!(info(1000).age_text_at(1000 + 2 * 86400), "2d ago");
    assert_eq!(info(1000).age_text_at(10), "0s ago");
}

#[test]
fn licenses_round_trip() {
    let v = vec!["MIT".to_string(), "".to_string(), "GPL-3.0, or later".to_string()];
    let joined = join_licenses(&v);
    assert_eq!(joined, "MIT, , GPL-3.0, or later");
    // a license that holds ", " itself does not survive the round trip
    assert_eq!(split_licenses(&joined), vec!["MIT", "GPL-3.0", "or later"]);
    let w = vec!["MIT".to_string(), "".to_string(), "BSD-3".to_string()];
    assert_eq!(split_licenses(&join_licenses(&w)), vec!["MIT", "BSD-3"]);
    assert!(split_licenses("").is_empty());
    assert_eq!(split_licenses("a,, b"), vec!["a,", "b"]);
}

#[test]
fn meta_rows_and_header_round_trip() {
    let doc = IndexDoc {
        header: Header { schema: SCHEMA_VERSION, nixpkgs_commit: "c0ffee".into(), generated_ms: "99".into(), package_count: 0 },
        packages: vec![],
    };
    let rows = meta_rows(&doc, 77);
    assert_eq!(rows[0], ("schema_version".to_string(), "4".to_string()));
    assert_eq!(rows[1], ("saved_at".to_string(), "77".to_string()));
    assert_eq!(rows[3], ("channel".to_string(), "nixos-unstable".to_string()));
    let h = header_from_meta(&rows);
    assert_eq!(h.schema, DB_SCHEMA_VERSION);
    assert_eq!(h.nixpkgs_commit, "c0ffee");
    assert_eq!(h.generated_ms, "99");
    assert_eq!(h.package_count, 0);
}

#[test]
fn header_from_meta_fallbacks_and_last_row_wins() {
    let rows = vec![
        ("schema_version".to_string(), "x".to_string()),
        ("package_count".to_string(), "7".to_string()),
        ("package_count".to_string(), "+8".to_string()),
    ];
    let h = header_from_meta(&rows);
    assert_eq!(h.schema, 4);
    assert_eq!(h.package_count, 8);
    assert_eq!(h.nixpkgs_commit, "");
    let h = header_from_meta(&vec![("schema_version".to_string(), "4294967296".to_string())]);
    assert_eq!(h.schema, 4);
}

fn pj(id: u32, name: &str) -> PkgJson {
    PkgJson {
        id,
        name: name.into(),
        attribute: "attr".into(),
        version: "1.2".into(),
        synopsis: "syn".into(),
        description: "desc".into(),
        homepage: "home".into(),
        licenses: vec!["MIT".into(), "BSD".into()],
        file: ("f.nix".into(), 12),
        inputs: vec!["x".into()],
        propagated_inputs: vec!["y".into()],
        native_inputs: vec!["z".into(), "w".into()],
        store_path: "/nix/store/s".into(),
        installed: true,
        flake: "fl".into(),
    }
}

#[test]
fn package_params_in_column_order() {
    let p = package_params(&pj(3, "n"));
    assert_eq!(
        p,
        vec!["3", "n", "1.2", "syn", "desc", "home", "attr", "/nix/store/s", "1", "fl", "MIT, BSD", "f.nix", "12"]
    );
}

#[test]
fn dependency_rows_by_kind() {
    let doc = IndexDoc {
        header: Header { schema: 3, nixpkgs_commit: String::new(), generated_ms: String::new(), package_count: 1 },
        packages: vec![pj(3, "n")],
    };
    let rows = dep_rows(&doc);
    assert_eq!(
        rows,
        vec![(3, "x".to_string(), 0), (3, "y".to_string(), 1), (3, "z".to_string(), 2), (3, "w".to_string(), 2)]
    );
}

fn row(id: u32, name: &str) -> PackageRow {
    PackageRow {
        id,
        name: name.into(),
        version: "v".into(),
        synopsis: String::new(),
        description: String::new(),
        homepage: String::new(),
        attribute: String::new(),
        store_path: String::new(),
        installed: 1,
        flake: String::new(),
        licenses: "MIT, , BSD".into(),
        file_path: "f".into(),
        file_line: 5,
    }
}

fn dep(pkg_id: u32, name: &str, kind: i64) -> DepRow {
    DepRow { pkg_id, dep_name: name.into(), kind }
}

#[test]
fn rows_become_packages() {
    let rows = vec![row(0, "a"), row(1, "b"), row(2, "b")];
    let deps = vec![dep(0, "b", 0), dep(0, "nope", 0), dep(0, "a", 2), dep(1, "a", 1), dep(0, "b", 7)];
    let pkgs = packages_from_rows(rows, &deps);
    assert_eq!(pkgs.len(), 3);
    // the last package named "b" wins
    assert_eq!(pkgs[0].inputs, vec![2]);
    assert_eq!(pkgs[0].native, vec![0]);
    assert_eq!(pkgs[1].propagated, vec![0]);
    assert_eq!(pkgs[0].licenses, vec!["MIT", "BSD"]);
    assert!(pkgs[0].installed);
    assert_eq!(pkgs[0].line, 5);
}

#[test]
fn load_index_from_rows_checks_ids() {
    let meta = vec![("nixpkgs_commit".to_string(), "abc".to_string())];
    let (idx, h) = load_index_from_rows(&meta, vec![row(0, "a"), row(1, "b")], &vec![dep(1, "a", 0)]).ok().unwrap();
    assert_eq!(h.nixpkgs_commit, "abc");
    assert_eq!(idx.nixpkgs_commit, "abc");
    assert_eq!(idx.dependents[0], vec![1]);
    match load_index_from_rows(&meta, vec![row(0, "a"), row(3, "b")], &vec![]) {
        Err(CacheError::Read(m)) => assert_eq!(m, "package id 3 out of range (len 2)"),
        _ => panic!("expected a read error"),
    }
}

#[test]
fn load_index_from_rows_reports_first_bad_row() {
    let meta: Vec<(String, String)> = vec![];
    match load_index_from_rows(&meta, vec![row(1, "a"), row(1, "b")], &vec![]) {
        Err(CacheError::Read(m)) => assert_eq!(m, "duplicate package id 1"),
        _ => panic!("expected a read error"),
    }
    match load_index_from_rows(&meta, vec![row(1, ""), row(0, "b")], &vec![]) {
        Err(CacheError::Read(m)) => assert_eq!(m, "package #1 has an empty name"),
        _ => panic!("expected a read error"),
    }
    // a dependency on a name no row carries is dropped, not an error
    let (idx, _) = load_index_from_rows(&meta, vec![row(1, "a"), row(0, "b")], &vec![dep(1, "zz", 0)]).ok().unwrap();
    assert_eq!(idx.packages[1].name, "a");
    assert!(idx.packages[1].inputs.is_empty());
}

#[test]
fn db_info_requires_current_schema() {
    assert!(db_info_from(1, 2, "3", 4, "c".into(), "ch".into()).is_none());
    assert!(db_info_from(1, 2, "four", 4, "c".into(), "ch".into()).is_none());
    let i = db_info_from(1, 2, "4", 9, "c".into(), "ch".into()).unwrap();
    assert_eq!(i.package_count, 9);
    assert_eq!(i.nixpkgs_commit, "c");
}

fn two_package_doc() -> IndexDoc {
    let mut a = pj(0, "x");
    a.inputs = vec!["y".into()];
    a.propagated_inputs = vec![];
    a.native_inputs = vec!["gone".into()];
    let mut b = pj(1, "y");
    b.inputs = vec![];
    b.propagated_inputs = vec![];
    b.native_inputs = vec![];
    b.installed = false;
    IndexDoc {
        header: Header { schema: 3, nixpkgs_commit: "c0mm1t".into(), generated_ms: "9".into(), package_count: 2 },
        packages: vec![a, b],
    }
}

#[test]
fn saved_rows_load_back() {
    let doc = two_package_doc();
    // what the tables give back of the written values
    let rows: Vec<PackageRow> = doc
        .packages
        .iter()
        .map(|p| {
            let v = package_params(p);
            PackageRow {
                id: v[0].parse().unwrap(),
                name: v[1].clone(),
                version: v[2].clone(),
                synopsis: v[3].clone(),
                description: v[4].clone(),
                homepage: v[5].clone(),
                attribute: v[6].clone(),
                store_path: v[7].clone(),
                installed: v[8].parse().unwrap(),
                flake: v[9].clone(),
                licenses: v[10].clone(),
                file_path: v[11].clone(),
                file_line: v[12].parse().unwrap(),
            }
        })
        .collect();
    let deps: Vec<DepRow> = dep_rows(&doc).into_iter().map(|(id, n, k)| dep(id, &n, k)).collect();
    let meta = meta_rows(&doc, 100);
    let built = nixvis::index::Index::from_doc(two_package_doc(), 0).ok().unwrap();
    let (idx, h) = load_index_from_rows(&meta, rows, &deps).ok().unwrap();
    for k in 0..2 {
        assert_eq!(idx.packages[k].inputs, built.packages[k].inputs);
        assert_eq!(idx.packages[k].propagated, built.packages[k].propagated);
        assert_eq!(idx.packages[k].native, built.packages[k].native);
    }
    assert_eq!(h.nixpkgs_commit, "c0mm1t");
    assert_eq!(h.package_count, 2);
    let p = &idx.packages[0];
    assert_eq!(p.name, "x");
    assert_eq!(p.version, "1.2");
    assert_eq!(p.licenses, vec!["MIT", "BSD"]);
    assert_eq!(p.file, "f.nix");
    assert_eq!(p.line, 12);
    assert!(p.installed);
    assert_eq!(p.inputs, vec![1]);
    assert!(p.native.is_empty());
    assert!(!idx.packages[1].installed);
}
