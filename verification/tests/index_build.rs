use nixvis::error::IndexError;
use nixvis::index::{DepKind, Index, Package};
use nixvis::model::{Header, IndexDoc, PkgJson, SCHEMA_VERSION};

fn pj(id: u32, name: &str, inputs: &[&str], file: &str) -> PkgJson {
    PkgJson {
        id,
        name: name.to_string(),
        attribute: name.to_string(),
        version: "1.0".to_string(),
        synopsis: String::new(),
        description: String::new(),
        homepage: String::new(),
        licenses: vec![],
        file: (file.to_string(), 0),
        inputs: inputs.iter().map(|s| s.to_string()).collect(),
        propagated_inputs: vec![],
        native_inputs: vec![],
        store_path: String::new(),
        installed: false,
        flake: String::new(),
    }
}

fn doc(pkgs: Vec<PkgJson>) -> IndexDoc {
    IndexDoc {
        header: Header {
            schema: SCHEMA_VERSION,
            nixpkgs_commit: "abc".to_string(),
            generated_ms: "42".to_string(),
            package_count: pkgs.len() as u64,
        },
        packages: pkgs,
    }
}

fn chain() -> Index {
    // a -> b -> c, a -> c; d alone
    let pkgs = vec![
        pj(0, "a", &["b", "c", "zzz"], "pkgs/a.nix"),
        pj(1, "b", &["c"], "pkgs/a.nix"),
        pj(2, "c", &[], ""),
        pj(3, "d", &[], "pkgs/d.nix"),
    ];
    Index::from_doc(doc(pkgs), 7).ok().unwrap()
}

#[test]
fn from_doc_builds_reverse_edges() {
    let idx = chain();
    assert_eq!(idx.len(), 4);
    assert!(!idx.is_empty());
    assert_eq!(idx.dependents[2], vec![0, 1]);
    assert_eq!(idx.dependents_count(1), 1);
    assert_eq!(idx.dependents_count(3), 0);
    assert_eq!(idx.generated_ms, 42);
    assert_eq!(idx.built_ms, 7);
    assert_eq!(idx.nixpkgs_commit, "abc");
    // unknown dependency names are dropped
    assert_eq!(idx.packages[0].inputs, vec![1, 2]);
}

#[test]
fn from_doc_places_packages_by_id() {
    let pkgs = vec![pj(1, "y", &["x"], ""), pj(0, "x", &[], "")];
    let idx = Index::from_doc(doc(pkgs), 0).ok().unwrap();
    assert_eq!(idx.packages[0].name, "x");
    assert_eq!(idx.packages[1].name, "y");
    assert_eq!(idx.packages[1].inputs, vec![0]);
}

#[test]
fn from_doc_first_name_wins() {
    let pkgs = vec![pj(0, "dup", &[], ""), pj(1, "dup", &[], ""), pj(2, "user", &["dup"], "")];
    let idx = Index::from_doc(doc(pkgs), 0).ok().unwrap();
    assert_eq!(idx.names.get(&"dup".to_string()), Some(0));
    assert_eq!(idx.packages[2].inputs, vec![0]);
}

#[test]
fn from_doc_rejects_bad_schema() {
    let mut d = doc(vec![pj(0, "a", &[], "")]);
    d.header.schema = 2;
    assert!(matches!(Index::from_doc(d, 0), Err(IndexError::Schema(2, 3))));
}

#[test]
fn from_doc_rejects_count_mismatch() {
    let mut d = doc(vec![pj(0, "a", &[], "")]);
    d.header.package_count = 5;
    assert!(matches!(Index::from_doc(d, 0), Err(IndexError::Count(5, 1))));
}

#[test]
fn from_doc_rejects_id_out_of_range() {
    let d = doc(vec![pj(0, "a", &[], ""), pj(7, "b", &[], "")]);
    assert!(matches!(Index::from_doc(d, 0), Err(IndexError::IdOutOfRange(7, 2))));
}

#[test]
fn from_doc_rejects_duplicate_id() {
    let d = doc(vec![pj(0, "a", &[], ""), pj(0, "b", &[], "")]);
    assert!(matches!(Index::from_doc(d, 0), Err(IndexError::DuplicateId(0))));
}

#[test]
fn from_doc_rejects_empty_name() {
    let d = doc(vec![pj(0, "", &[], "")]);
    assert!(matches!(Index::from_doc(d, 0), Err(IndexError::EmptyName(0))));
}

#[test]
fn deps_dedup_first_kind_wins() {
    let p = Package {
        id: 0,
        name: "p".into(),
        version: String::new(),
        synopsis: String::new(),
        description: String::new(),
        homepage: String::new(),
        licenses: vec![],
        file: String::new(),
        line: 0,
        attribute: String::new(),
        store_path: String::new(),
        installed: false,
        flake: String::new(),
        inputs: vec![3, 4],
        propagated: vec![4, 5],
        native: vec![3, 6],
    };
    assert_eq!(
        p.deps(),
        vec![(3, DepKind::Input), (4, DepKind::Input), (5, DepKind::Propagated), (6, DepKind::Native)]
    );
    assert_eq!(p.dep_count(), 6);
    assert_eq!(DepKind::Input.label(), "");
    assert_eq!(DepKind::Propagated.label(), "P");
    assert_eq!(DepKind::Native.label(), "N");
}

#[test]
fn bfs_is_sound_and_capped() {
    let idx = chain();
    let (out, total) = idx.deps_bfs(0, 2, 10);
    let ids: Vec<u32> = out.iter().map(|n| n.id).collect();
    assert_eq!(ids, vec![1, 2]);
    assert_eq!(out[0].depth, 1);
    assert_eq!(out[0].kind, Some(DepKind::Input));
    assert_eq!(total, 2);
    let (out, total) = idx.deps_bfs(0, 2, 1);
    assert_eq!(out.len(), 1);
    assert_eq!(total, 2);
    let (out, total) = idx.dependents_bfs(2, 1, 10);
    let ids: Vec<u32> = out.iter().map(|n| n.id).collect();
    assert_eq!(ids, vec![0, 1]);
    assert_eq!(total, 2);
    assert_eq!(out[0].kind, None);
    let (out, total) = idx.deps_bfs(99, 3, 10);
    assert!(out.is_empty());
    assert_eq!(total, 0);
}

#[test]
fn capped_walk_is_a_prefix_of_the_full_walk() {
    let idx = chain();
    let ids = |cap: usize| idx.deps_bfs(0, 3, cap).0.iter().map(|n| n.id).collect::<Vec<u32>>();
    let full = ids(usize::MAX);
    assert_eq!(full, vec![1, 2]);
    for cap in 0..4 {
        assert_eq!(ids(cap), full[..cap.min(full.len())].to_vec());
    }
}

#[test]
fn deeper_walk_only_appends() {
    let idx = chain();
    let walk = |d: u8| idx.deps_bfs(0, d, usize::MAX).0.iter().map(|n| (n.id, n.depth)).collect::<Vec<_>>();
    let shallow = walk(0);
    let one = walk(1);
    let deep = walk(3);
    assert!(shallow.is_empty());
    assert_eq!(deep[..one.len()].to_vec(), one);
    let rev = |d: u8| idx.dependents_bfs(2, d, usize::MAX).0.iter().map(|n| n.id).collect::<Vec<_>>();
    assert_eq!(rev(2)[..rev(1).len()].to_vec(), rev(1));
}

#[test]
fn module_neighbors_include_self() {
    let idx = chain();
    assert_eq!(idx.module_neighbors(0), &[0, 1]);
    assert_eq!(idx.module_neighbors(1), &[0, 1]);
    assert_eq!(idx.module_neighbors(3), &[3]);
    assert!(idx.module_neighbors(2).is_empty());
    assert!(idx.module_neighbors(50).is_empty());
}

fn pk(id: u32, name: &str, inputs: Vec<u32>) -> Package {
    Package {
        id,
        name: name.into(),
        version: String::new(),
        synopsis: String::new(),
        description: String::new(),
        homepage: String::new(),
        licenses: vec![],
        file: String::new(),
        line: 0,
        attribute: String::new(),
        store_path: String::new(),
        installed: false,
        flake: String::new(),
        inputs,
        propagated: vec![],
        native: vec![],
    }
}

#[test]
fn from_packages_places_by_id() {
    let idx = Index::from_packages(vec![pk(1, "b", vec![0]), pk(0, "a", vec![])], "c1".into()).ok().unwrap();
    assert_eq!(idx.packages[0].name, "a");
    assert_eq!(idx.dependents[0], vec![1]);
    assert_eq!(idx.nixpkgs_commit, "c1");
    assert_eq!(idx.generated_ms, 0);
}

#[test]
fn from_packages_rejects_bad_ids_and_deps() {
    assert!(matches!(
        Index::from_packages(vec![pk(0, "a", vec![]), pk(5, "b", vec![])], String::new()),
        Err(IndexError::IdOutOfRange(5, 2))
    ));
    assert!(matches!(
        Index::from_packages(vec![pk(0, "a", vec![9])], String::new()),
        Err(IndexError::IdOutOfRange(9, 1))
    ));
    assert!(matches!(
        Index::from_packages(vec![pk(0, "a", vec![]), pk(0, "b", vec![])], String::new()),
        Err(IndexError::DuplicateId(0))
    ));
}

#[test]
fn error_messages() {
    assert_eq!(IndexError::Schema(2, 3).message(), "cache schema 2 unsupported (expected 3)");
    assert_eq!(IndexError::Count(5, 1).message(), "package count mismatch: header=5 packages=1");
    assert_eq!(IndexError::IdOutOfRange(7, 2).message(), "package id 7 out of range (len 2)");
    assert_eq!(IndexError::DuplicateId(0).message(), "duplicate package id 0");
    assert_eq!(IndexError::EmptyName(4).message(), "package #4 has an empty name");
    assert_eq!(
        IndexError::UnknownDep("x".into(), "y".into()).message(),
        "package `y` references unknown dependency `x`"
    );
    assert_eq!(
        IndexError::Commit("a".into(), "b".into()).message(),
        "channel commit mismatch: cache=a live=b"
    );
}
