use nixvis::cache::{commit_from_describe, CacheStatus};
use nixvis::error::{CacheError, IndexerError};
use nixvis::indexer::{
    build_failed, build_stage, db_load_failed, cache_stage, check_nix_output, doc_from_nix_output, doc_from_nix_search, nix_search_fallback, IndexEvent,
    NixSearchEntry,
};
use nixvis::model::{Header, IndexDoc, PkgJson, SCHEMA_VERSION};

fn pj(id: u32, name: &str) -> PkgJson {
    PkgJson {
        id,
        name: name.into(),
        attribute: String::new(),
        version: String::new(),
        synopsis: String::new(),
        description: String::new(),
        homepage: String::new(),
        licenses: vec![],
        file: (String::new(), 0),
        inputs: vec![],
        propagated_inputs: vec![],
        native_inputs: vec![],
        store_path: String::new(),
        installed: false,
        flake: String::new(),
    }
}

fn doc(schema: u32) -> IndexDoc {
    IndexDoc {
        header: Header { schema, nixpkgs_commit: "c".into(), generated_ms: String::new(), package_count: 1 },
        packages: vec![pj(0, "a")],
    }
}

fn failed_msg(e: &IndexEvent) -> String {
    match e {
        IndexEvent::Failed { msg } => msg.clone(),
        _ => panic!("expected a failure"),
    }
}

#[test]
fn fresh_cache_is_ready() {
    let s = cache_stage(Ok(CacheStatus::Fresh(doc(SCHEMA_VERSION), 1)), true, 9);
    assert!(!s.rebuild && !s.quarantine);
    match &s.events[0] {
        IndexEvent::Ready { index, fresh, unkeyed } => {
            assert!(*fresh && *unkeyed);
            assert_eq!(index.len(), 1);
            assert_eq!(index.built_ms, 9);
        }
        _ => panic!("expected ready"),
    }
}

#[test]
fn rejected_cache_is_quarantined() {
    let s = cache_stage(Ok(CacheStatus::Fresh(doc(1), 1)), false, 0);
    assert!(s.rebuild && s.quarantine);
    assert_eq!(failed_msg(&s.events[0]), "cached index rejected (cache schema 1 unsupported (expected 3)); rebuilding");
    let s = cache_stage(Err(CacheError::Parse("bad".into())), false, 0);
    assert!(s.rebuild && s.quarantine);
    assert_eq!(failed_msg(&s.events[0]), "cache unreadable (cache parse failed: bad); rebuilding");
    let s = cache_stage(Ok(CacheStatus::Stale { reason: "r".into(), timestamp: 0 }), false, 0);
    assert!(s.rebuild && !s.quarantine);
    assert_eq!(failed_msg(&s.events[0]), "cache stale (r); rebuilding");
    let s = cache_stage(Ok(CacheStatus::Absent), false, 0);
    assert!(matches!(s.events[0], IndexEvent::Progress { done: 0, total: 0 }));
}

#[test]
fn build_stage_reports_save_failure_then_result() {
    let ev = build_stage(doc(SCHEMA_VERSION), Err(CacheError::Write("disk".into())), false, 0);
    assert_eq!(ev.len(), 2);
    assert_eq!(failed_msg(&ev[0]), "cache save failed: cache write failed: disk");
    assert!(matches!(ev[1], IndexEvent::Ready { fresh: false, .. }));
    let ev = build_stage(doc(9), Ok(()), false, 0);
    assert_eq!(failed_msg(&ev[0]), "indexer output invalid: cache schema 9 unsupported (expected 3)");
    assert_eq!(failed_msg(&build_failed(&IndexerError::NoOutput)), "index build failed: indexer produced no output");
    assert_eq!(
        failed_msg(&nix_search_fallback(&IndexerError::Timeout(900))),
        "nix search failed (indexer timed out after 900s); falling back to embedded JSON"
    );
}

#[test]
fn nix_output_checks() {
    assert!(check_nix_output(true, "exit status: 0", 10).is_ok());
    assert!(matches!(check_nix_output(false, "exit status: 1", 10), Err(IndexerError::Exited(m)) if m == "nix search exited with exit status: 1"));
    assert!(matches!(check_nix_output(true, "", 0), Err(IndexerError::Exited(m)) if m == "nix search produced no output"));
    assert!(matches!(check_nix_output(true, "", 268435457), Err(IndexerError::Exited(m)) if m == "nix search output too large (268435457 bytes)"));
    assert_eq!(IndexerError::NotFound("/bin".into()).message(), "`nix` binary not found; looked at: /bin");
    assert_eq!(IndexerError::Exited("x".into()).message(), "indexer exited with: x");
}

fn entry(attr: &str, is_object: bool, name: Option<&str>, pname: Option<&str>) -> NixSearchEntry {
    NixSearchEntry {
        attr_path: attr.into(),
        is_object,
        name: name.map(|s| s.into()),
        description: Some("d".into()),
        version: None,
        pname: pname.map(|s| s.into()),
    }
}

#[test]
fn nix_search_entries_become_packages() {
    let entries = vec![
        entry("legacyPackages.x.hello", true, Some("hello-2.12"), Some("hello")),
        entry("legacyPackages.x.junk", false, None, None),
        entry("legacyPackages.x.foo", true, Some("foo-1"), None),
        entry("legacyPackages.x.bar", true, None, None),
    ];
    let d = doc_from_nix_search(Some(entries), 5).ok().unwrap();
    assert_eq!(d.header.schema, SCHEMA_VERSION);
    assert_eq!(d.header.generated_ms, "5");
    assert_eq!(d.header.package_count, 3);
    let names: Vec<&str> = d.packages.iter().map(|p| p.name.as_str()).collect();
    assert_eq!(names, vec!["hello", "foo-1", "legacyPackages.x.bar"]);
    assert_eq!(d.packages[2].id, 2);
    assert_eq!(d.packages[0].synopsis, "d");
    assert!(matches!(doc_from_nix_search(None, 0), Err(IndexerError::Exited(m)) if m == "nix search output is not an object"));
}

#[test]
fn nix_output_becomes_a_document() {
    let out = br#"{"legacyPackages.x86_64-linux.hello":{"pname":"hello","version":"2.12","description":"Greets"},"x":3}"#;
    let doc = doc_from_nix_output(true, "exit status: 0", out, 42).ok().unwrap();
    assert_eq!(doc.packages.len(), 1);
    assert_eq!(doc.packages[0].name, "hello");
    assert_eq!(doc.packages[0].attribute, "legacyPackages.x86_64-linux.hello");
    assert_eq!(doc.packages[0].version, "2.12");
    assert_eq!(doc.packages[0].synopsis, "Greets");
    assert_eq!(doc.header.generated_ms, "42");
    match doc_from_nix_output(true, "exit status: 0", b"[1, 2]", 0) {
        Err(IndexerError::Exited(m)) => assert_eq!(m, "nix search output is not an object"),
        _ => panic!("expected an error"),
    }
    match doc_from_nix_output(true, "exit status: 0", b"{oops", 0) {
        Err(IndexerError::Exited(m)) => assert!(m.starts_with("invalid JSON from nix search: ")),
        _ => panic!("expected an error"),
    }
    match doc_from_nix_output(false, "exit status: 1", b"{}", 0) {
        Err(IndexerError::Exited(m)) => assert_eq!(m, "nix search exited with exit status: 1"),
        _ => panic!("expected an error"),
    }
    match doc_from_nix_output(true, "exit status: 0", b"", 0) {
        Err(IndexerError::Exited(m)) => assert_eq!(m, "nix search produced no output"),
        _ => panic!("expected an error"),
    }
}

#[test]
fn commit_of_nix_describe() {
    assert_eq!(commit_from_describe(true, br#"[{"commit":"abc123","x":1}]"#), Some("abc123".to_string()));
    assert_eq!(commit_from_describe(false, br#"[{"commit":"abc123"}]"#), None);
    assert_eq!(commit_from_describe(true, b""), None);
    assert_eq!(commit_from_describe(true, br#"{"commit":"abc"}"#), None);
    assert_eq!(commit_from_describe(true, b"not json"), None);
}

#[test]
fn database_load_failure_message() {
    let ev = db_load_failed(&CacheError::Read("no such table: meta".into()));
    assert_eq!(failed_msg(&ev), "DB load failed (cache read failed: no such table: meta); press R to rebuild");
}
