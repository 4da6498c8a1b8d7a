use nixvis::cache::{classify, decode_cache, encode_cache, startup_commit_label, Cache, CacheStatus};
use nixvis::error::CacheError;
use nixvis::model::{Header, IndexDoc};

fn doc(commit: &str) -> IndexDoc {
    IndexDoc {
        header: Header { schema: 3, nixpkgs_commit: commit.into(), generated_ms: String::new(), package_count: 0 },
        packages: vec![],
    }
}

#[test]
fn cache_paths() {
    assert_eq!(Cache::at("/tmp/nixvis".into()).path(), "/tmp/nixvis/index-v3.json.gz");
    assert_eq!(Cache::at("/tmp/nixvis/".into()).path(), "/tmp/nixvis/index-v3.json.gz");
    assert_eq!(Cache::at(String::new()).path(), "index-v3.json.gz");
    assert_eq!(Cache::at("/c".into()).temp_path(42), "/c/index-v3.json.gz.tmp-42");
    assert_eq!(Cache::at("/c".into()).quarantine_path(7), "/c/index-v3.json.gz.corrupt-7");
}

#[test]
fn classify_fresh_and_stale() {
    assert!(matches!(classify(doc("a"), Some("a"), 5), CacheStatus::Fresh(_, 5)));
    assert!(matches!(classify(doc("a"), None, 5), CacheStatus::Fresh(_, 5)));
    assert!(matches!(classify(doc("a"), Some(""), 5), CacheStatus::Fresh(_, 5)));
    match classify(doc("a"), Some("b"), 5) {
        CacheStatus::Stale { reason, timestamp } => {
            assert_eq!(reason, "cache commit a != live commit b");
            assert_eq!(timestamp, 5);
        }
        _ => panic!("expected stale"),
    }
}

#[test]
fn startup_labels() {
    assert_eq!(startup_commit_label(&Some(CacheStatus::Fresh(doc("x"), 1))), "x");
    assert_eq!(startup_commit_label(&Some(CacheStatus::Stale { reason: "r".into(), timestamp: 1 })), "r");
    assert_eq!(startup_commit_label(&Some(CacheStatus::Absent)), "unknown");
    assert_eq!(startup_commit_label(&None), "unknown");
}

#[test]
fn cache_error_messages() {
    assert_eq!(CacheError::Read("x".into()).message(), "cache read failed: x");
    assert_eq!(CacheError::Parse("x".into()).message(), "cache parse failed: x");
    assert_eq!(CacheError::Write("x".into()).message(), "cache write failed: x");
    assert_eq!(
        CacheError::from(nixvis::error::IndexError::DuplicateId(3)).message(),
        "cache index invalid: duplicate package id 3"
    );
}

#[test]
fn cache_bytes_round_trip() {
    let raw = b"hello world".to_vec();
    let gz = encode_cache(&raw);
    assert_ne!(gz, raw);
    assert_eq!(&gz[..2], &[0x1f, 0x8b]);
    match decode_cache(&gz) {
        Ok(back) => assert_eq!(back, raw),
        Err(_) => panic!("expected the bytes back"),
    }
}

#[test]
fn cache_bytes_that_do_not_decompress() {
    assert!(matches!(decode_cache(b"not gzip"), Err(CacheError::Parse(_))));
}
