use nixvis::graph::{Dir, NODE_BUDGET};
use nixvis::index::Index;
use nixvis::indexer::IndexEvent;
use nixvis::model::{Header, IndexDoc, PkgJson, SCHEMA_VERSION};
use nixvis::web::{graph_detail, graph_query, is_local_host, package_detail, search_query, WebCore, WebPhase};
use std::sync::Arc;

#[test]
fn local_hosts() {
    assert!(is_local_host("localhost"));
    assert!(is_local_host("localhost:8787"));
    assert!(is_local_host(" 127.0.0.1:80 "));
    assert!(is_local_host("[::1]:8787"));
    assert!(is_local_host("[::1]"));
    assert!(!is_local_host("::1"));
    assert!(!is_local_host("example.com"));
    assert!(!is_local_host("localhost.evil.com"));
    assert!(!is_local_host(""));
    assert!(is_local_host("\u{2003}localhost\t"));
}

#[test]
fn graph_query_defaults_and_errors() {
    assert_eq!(graph_query(None, None, None).unwrap(), (Dir::Deps, 2, NODE_BUDGET));
    assert_eq!(graph_query(Some("reverse"), Some(8), Some(5000)).unwrap(), (Dir::Dependents, 8, NODE_BUDGET));
    assert_eq!(graph_query(Some("dependents"), Some(1), Some(3)).unwrap(), (Dir::Dependents, 1, 3));
    assert_eq!(graph_query(Some("up"), None, None).unwrap_err(), "invalid dir \"up\" (use deps|reverse)");
    assert_eq!(graph_query(Some("deps"), Some(0), None).unwrap_err(), "depth must be 1..=8");
    assert_eq!(graph_query(None, Some(9), None).unwrap_err(), "depth must be 1..=8");
}

#[test]
fn search_query_limits() {
    assert_eq!(search_query(None, None).unwrap(), (String::new(), 50));
    assert_eq!(search_query(Some("x".into()), Some(0)).unwrap(), ("x".to_string(), 1));
    assert_eq!(search_query(Some("x".into()), Some(9999)).unwrap(), ("x".to_string(), 500));
    let long: String = "é".repeat(201);
    assert_eq!(search_query(Some(long), None).unwrap_err(), "query too long (max 200 chars)");
    let ok: String = "é".repeat(200);
    assert!(search_query(Some(ok), None).is_ok());
}

fn pj(id: u32, name: &str, inputs: &[&str]) -> PkgJson {
    PkgJson {
        id,
        name: name.into(),
        attribute: String::new(),
        version: format!("{id}.0"),
        synopsis: String::new(),
        description: String::new(),
        homepage: String::new(),
        licenses: vec![],
        file: (String::new(), 0),
        inputs: inputs.iter().map(|s| s.to_string()).collect(),
        propagated_inputs: vec![],
        native_inputs: vec![],
        store_path: String::new(),
        installed: false,
        flake: String::new(),
    }
}

fn index() -> Index {
    let pkgs = vec![pj(0, "app", &["lib", "tool"]), pj(1, "lib", &[]), pj(2, "tool", &["lib"])];
    let doc = IndexDoc {
        header: Header { schema: SCHEMA_VERSION, nixpkgs_commit: String::new(), generated_ms: String::new(), package_count: 3 },
        packages: pkgs,
    };
    Index::from_doc(doc, 0).ok().unwrap()
}

#[test]
fn package_answer() {
    let idx = index();
    let d = package_detail(&idx, &"app".to_string()).unwrap();
    assert_eq!(d.id, 0);
    let deps: Vec<(&str, &str)> = d.deps.iter().map(|v| (v.name.as_str(), v.kind)).collect();
    assert_eq!(deps, vec![("lib", "input"), ("tool", "input")]);
    let d = package_detail(&idx, &"lib".to_string()).unwrap();
    let ds: Vec<(&str, usize)> = d.dependents.iter().map(|v| (v.name.as_str(), v.dependents)).collect();
    assert_eq!(ds, vec![("app", 0), ("tool", 1)]);
    assert!(package_detail(&idx, &"nope".to_string()).is_none());
}

#[test]
fn graph_answer() {
    let idx = index();
    let g = graph_detail(&idx, &"app".to_string(), Dir::Deps, 2, NODE_BUDGET).unwrap();
    let names: Vec<&str> = g.nodes.iter().map(|n| n.name.as_str()).collect();
    assert_eq!(names, vec!["app", "lib", "tool"]);
    assert_eq!(g.nodes[0].degree, 2);
    assert_eq!(g.nodes[1].kind, Some("input"));
    assert_eq!(g.nodes[0].kind, None);
    assert!(g.edges.contains(&("tool".to_string(), "lib".to_string())));
    assert_eq!(g.truncated, 0);
    assert!(graph_detail(&idx, &"x".to_string(), Dir::Deps, 2, 5).is_none());
}

#[test]
fn web_state_generations() {
    let mut s = WebCore::new();
    assert_eq!(s.generation, 0);
    s.apply(IndexEvent::Progress { done: 1, total: 2 });
    assert!(matches!(s.phase, WebPhase::Loading { done: 1, total: 2 }));
    s.apply(IndexEvent::Ready { index: Arc::new(index()), fresh: true, unkeyed: false });
    assert_eq!(s.generation, 1);
    assert!(matches!(s.phase, WebPhase::Ready));
    s.apply(IndexEvent::Failed { msg: "x".into() });
    assert!(s.index.is_some());
    assert_eq!(s.generation, 1);
    let t = WebCore::with_index(index());
    assert_eq!(t.generation, 1);
}
