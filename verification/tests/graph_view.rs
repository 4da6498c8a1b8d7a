use nixvis::graph::{clamp_depth, project, wrap_select, Dir, GraphView, XorShift};
use nixvis::index::Index;
use nixvis::model::{Header, IndexDoc, PkgJson, SCHEMA_VERSION};

fn pj(id: u32, name: &str, inputs: &[&str]) -> PkgJson {
    PkgJson {
        id,
        name: name.into(),
        attribute: String::new(),
        version: String::new(),
        synopsis: String::new(),
        description: String::new(),
        homepage: String::new(),
        licenses: vec![],
        file: (String::new(), 0),
        inputs: inputs.iter().map(|s| s.to_string()).collect(),
        propagated_inputs: vec![],
        native_inputs: vec![],
        store_path: String::new(),
        installed: false,
        flake: String::new(),
    }
}

fn index() -> Index {
    let pkgs = vec![pj(0, "hub", &[]), pj(1, "a", &["hub"]), pj(2, "b", &["hub", "a"]), pj(3, "c", &["b"])];
    let doc = IndexDoc {
        header: Header { schema: SCHEMA_VERSION, nixpkgs_commit: String::new(), generated_ms: String::new(), package_count: 4 },
        packages: pkgs,
    };
    Index::from_doc(doc, 0).ok().unwrap()
}

#[test]
fn clamp_and_wrap() {
    assert_eq!(clamp_depth(2, 1), 3);
    assert_eq!(clamp_depth(1, -1), 1);
    assert_eq!(clamp_depth(8, 1), 8);
    assert_eq!(wrap_select(0, -1, 3), 2);
    assert_eq!(wrap_select(2, 1, 3), 0);
    assert_eq!(wrap_select(1, -7, 3), 0);
}

#[test]
fn projections() {
    let idx = index();
    let p = project(&idx, 3, Dir::Deps, 3, 200);
    assert_eq!(p.nodes, vec![3, 2, 0, 1]);
    assert_eq!(p.depth_of, vec![0, 1, 2, 2]);
    assert!(p.edges.contains(&(0, 1)));
    assert_eq!(p.truncated, 0);
    let p = project(&idx, 3, Dir::Deps, 3, 1);
    assert_eq!(p.nodes, vec![3, 2]);
    assert_eq!(p.truncated, 2);
    let r = project(&idx, 0, Dir::Dependents, 3, 200);
    assert_eq!(r.nodes[0], 0);
    // hubs first: b has one dependent (c), a has one (b); tie broken by name
    assert_eq!(r.nodes, vec![0, 1, 2, 3]);
}

#[test]
fn graph_state_rebuild_and_select() {
    let idx = index();
    let mut g = GraphView::default();
    assert!(!g.laid_out);
    g.rebuild(&idx, 3, 2);
    assert!(g.laid_out);
    assert_eq!(g.nodes, vec![3, 2, 0, 1]);
    g.select_delta(-1);
    assert_eq!(g.selected_id(), Some(1));
}

#[test]
fn xorshift_sequence() {
    let mut r = XorShift::new(0);
    assert_eq!(r.0, 1);
    let a = r.next_u64();
    let mut s = XorShift::new(1);
    assert_eq!(s.next_u64(), a);
    let mut x: u64 = 1;
    x ^= x >> 12;
    x ^= x << 25;
    x ^= x >> 27;
    assert_eq!(a, x.wrapping_mul(0x2545_F491_4F6C_DD1D));
}
