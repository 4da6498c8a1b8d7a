use nixvis::app::{AppCore, CachedIndexInfo, Command, Effect, Key, KeyPress, Phase, Tab, command_for};
use nixvis::index::Index;
use nixvis::model::{Header, IndexDoc, PkgJson, SCHEMA_VERSION};
use nixvis::options::{HmOption, NixosOption, OptionsDoc, OptionsIndex};

fn key(c: char) -> KeyPress {
    KeyPress { code: Key::Char(c), ctrl: false, shift: false }
}

fn code(k: Key) -> KeyPress {
    KeyPress { code: k, ctrl: false, shift: false }
}

fn ready_core() -> AppCore {
    let mut c = AppCore::new(true, None, None);
    let _ = c.on_ready(true, false, Some((2, 0)));
    c
}

fn pj(id: u32, name: &str, inputs: &[&str], homepage: &str) -> PkgJson {
    PkgJson {
        id,
        name: name.to_string(),
        attribute: name.to_string(),
        version: "1".to_string(),
        synopsis: String::new(),
        description: String::new(),
        homepage: homepage.to_string(),
        licenses: vec![],
        file: (String::new(), 0),
        inputs: inputs.iter().map(|s| s.to_string()).collect(),
        propagated_inputs: vec![],
        native_inputs: vec![],
        store_path: String::new(),
        installed: false,
        flake: String::new(),
    }
}

fn small_index() -> Index {
    let pkgs = vec![pj(0, "a", &["b"], "https://a.example"), pj(1, "b", &[], ""), pj(2, "c", &["a", "b"], "")];
    let doc = IndexDoc {
        header: Header { schema: SCHEMA_VERSION, nixpkgs_commit: String::new(), generated_ms: String::new(), package_count: 3 },
        packages: pkgs,
    };
    Index::from_doc(doc, 0).ok().unwrap()
}

fn opt(name: &str, desc: &str) -> NixosOption {
    NixosOption {
        name: name.into(),
        description: desc.into(),
        option_type: "bool".into(),
        default: String::new(),
        example: String::new(),
        declared_in: String::new(),
    }
}

#[test]
fn new_core_phases() {
    let info = CachedIndexInfo { modified: 5, size_bytes: 10, commit: "c".into() };
    let c = AppCore::new(false, Some(info.clone()), None);
    assert!(matches!(c.phase, Phase::Startup { timestamp: 5, size_bytes: 10, .. }));
    let c = AppCore::new(true, Some(info.clone()), None);
    assert!(matches!(c.phase, Phase::Loading { done: 0, total: 0 }));
    let c = AppCore::new(false, None, Some(info));
    assert!(matches!(c.phase, Phase::Startup { .. }));
    let c = AppCore::new(false, None, None);
    assert!(matches!(c.phase, Phase::Loading { .. }));
    assert_eq!(c.tab, Tab::Overview);
    assert!(c.dirty);
    assert_eq!(c.size, (80, 24));
}

#[test]
fn startup_keys_continue_rebuild_quit() {
    let info = CachedIndexInfo { modified: 5, size_bytes: 10, commit: "c".into() };
    let mut c = AppCore::new(false, Some(info.clone()), None);
    let fx = c.on_key(key('C'), None, None);
    assert!(matches!(fx.as_slice(), [Effect::LoadCached]));
    assert!(matches!(c.phase, Phase::Loading { .. }));
    let mut c = AppCore::new(false, Some(info.clone()), None);
    let fx = c.on_key(key('r'), None, None);
    assert!(matches!(fx.as_slice(), [Effect::StartRebuild]));
    let mut c = AppCore::new(false, Some(info), None);
    c.on_key(key('Q'), None, None);
    assert!(c.quit);
}

#[test]
fn rebuild_ignored_while_loading() {
    let mut c = AppCore::new(true, None, None);
    let fx = c.on_key(key('R'), None, None);
    assert!(fx.is_empty());
}

#[test]
fn typing_then_backspace_restores_query() {
    let mut c = ready_core();
    let fx = c.on_key(key('x'), None, None);
    assert!(matches!(fx.as_slice(), [Effect::QueryEdited]));
    assert_eq!(c.query, "x");
    assert_eq!(c.pending_query.as_deref(), Some("x"));
    c.on_key(key('y'), None, None);
    c.on_key(code(Key::Backspace), None, None);
    assert_eq!(c.query, "x");
    assert_eq!(c.pending_query.as_deref(), Some("x"));
}

#[test]
fn command_chars_type_while_searching() {
    let mut c = ready_core();
    c.on_key(key('x'), None, None);
    c.on_key(key('h'), None, None);
    c.on_key(key('q'), None, None);
    c.on_key(key('2'), None, None);
    assert_eq!(c.query, "xhq2");
    assert!(!c.quit);
    assert_eq!(c.tab, Tab::Overview);
    assert_eq!(command_for(key('q'), false, true), Command::Quit);
    assert_eq!(command_for(key('q'), false, false), Command::Type('q'));
    assert_eq!(command_for(key('T'), false, false), Command::PrevTheme);
    assert_eq!(command_for(key('t'), false, true), Command::NextTheme);
    assert_eq!(command_for(key('t'), false, false), Command::Type('t'));
}

#[test]
fn escape_closes_help_then_clears_query() {
    let mut c = ready_core();
    c.on_key(key('?'), None, None);
    assert!(c.help_open);
    c.on_key(key('a'), None, None);
    c.on_key(code(Key::Esc), None, None);
    assert!(!c.help_open);
    assert_eq!(c.query, "a");
    let fx = c.on_key(code(Key::Esc), None, None);
    assert_eq!(c.query, "");
    assert!(matches!(fx.as_slice(), [Effect::QueryEdited]));
}

#[test]
fn tab_cycles_both_ways() {
    let mut c = ready_core();
    c.on_key(code(Key::Tab), None, None);
    assert_eq!(c.tab, Tab::Deps);
    c.on_key(KeyPress { code: Key::Tab, ctrl: false, shift: true }, None, None);
    c.on_key(KeyPress { code: Key::Tab, ctrl: false, shift: true }, None, None);
    assert_eq!(c.tab, Tab::HmOptions);
    c.on_key(code(Key::Esc), None, None);
    assert_eq!(c.tab, Tab::Overview);
    assert_eq!(Tab::Graph.next(), Tab::NixosOptions);
    assert_eq!(Tab::Overview.prev(), Tab::HmOptions);
    assert_eq!(Tab::Deps.label(), "Dependencies");
    assert_eq!(Tab::HmOptions.key(), '6');
}

#[test]
fn theme_cycles_and_ctrl_c_quits() {
    let mut c = ready_core();
    for _ in 0..9 {
        c.on_key(key('t'), None, None);
    }
    assert_eq!(c.theme_idx, 1);
    assert_eq!(c.query, "");
    c.on_key(key('T'), None, None);
    c.on_key(key('T'), None, None);
    assert_eq!(c.theme_idx, 7);
    c.on_key(KeyPress { code: Key::Char('c'), ctrl: true, shift: false }, None, None);
    assert!(c.quit);
}

#[test]
fn cursor_moves_within_results() {
    let idx = small_index();
    let mut c = ready_core();
    c.adopt_reply(3, vec![0, 1, 2]);
    c.on_key(code(Key::Down), Some(&idx), None);
    c.on_key(code(Key::Down), Some(&idx), None);
    c.on_key(code(Key::Down), Some(&idx), None);
    assert_eq!(c.cursor, 2);
    c.on_key(code(Key::PageUp), Some(&idx), None);
    assert_eq!(c.cursor, 0);
    c.on_key(key('G'), Some(&idx), None);
    assert_eq!(c.cursor, 2);
    c.on_key(key('g'), Some(&idx), None);
    assert_eq!(c.cursor, 0);
    assert_eq!(c.row_count(Some(&idx)), 3);
}

#[test]
fn graph_tab_builds_graph_of_selection() {
    let idx = small_index();
    let mut c = ready_core();
    c.adopt_reply(1, vec![2]);
    let fx = c.on_key(key('v'), Some(&idx), None);
    assert!(matches!(fx.as_slice(), [Effect::GraphChanged]));
    assert_eq!(c.tab, Tab::Graph);
    assert_eq!(c.graph.root, 2);
    assert_eq!(c.graph.nodes, vec![2, 0, 1]);
    c.on_key(key('j'), Some(&idx), None);
    assert_eq!(c.graph.selected, 1);
    let fx = c.on_key(code(Key::Enter), Some(&idx), None);
    assert!(matches!(fx.as_slice(), [Effect::GraphChanged]));
    assert_eq!(c.graph.root, 0);
    c.on_key(key('-'), Some(&idx), None);
    assert_eq!(c.graph.depth, 1);
}

#[test]
fn homepage_of_selection() {
    let idx = small_index();
    let mut c = ready_core();
    c.adopt_reply(1, vec![0]);
    let fx = c.on_key(key('o'), Some(&idx), None);
    match fx.as_slice() {
        [Effect::OpenUrl(u)] => assert_eq!(u, "https://a.example"),
        _ => panic!("expected one url"),
    }
    c.adopt_reply(2, vec![1]);
    assert!(c.on_key(key('o'), Some(&idx), None).is_empty());
}

fn chain_index() -> Index {
    let pkgs = vec![pj(0, "x", &["y"], ""), pj(1, "y", &["z"], ""), pj(2, "z", &[], "")];
    let doc = IndexDoc {
        header: Header { schema: SCHEMA_VERSION, nixpkgs_commit: String::new(), generated_ms: String::new(), package_count: 3 },
        packages: pkgs,
    };
    Index::from_doc(doc, 0).ok().unwrap()
}

#[test]
fn deps_tab_toggles_rows() {
    let idx = chain_index();
    let mut c = ready_core();
    // The tree is drawn for the result under the cursor, so the cursor may
    // only move within the results: give it two rows of the same package.
    c.adopt_reply(1, vec![0, 0]);
    c.on_key(key('d'), Some(&idx), None);
    assert_eq!(c.tab, Tab::Deps);
    // rows: x, then its dependency y (closed)
    let before = c.row_count(Some(&idx));
    assert_eq!(before, 2);
    c.on_key(code(Key::Down), Some(&idx), None);
    assert_eq!(c.cursor, 1);
    c.on_key(code(Key::Enter), Some(&idx), None);
    // y is open: its own dependency z shows under it
    assert_eq!(c.row_count(Some(&idx)), 3);
    c.on_key(code(Key::Left), Some(&idx), None);
    assert_eq!(c.row_count(Some(&idx)), before);
}

#[test]
fn deps_tree_lists_children_by_name_in_pre_order() {
    // c depends on a and b, a on b: the rows are c, a, b; opening a lists
    // its own b right beneath it, before c's b.
    let idx = small_index();
    let mut c = ready_core();
    c.adopt_reply(1, vec![2, 2, 2, 2]);
    c.on_key(key('d'), Some(&idx), None);
    assert_eq!(c.row_count(Some(&idx)), 3);
    c.on_key(code(Key::Down), Some(&idx), None);
    c.on_key(code(Key::Enter), Some(&idx), None);
    assert_eq!(c.row_count(Some(&idx)), 4);
    let rows = nixvis::ui::tree::dep_rows(&idx, &c.tree, 2, usize::MAX).0;
    let ids: Vec<u32> = rows.iter().map(|r| r.id).collect();
    assert_eq!(ids, vec![2, 0, 1, 1]);
    let depths: Vec<u8> = rows.iter().map(|r| r.depth).collect();
    assert_eq!(depths, vec![0, 1, 2, 1]);
}

fn cycle_index() -> Index {
    let pkgs = vec![pj(0, "root", &["a"], ""), pj(1, "a", &["root"], "")];
    let doc = IndexDoc {
        header: Header { schema: SCHEMA_VERSION, nixpkgs_commit: String::new(), generated_ms: String::new(), package_count: 2 },
        packages: pkgs,
    };
    Index::from_doc(doc, 0).ok().unwrap()
}

#[test]
fn deps_tree_never_lists_an_ancestor_again() {
    let idx = cycle_index();
    let mut c = ready_core();
    c.adopt_reply(1, vec![0, 0]);
    c.on_key(key('d'), Some(&idx), None);
    c.on_key(code(Key::Down), Some(&idx), None);
    c.on_key(code(Key::Enter), Some(&idx), None);
    // a is open, but its dependency is the root, already above it
    let rows = nixvis::ui::tree::dep_rows(&idx, &c.tree, 0, usize::MAX).0;
    let ids: Vec<u32> = rows.iter().map(|r| r.id).collect();
    assert_eq!(ids, vec![0, 1]);
}

#[test]
fn tree_rows_are_cut_to_the_cap() {
    let idx = small_index();
    let c = ready_core();
    assert_eq!(nixvis::ui::tree::dep_rows(&idx, &c.tree, 2, 2).0.len(), 2);
    // the reverse view of b: b, its dependents a and c, the section row
    assert_eq!(nixvis::ui::tree::rev_rows(&idx, &c.rev, 1, usize::MAX).0.len(), 4);
    assert_eq!(nixvis::ui::tree::rev_rows(&idx, &c.rev, 1, 2).0.len(), 2);
}

#[test]
fn deps_tree_follows_the_result_under_the_cursor() {
    let idx = small_index();
    let mut c = ready_core();
    c.adopt_reply(1, vec![2]);
    c.on_key(key('d'), Some(&idx), None);
    assert_eq!(c.row_count(Some(&idx)), 3);
    c.on_key(code(Key::Down), Some(&idx), None);
    // past the single result no package is selected, so the tree is empty
    assert_eq!(c.row_count(Some(&idx)), 0);
}

#[test]
fn options_tab_filters_while_typing() {
    let opts = OptionsIndex {
        doc: OptionsDoc {
            nixos_options: vec![opt("services.nginx.enable", "Whether to enable Nginx."), opt("boot.loader", "Loader")],
            hm_options: vec![] as Vec<HmOption>,
        },
    };
    let mut c = ready_core();
    c.on_key(key('5'), None, Some(&opts));
    assert_eq!(c.tab, Tab::NixosOptions);
    c.on_key(key('N'), None, Some(&opts));
    assert_eq!(c.nixos_results, vec![0]);
    c.on_key(code(Key::Backspace), None, Some(&opts));
    assert_eq!(c.nixos_results, vec![0, 1]);
}

#[test]
fn tick_flushes_pending_query_after_debounce() {
    let mut c = ready_core();
    c.on_key(key('z'), None, None);
    assert!(c.on_tick(false).is_none());
    assert_eq!(c.on_tick(true).as_deref(), Some("z"));
    assert!(c.pending_query.is_none());
    assert_eq!(c.tick, 2);
}

#[test]
fn ready_resets_views() {
    let mut c = ready_core();
    c.on_key(key('q'), None, None);
    c.quit = false;
    c.on_progress(3, 9);
    assert!(matches!(c.phase, Phase::Loading { done: 3, total: 9 }));
    c.on_failed("boom".into());
    assert!(matches!(c.phase, Phase::Failed { .. }));
    let q = c.on_ready(false, true, Some((1, 2)));
    assert_eq!(q, "");
    assert_eq!(c.nixos_results, vec![0]);
    assert_eq!(c.hm_results, vec![0, 1]);
    assert!(matches!(c.phase, Phase::Ready { fresh: false, unkeyed: true }));
}

#[test]
fn ctrl_c_quits_at_the_startup_prompt() {
    let cached = CachedIndexInfo { modified: 5, size_bytes: 10, commit: "abc".to_string() };
    let mut c = AppCore::new(false, Some(cached), None);
    assert!(matches!(c.phase, Phase::Startup { .. }));
    let fx = c.on_key(KeyPress { code: Key::Char('c'), ctrl: true, shift: false }, None, None);
    assert!(c.quit);
    assert!(fx.is_empty());
    assert!(matches!(c.phase, Phase::Startup { .. }));
}
