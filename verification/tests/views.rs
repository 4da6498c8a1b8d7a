use nixvis::app::{Phase, RevState, Tab, TreeState};
use nixvis::index::Index;
use nixvis::model::{Header, IndexDoc, PkgJson, SCHEMA_VERSION};
use nixvis::ui::graph::{edges_from, label_mode, shows_label};
use nixvis::ui::list::{adjust_scroll, highlight_spans, results_title};
use nixvis::ui::options::{option_detail, DetailLine};
use nixvis::ui::tree::{dep_rows, deps_title, revs_title, row_segments};
use nixvis::ui::{
    help_popup, left_width, search_placeholder, startup_age_text, status_gap, status_left, status_right, tab_title,
    take_chars, ReadyView, Tone,
};

#[test]
fn startup_age_counts_from_timestamp() {
    let t = 1_700_000_000u64;
    assert_eq!(startup_age_text(0, t), "unknown date");
    assert_eq!(startup_age_text(t, t + 59), "59s ago");
    assert_eq!(startup_age_text(t, t + 120), "2m ago");
    assert_eq!(startup_age_text(t, t + 7200), "2h ago");
    assert_eq!(startup_age_text(t, t + 86400 * 3 + 5), "3d ago");
    // a clock behind the timestamp reads as just now
    assert_eq!(startup_age_text(t, t - 10), "0s ago");
}

#[test]
fn status_texts() {
    let (t, tone) = status_left(&Phase::Loading { done: 0, total: 0 }, 0, None, 0, true, "", 1000);
    assert_eq!(t, "⠋ indexing Nix packages… starting (first run can take minutes)");
    assert_eq!(tone, Tone::Accent);
    let (t, _) = status_left(&Phase::Loading { done: 3, total: 9 }, 15, None, 0, true, "", 1000);
    assert_eq!(t, "⠴ indexing Nix packages… 3/9 (first run can take minutes)");
    let ready = ReadyView { packages: 12, commit: "0123456789".into() };
    let (t, tone) = status_left(&Phase::Ready { fresh: true, unkeyed: true }, 0, Some(&ready), 0, true, "", 1000);
    assert_eq!(t, "12 pkgs · cache fresh · cache unverified (nix describe unavailable) · 0123456");
    assert_eq!(tone, Tone::Muted);
    let empty = ReadyView { packages: 1, commit: String::new() };
    let (t, tone) = status_left(&Phase::Ready { fresh: false, unkeyed: false }, 0, Some(&empty), 4, false, "", 1000);
    assert_eq!(t, "4 matches · 1 pkgs · cache rebuilt · unknown commit");
    assert_eq!(tone, Tone::Accent);
    let (t, tone) = status_left(&Phase::Ready { fresh: false, unkeyed: false }, 0, None, 4, false, "", 1000);
    assert_eq!(t, "");
    assert_eq!(tone, Tone::Plain);
    let (t, tone) = status_left(&Phase::Failed { msg: "boom".into() }, 0, None, 0, true, "", 1000);
    assert_eq!(t, "✗ boom — press R to retry");
    assert_eq!(tone, Tone::Focus);
    let (t, _) = status_left(&Phase::Startup { timestamp: 880, size_bytes: 1, commit: "c".into() }, 0, None, 0, true, "1.5", 1000);
    assert_eq!(t, "💾 cached index found · 1.5 MB · c · 2m ago  (c=continue  r=rebuild)");
    assert_eq!(status_right("dark (default)"), "dark (default) · ? help · q quit · R rebuild");
}

#[test]
fn layout_numbers() {
    assert_eq!(status_gap(100, 20, 30), 50);
    assert_eq!(status_gap(54, 20, 30), 0);
    assert_eq!(status_gap(10, 20, 30), 0);
    assert_eq!(left_width(100), 55);
    assert_eq!(left_width(40), 10);
    assert_eq!(left_width(20), 0);
    assert_eq!(help_popup(0, 0, 200, 50), (62, 12, 76, 26));
    assert_eq!(help_popup(5, 5, 40, 10), (5, 5, 40, 10));
}

#[test]
fn header_texts() {
    assert_eq!(tab_title(Tab::Overview), " Overview(1) ");
    assert_eq!(tab_title(Tab::NixosOptions), " NixOS opts(5) ");
    assert_eq!(search_placeholder(false, true), "index loading — search will unlock…");
    assert_eq!(search_placeholder(true, true), "type to search 32,500 packages (name + synopsis)");
    assert_eq!(search_placeholder(true, false), "");
    assert_eq!(take_chars("héllo", 2), "hé");
}

#[test]
fn list_scroll_and_title() {
    assert_eq!(adjust_scroll(0, 0, 100, 10), 0);
    assert_eq!(adjust_scroll(9, 0, 100, 10), 3);
    assert_eq!(adjust_scroll(50, 0, 100, 10), 44);
    assert_eq!(adjust_scroll(5, 40, 100, 10), 2);
    assert_eq!(adjust_scroll(99, 0, 100, 10), 90);
    assert_eq!(adjust_scroll(3, 7, 0, 10), 7);
    assert_eq!(results_title(true, 5), " results (browsing, type to search)");
    assert_eq!(results_title(false, 5), " results (5)");
}

#[test]
fn highlight_spans_split_text() {
    assert_eq!(highlight_spans(5, &[]), vec![(0, 5, false)]);
    assert_eq!(highlight_spans(5, &[(1, 3)]), vec![(0, 1, false), (1, 3, true), (3, 5, false)]);
    assert_eq!(highlight_spans(5, &[(0, 2), (1, 4), (3, 9)]), vec![(0, 0, false), (0, 2, true), (2, 3, false), (3, 5, true)]);
    assert_eq!(highlight_spans(3, &[(5, 6)]), vec![(0, 3, false)]);
}

#[test]
fn graph_neighbours_and_labels() {
    assert_eq!(edges_from(&[(0, 1), (2, 0), (1, 2), (0, 0)], 0), vec![1, 2]);
    assert!(edges_from(&[], 3).is_empty());
    assert_eq!(label_mode(150), 2);
    assert_eq!(label_mode(120), 1);
    assert_eq!(label_mode(80), 0);
    assert!(shows_label(2, false, true));
    assert!(!shows_label(1, false, true));
    assert!(shows_label(0, true, false));
}

#[test]
fn option_detail_lines() {
    let s = |x: &str| x.to_string();
    let lines = option_detail(&s("a.b"), &s("desc"), &s("bool"), &s("false"), &s(""), &s("mod.nix"));
    assert_eq!(lines.len(), 9);
    assert!(matches!(&lines[0], DetailLine::Field("Name: ", v) if v == "a.b"));
    assert!(matches!(lines[1], DetailLine::Separator));
    assert!(matches!(&lines[6], DetailLine::Field("Default: ", v) if v == "false"));
    assert!(matches!(&lines[8], DetailLine::Field("Declared in: ", v) if v == "mod.nix"));
}

fn pj(id: u32, name: &str, inputs: &[&str], propagated: &[&str]) -> PkgJson {
    PkgJson {
        id,
        name: name.into(),
        attribute: String::new(),
        version: "1.0".into(),
        synopsis: "a library".into(),
        description: String::new(),
        homepage: String::new(),
        licenses: vec![],
        file: (String::new(), 0),
        inputs: inputs.iter().map(|s| s.to_string()).collect(),
        propagated_inputs: propagated.iter().map(|s| s.to_string()).collect(),
        native_inputs: vec![],
        store_path: String::new(),
        installed: false,
        flake: String::new(),
    }
}

#[test]
fn tree_row_pieces() {
    let pkgs = vec![pj(0, "app", &["lib"], &["prop"]), pj(1, "lib", &[], &[]), pj(2, "prop", &["lib"], &[])];
    let doc = IndexDoc {
        header: Header { schema: SCHEMA_VERSION, nixpkgs_commit: String::new(), generated_ms: String::new(), package_count: 3 },
        packages: pkgs,
    };
    let idx = Index::from_doc(doc, 0).ok().unwrap();
    let tree = TreeState::new();
    let rev = RevState::new();
    let (rows, n) = dep_rows(&idx, &tree, 0, 100);
    assert_eq!(n, rows.len());
    let prop_row = rows.iter().find(|r| r.id == 2).unwrap();
    let segs = row_segments(&idx, prop_row, Some(0), &tree, &rev, false);
    let texts: Vec<&str> = segs.iter().map(|(s, _)| s.as_str()).collect();
    assert_eq!(texts, vec!["  ", "▸ ", "prop", " 1.0", " P", " ⤴1", "  a library"]);
    assert_eq!(deps_title(Some(("app", "1.0"))), " dependencies of app 1.0 — Enter expand/collapse ");
    assert_eq!(revs_title(None), " reverse dependencies ");
}
