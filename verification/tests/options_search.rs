use nixvis::index::Index;
use nixvis::model::{Header, IndexDoc, PkgJson, SCHEMA_VERSION};
use nixvis::options::{option_matches, str_contains, HmOption, NixosOption, OptionsDoc, OptionsIndex};
use nixvis::search::search;

fn nixos(name: &str, desc: &str) -> NixosOption {
    NixosOption {
        name: name.into(),
        description: desc.into(),
        option_type: String::new(),
        default: String::new(),
        example: String::new(),
        declared_in: String::new(),
    }
}

fn hm(name: &str, desc: &str) -> HmOption {
    HmOption {
        name: name.into(),
        description: desc.into(),
        option_type: String::new(),
        default: String::new(),
        example: String::new(),
        declared_in: String::new(),
    }
}

#[test]
fn options_search_is_case_insensitive_in_order() {
    let idx = OptionsIndex {
        doc: OptionsDoc {
            nixos_options: vec![nixos("services.nginx.enable", "x"), nixos("boot", "Enable NGINX tweaks"), nixos("a", "b")],
            hm_options: vec![hm("programs.git.enable", "Git"), hm("programs.zsh", "shell")],
        },
    };
    let r: Vec<&str> = idx.search_nixos("Nginx").iter().map(|o| o.name.as_str()).collect();
    assert_eq!(r, vec!["services.nginx.enable", "boot"]);
    let r: Vec<&str> = idx.search_hm("GIT").iter().map(|o| o.name.as_str()).collect();
    assert_eq!(r, vec!["programs.git.enable"]);
    assert_eq!(idx.search_nixos("").len(), 3);
    assert_eq!(idx.nixos_count(), 3);
    assert_eq!(idx.hm_count(), 2);
}

#[test]
fn substring_matching() {
    assert!(str_contains("hello", "ell"));
    assert!(str_contains("hello", ""));
    assert!(!str_contains("hel", "hello"));
    assert!(option_matches("Foo", "", "fOO"));
    assert!(!option_matches("Foo", "bar", "baz"));
}

fn pj(id: u32, name: &str, synopsis: &str) -> PkgJson {
    PkgJson {
        id,
        name: name.into(),
        attribute: String::new(),
        version: String::new(),
        synopsis: synopsis.into(),
        description: String::new(),
        homepage: String::new(),
        licenses: vec![],
        file: (String::new(), 0),
        inputs: vec![],
        propagated_inputs: vec![],
        native_inputs: vec![],
        store_path: String::new(),
        installed: false,
        flake: String::new(),
    }
}

#[test]
fn package_search() {
    let pkgs = vec![pj(0, "hello", "A greeting"), pj(1, "ripgrep", "Fast grep"), pj(2, "grep", "GNU grep")];
    let doc = IndexDoc {
        header: Header { schema: SCHEMA_VERSION, nixpkgs_commit: String::new(), generated_ms: String::new(), package_count: 3 },
        packages: pkgs,
    };
    let idx = Index::from_doc(doc, 0).ok().unwrap();
    assert_eq!(search(&idx, "GREP", 10), vec![1, 2]);
    assert_eq!(search(&idx, "greeting", 10), vec![0]);
    assert_eq!(search(&idx, "", 2), vec![0, 1]);
    assert_eq!(search(&idx, "grep", 1), vec![1]);
    assert!(search(&idx, "zzz", 10).is_empty());
}

#[test]
fn name_hits_rank_before_other_fields() {
    let mut a = pj(0, "fastgrep-doc", "");
    a.attribute = "tools.ag".into();
    let mut b = pj(1, "ag", "The silver searcher");
    b.description = "A code searching tool similar to ack".into();
    let c = pj(2, "ack", "grep-like tool");
    let doc = IndexDoc {
        header: Header { schema: SCHEMA_VERSION, nixpkgs_commit: String::new(), generated_ms: String::new(), package_count: 3 },
        packages: vec![a, b, c],
    };
    let idx = Index::from_doc(doc, 0).ok().unwrap();
    // "ack" names package 2; package 1 mentions it only in its description
    assert_eq!(search(&idx, "ACK", 10), vec![2, 1]);
    // "ag" names package 1 and is part of the attribute path of package 0
    assert_eq!(search(&idx, "ag", 10), vec![1, 0]);
    assert_eq!(search(&idx, "ag", 1), vec![1]);
}

#[test]
fn longer_query_never_adds_matches() {
    let idx = OptionsIndex {
        doc: OptionsDoc {
            nixos_options: vec![nixos("services.nginx.enable", "x"), nixos("boot", "Enable NGINX tweaks"), nixos("a", "b")],
            hm_options: vec![],
        },
    };
    let short: Vec<&str> = idx.search_nixos("nginx").iter().map(|o| o.name.as_str()).collect();
    let long: Vec<&str> = idx.search_nixos("NGINX.EN").iter().map(|o| o.name.as_str()).collect();
    assert_eq!(long, vec!["services.nginx.enable"]);
    assert!(long.iter().all(|n| short.contains(n)));
    let all: Vec<&str> = idx.search_nixos("").iter().map(|o| o.name.as_str()).collect();
    assert_eq!(all, vec!["services.nginx.enable", "boot", "a"]);
}
