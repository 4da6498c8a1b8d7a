use nixvis::nix_derivation::{derivation_info_from, extract_name, installable};

#[test]
fn test_extract_name() {
    assert_eq!(extract_name("/nix/store/abc123-glibc-2.39"), "glibc-2.39");
    assert_eq!(extract_name("glibc-2.39"), "2.39");
    assert_eq!(extract_name("hello"), "hello");
}

#[test]
fn extract_name_keeps_whole_path_without_dash() {
    assert_eq!(extract_name("/nix/store/abc"), "/nix/store/abc");
    assert_eq!(extract_name("/nix/store/abc-hello-2.12.drv"), "hello-2.12.drv");
    assert_eq!(extract_name(""), "");
    assert_eq!(extract_name("a-b/c"), "a-b/c");
}

#[test]
fn installable_adds_nixpkgs_prefix() {
    assert_eq!(installable("hello"), "nixpkgs#hello");
    assert_eq!(installable("github:foo/bar#baz"), "github:foo/bar#baz");
}

#[test]
fn derivation_info_names_inputs() {
    let builds = vec!["/nix/store/aaa-gcc-13".to_string()];
    let drvs = vec!["/nix/store/bbb-zlib-1.3.drv".to_string()];
    let srcs = vec!["/nix/store/ccc-source".to_string()];
    let info = derivation_info_from("hello", &builds, &drvs, &srcs);
    assert_eq!(info.attr, "hello");
    assert_eq!(info.inputs, vec!["gcc-13".to_string(), "zlib-1.3.drv".to_string()]);
    assert!(info.propagated.is_empty());
    assert_eq!(info.native, vec!["source".to_string()]);
}
