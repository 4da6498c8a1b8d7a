use nixvis::model::SCHEMA_VERSION;
use nixvis::nixos_search::{doc_from_sources, pkg_from_source, search_url, EsLicense, EsPackageSource};

fn hello_source() -> EsPackageSource {
    EsPackageSource {
        package_attr_name: "hello".into(),
        package_pname: "hello".into(),
        package_pversion: "2.12.3".into(),
        package_description: Some("A greeting".into()),
        package_long_description: None,
        package_homepage: vec!["https://example.com".into()],
        package_license: vec![EsLicense { short_name: "GPL".into(), full_name: "GPLv3".into() }],
        package_position: None,
        package_dep_count: 1,
    }
}

#[test]
fn test_pkg_from_source() {
    let src = hello_source();
    let pkg = pkg_from_source(src);
    assert_eq!(pkg.name, "hello-2.12.3");
    assert_eq!(pkg.attribute, "hello");
    assert_eq!(pkg.version, "2.12.3");
}

#[test]
fn pkg_from_source_fields() {
    let pkg = pkg_from_source(hello_source());
    assert_eq!(pkg.id, 0);
    assert_eq!(pkg.synopsis, "A greeting");
    assert_eq!(pkg.description, "");
    assert_eq!(pkg.homepage, "https://example.com");
    assert_eq!(pkg.licenses, vec!["GPL".to_string()]);
    assert!(pkg.inputs.is_empty());
    assert!(!pkg.installed);
}

#[test]
fn pkg_from_source_without_pname_uses_attribute() {
    let mut src = hello_source();
    src.package_pname = String::new();
    src.package_license = vec![EsLicense { short_name: String::new(), full_name: "MIT License".into() }];
    src.package_homepage = vec![];
    let pkg = pkg_from_source(src);
    assert_eq!(pkg.name, "hello");
    assert_eq!(pkg.licenses, vec!["MIT License".to_string()]);
    assert_eq!(pkg.homepage, "");
}

#[test]
fn doc_from_sources_header() {
    let doc = doc_from_sources(vec![hello_source(), hello_source()], 1234);
    assert_eq!(doc.header.schema, SCHEMA_VERSION);
    assert_eq!(doc.header.nixpkgs_commit, "nixos-unstable (online)");
    assert_eq!(doc.header.generated_ms, "1234");
    assert_eq!(doc.header.package_count, 2);
    assert_eq!(doc.packages.len(), 2);
    assert_eq!(doc.packages[0].id, 0);
    assert_eq!(doc.packages[1].id, 1);
    assert_eq!(doc.packages[1].name, "hello-2.12.3");
}

#[test]
fn search_url_for_channel() {
    assert_eq!(
        search_url("nixos-unstable"),
        "https://search.nixos.org/backend/latest-51-nixos-unstable/_search"
    );
}
