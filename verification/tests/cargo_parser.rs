use license_compliance::cargo_parser::{lookup_known_crate_license, CargoInfo, CargoParser, PackageSection};

#[test]
fn lockfile_packages_in_order() {
    let lock = "# This file is automatically @generated by Cargo.\nversion = 3\n\n[[package]]\nname = \"aho-corasick\"\nversion = \"1.1.2\"\nsource = \"registry+https://github.com/rust-lang/crates.io-index\"\ndependencies = [\n \"memchr\",\n]\n\n[[package]]\nname = \"memchr\"\nversion = \"2.7.1\"\n";
    let pkgs = CargoParser::parse_lockfile(lock);
    assert_eq!(pkgs.len(), 2);
    assert_eq!(pkgs[0].0, "aho-corasick");
    assert_eq!(pkgs[0].1.name, "aho-corasick");
    assert_eq!(pkgs[0].1.version, "1.1.2");
    assert_eq!(pkgs[0].1.license, None);
    assert!(pkgs[0].1.authors.is_empty());
    assert_eq!(pkgs[1].0, "memchr");
    assert_eq!(pkgs[1].1.version, "2.7.1");
}

#[test]
fn lockfile_with_crlf_and_other_sections() {
    let lock = "[[package]]\r\nname = \"a\"\r\nversion = \"0.1.0\"\r\n\r\n[metadata]\r\nname = \"ignored\"\r\n[[package]]\r\n  name = \"b\"  \r\n";
    let pkgs = CargoParser::parse_lockfile(lock);
    assert_eq!(pkgs.len(), 2);
    assert_eq!(pkgs[0].0, "a");
    assert_eq!(pkgs[0].1.version, "0.1.0");
    assert_eq!(pkgs[1].0, "b");
    assert_eq!(pkgs[1].1.version, "");
}

#[test]
fn empty_lockfile_has_no_packages() {
    assert!(CargoParser::parse_lockfile("").is_empty());
    assert!(CargoParser::parse_lockfile("[[package]]\nversion = \"1\"\n").is_empty());
}

#[test]
fn known_crate_licenses() {
    assert_eq!(lookup_known_crate_license("serde"), Some("MIT OR Apache-2.0"));
    assert_eq!(lookup_known_crate_license("walkdir"), Some("Unlicense OR MIT"));
    assert_eq!(lookup_known_crate_license("ryu"), Some("Apache-2.0 OR BSL-1.0"));
    assert_eq!(lookup_known_crate_license("tokio"), None);
}

#[test]
fn package_section_defaults() {
    let info = CargoParser::from_package(Some(PackageSection {
        name: None,
        version: None,
        license: Some("MIT".to_string()),
        authors: None,
        description: None,
    }))
    .unwrap();
    assert_eq!(info.name, "");
    assert_eq!(info.version, "0.0.0");
    assert_eq!(info.license.as_deref(), Some("MIT"));
    assert!(info.authors.is_empty());
    let err = CargoParser::from_package(None).unwrap_err();
    assert_eq!(err, "Missing [package] section in Cargo.toml");
}

fn manifest(name: &str, license: Option<&str>) -> Option<CargoInfo> {
    Some(CargoInfo {
        name: name.to_string(),
        version: "1.0.0".to_string(),
        license: license.map(|s| s.to_string()),
        authors: vec![],
        description: None,
    })
}

#[test]
fn registry_directories_match_by_prefix() {
    assert!(CargoParser::registry_dir_matches("serde", "serde-1.0.200"));
    assert!(CargoParser::registry_dir_matches("serde", "serde_json-1.0.1"));
    assert!(!CargoParser::registry_dir_matches("serde", "ser-1.0"));
}

#[test]
fn registry_license_is_the_first_matching_manifest() {
    let entries = vec![
        ("anyhow-1.0.0".to_string(), manifest("anyhow", Some("MIT"))),
        ("serde_json-1.0.1".to_string(), manifest("serde_json", Some("Apache-2.0"))),
        ("serde-1.0.100".to_string(), None),
        ("serde-1.0.150".to_string(), manifest("serde", None)),
        ("serde-1.0.200".to_string(), manifest("serde", Some("MIT OR Apache-2.0"))),
        ("serde-1.0.210".to_string(), manifest("serde", Some("MIT"))),
    ];
    assert_eq!(CargoParser::select_registry_license("serde", &entries).as_deref(), Some("MIT OR Apache-2.0"));
    assert_eq!(CargoParser::select_registry_license("anyhow", &entries).as_deref(), Some("MIT"));
    assert_eq!(CargoParser::select_registry_license("tokio", &entries), None);
    let wrong_dir = vec![("other-1.0".to_string(), manifest("tokio", Some("MIT")))];
    assert_eq!(CargoParser::select_registry_license("tokio", &wrong_dir), None);
}
