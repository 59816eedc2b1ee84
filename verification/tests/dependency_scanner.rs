use license_compliance::cargo_parser::CargoInfo;
use license_compliance::dependency_scanner::DependencyScanner;

fn info(name: &str, license: Option<&str>) -> CargoInfo {
    CargoInfo {
        name: name.to_string(),
        version: "1.2.3".to_string(),
        license: license.map(|s| s.to_string()),
        authors: vec![],
        description: None,
    }
}

#[test]
fn scan_resolves_in_priority_order() {
    let scanner = DependencyScanner::new();
    let packages = vec![
        ("serde".to_string(), info("serde", Some("Apache-2.0"))),
        ("walkdir".to_string(), info("walkdir", None)),
        ("mystery".to_string(), info("mystery", None)),
        ("lost".to_string(), info("lost", None)),
    ];
    let registry = vec![None, Some("GPL-3.0".to_string()), Some("MIT AND Foo".to_string()), None];
    let deps = scanner.scan(packages, registry);
    assert_eq!(deps.len(), 4);
    assert_eq!(deps[0].license_expression.as_deref(), Some("Apache-2.0"));
    assert_eq!(deps[0].version, "1.2.3");
    assert_eq!(deps[1].license_expression.as_deref(), Some("Unlicense OR MIT"));
    assert_eq!(deps[1].license_ids, vec!["Unlicense".to_string(), "MIT".to_string()]);
    assert_eq!(deps[2].license_expression.as_deref(), Some("MIT AND Foo"));
    assert_eq!(deps[2].license_ids, vec!["MIT".to_string()]);
    assert_eq!(deps[2].unknown_licenses, vec!["Foo".to_string()]);
    assert_eq!(deps[3].license_expression, None);
    assert!(deps[3].license_ids.is_empty() && deps[3].unknown_licenses.is_empty());
}

#[test]
fn registry_needed_only_without_other_sources() {
    let scanner = DependencyScanner::default();
    assert!(!scanner.needs_registry_lookup("x", &info("x", Some("MIT"))));
    assert!(!scanner.needs_registry_lookup("serde", &info("serde", None)));
    assert!(scanner.needs_registry_lookup("x", &info("x", None)));
}

#[test]
fn resolve_license_prefers_manifest_then_known_crate_then_registry() {
    let scanner = DependencyScanner::new();
    assert_eq!(
        scanner.resolve_license("serde", &info("serde", Some("BSD-3-Clause")), Some("GPL-3.0".to_string())),
        Some("BSD-3-Clause".to_string())
    );
    assert_eq!(
        scanner.resolve_license("serde", &info("serde", None), Some("GPL-3.0".to_string())),
        Some("MIT OR Apache-2.0".to_string())
    );
    assert_eq!(
        scanner.resolve_license("mystery", &info("mystery", None), Some("GPL-3.0".to_string())),
        Some("GPL-3.0".to_string())
    );
    assert_eq!(scanner.resolve_license("mystery", &info("mystery", None), None), None);
}

#[test]
fn resolve_license_ids_splits_known_and_unknown() {
    let scanner = DependencyScanner::new();
    assert_eq!(scanner.resolve_license_ids(&None), (vec![], vec![]));
    let (known, unknown) = scanner.resolve_license_ids(&Some("(MIT OR Foo) AND MIT AND Bar-1.0".to_string()));
    assert_eq!(known, vec!["MIT".to_string()]);
    assert_eq!(unknown, vec!["Foo".to_string(), "Bar-1.0".to_string()]);
}
