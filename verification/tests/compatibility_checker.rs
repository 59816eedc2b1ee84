use license_compliance::compatibility_checker::{CompatibilityChecker, CompatibilityStatus, Verdict};
use license_compliance::spdx_parser::SpdxParser;
use license_compliance::dependency_scanner::DependencyLicense;
use license_compliance::license_db::{LicenseDb, LicenseType};

fn dep(name: &str, license: Option<&str>) -> DependencyLicense {
    DependencyLicense {
        name: name.to_string(),
        version: "0.1.0".to_string(),
        license_expression: license.map(|s| s.to_string()),
        license_ids: vec![],
        unknown_licenses: vec![],
    }
}

#[test]
fn permissive_dependency_is_compatible() {
    let checker = CompatibilityChecker::new();
    let c = checker.check_one(&dep("serde", Some("MIT")), "MIT");
    assert_eq!(c.status, CompatibilityStatus::Compatible);
    assert_eq!(c.license_type, Some(LicenseType::Permissive));
    assert!(c.requires_attribution);
    assert!(c.notes.is_empty());
    assert_eq!(c.dep.name, "serde");
}

#[test]
fn copyleft_dependency_is_incompatible_with_reason_and_notes() {
    let checker = CompatibilityChecker::new();
    let c = checker.check_one(&dep("gpl-crate", Some("GPL-3.0")), "MIT");
    assert_eq!(
        c.status,
        CompatibilityStatus::Incompatible { reason: "GPL-3.0 (Copyleft) is not compatible with MIT".into() }
    );
    assert_eq!(
        c.notes,
        vec![
            "GPL-3.0 requires source code disclosure".to_string(),
            "GPL-3.0 requires retaining the license notice".to_string(),
        ]
    );
}

#[test]
fn missing_license_is_unknown() {
    let checker = CompatibilityChecker::new();
    let c = checker.check_one(&dep("x", None), "MIT");
    assert_eq!(c.status, CompatibilityStatus::Unknown);
    assert_eq!(c.license_type, None);
    assert!(!c.requires_attribution);
    assert_eq!(c.notes, vec!["No license information found".to_string()]);
}

#[test]
fn or_with_one_compatible_branch_is_compatible() {
    let checker = CompatibilityChecker::new();
    let c = checker.check_one(&dep("x", Some("GPL-3.0 OR MIT")), "MIT");
    assert_eq!(c.status, CompatibilityStatus::Compatible);
    assert!(c.requires_attribution);
}

#[test]
fn or_without_compatible_branch_joins_reasons() {
    let checker = CompatibilityChecker::new();
    let c = checker.check_one(&dep("x", Some("GPL-3.0 OR LGPL-3.0")), "Apache-2.0");
    assert_eq!(
        c.status,
        CompatibilityStatus::Incompatible {
            reason: "GPL-3.0 (Copyleft) is not compatible with Apache-2.0; LGPL-3.0 (Weak Copyleft) is not compatible with Apache-2.0".into()
        }
    );
    assert_eq!(c.license_type, Some(LicenseType::WeakCopyleft));
}

#[test]
fn or_of_unknown_licenses_is_unknown() {
    let checker = CompatibilityChecker::new();
    let c = checker.check_one(&dep("x", Some("Foo OR Bar")), "MIT");
    assert_eq!(c.status, CompatibilityStatus::Unknown);
    assert_eq!(
        c.notes,
        vec!["Unknown license identifier: Foo".to_string(), "Unknown license identifier: Bar".to_string()]
    );
}

#[test]
fn and_with_incompatible_part_is_incompatible() {
    let checker = CompatibilityChecker::new();
    let c = checker.check_one(&dep("x", Some("MIT AND GPL-2.0")), "MIT");
    assert!(matches!(c.status, CompatibilityStatus::Incompatible { .. }));
}

#[test]
fn unknown_id_in_an_and_makes_it_unknown() {
    let checker = CompatibilityChecker::new();
    let c = checker.check_one(&dep("x", Some("MIT AND FooBar")), "MIT");
    assert_eq!(c.status, CompatibilityStatus::Unknown);
    assert_eq!(c.notes, vec!["Unknown license identifier: FooBar".to_string()]);
}

#[test]
fn unknown_license_alone_is_unknown() {
    let checker = CompatibilityChecker::new();
    let c = checker.check_one(&dep("a", Some("Foo-1.0")), "MIT");
    assert_eq!(c.status, CompatibilityStatus::Unknown);
    assert_eq!(c.license_type, None);
    assert!(!c.requires_attribution);
    assert_eq!(c.notes, vec!["Unknown license identifier: Foo-1.0".to_string()]);
}

#[test]
fn and_needs_every_branch_even_around_an_or() {
    let checker = CompatibilityChecker::new();
    let c = checker.check_one(&dep("a", Some("(MIT OR Apache-2.0) AND GPL-3.0")), "MIT");
    assert_eq!(
        c.status,
        CompatibilityStatus::Incompatible { reason: "GPL-3.0 (Copyleft) is not compatible with MIT".into() }
    );
    let c = checker.check_one(&dep("b", Some("(GPL-3.0 OR MIT) AND ISC")), "MIT");
    assert_eq!(c.status, CompatibilityStatus::Compatible);
}

#[test]
fn or_with_incompatible_and_unknown_branch_is_incompatible() {
    let checker = CompatibilityChecker::new();
    let c = checker.check_one(&dep("a", Some("GPL-3.0 OR Foo")), "MIT");
    assert_eq!(
        c.status,
        CompatibilityStatus::Incompatible { reason: "GPL-3.0 (Copyleft) is not compatible with MIT".into() }
    );
    let c = checker.check_one(&dep("b", Some("Foo OR Bar")), "MIT");
    assert_eq!(c.status, CompatibilityStatus::Unknown);
}

#[test]
fn expression_verdicts() {
    let checker = CompatibilityChecker::new();
    let parser = SpdxParser::new();
    let v = |s: &str, p: &str| checker.expression_verdict(&parser.parse(s), p);
    assert_eq!(v("MIT", "MIT"), Verdict::Compatible);
    assert_eq!(v("GPL-2.0 WITH Classpath-exception-2.0", "MIT"), Verdict::Incompatible);
    assert_eq!(v("Foo", "MIT"), Verdict::Unknown);
    assert_eq!(v("Foo AND GPL-3.0", "MIT"), Verdict::Incompatible);
    assert_eq!(v("Foo OR ISC", "Apache-2.0"), Verdict::Compatible);
    assert_eq!(v("GPL-3.0 OR Foo", "MIT"), Verdict::Incompatible);
    assert_eq!(v("LGPL-2.1 OR GPL-3.0", "MIT OR Apache-2.0"), Verdict::Incompatible);
}

#[test]
fn dual_license_project_needs_both() {
    let checker = CompatibilityChecker::new();
    let c = checker.check_one(&dep("x", Some("MPL-2.0")), "MIT OR Apache-2.0");
    assert_eq!(c.status, CompatibilityStatus::Compatible);
    assert_eq!(c.notes, vec!["MPL-2.0 requires retaining the license notice".to_string()]);
    let c = checker.check_one(&dep("y", Some("LGPL-2.1")), "MIT OR Apache-2.0");
    assert!(matches!(c.status, CompatibilityStatus::Incompatible { .. }));
}

#[test]
fn check_all_checks_each_dependency_in_order() {
    let checker = CompatibilityChecker::default();
    let deps = vec![dep("a", Some("MIT")), dep("b", Some("AGPL-3.0")), dep("c", None)];
    let checks = checker.check_all(&deps, "MIT");
    assert_eq!(checks.len(), 3);
    assert_eq!(checks[0].status, CompatibilityStatus::Compatible);
    assert!(matches!(checks[1].status, CompatibilityStatus::Incompatible { .. }));
    assert_eq!(checks[2].status, CompatibilityStatus::Unknown);
    assert_eq!(checks[1].dep.name, "b");
}

#[test]
fn are_compatible_pairs() {
    let checker = CompatibilityChecker::new();
    assert!(checker.are_compatible("MIT", "Apache-2.0"));
    assert!(!checker.are_compatible("MIT", "GPL-3.0"));
    assert!(checker.are_compatible("Apache-2.0", "mit"));
    assert!(!checker.are_compatible("MIT", "Unknown-1.0"));
    assert!(!checker.are_compatible("GPL-3.0", "LGPL-2.1"));
}

#[test]
fn single_license_check_agrees_with_are_compatible() {
    let checker = CompatibilityChecker::new();
    for id in ["MIT", "GPL-2.0", "MPL-2.0", "LGPL-3.0", "Unlicense"] {
        for project in ["MIT", "Apache-2.0", "MIT OR Apache-2.0"] {
            let c = checker.check_one(&dep("x", Some(id)), project);
            assert_eq!(c.status == CompatibilityStatus::Compatible, checker.are_compatible(project, id));
        }
    }
}

#[test]
fn every_builtin_license_alone_follows_are_compatible() {
    let checker = CompatibilityChecker::new();
    let db = LicenseDb::new();
    for project in ["MIT", "Apache-2.0", "MIT OR Apache-2.0"] {
        for info in db.all() {
            let c = checker.check_one(&dep("d", Some(&info.id)), project);
            assert_eq!(c.license_type, Some(info.license_type));
            if checker.are_compatible(project, &info.id) {
                assert_eq!(c.status, CompatibilityStatus::Compatible);
            } else {
                assert_eq!(
                    c.status,
                    CompatibilityStatus::Incompatible {
                        reason: format!("{} ({}) is not compatible with {}", info.id, info.license_type.label(), project)
                    }
                );
            }
        }
    }
    let c = checker.check_one(&dep("d", Some("GPL-2.0")), "Apache-2.0");
    assert_eq!(
        c.status,
        CompatibilityStatus::Incompatible { reason: "GPL-2.0 (Copyleft) is not compatible with Apache-2.0".into() }
    );
    let c = checker.check_one(&dep("d", Some("MPL-2.0")), "MIT");
    assert_eq!(c.status, CompatibilityStatus::Compatible);
    assert_eq!(c.license_type, Some(LicenseType::WeakCopyleft));
}
