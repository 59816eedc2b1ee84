use license_compliance::compatibility_checker::{CompatibilityStatus, DependencyCheck};
use license_compliance::dependency_scanner::DependencyLicense;
use license_compliance::license_db::LicenseType;
use license_compliance::report_generator::{truncate, ReportGenerator};

fn make_dep(name: &str, license: Option<&str>) -> DependencyLicense {
    DependencyLicense {
        name: name.to_string(),
        version: "1.0.0".to_string(),
        license_expression: license.map(|s| s.to_string()),
        license_ids: vec![],
        unknown_licenses: vec![],
    }
}

fn make_check(dep: DependencyLicense, status: CompatibilityStatus) -> DependencyCheck {
    DependencyCheck {
        dep,
        status,
        license_type: Some(LicenseType::Permissive),
        requires_attribution: true,
        notes: vec![],
    }
}

#[test]
fn test_generate_report() {
    let checks = vec![
        make_check(
            make_dep("serde", Some("MIT OR Apache-2.0")),
            CompatibilityStatus::Compatible,
        ),
        make_check(
            make_dep("gpl-crate", Some("GPL-3.0")),
            CompatibilityStatus::Incompatible {
                reason: "GPL-3.0 (Copyleft) is not compatible with MIT".into(),
            },
        ),
    ];

    let report = ReportGenerator::generate("MIT", &checks);
    assert_eq!(report.summary.total_dependencies, 2);
    assert_eq!(report.summary.compatible, 1);
    assert_eq!(report.summary.incompatible, 1);
}

#[test]
fn test_format_text() {
    let checks = vec![make_check(
        make_dep("serde", Some("MIT OR Apache-2.0")),
        CompatibilityStatus::Compatible,
    )];
    let report = ReportGenerator::generate("MIT", &checks);
    let text = ReportGenerator::format_text(&report);
    assert!(text.contains("serde"));
    assert!(text.contains("Compatible"));
    assert!(text.contains("Summary"));
}

#[test]
fn test_attribution_list() {
    let checks = vec![
        make_check(
            make_dep("serde", Some("MIT")),
            CompatibilityStatus::Compatible,
        ),
        make_check(
            make_dep("other", Some("MIT")),
            CompatibilityStatus::Compatible,
        ),
    ];
    let report = ReportGenerator::generate("MIT", &checks);
    assert_eq!(report.summary.attribution_required.len(), 2);
    assert!(report.summary.attribution_required.contains(&"serde".to_string()));
}

#[test]
fn counts_add_up_to_total() {
    let mut unknown = make_check(make_dep("mystery", None), CompatibilityStatus::Unknown);
    unknown.requires_attribution = false;
    unknown.license_type = None;
    let checks = vec![
        make_check(make_dep("a", Some("MIT")), CompatibilityStatus::Compatible),
        make_check(make_dep("b", Some("GPL-3.0")), CompatibilityStatus::Incompatible { reason: "r".into() }),
        unknown,
        make_check(make_dep("c", Some("ISC")), CompatibilityStatus::Compatible),
    ];
    let report = ReportGenerator::generate("MIT", &checks);
    let s = &report.summary;
    assert_eq!(s.total_dependencies, 4);
    assert_eq!((s.compatible, s.incompatible, s.unknown), (2, 1, 1));
    assert_eq!(s.compatible + s.incompatible + s.unknown, s.total_dependencies);
    assert_eq!(report.entries.len(), 4);
    assert_eq!(s.attribution_required, vec!["a".to_string(), "b".to_string(), "c".to_string()]);
}

#[test]
fn entries_describe_each_check() {
    let mut unknown = make_check(make_dep("mystery", None), CompatibilityStatus::Unknown);
    unknown.license_type = None;
    unknown.notes = vec!["No license information found".to_string()];
    let checks = vec![
        make_check(make_dep("b", Some("GPL-3.0")), CompatibilityStatus::Incompatible { reason: "why".into() }),
        unknown,
    ];
    let report = ReportGenerator::generate("Apache-2.0", &checks);
    assert_eq!(report.project_license, "Apache-2.0");
    let e0 = &report.entries[0];
    assert_eq!(e0.name, "b");
    assert_eq!(e0.version, "1.0.0");
    assert_eq!(e0.license, "GPL-3.0");
    assert_eq!(e0.compatibility, "❌ Incompatible: why");
    assert_eq!(e0.license_type, "Permissive");
    let e1 = &report.entries[1];
    assert_eq!(e1.license, "Unknown");
    assert_eq!(e1.compatibility, "⚠️ Unknown");
    assert_eq!(e1.license_type, "Unknown");
    assert_eq!(e1.notes, vec!["No license information found".to_string()]);
}

#[test]
fn format_text_exact_layout() {
    let mut check = make_check(make_dep("serde", Some("MIT")), CompatibilityStatus::Compatible);
    check.notes = vec!["a note".to_string()];
    let report = ReportGenerator::generate("MIT", &[check]);
    let text = ReportGenerator::format_text(&report);
    let mut expected = String::new();
    expected.push_str("License Compliance Report\n========================\nProject License: MIT\n\n");
    expected.push_str("Dependencies:\n");
    expected.push_str(&format!("{:<30} {:<12} {:<35} {:<15} {}\n", "CRATE", "VERSION", "LICENSE", "TYPE", "STATUS"));
    expected.push_str(&"-".repeat(110));
    expected.push('\n');
    expected.push_str(&format!("{:<30} {:<12} {:<35} {:<15} {}\n", "serde", "1.0.0", "MIT", "Permissive", "✅ Compatible"));
    expected.push_str("  → a note\n");
    expected.push_str("\nSummary:\n");
    expected.push_str("  Total dependencies:  1\n");
    expected.push_str("  Compatible:          1 ✅\n");
    expected.push_str("  Incompatible:        0 ❌\n");
    expected.push_str("  Unknown:             0 ⚠️\n");
    expected.push_str("\nAttribution Required:\n  • serde\n");
    assert_eq!(text, expected);
}

#[test]
fn format_text_cuts_long_fields() {
    let long = "a-really-long-crate-name-that-keeps-going";
    let mut check = make_check(make_dep(long, Some("MIT")), CompatibilityStatus::Compatible);
    check.requires_attribution = false;
    let report = ReportGenerator::generate("MIT", &[check]);
    assert!(ReportGenerator::is_printable(&report));
    let text = ReportGenerator::format_text(&report);
    assert!(text.contains("a-really-long-crate-name-that…"));
    assert!(!text.contains("Attribution Required"));
    assert!(text.contains("  Total dependencies:  1\n"));
}

#[test]
fn truncate_marks_a_cut() {
    assert_eq!(truncate("abcdef", 4), "abc…");
    assert_eq!(truncate("abcd", 4), "abcd");
    assert_eq!(truncate("", 0), "");
    assert_eq!(truncate("✅ Compatible", 30), "✅ Compatible");
}

#[test]
fn a_cut_inside_a_character_is_not_printable() {
    let check = make_check(make_dep("ééééééééééééééééé", Some("MIT")), CompatibilityStatus::Compatible);
    let report = ReportGenerator::generate("MIT", &[check]);
    assert!(!ReportGenerator::is_printable(&report));
    let check = make_check(make_dep("ééééééééééééééaé", Some("MIT")), CompatibilityStatus::Compatible);
    let report = ReportGenerator::generate("MIT", &[check]);
    assert!(ReportGenerator::is_printable(&report));
    assert!(ReportGenerator::format_text(&report).contains("ééééééééééééééa…"));
}
