use license_compliance::license_db::{matches_filter, LicenseDb, LicenseType};

#[test]
fn database_holds_the_builtin_licenses() {
    let db = LicenseDb::new();
    let all = db.all();
    assert_eq!(all.len(), 18);
    let ids: Vec<&str> = all.iter().map(|l| l.id.as_str()).collect();
    for id in [
        "MIT", "Apache-2.0", "BSD-2-Clause", "BSD-3-Clause", "ISC", "0BSD", "Unlicense", "CC0-1.0", "MPL-2.0",
        "LGPL-2.1", "LGPL-3.0", "GPL-2.0", "GPL-3.0", "AGPL-3.0", "BSL-1.0", "Zlib", "MIT-0", "BlueOak-1.0.0",
    ] {
        assert!(ids.contains(&id), "{id}");
    }
}

#[test]
fn lookup_exact_and_ignoring_case() {
    let db = LicenseDb::new();
    let gpl = db.lookup("GPL-3.0").unwrap();
    assert_eq!(gpl.full_name, "GNU General Public License v3.0");
    assert_eq!(gpl.license_type, LicenseType::Copyleft);
    assert!(!gpl.compatible_with_mit);
    assert!(gpl.requires_source_disclosure);
    let mit = db.lookup("mit").unwrap();
    assert_eq!(mit.id, "MIT");
    assert_eq!(db.lookup("bluEoak-1.0.0").unwrap().id, "BlueOak-1.0.0");
    assert!(db.lookup("Foo").is_none());
    assert!(db.lookup("MITT").is_none());
}

#[test]
fn is_known_agrees_with_lookup() {
    let db = LicenseDb::default();
    assert!(db.is_known("apache-2.0"));
    assert!(db.is_known("Zlib"));
    assert!(!db.is_known("Proprietary"));
    assert!(!db.is_known(""));
}

#[test]
fn readme_table_entries() {
    let db = LicenseDb::new();
    let apache = db.lookup("Apache-2.0").unwrap();
    assert!(apache.requires_license_notice && !apache.requires_source_disclosure && apache.requires_attribution);
    let lgpl = db.lookup("LGPL-2.1").unwrap();
    assert_eq!(lgpl.license_type, LicenseType::WeakCopyleft);
    assert!(!lgpl.compatible_with_apache2);
    let cc0 = db.lookup("CC0-1.0").unwrap();
    assert_eq!(cc0.license_type, LicenseType::PublicDomain);
    assert!(!cc0.requires_attribution);
}

#[test]
fn license_type_labels() {
    assert_eq!(LicenseType::Permissive.to_string(), "Permissive");
    assert_eq!(LicenseType::Copyleft.label(), "Copyleft");
    assert_eq!(LicenseType::WeakCopyleft.label(), "Weak Copyleft");
    assert_eq!(LicenseType::Proprietary.label(), "Proprietary");
    assert_eq!(LicenseType::PublicDomain.label(), "Public Domain");
    assert_eq!(LicenseType::Unknown.label(), "Unknown");
}

#[test]
fn list_filter_matches_type_or_id_ignoring_case() {
    let db = LicenseDb::new();
    let pick = |f: &str| -> Vec<String> {
        db.all().iter().filter(|l| matches_filter(l, f)).map(|l| l.id.clone()).collect()
    };
    assert_eq!(pick("weak-copyleft"), vec!["MPL-2.0".to_string(), "LGPL-2.1".to_string(), "LGPL-3.0".to_string()]);
    assert_eq!(pick("weak copyleft"), Vec::<String>::new());
    assert_eq!(pick("Public-Domain"), vec!["Unlicense".to_string(), "CC0-1.0".to_string()]);
    assert_eq!(pick("mit"), vec!["MIT".to_string(), "MIT-0".to_string()]);
    assert_eq!(pick("zzz"), Vec::<String>::new());
    assert_eq!(pick("").len(), 18);
    let copyleft = pick("COPYLEFT");
    assert!(copyleft.contains(&"GPL-3.0".to_string()));
    assert!(copyleft.contains(&"MPL-2.0".to_string()));
    assert!(!copyleft.contains(&"MIT".to_string()));
}
