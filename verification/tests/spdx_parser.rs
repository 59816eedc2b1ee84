use license_compliance::license_db::LicenseDb;
use license_compliance::spdx_parser::{SpdxExpr, SpdxParser, Token};

fn license(id: &str, plus: bool) -> SpdxExpr {
    SpdxExpr::License { id: id.to_string(), plus }
}

#[test]
fn test_parse_simple_license() {
    let parser = SpdxParser::new();
    let expr = parser.parse("MIT");
    assert_eq!(expr, SpdxExpr::License { id: "MIT".into(), plus: false });
}

#[test]
fn test_parse_or_expression() {
    let parser = SpdxParser::new();
    let expr = parser.parse("MIT OR Apache-2.0");
    assert!(matches!(expr, SpdxExpr::Or(_, _)));
    let ids = expr.all_license_ids();
    assert!(ids.contains(&"MIT".to_string()));
    assert!(ids.contains(&"Apache-2.0".to_string()));
}

#[test]
fn test_parse_and_expression() {
    let parser = SpdxParser::new();
    let expr = parser.parse("MIT AND Apache-2.0");
    assert!(matches!(expr, SpdxExpr::And(_, _)));
}

#[test]
fn test_parse_plus() {
    let parser = SpdxParser::new();
    let expr = parser.parse("GPL-3.0+");
    assert_eq!(expr, SpdxExpr::License { id: "GPL-3.0".into(), plus: true });
}

#[test]
fn test_parse_with_exception() {
    let parser = SpdxParser::new();
    let expr = parser.parse("GPL-2.0 WITH Classpath-exception-2.0");
    assert!(matches!(expr, SpdxExpr::WithException { .. }));
    let ids = expr.all_license_ids();
    assert!(ids.contains(&"GPL-2.0".to_string()));
}

#[test]
fn test_parse_parenthesized() {
    let parser = SpdxParser::new();
    let expr = parser.parse("(MIT OR Apache-2.0) AND BSD-3-Clause");
    assert!(matches!(expr, SpdxExpr::And(_, _)));
    assert!(expr.has_or());
}

#[test]
fn test_all_license_ids_complex() {
    let parser = SpdxParser::new();
    let expr = parser.parse("MIT OR Apache-2.0 AND BSD-3-Clause");
    let ids = expr.all_license_ids();
    assert!(ids.contains(&"MIT".to_string()));
    assert!(ids.contains(&"Apache-2.0".to_string()));
    assert!(ids.contains(&"BSD-3-Clause".to_string()));
}

#[test]
fn test_has_or() {
    let parser = SpdxParser::new();
    assert!(parser.parse("MIT OR Apache-2.0").has_or());
    assert!(!parser.parse("MIT").has_or());
    assert!(!parser.parse("MIT AND BSD-3-Clause").has_or());
}

#[test]
fn test_normalize_apache() {
    let parser = SpdxParser::new();
    let expr = parser.parse("Apache2");
    assert_eq!(expr, SpdxExpr::License { id: "Apache-2.0".into(), plus: false });
}

#[test]
fn test_parse_complex_or_chain() {
    let parser = SpdxParser::new();
    let expr = parser.parse("Unlicense OR MIT");
    let ids = expr.all_license_ids();
    assert!(ids.contains(&"Unlicense".to_string()));
    assert!(ids.contains(&"MIT".to_string()));
}

#[test]
fn parse_gives_the_documented_tree() {
    let parser = SpdxParser::new();
    let expr = parser.parse("(MIT OR Apache-2.0) AND BSD-3-Clause");
    let expected = SpdxExpr::And(
        Box::new(SpdxExpr::Or(Box::new(license("MIT", false)), Box::new(license("Apache-2.0", false)))),
        Box::new(license("BSD-3-Clause", false)),
    );
    assert_eq!(expr, expected);
    assert_eq!(expr.all_license_ids(), vec!["MIT".to_string(), "Apache-2.0".to_string(), "BSD-3-Clause".to_string()]);
}

#[test]
fn and_binds_tighter_than_or() {
    let parser = SpdxParser::new();
    let expr = parser.parse("MIT OR Apache-2.0 AND BSD-3-Clause");
    let expected = SpdxExpr::Or(
        Box::new(license("MIT", false)),
        Box::new(SpdxExpr::And(Box::new(license("Apache-2.0", false)), Box::new(license("BSD-3-Clause", false)))),
    );
    assert_eq!(expr, expected);
}

#[test]
fn or_chains_associate_to_the_left() {
    let parser = SpdxParser::new();
    let expr = parser.parse("MIT OR ISC OR Zlib");
    let expected = SpdxExpr::Or(
        Box::new(SpdxExpr::Or(Box::new(license("MIT", false)), Box::new(license("ISC", false)))),
        Box::new(license("Zlib", false)),
    );
    assert_eq!(expr, expected);
}

#[test]
fn keywords_and_ids_ignore_case() {
    let parser = SpdxParser::new();
    let expr = parser.parse("mit or apache-2.0");
    let expected = SpdxExpr::Or(Box::new(license("MIT", false)), Box::new(license("Apache-2.0", false)));
    assert_eq!(expr, expected);
    assert_eq!(parser.parse("zlib"), license("Zlib", false));
    assert_eq!(parser.parse("bsd-2-clause"), license("BSD-2-Clause", false));
}

#[test]
fn with_exception_keeps_the_exception_id() {
    let parser = SpdxParser::new();
    let expr = parser.parse("GPL-2.0 with Classpath-exception-2.0");
    let expected = SpdxExpr::WithException {
        license: Box::new(license("GPL-2.0", false)),
        exception: "Classpath-exception-2.0".to_string(),
    };
    assert_eq!(expr, expected);
}

#[test]
fn with_without_an_id_is_ignored() {
    let parser = SpdxParser::new();
    assert_eq!(parser.parse("MIT WITH"), license("MIT", false));
}

#[test]
fn input_that_is_no_expression_becomes_one_id() {
    let parser = SpdxParser::new();
    assert_eq!(parser.parse("  MIT OR  "), license("MIT OR", false));
    assert_eq!(parser.parse("AND MIT"), license("AND MIT", false));
    assert_eq!(parser.parse(""), license("", false));
}

#[test]
fn trailing_tokens_are_ignored() {
    let parser = SpdxParser::new();
    assert_eq!(parser.parse("MIT Apache-2.0"), license("MIT", false));
}

#[test]
fn missing_close_paren_is_tolerated() {
    let parser = SpdxParser::new();
    let expr = parser.parse("(MIT OR ISC");
    let expected = SpdxExpr::Or(Box::new(license("MIT", false)), Box::new(license("ISC", false)));
    assert_eq!(expr, expected);
}

#[test]
fn unknown_ids_are_kept_trimmed() {
    let parser = SpdxParser::new();
    assert_eq!(parser.parse("  Foo-1.0\t"), license("Foo-1.0", false));
    assert_eq!(parser.parse("Apache-2+"), license("Apache-2.0", true));
}

#[test]
fn all_license_ids_lists_each_id_once_in_order() {
    let parser = SpdxParser::new();
    let expr = parser.parse("MIT OR (ISC AND MIT) OR ISC");
    assert_eq!(expr.all_license_ids(), vec!["MIT".to_string(), "ISC".to_string()]);
}

#[test]
fn has_or_looks_inside_and_and_with() {
    let parser = SpdxParser::new();
    assert!(parser.parse("BSD-3-Clause AND (MIT OR ISC)").has_or());
    assert!(!parser.parse("GPL-2.0 WITH Classpath-exception-2.0").has_or());
}

#[test]
fn duplicate_is_equal() {
    let parser = SpdxParser::new();
    let expr = parser.parse("(MIT OR Apache-2.0) AND GPL-2.0+ WITH x");
    assert_eq!(expr.duplicate(), expr);
    assert_ne!(expr, parser.parse("MIT"));
}

#[test]
fn canonical_id_uses_the_upper_case_form() {
    assert_eq!(SpdxParser::canonical_id("apache2".to_string(), "APACHE2"), "Apache-2.0");
    assert_eq!(SpdxParser::canonical_id("blueoak-1.0.0".to_string(), "BLUEOAK-1.0.0"), "BlueOak-1.0.0");
    assert_eq!(SpdxParser::canonical_id("Foo".to_string(), "FOO"), "Foo");
}

#[test]
fn classify_word_recognises_operators() {
    let parser = SpdxParser::new();
    assert_eq!(parser.classify_word("and", "AND"), Token::And);
    assert_eq!(parser.classify_word("Or", "OR"), Token::Or);
    assert_eq!(parser.classify_word("with", "WITH"), Token::With);
    assert_eq!(parser.classify_word("isc", "ISC"), Token::Id("ISC".to_string()));
}

#[test]
fn parse_tokens_builds_the_tree() {
    let parser = SpdxParser::new();
    let tokens = vec![
        Token::LParen,
        Token::Id("MIT".to_string()),
        Token::Or,
        Token::Id("GPL-2.0".to_string()),
        Token::Plus,
        Token::RParen,
        Token::And,
        Token::Id("ISC".to_string()),
        Token::With,
        Token::Id("exc".to_string()),
    ];
    let expected = SpdxExpr::And(
        Box::new(SpdxExpr::Or(Box::new(license("MIT", false)), Box::new(license("GPL-2.0", true)))),
        Box::new(SpdxExpr::WithException { license: Box::new(license("ISC", false)), exception: "exc".to_string() }),
    );
    assert_eq!(parser.parse_tokens(&tokens), Some(expected));
    assert_eq!(parser.parse_tokens(&vec![]), None);
    assert_eq!(parser.parse_tokens(&vec![Token::And, Token::Id("MIT".to_string())]), None);
    assert_eq!(parser.parse_tokens(&vec![Token::Id("MIT".to_string()), Token::Or]), None);
}

#[test]
fn normalizing_an_id_twice_changes_nothing() {
    let parser = SpdxParser::new();
    for raw in [" apache2 ", "mit", "Bsd-3-clause", "blueoak-1.0.0", "Foo-1.0", "zlib"] {
        let once = match parser.parse(raw) {
            SpdxExpr::License { id, .. } => id,
            other => panic!("unexpected {other:?}"),
        };
        let twice = match parser.parse(&once) {
            SpdxExpr::License { id, .. } => id,
            other => panic!("unexpected {other:?}"),
        };
        assert_eq!(once, twice);
    }
    assert_eq!(parser.parse("apache2"), license("Apache-2.0", false));
    assert_eq!(parser.parse("Zlib"), license("Zlib", false));
}

#[test]
fn every_builtin_id_parses_to_itself() {
    let parser = SpdxParser::new();
    for info in LicenseDb::new().all() {
        assert_eq!(parser.parse(&info.id), license(&info.id, false));
    }
    assert_eq!(parser.parse("  lgpl-2.1\t"), license("LGPL-2.1", false));
    assert_eq!(parser.parse("Foo-1.0"), license("Foo-1.0", false));
}
