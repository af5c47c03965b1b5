use ditto_replay::diff::DiffEngine;
use ditto_replay::json::JsonValue;
use ditto_replay::manifest::ChangeManifest;

fn j(s: &str) -> JsonValue {
    JsonValue::parse(s).expect("JSON")
}

#[test]
fn empty_manifest_matches_nothing() {
    let m = ChangeManifest::default();
    assert!(!m.matches("response.status"));
}

#[test]
fn manifest_matches_exact_path() {
    let m = ChangeManifest::from_toml(
        r#"version = 1
[[intentional_changes]]
description = "test"
pattern = "response.error.code"
"#,
    );
    assert!(m.matches("response.error.code"));
    assert!(!m.matches("response.status"));
}

#[test]
fn manifest_matches_terminal_segment() {
    let m = ChangeManifest::from_toml(
        r#"version = 1
[[intentional_changes]]
description = "currency added"
pattern = "currency"
"#,
    );
    assert!(m.matches("data.payment.currency"));
    assert!(m.matches("currency"));
}

#[test]
fn malformed_toml_returns_empty_manifest() {
    let m = ChangeManifest::from_toml("this is not valid toml }{");
    assert!(m.intentional_changes.is_empty());
}

#[test]
fn apply_manifest_reclassifies_regressions() {
    let old = j(r#"{"error": {"code": 1001}, "status": "failed"}"#);
    let new = j(r#"{"error": {"code": "ERR_1001"}, "status": "failed"}"#);
    let mut report = DiffEngine::new().compare(&old, &new);
    assert!(report.is_regression);

    let manifest = ChangeManifest::from_toml(
        r#"version = 1
[[intentional_changes]]
description = "error code type change"
pattern = "error.code"
"#,
    );
    report.apply_manifest(&manifest);
    assert!(!report.is_regression, "regression should be reclassified as intentional");
}

#[test]
fn a_manifest_is_read_field_by_field() {
    let m = ChangeManifest::from_toml(
        "version = 7\nother = 1.5\n[[intentional_changes]]\ndescription='d'\npattern='p'\nextra=1979-05-27\n",
    );
    assert_eq!(m.version, 7);
    assert_eq!(m.intentional_changes.len(), 1);
    assert_eq!(m.intentional_changes[0].description, "d");
    assert_eq!(m.intentional_changes[0].pattern, "p");
    let m = ChangeManifest::from_toml("");
    assert_eq!(m.version, 0);
    assert!(m.intentional_changes.is_empty());
}

#[test]
fn declarations_may_be_given_in_order() {
    let m = ChangeManifest::from_toml("intentional_changes = [['d', 'p'], ['e', 'q', 3]]");
    assert_eq!(m.intentional_changes.len(), 2);
    assert_eq!(m.intentional_changes[1].pattern, "q");
}

#[test]
fn a_manifest_of_the_wrong_shape_is_empty() {
    for s in [
        "version = -1",
        "version = 4294967296",
        "version = 1.0",
        "version = 'x'",
        "version = 3\nintentional_changes = 1",
        "version = 3\n[intentional_changes]\ndescription='d'\npattern='p'",
        "version = 3\n[[intentional_changes]]\npattern='p'",
        "version = 3\n[[intentional_changes]]\ndescription='d'\npattern=2",
        "version = 3\nintentional_changes = [['d']]",
        "version = 3\nintentional_changes = ['d']",
    ] {
        let m = ChangeManifest::from_toml(s);
        assert_eq!(m.version, 0, "{s}");
        assert!(m.intentional_changes.is_empty(), "{s}");
    }
    assert_eq!(ChangeManifest::from_toml("version = 4294967295").version, u32::MAX);
}
