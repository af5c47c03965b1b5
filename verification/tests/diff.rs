use ditto_replay::diff::{
    child_path, path_matches_field, DiffCategory, DiffConfig, DiffEngine, NoiseRule, NoiseStrategy,
};
use ditto_replay::json::JsonValue;
use ditto_replay::manifest::ChangeManifest;

fn j(s: &str) -> JsonValue {
    JsonValue::parse(s).expect("JSON")
}

#[test]
fn identical_values_produce_no_diff() {
    let v = j(r#"{"status": "ok", "amount": 100}"#);
    let r = DiffEngine::new().compare(&v, &v);
    assert!(r.nodes.is_empty());
    assert!(!r.is_regression);
}

#[test]
fn diff_changed_status_is_regression() {
    let old = j(r#"{"status": "pending"}"#);
    let new = j(r#"{"status": "failed"}"#);
    let r = DiffEngine::new().compare(&old, &new);
    assert!(r.is_regression);
    assert_eq!(r.nodes[0].path, "status");
    assert!(matches!(r.nodes[0].category, DiffCategory::Regression));
}

#[test]
fn uuid_fields_are_noise() {
    let old = j(r#"{"id": "550e8400-e29b-41d4-a716-446655440000", "status": "ok"}"#);
    let new = j(r#"{"id": "6ba7b810-9dad-11d1-80b4-00c04fd430c8", "status": "ok"}"#);
    let r = DiffEngine::new().compare(&old, &new);
    assert!(!r.is_regression);
    assert!(r.nodes.iter().all(|n| matches!(n.category, DiffCategory::Noise)));
}

#[test]
fn timestamp_fields_are_noise() {
    let old = j(r#"{"created_at": "2024-01-01T00:00:00Z"}"#);
    let new = j(r#"{"created_at": "2024-06-15T12:34:56.789Z"}"#);
    let r = DiffEngine::new().compare(&old, &new);
    assert!(!r.is_regression);
}

#[test]
fn added_field_is_not_regression() {
    let old = j(r#"{"status": "ok"}"#);
    let new = j(r#"{"status": "ok", "new_field": "value"}"#);
    let r = DiffEngine::new().compare(&old, &new);
    assert!(!r.is_regression);
    assert!(r.nodes.iter().any(|n| matches!(n.category, DiffCategory::Added)));
}

#[test]
fn removed_field_is_not_regression() {
    let old = j(r#"{"status": "ok", "old_field": "value"}"#);
    let new = j(r#"{"status": "ok"}"#);
    let r = DiffEngine::new().compare(&old, &new);
    assert!(!r.is_regression);
    assert!(r.nodes.iter().any(|n| matches!(n.category, DiffCategory::Removed)));
}

#[test]
fn nested_regression_detected() {
    let old = j(r#"{"data": {"payment": {"status": "succeeded"}}}"#);
    let new = j(r#"{"data": {"payment": {"status": "failed"}}}"#);
    let r = DiffEngine::new().compare(&old, &new);
    assert!(r.is_regression);
    assert_eq!(r.nodes[0].path, "data.payment.status");
}

#[test]
fn array_element_regression_detected() {
    let old = j(r#"{"items": [{"amount": 100}, {"amount": 200}]}"#);
    let new = j(r#"{"items": [{"amount": 100}, {"amount": 999}]}"#);
    let r = DiffEngine::new().compare(&old, &new);
    assert!(r.is_regression);
    assert_eq!(r.nodes[0].path, "items[1].amount");
}

#[test]
fn named_noise_rule_suppresses_diff() {
    let old = j(r#"{"request_id": "abc", "status": "ok"}"#);
    let new = j(r#"{"request_id": "xyz", "status": "ok"}"#);
    let r = DiffEngine::new().compare(&old, &new);
    assert!(!r.is_regression);
}

#[test]
fn summary_shows_pass_for_no_regression() {
    let v = j(r#"{"status": "ok"}"#);
    let r = DiffEngine::new().compare(&v, &v);
    assert!(r.summary().starts_with("PASS"));
    assert_eq!(r.summary(), "PASS — 0 noise, 0 intentional, 0 added, 0 removed");
}

#[test]
fn summary_shows_fail_and_path_for_regression() {
    let old = j(r#"{"status": "pending"}"#);
    let new = j(r#"{"status": "failed"}"#);
    let r = DiffEngine::new().compare(&old, &new);
    let s = r.summary();
    assert!(s.starts_with("FAIL"));
    assert!(s.contains("status"));
    assert_eq!(s, "FAIL — 1 regression(s):\n  status: \"pending\" → \"failed\"\n");
}

#[test]
fn nodes_come_in_the_order_of_keys_with_additions_last() {
    let old = j(r#"{"z": 1, "a": 2, "m": 3}"#);
    let new = j(r#"{"b": 0, "z": 9, "m": 3}"#);
    let r = DiffEngine::new().compare(&old, &new);
    let seen: Vec<(String, DiffCategory)> =
        r.nodes.iter().map(|n| (n.path.clone(), n.category)).collect();
    assert_eq!(
        seen,
        vec![
            ("a".to_string(), DiffCategory::Removed),
            ("z".to_string(), DiffCategory::Regression),
            ("b".to_string(), DiffCategory::Added),
        ]
    );
    assert_eq!(r.nodes[0].old_value, j("2"));
    assert_eq!(r.nodes[0].new_value, JsonValue::Null);
    assert_eq!(r.nodes[2].old_value, JsonValue::Null);
}

#[test]
fn arrays_of_different_length_add_or_remove() {
    let r = DiffEngine::new().compare(&j("[1,2,3]"), &j("[1]"));
    assert_eq!(r.nodes.len(), 2);
    assert_eq!(r.nodes[0].path, "[1]");
    assert_eq!(r.nodes[1].path, "[2]");
    assert!(r.nodes.iter().all(|n| n.category == DiffCategory::Removed));
    assert!(!r.is_regression);
    let r = DiffEngine::new().compare(&j(r#"{"v":[]}"#), &j(r#"{"v":[7]}"#));
    assert_eq!(r.nodes[0].path, "v[0]");
    assert_eq!(r.nodes[0].category, DiffCategory::Added);
}

#[test]
fn a_change_of_kind_is_a_regression() {
    let r = DiffEngine::new().compare(&j(r#"{"v":[1]}"#), &j(r#"{"v":{"0":1}}"#));
    assert!(r.is_regression);
    assert_eq!(r.nodes.len(), 1);
    let r = DiffEngine::new().compare(&j("1"), &j("1.0"));
    assert!(r.is_regression);
    assert_eq!(r.nodes[0].path, "");
}

#[test]
fn uuids_are_recognised_by_shape() {
    let noise = |a: &str, b: &str| {
        let r = DiffEngine::new().compare(&JsonValue::text(a), &JsonValue::text(b));
        r.nodes[0].category == DiffCategory::Noise
    };
    let u = "550e8400-e29b-41d4-a716-446655440000";
    assert!(noise(u, "550E8400-E29B-41D4-A716-446655440001"));
    assert!(!noise(u, "550e8400-e29b-41d4-a716-44665544000"));
    assert!(!noise(u, "550e8400-e29b-41d4-a716-44665544000g"));
    assert!(!noise(u, "550e8400-e29b-41d4-a716-446655440000\n"));
    assert!(!noise(u, "550e8400xe29b-41d4-a716-446655440000"));
}

#[test]
fn timestamps_are_recognised_by_prefix() {
    let noise = |a: &str, b: &str| {
        let r = DiffEngine::new().compare(&JsonValue::text(a), &JsonValue::text(b));
        r.nodes[0].category == DiffCategory::Noise
    };
    let t = "2024-01-01T00:00:00Z";
    assert!(noise(t, "1999-12-31T23:59:59 and more"));
    assert!(!noise(t, "2024-01-01 00:00:00"));
    assert!(!noise(t, "2024-01-01T00:00:0"));
    assert!(!noise(t, " 2024-01-01T00:00:00"));
    // Decimal digits of other scripts count as digits.
    assert!(noise(t, "٢٠٢٤-01-01T00:00:00Z"));
}

#[test]
fn rules_match_the_terminal_field() {
    assert!(path_matches_field("id", "id"));
    assert!(path_matches_field("a.b.id", "id"));
    assert!(!path_matches_field("a.paid", "id"));
    assert!(!path_matches_field("id.a", "id"));
    assert!(!path_matches_field("items[0]", "items"));
    assert_eq!(child_path("", "a"), "a");
    assert_eq!(child_path("a", "b"), "a.b");
}

#[test]
fn custom_rules_replace_the_default_ones() {
    let config = DiffConfig { noise_rules: vec![NoiseRule::new("price", NoiseStrategy::Ignore)] };
    let engine = DiffEngine::with_config(config);
    let r = engine.compare(&j(r#"{"price":1,"request_id":"a"}"#), &j(r#"{"price":2,"request_id":"b"}"#));
    assert_eq!(r.nodes[0].category, DiffCategory::Noise);
    assert_eq!(r.nodes[1].category, DiffCategory::Regression);
    assert_eq!(DiffConfig::default().noise_rules.len(), 14);
}

#[test]
fn an_empty_manifest_changes_nothing_and_a_manifest_applies_once() {
    let mut r = DiffEngine::new().compare(&j(r#"{"a":1,"b":1}"#), &j(r#"{"a":2,"b":2}"#));
    r.apply_manifest(&ChangeManifest::default());
    assert!(r.is_regression);
    assert_eq!(r.nodes.iter().filter(|n| n.category == DiffCategory::Regression).count(), 2);
    let m = ChangeManifest::from_toml("[[intentional_changes]]\ndescription='x'\npattern='a'\n");
    r.apply_manifest(&m);
    r.apply_manifest(&m);
    assert_eq!(r.nodes[0].category, DiffCategory::Intentional);
    assert_eq!(r.nodes[1].category, DiffCategory::Regression);
    assert!(r.is_regression);
}

#[test]
fn comparing_the_other_way_exchanges_the_sides() {
    let old = j(r#"{"a": 1, "b": [1, 2], "c": {"x": 1}, "id": 1, "z": true}"#);
    let new = j(r#"{"b": [1], "c": {"x": 2, "y": 0}, "id": 2, "q": null, "z": true}"#);
    let engine = DiffEngine::new();
    let there = engine.compare(&old, &new);
    let back = engine.compare(&new, &old);
    assert_eq!(there.is_regression, back.is_regression);
    assert_eq!(there.nodes.len(), 6);
    assert_eq!(back.nodes.len(), 6);
    for n in &there.nodes {
        let category = match n.category {
            DiffCategory::Added => DiffCategory::Removed,
            DiffCategory::Removed => DiffCategory::Added,
            c => c,
        };
        assert!(back.nodes.iter().any(|m| m.path == n.path
            && m.category == category
            && m.old_value == n.new_value
            && m.new_value == n.old_value));
    }
}

#[test]
fn engines_and_reports_can_be_cloned() {
    let config = DiffConfig {
        noise_rules: vec![NoiseRule::new("x", NoiseStrategy::Ignore)],
    };
    let engine = DiffEngine::with_config(config.clone());
    let copy = engine.clone();
    let report = copy.compare(&j(r#"{"x":1,"y":1}"#), &j(r#"{"x":2,"y":2}"#));
    assert_eq!(report.nodes.len(), 2);
    assert!(matches!(report.nodes[0].category, DiffCategory::Noise));
    assert_eq!(report.clone(), report);
    assert_eq!(report.nodes[1].clone(), report.nodes[1]);
    assert!(format!("{engine:?}").contains("DiffEngine"));
}
