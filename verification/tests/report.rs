use ditto_replay::interaction::Interaction;
use ditto_replay::json::JsonValue;
use ditto_replay::manifest::ChangeManifest;
use ditto_replay::report::InteractionDiffReport;
use ditto_replay::types::CallType;
use uuid::Uuid;

fn j(s: &str) -> JsonValue {
    JsonValue::parse(s).expect("JSON")
}

fn make_interaction(record_id: u128, seq: u32, response: JsonValue) -> Interaction {
    Interaction::new(
        record_id,
        seq,
        CallType::Http,
        "GET /payments/{id}".to_string(),
        j(r#"{"method": "GET"}"#),
        response,
        10,
    )
}

#[test]
fn identical_interactions_pass() {
    let id = Uuid::new_v4().as_u128();
    let rec = vec![make_interaction(id, 0, j(r#"{"status": "ok"}"#))];
    let rep = vec![make_interaction(id, 0, j(r#"{"status": "ok"}"#))];
    let r = InteractionDiffReport::compare(id, &rec, &rep);
    assert!(!r.is_regression);
    assert_eq!(r.matched, 1);
}

#[test]
fn report_changed_status_is_regression() {
    let id = Uuid::new_v4().as_u128();
    let rec = vec![make_interaction(id, 0, j(r#"{"status": "succeeded"}"#))];
    let rep = vec![make_interaction(id, 0, j(r#"{"status": "failed"}"#))];
    let r = InteractionDiffReport::compare(id, &rec, &rep);
    assert!(r.is_regression);
    assert_eq!(r.exit_code(), 1);
}

#[test]
fn missing_replay_is_regression() {
    let id = Uuid::new_v4().as_u128();
    let rec = vec![
        make_interaction(id, 0, j(r#"{"status": "ok"}"#)),
        make_interaction(id, 1, j(r#"{"status": "ok"}"#)),
    ];
    let rep = vec![make_interaction(id, 0, j(r#"{"status": "ok"}"#))];
    let r = InteractionDiffReport::compare(id, &rec, &rep);
    assert!(r.is_regression);
    assert_eq!(r.missing_replays, vec![1]);
    assert_eq!(r.matched + r.missing_replays.len(), rec.len());
}

#[test]
fn extra_replay_is_flagged_but_not_regression() {
    let id = Uuid::new_v4().as_u128();
    let rec = vec![make_interaction(id, 0, j(r#"{"status": "ok"}"#))];
    let rep = vec![
        make_interaction(id, 0, j(r#"{"status": "ok"}"#)),
        make_interaction(id, 1, j(r#"{"status": "ok"}"#)),
    ];
    let r = InteractionDiffReport::compare(id, &rec, &rep);
    assert!(!r.is_regression);
    assert_eq!(r.extra_replays, vec![1]);
    assert_eq!(r.exit_code(), 0);
}

#[test]
fn manifest_prevents_regression() {
    let id = Uuid::new_v4().as_u128();
    let rec = vec![make_interaction(id, 0, j(r#"{"error": {"code": 1001}}"#))];
    let rep = vec![make_interaction(id, 0, j(r#"{"error": {"code": "ERR_1001"}}"#))];

    let manifest = ChangeManifest::from_toml(
        r#"version = 1
[[intentional_changes]]
description = "code type change"
pattern = "error.code"
"#,
    );
    let r = InteractionDiffReport::compare_with_manifest(id, &rec, &rep, &manifest);
    assert!(!r.is_regression);
}

#[test]
fn to_json_is_valid_json() {
    let id = Uuid::new_v4().as_u128();
    let rec = vec![make_interaction(id, 0, j(r#"{"status": "ok"}"#))];
    let rep = vec![make_interaction(id, 0, j(r#"{"status": "failed"}"#))];
    let r = InteractionDiffReport::compare(id, &rec, &rep);
    let json_str = r.to_json();
    let parsed: serde_json::Value = serde_json::from_str(&json_str).expect("valid json");
    assert_eq!(parsed["is_regression"], true);
}

#[test]
fn the_report_holds_every_field() {
    let id: u128 = 0x550e8400_e29b_41d4_a716_446655440000;
    let rec = vec![make_interaction(id, 3, j(r#"{"a": 1, "id": 4}"#)), make_interaction(id, 5, j("0"))];
    let rep = vec![make_interaction(id, 3, j(r#"{"a": 2, "id": 5}"#)), make_interaction(id, 8, j("0"))];
    let r = InteractionDiffReport::compare(id, &rec, &rep);
    assert_eq!(
        r.to_json_value().to_compact(),
        concat_lines(&[
            r#"{"extra_replays":[8],"is_regression":true,"matched":1,"mismatches":[{"fingerprint":"GET /payments/{id}","#,
            r#""nodes":[{"category":"regression","new":2,"old":1,"path":"a"},{"category":"noise","new":5,"old":4,"path":"id"}],"#,
            r#""regression":true,"sequence":3,"summary":"FAIL — 1 regression(s):\n  a: 1 → 2\n"}],"#,
            r#""missing_replays":[5],"record_id":"550e8400-e29b-41d4-a716-446655440000"}"#,
        ])
    );
    assert_eq!(
        r.summary(),
        "FAIL  record_id=550e8400-e29b-41d4-a716-446655440000  regressions=1  missing=1\n  seq=3 [GET /payments/{id}]\n    FAIL — 1 regression(s):\n      a: 1 → 2\n    \n"
    );
    let r = InteractionDiffReport::compare(id, &rec, &rec);
    assert_eq!(
        r.summary(),
        "PASS  record_id=550e8400-e29b-41d4-a716-446655440000  matched=2  extra=0 missing=0"
    );
}

fn concat_lines(parts: &[&str]) -> String {
    parts.join("")
}

#[test]
fn of_several_replayed_calls_the_last_counts() {
    let id = 1;
    let rec = vec![make_interaction(id, 0, j("1"))];
    let rep = vec![make_interaction(id, 0, j("2")), make_interaction(id, 0, j("1"))];
    assert!(!InteractionDiffReport::compare(id, &rec, &rep).is_regression);
    let rep = vec![make_interaction(id, 0, j("1")), make_interaction(id, 0, j("2"))];
    assert!(InteractionDiffReport::compare(id, &rec, &rep).is_regression);
}

#[test]
fn reports_can_be_cloned() {
    let id = 5;
    let rec = vec![
        make_interaction(id, 0, j(r#"{"status":"ok"}"#)),
        make_interaction(id, 1, j("{}")),
    ];
    let rep = vec![
        make_interaction(id, 0, j(r#"{"status":"failed"}"#)),
        make_interaction(id, 2, j("{}")),
    ];
    let r = InteractionDiffReport::compare(id, &rec, &rep);
    assert_eq!(r.clone(), r);
    assert_eq!(r.mismatches[0].clone(), r.mismatches[0]);
}
