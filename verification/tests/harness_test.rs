use ditto_replay::context::MockContext;
use ditto_replay::harness::{
    after_entry, after_failed_request, after_load, after_response, build_request, parse_token_map,
    replayed_interactions, translate_token, HarnessConfig, HarnessStatus, ReplayResult,
};
use ditto_replay::interaction::Interaction;
use ditto_replay::json::{object, JsonValue};
use ditto_replay::manifest::ChangeManifest;
use ditto_replay::memory::InMemoryStore;
use ditto_replay::replay_test::{result_lines, run_report, tally, Config, Settings};
use ditto_replay::store::StoreError;
use ditto_replay::types::{CallType, ReplayMode};
use uuid::Uuid;

fn j(s: &str) -> JsonValue {
    JsonValue::parse(s).expect("JSON")
}

fn fresh() -> u128 {
    Uuid::new_v4().as_u128()
}

fn make_entry_point(record_id: u128, req_path: &str, resp_status: u16) -> Interaction {
    Interaction::new(
        record_id,
        0,
        CallType::Http,
        format!("GET {}", req_path),
        object(vec![("method", JsonValue::text("GET")), ("path", JsonValue::text(req_path))]),
        object(vec![("status", JsonValue::unsigned(resp_status as u64))]),
        10,
    )
}

/// A run of the harness against a service that answers as given.
fn run_one(
    store: &InMemoryStore,
    record_id: u128,
    config: &HarnessConfig,
    service: &dyn Fn(&str, &str, &str, Option<&str>) -> Result<(u16, JsonValue), String>,
) -> ReplayResult {
    let recorded = match after_load(record_id, Ok(store.get_by_record_id(record_id))) {
        Ok(r) => r,
        Err(e) => return e,
    };
    let entry = Ok(store.get_entry_point(record_id));
    let request = match after_entry(record_id, entry, "http://svc/", &config.token_map) {
        Ok(r) => r,
        Err(e) => return e,
    };
    match service(
        &request.method,
        &request.url,
        &request.record_id,
        request.authorization.as_deref(),
    ) {
        Ok((status, body)) => {
            after_response(record_id, &recorded, status, &body, &config.manifest, 3)
        }
        Err(e) => after_failed_request(record_id, &e),
    }
}

#[test]
fn harness_passes_when_response_matches() {
    let mut store = InMemoryStore::new();
    let record_id = fresh();
    store.write(&make_entry_point(record_id, "/payments/pay_123", 200));

    let result = run_one(&store, record_id, &HarnessConfig::default(), &|method, url, _, _| {
        assert_eq!(method, "GET");
        assert_eq!(url, "http://svc/payments/pay_123");
        Ok((200, j(r#"{"status": "ok"}"#)))
    });

    assert_eq!(result.status, HarnessStatus::Passed, "expected Passed");
    assert!(!result.report.is_regression);
}

#[test]
fn harness_fails_when_status_regresses() {
    let mut store = InMemoryStore::new();
    let record_id = fresh();
    store.write(&make_entry_point(record_id, "/payments/pay_456", 200));

    let result = run_one(&store, record_id, &HarnessConfig::default(), &|_, _, _, _| {
        Ok((500, j(r#"{"error": "internal"}"#)))
    });

    assert_eq!(result.status, HarnessStatus::Failed, "expected Failed — status regressed");
    assert!(result.report.is_regression);
}

#[test]
fn harness_errors_when_no_recording() {
    let store = InMemoryStore::new();
    let result = run_one(&store, fresh(), &HarnessConfig::default(), &|_, _, _, _| {
        panic!("no request is sent")
    });

    assert_eq!(result.status, HarnessStatus::Error("no recorded interactions".to_string()));
    assert!(result.report.is_regression);
    assert_eq!(result.duration_ms, 0);
}

#[test]
fn harness_errors_when_service_unreachable() {
    let mut store = InMemoryStore::new();
    let record_id = fresh();
    store.write(&make_entry_point(record_id, "/health", 200));

    let result = run_one(&store, record_id, &HarnessConfig::default(), &|_, _, _, _| {
        Err("connection refused".to_string())
    });

    assert_eq!(
        result.status,
        HarnessStatus::Error("HTTP request failed: connection refused".to_string())
    );
}

#[test]
fn harness_errors_name_their_cause() {
    let id = 1;
    match after_load(id, Err(StoreError::Database("d".to_string()))) {
        Err(r) => assert_eq!(
            r.status,
            HarnessStatus::Error("store read: database error: d".to_string())
        ),
        Ok(_) => panic!("an error"),
    }
    match after_entry(id, Ok(None), "http://x", &vec![]) {
        Err(r) => assert_eq!(
            r.status,
            HarnessStatus::Error("no entry-point (sequence=0) found".to_string())
        ),
        Ok(_) => panic!("an error"),
    }
    match after_entry(id, Err(StoreError::NotFound), "http://x", &vec![]) {
        Err(r) => assert_eq!(
            r.status,
            HarnessStatus::Error("entry-point load: interaction not found".to_string())
        ),
        Ok(_) => panic!("an error"),
    }
}

#[test]
fn harness_run_all_returns_all_results() {
    let mut store = InMemoryStore::new();
    let ids: Vec<u128> = (0..3).map(|_| fresh()).collect();
    for &id in &ids {
        store.write(&make_entry_point(id, "/health", 200));
    }

    let results: Vec<ReplayResult> = ids
        .iter()
        .map(|&id| {
            run_one(&store, id, &HarnessConfig::default(), &|_, _, _, _| {
                Ok((200, JsonValue::Null))
            })
        })
        .collect();

    assert_eq!(results.len(), 3);
    assert!(results.iter().all(|r| r.status == HarnessStatus::Passed));
}

#[test]
fn harness_translates_auth_tokens() {
    let mut store = InMemoryStore::new();
    let record_id = fresh();

    store.write(&Interaction::new(
        record_id,
        0,
        CallType::Http,
        "GET /secure".to_string(),
        j(r#"{
            "method": "GET",
            "path": "/secure",
            "headers": { "authorization": "Bearer prod_token_abc" }
        }"#),
        j(r#"{ "status": 200 }"#),
        5,
    ));

    let config = HarnessConfig {
        token_map: vec![("prod_token_abc".to_string(), "test_token_xyz".to_string())],
        ..Default::default()
    };
    let result = run_one(&store, record_id, &config, &|_, url, _, auth| {
        assert_eq!(url, "http://svc/secure");
        if auth == Some("Bearer test_token_xyz") {
            Ok((200, j(r#"{"ok": true}"#)))
        } else {
            Ok((404, JsonValue::Null))
        }
    });

    assert_eq!(result.status, HarnessStatus::Passed, "translated token should match");
}

#[test]
fn harness_sends_replay_record_id_header() {
    let mut store = InMemoryStore::new();
    let record_id = fresh();
    store.write(&make_entry_point(record_id, "/ping", 200));
    let expected = Uuid::from_u128(record_id).to_string();

    let result = run_one(&store, record_id, &HarnessConfig::default(), &|_, _, id, auth| {
        assert!(auth.is_none());
        if id == expected {
            Ok((200, JsonValue::Null))
        } else {
            Ok((404, JsonValue::Null))
        }
    });

    assert_eq!(result.status, HarnessStatus::Passed);
}

#[test]
fn recording_middleware_stores_entry_point_at_sequence_zero() {
    let mut ctx: MockContext<()> = MockContext::with_id(fresh(), ReplayMode::Record);
    let ep_slot = ctx.next_slot(CallType::Http, "GET /api/payments".to_string(), None);
    assert_eq!(ep_slot.sequence, 0, "entry-point must be sequence=0");

    let s1 = ctx.next_slot(CallType::Http, "GET /stripe".to_string(), None);
    let s2 = ctx.next_slot(CallType::Postgres, "SELECT ?".to_string(), None);
    assert_eq!(s1.sequence, 1);
    assert_eq!(s2.sequence, 2);
}

#[test]
fn tokens_are_translated_without_their_scheme() {
    let map = parse_token_map("prod_key:test_key, key2 : a:b ,nocolon,,dup:1,dup:2");
    assert_eq!(translate_token(&map, "Bearer prod_key"), "Bearer test_key");
    assert_eq!(translate_token(&map, "prod_key"), "Bearer test_key");
    assert_eq!(translate_token(&map, "Bearer Bearer  prod_key "), "Bearer test_key");
    assert_eq!(translate_token(&map, "key2"), "Bearer a:b");
    assert_eq!(translate_token(&map, "Bearer dup"), "Bearer 2");
    assert_eq!(translate_token(&map, "Bearer other"), "Bearer other");
    assert_eq!(translate_token(&map, "nocolon"), "nocolon");
}

#[test]
fn requests_have_defaults() {
    let mut entry = make_entry_point(5, "/x", 200);
    entry.request = j("{}");
    let r = build_request(5, &entry, "http://h:1//", &vec![]);
    assert_eq!(r.method, "GET");
    assert_eq!(r.url, "http://h:1/");
    assert_eq!(r.record_id, "00000000-0000-0000-0000-000000000005");
    assert!(r.authorization.is_none());
}

#[test]
fn only_the_entry_point_is_replaced() {
    let id = 9;
    let recorded = vec![
        make_entry_point(id, "/a", 200),
        Interaction::new(id, 1, CallType::Redis, "k".into(), j("{}"), j(r#"{"value":1}"#), 1),
    ];
    let replayed = replayed_interactions(id, &recorded, 201, &j(r#"{"x":1}"#));
    assert_eq!(replayed[0].response.to_compact(), r#"{"body":{"x":1},"status":201}"#);
    assert_eq!(replayed[1], recorded[1]);
    let replayed = replayed_interactions(id, &recorded, 201, &JsonValue::Null);
    assert_eq!(replayed[0].response.to_compact(), r#"{"status":201}"#);
    // The entry point is the HTTP call, also beside another call at its place.
    let beside = vec![
        Interaction::new(id, 0, CallType::Redis, "k".into(), j("{}"), j(r#"{"value":1}"#), 1),
        make_entry_point(id, "/a", 200),
    ];
    let replayed = replayed_interactions(id, &beside, 201, &JsonValue::Null);
    assert_eq!(replayed[0], beside[0]);
    assert_eq!(replayed[1].response.to_compact(), r#"{"status":201}"#);
    let same = after_response(id, &recorded, 200, &JsonValue::Null, &ChangeManifest::default(), 1);
    assert_eq!(same.status, HarnessStatus::Passed);
    assert_eq!(same.report.matched, 2);
    assert!(same.report.mismatches.is_empty());
}

#[test]
fn declared_changes_do_not_fail() {
    let recorded = vec![make_entry_point(1, "/a", 200)];
    let manifest = ChangeManifest::from_toml(
        "[[intentional_changes]]\ndescription = 'moved'\npattern = 'status'\n",
    );
    let r = after_response(1, &recorded, 201, &JsonValue::Null, &manifest, 1);
    assert_eq!(r.status, HarnessStatus::Passed);
    assert_eq!(HarnessConfig::default().timeout_secs, 30);
}

fn settings() -> Settings {
    Settings {
        db_url: Some("postgres://db".to_string()),
        target_url: Some("http://svc".to_string()),
        sample_size: None,
        record_id: None,
        report_path: None,
        manifest: None,
        token_map: None,
    }
}

#[test]
fn settings_are_read() {
    let c = Config::from_settings(settings()).unwrap_or_else(|e| panic!("{e}"));
    assert_eq!(c.db_url, "postgres://db");
    assert_eq!(c.target_url, "http://svc");
    assert_eq!(c.sample_size, 50);
    assert!(c.single_record_id.is_none() && c.report_path.is_none());
    assert!(c.token_map.is_empty());

    let mut s = settings();
    s.sample_size = Some("7".to_string());
    s.record_id = Some("550e8400-e29b-41d4-a716-446655440000".to_string());
    s.report_path = Some("out.json".to_string());
    s.token_map = Some("a:b".to_string());
    s.manifest = Some("version = 4".to_string());
    let c = Config::from_settings(s).unwrap_or_else(|e| panic!("{e}"));
    assert_eq!(c.sample_size, 7);
    assert_eq!(c.single_record_id, Some(0x550e8400_e29b_41d4_a716_446655440000));
    assert_eq!(c.report_path.as_deref(), Some("out.json"));
    assert_eq!(c.token_map, vec![("a".to_string(), "b".to_string())]);
    assert_eq!(c.manifest.version, 4);

    let mut s = settings();
    s.sample_size = Some("-7".to_string());
    s.record_id = Some("no id".to_string());
    let c = Config::from_settings(s).unwrap_or_else(|e| panic!("{e}"));
    assert_eq!(c.sample_size, 50);
    assert!(c.single_record_id.is_none());
}

#[test]
fn missing_settings_are_errors() {
    let mut s = settings();
    s.db_url = None;
    s.target_url = None;
    assert_eq!(Config::from_settings(s).err().as_deref(), Some("REPLAY_DB_URL is required"));
    let mut s = settings();
    s.target_url = None;
    assert_eq!(Config::from_settings(s).err().as_deref(), Some("REPLAY_TARGET_URL is required"));
}

#[test]
fn results_are_counted_and_reported() {
    let recorded = vec![make_entry_point(1, "/a", 200)];
    let none = ChangeManifest::default();
    let passed = after_response(1, &recorded, 200, &JsonValue::Null, &none, 1);
    let failed = after_response(1, &recorded, 500, &JsonValue::Null, &none, 1);
    let errored = after_failed_request(2, "boom");
    assert_eq!(result_lines(&passed), "");
    assert_eq!(
        result_lines(&failed),
        "  FAIL 00000000-0000-0000-0000-000000000001\n       seq=0 [GET /a]\n         status: 200 → 500\n"
    );
    assert_eq!(
        result_lines(&errored),
        "  ERR  00000000-0000-0000-0000-000000000002 — HTTP request failed: boom\n"
    );
    let all = vec![passed, failed, errored];
    let t = tally(&all);
    assert_eq!((t.total, t.passed, t.failed, t.errored), (3, 1, 1, 1));
    assert_eq!(t.line(), "[ditto] 1/3 passed  (1 failed, 1 errors)");
    assert_eq!(t.exit_code(), 1);
    let report: serde_json::Value = serde_json::from_str(&run_report(t, &all)).unwrap();
    assert_eq!(report["total"], 3);
    assert_eq!(report["errored"], 1);
    assert_eq!(report["results"][1]["is_regression"], true);
}

#[test]
fn the_exit_code_tells_regressions_from_errors() {
    let recorded = vec![make_entry_point(1, "/a", 200)];
    let none = ChangeManifest::default();
    let pass = || after_response(1, &recorded, 200, &JsonValue::Null, &none, 1);
    assert_eq!(tally(&vec![pass(), pass()]).exit_code(), 0);
    assert_eq!(tally(&vec![]).exit_code(), 0);
    assert_eq!(tally(&vec![pass(), after_failed_request(2, "x")]).exit_code(), 2);
}

#[test]
fn configurations_can_be_cloned() {
    let config = HarnessConfig {
        token_map: vec![("a".to_string(), "b".to_string())],
        manifest: ChangeManifest::from_toml(
            "version = 3\n[[intentional_changes]]\ndescription = 'd'\npattern = 'p'\n",
        ),
        timeout_secs: 7,
    };
    let copy = config.clone();
    assert_eq!(copy.token_map, config.token_map);
    assert_eq!(copy.timeout_secs, 7);
    assert_eq!(copy.manifest.version, 3);
    assert!(copy.manifest.matches("x.p"));
}
