use ditto_replay::context::{next_interaction_slot, MockContext};
use ditto_replay::http_server::{
    body_from_bytes, claim_entry, context_for_plan, context_for_request, entry_request_json,
    entry_response_json, id_from_header, mode_from_setting, plan_entry, plan_request,
    record_entry, record_for, service_name_from, tag_from_setting, EntryPlan,
};
use ditto_replay::json::JsonValue;
use ditto_replay::memory::InMemoryStore;
use ditto_replay::middleware::{plan_layer, plan_layer_request};
use ditto_replay::types::{CallStatus, CallType, ReplayMode};
use uuid::Uuid;

fn j(s: &str) -> JsonValue {
    JsonValue::parse(s).expect("JSON")
}

fn planned(mode: ReplayMode, record: Option<&str>, capture: Option<&str>) -> EntryPlan {
    plan_request(mode, record, capture).expect("a plan")
}

#[test]
fn record_mode_injects_context_into_handler() {
    let ctx: MockContext<()> = context_for_request(ReplayMode::Record, None).unwrap();
    assert_eq!(ctx.mode, ReplayMode::Record);
    assert!(plan_layer_request(ReplayMode::Record, false, None).is_some());
}

#[test]
fn off_mode_bypasses_context_injection() {
    assert!(plan_layer_request(ReplayMode::Off, true, None).is_none());
    assert!(context_for_request::<()>(ReplayMode::Off, None).is_none());
    assert!(plan_request(ReplayMode::Off, None, None).is_none());
}

#[test]
fn replay_mode_reads_record_id_from_header() {
    let expected_id = Uuid::new_v4();
    let header = expected_id.to_string();
    let plan = plan_layer_request(ReplayMode::Replay, false, Some(&header)).unwrap();
    assert_eq!(plan.record_id, expected_id.as_u128());
    let ctx: MockContext<()> = context_for_request(ReplayMode::Replay, Some(&header)).unwrap();
    assert_eq!(ctx.record_id, expected_id.as_u128());
    let ctx: MockContext<()> = context_for_request(ReplayMode::Record, Some(&header)).unwrap();
    assert_ne!(ctx.record_id, expected_id.as_u128());
}

#[test]
fn with_store_records_entry_point_at_sequence_zero() {
    let mut store = InMemoryStore::new();

    let plan = plan_layer_request(ReplayMode::Record, true, None).unwrap();
    assert!(plan.record_entry);
    let mut ctx: MockContext<()> = MockContext::with_id(plan.record_id, plan.mode);
    let slot = claim_entry(&mut ctx, "GET", "/payments/42", None);
    store.write(&record_entry(
        &slot,
        "GET",
        "/payments/42",
        &JsonValue::Null,
        200,
        &JsonValue::Null,
        1,
    ));

    let ids = store.get_recent_record_ids(10);
    assert_eq!(ids.len(), 1, "exactly one recording must exist");

    let interactions = store.get_by_record_id(ids[0]);
    assert_eq!(interactions.len(), 1);
    assert_eq!(interactions[0].sequence, 0, "entry-point must claim sequence 0");

    let req_json = &interactions[0].request;
    assert_eq!(req_json.get("method").unwrap().as_str(), Some("GET"));
    assert_eq!(req_json.get("path").unwrap().as_str(), Some("/payments/42"));
    assert_eq!(interactions[0].response.to_compact(), r#"{"status":200}"#);
    assert_eq!(ctx.next_seq(), 1);
}

#[test]
fn with_store_does_not_write_in_replay_mode() {
    for mode in [ReplayMode::Replay, ReplayMode::Shadow, ReplayMode::Passthrough] {
        assert!(
            !plan_layer_request(mode, true, None).unwrap().record_entry,
            "Replay mode must not write to the store"
        );
    }
    assert!(!plan_layer_request(ReplayMode::Record, false, None).unwrap().record_entry);
}

#[test]
fn each_request_gets_a_fresh_record_id() {
    let a = plan_layer_request(ReplayMode::Record, false, None).unwrap();
    let b = plan_layer_request(ReplayMode::Record, false, None).unwrap();
    assert_ne!(a.record_id, b.record_id, "each request must get a unique record_id");
}

#[test]
fn settings_of_the_server() {
    assert_eq!(mode_from_setting(Some("record")), ReplayMode::Record);
    assert_eq!(mode_from_setting(Some("replay")), ReplayMode::Replay);
    assert_eq!(mode_from_setting(Some("passthrough")), ReplayMode::Passthrough);
    assert_eq!(mode_from_setting(Some("shadow")), ReplayMode::Off);
    assert_eq!(mode_from_setting(Some("RECORD")), ReplayMode::Off);
    assert_eq!(mode_from_setting(None), ReplayMode::Off);
    assert_eq!(tag_from_setting(Some("t")), "t");
    assert_eq!(tag_from_setting(None), "");
    assert_eq!(service_name_from(Some("svc"), Some("prog")), "svc");
    assert_eq!(service_name_from(Some(""), Some("prog")), "");
    assert_eq!(service_name_from(None, Some("prog")), "prog");
    assert_eq!(service_name_from(None, None), "unknown");
}

#[test]
fn headers_name_records() {
    let id: u128 = 0x550e8400_e29b_41d4_a716_446655440000;
    assert_eq!(id_from_header(Some("550e8400-e29b-41d4-a716-446655440000")), Some(id));
    assert_eq!(id_from_header(Some("550e8400e29b41d4a716446655440000")), Some(id));
    assert_eq!(id_from_header(Some("nonsense")), None);
    assert_eq!(id_from_header(None), None);
    assert_eq!(record_for(ReplayMode::Replay, Some(3), 9), 3);
    assert_eq!(record_for(ReplayMode::Replay, None, 9), 9);
    assert_eq!(record_for(ReplayMode::Record, Some(3), 9), 9);
}

#[test]
fn entry_points_are_planned_by_mode_and_headers() {
    let p = plan_entry(ReplayMode::Record, Some(3), None, 9).unwrap();
    assert_eq!((p.record_id, p.mode, p.capture_id), (9, ReplayMode::Record, None));
    assert!(p.read_body && p.claim_entry && p.record_entry);

    let p = plan_entry(ReplayMode::Replay, Some(3), None, 9).unwrap();
    assert_eq!((p.record_id, p.mode, p.capture_id), (3, ReplayMode::Replay, None));
    assert!(!p.read_body && !p.claim_entry && !p.record_entry);

    let p = plan_entry(ReplayMode::Replay, Some(3), Some(4), 9).unwrap();
    assert_eq!((p.record_id, p.mode, p.capture_id), (3, ReplayMode::Shadow, Some(4)));
    assert!(!p.read_body && p.claim_entry && !p.record_entry);

    let p = plan_entry(ReplayMode::Passthrough, None, None, 9).unwrap();
    assert_eq!((p.record_id, p.mode), (9, ReplayMode::Passthrough));
    assert!(!p.read_body && !p.claim_entry && !p.record_entry);

    // A capture header means nothing outside a replay.
    let p = plan_entry(ReplayMode::Record, Some(3), Some(4), 9).unwrap();
    assert_eq!((p.record_id, p.mode, p.capture_id), (9, ReplayMode::Record, None));
    assert!(p.read_body && p.claim_entry && p.record_entry);

    let p = plan_entry(ReplayMode::Passthrough, None, Some(4), 9).unwrap();
    assert_eq!((p.record_id, p.mode, p.capture_id), (9, ReplayMode::Passthrough, None));
    assert!(!p.read_body && !p.claim_entry && !p.record_entry);

    assert!(plan_entry(ReplayMode::Off, Some(3), Some(4), 9).is_none());
}

#[test]
fn a_plan_makes_a_context() {
    let p = planned(
        ReplayMode::Replay,
        Some("00000000-0000-0000-0000-000000000003"),
        Some("00000000-0000-0000-0000-000000000004"),
    );
    let ctx: MockContext<()> = context_for_plan(p, "tag".to_string(), "svc".to_string());
    assert_eq!(ctx.record_id, 3);
    assert_eq!(ctx.capture_id, Some(4));
    assert_eq!(ctx.mode, ReplayMode::Shadow);
    assert_eq!(ctx.tag, "tag");
    assert_eq!(ctx.service_name, "svc");
    let mut ctx = Some(ctx);
    let slot = next_interaction_slot(&mut ctx, CallType::Http, "x".to_string(), None).unwrap();
    assert_eq!(slot.sequence, 0);
    assert_eq!(slot.capture_id, Some(4));
}

#[test]
fn bodies_are_kept_if_they_are_json() {
    assert_eq!(body_from_bytes(b"{\"a\":1}"), j(r#"{"a":1}"#));
    assert_eq!(body_from_bytes(b"text"), JsonValue::Null);
    assert_eq!(body_from_bytes(b""), JsonValue::Null);
    assert_eq!(
        entry_request_json("POST", "/p", &j("[1]")).to_compact(),
        r#"{"body":[1],"method":"POST","path":"/p"}"#
    );
    assert_eq!(
        entry_request_json("POST", "/p", &JsonValue::Null).to_compact(),
        r#"{"method":"POST","path":"/p"}"#
    );
    assert_eq!(
        entry_response_json(201, &j("\"x\"")).to_compact(),
        r#"{"body":"x","status":201}"#
    );
}

#[test]
fn an_entry_point_is_recorded_with_its_context() {
    let mut ctx: MockContext<()> = MockContext::with_id(8, ReplayMode::Record);
    ctx.service_name = "svc".to_string();
    ctx.tag = "t".to_string();
    let slot = claim_entry(&mut ctx, "POST", "/orders/ord_12345", None);
    let i = record_entry(&slot, "POST", "/orders/ord_12345", &j("{}"), 503, &j("1"), 12);
    assert_eq!(i.fingerprint, "POST /orders/{id}");
    assert_eq!(i.status, CallStatus::Error);
    assert_eq!(i.service_name, "svc");
    assert_eq!(i.tag, "t");
    assert_eq!(i.duration_ms, 12);
    assert_eq!(i.record_id, 8);
    let other = record_entry(&slot, "POST", "/o", &j("{}"), 499, &j("1"), 12);
    assert_eq!(other.status, CallStatus::Completed);
    let p = plan_layer(ReplayMode::Record, true, Some(1), 2).unwrap();
    assert_eq!(p.record_id, 2);
}
