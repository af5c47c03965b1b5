use base64::engine::general_purpose::STANDARD as B64;
use base64::Engine;
use ditto_replay::context::MockContext;
use ditto_replay::flow::{lookup, or_nothing};
use ditto_replay::grpc::{
    after_match, after_nearest, record, replay_message, request_to_json, response_to_json, start,
    GrpcStep,
};
use ditto_replay::interaction::Interaction;
use ditto_replay::json::{object, JsonValue};
use ditto_replay::memory::InMemoryStore;
use ditto_replay::store::StoreError;
use ditto_replay::types::{CallStatus, CallType, ReplayMode};
use uuid::Uuid;

fn fresh() -> u128 {
    Uuid::new_v4().as_u128()
}

fn make_grpc_interaction(record_id: u128, seq: u32, path: &str, body_b64: &str) -> Interaction {
    Interaction::new(
        record_id,
        seq,
        CallType::Grpc,
        path.to_string(),
        object(vec![
            ("path", JsonValue::text(path)),
            ("body_b64", JsonValue::text(&B64.encode(b"fake-request"))),
        ]),
        object(vec![
            ("status", JsonValue::unsigned(200)),
            ("body_b64", JsonValue::text(body_b64)),
        ]),
        5,
    )
}

#[test]
fn replay_returns_stored_body_bytes() {
    let mut store = InMemoryStore::new();
    let record_id = fresh();
    let path = "/payments.PaymentService/CreatePayment";

    let fake_proto_bytes: Vec<u8> = vec![0x0a, 0x06, 0x70, 0x61, 0x79, 0x5f, 0x31, 0x32, 0x33];
    let stored_b64 = B64.encode(&fake_proto_bytes);
    store.write(&make_grpc_interaction(record_id, 0, path, &stored_b64));

    let mut ctx: MockContext<()> = MockContext::with_id(record_id, ReplayMode::Replay);
    let slot = ctx.next_slot(CallType::Grpc, path.to_string(), None);

    let found = store
        .find_match(slot.record_id, CallType::Grpc, &slot.fingerprint, slot.sequence)
        .unwrap();

    assert_eq!(replay_message(&found.response), fake_proto_bytes);
    match after_match(Some(found)) {
        GrpcStep::Respond(b) => assert_eq!(b, fake_proto_bytes),
        _ => panic!("an answer"),
    }
}

#[test]
fn replay_falls_back_to_fuzzy_on_sequence_drift() {
    let mut store = InMemoryStore::new();
    let record_id = fresh();
    let path = "/payments.PaymentService/GetPayment";

    let body_b64 = B64.encode(b"response-bytes");
    store.write(&make_grpc_interaction(record_id, 1, path, &body_b64));

    let found = store.find_nearest(record_id, path, 2);
    assert!(found.is_some(), "fuzzy should bridge drift of 1");
    let found = found.unwrap();
    assert_eq!(found.response.get("body_b64").unwrap().as_str().unwrap(), body_b64);
    match after_nearest(Some(found)) {
        GrpcStep::Respond(b) => assert_eq!(b, b"response-bytes".to_vec()),
        _ => panic!("an answer"),
    }
}

#[test]
fn multiple_grpc_calls_get_sequential_slots() {
    let record_id = fresh();
    let mut ctx: MockContext<()> = MockContext::with_id(record_id, ReplayMode::Record);
    let create = "/payments.PaymentService/CreatePayment".to_string();
    let get = "/payments.PaymentService/GetPayment".to_string();
    let s1 = ctx.next_slot(CallType::Grpc, create.clone(), None);
    let s2 = ctx.next_slot(CallType::Grpc, get, None);
    let s3 = ctx.next_slot(CallType::Grpc, create, None);

    assert_eq!(s1.sequence, 0);
    assert_eq!(s2.sequence, 1);
    assert_eq!(s3.sequence, 2);
    assert_eq!(s1.record_id, record_id);
}

#[test]
fn grpc_and_http_slots_share_sequence_counter() {
    let mut ctx: MockContext<()> = MockContext::with_id(fresh(), ReplayMode::Record);
    let s_grpc = ctx.next_slot(CallType::Grpc, "/svc/Method".to_string(), None);
    let s_http = ctx.next_slot(CallType::Http, "GET /health".to_string(), None);
    let s_grpc2 = ctx.next_slot(CallType::Grpc, "/svc/Method".to_string(), None);

    assert_eq!(s_grpc.sequence, 0);
    assert_eq!(s_http.sequence, 1);
    assert_eq!(s_grpc2.sequence, 2);
}

#[test]
fn replay_none_when_no_stored_interaction() {
    let store = InMemoryStore::new();
    let mut ctx: MockContext<()> = MockContext::with_id(fresh(), ReplayMode::Replay);
    let slot =
        ctx.next_slot(CallType::Grpc, "/payments.PaymentService/CreatePayment".to_string(), None);

    let found =
        store.find_match(slot.record_id, CallType::Grpc, &slot.fingerprint, slot.sequence);

    assert!(found.is_none(), "empty store should return None");
    assert!(lookup(&store, &slot, CallType::Grpc).is_none());
    assert!(matches!(after_match(None), GrpcStep::FindNearest));
    assert!(matches!(after_nearest(None), GrpcStep::Forward));
}

#[test]
fn messages_are_kept_in_base64() {
    let req: Vec<u8> = vec![0, 255, 16];
    let resp: Vec<u8> = vec![1, 2, 3, 4];
    assert_eq!(request_to_json("/s/M", &req).to_compact(), r#"{"body_b64":"AP8Q","path":"/s/M"}"#);
    assert_eq!(
        response_to_json(200, &resp).to_compact(),
        r#"{"body_b64":"AQIDBA==","status":200}"#
    );
    let mut ctx: MockContext<()> = MockContext::with_id(1, ReplayMode::Record);
    ctx.service_name = "svc".to_string();
    ctx.build_hash = "bh".to_string();
    let slot = ctx.next_slot(CallType::Grpc, "/s/M".to_string(), None);
    let i = record(&slot, "/s/M", &req, 200, &resp, 9);
    assert_eq!(replay_message(&i.response), resp);
    assert_eq!(i.status, CallStatus::Completed);
    assert_eq!(i.service_name, "");
    assert_eq!(i.build_hash, "bh");
    assert_eq!(i.duration_ms, 9);
    assert_eq!(record(&slot, "/s/M", &req, 503, &resp, 9).status, CallStatus::Error);
    let empty: Vec<u8> = vec![];
    assert_eq!(replay_message(&response_to_json(200, &empty)), empty);
}

#[test]
fn what_is_no_base64_is_an_empty_message() {
    let empty: Vec<u8> = vec![];
    for s in [r#"{}"#, r#"{"body_b64":5}"#, r#"{"body_b64":"@@"}"#, r#"{"body_b64":"AA"}"#] {
        assert_eq!(replay_message(&JsonValue::parse(s).unwrap()), empty);
    }
}

#[test]
fn grpc_calls_follow_the_mode() {
    assert!(matches!(start(None), GrpcStep::Forward));
    assert!(matches!(start(Some(ReplayMode::Off)), GrpcStep::Forward));
    assert!(matches!(start(Some(ReplayMode::Passthrough)), GrpcStep::Forward));
    assert!(matches!(start(Some(ReplayMode::Record)), GrpcStep::ForwardAndRecord));
    assert!(matches!(start(Some(ReplayMode::Replay)), GrpcStep::FindMatch));
    assert!(matches!(start(Some(ReplayMode::Shadow)), GrpcStep::FindMatch));
    assert!(or_nothing(Err(StoreError::NotFound)).is_none());
}
