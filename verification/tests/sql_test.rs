use ditto_replay::context::MockContext;
use ditto_replay::flow::lookup;
use ditto_replay::interaction::Interaction;
use ditto_replay::json::{object, JsonValue};
use ditto_replay::memory::InMemoryStore;
use ditto_replay::sql::{
    affected_to_json, after_json_match, after_match, after_nearest, decode_message, first_row, record,
    record_placed, record_with_service, replay_affected, replay_rows, rows_to_json, start,
    SqlStep,
};
use ditto_replay::types::{CallType, ReplayMode};
use uuid::Uuid;

fn j(s: &str) -> JsonValue {
    JsonValue::parse(s).expect("JSON")
}

fn fresh() -> u128 {
    Uuid::new_v4().as_u128()
}

fn make_pg_interaction(record_id: u128, seq: u32, fp: &str, response: JsonValue) -> Interaction {
    Interaction::new(
        record_id,
        seq,
        CallType::Postgres,
        fp.to_string(),
        object(vec![("sql", JsonValue::text(fp))]),
        response,
        5,
    )
}

#[test]
fn replay_returns_stored_rows_for_select() {
    let mut store = InMemoryStore::new();
    let record_id = fresh();
    let fp = "SELECT * FROM payments WHERE id = ?";

    store.write(&make_pg_interaction(
        record_id,
        0,
        fp,
        j(r#"{
            "rows": [
                {"id": "pay_123", "amount": 500, "status": "succeeded"},
                {"id": "pay_456", "amount": 200, "status": "pending"}
            ]
        }"#),
    ));

    let mut ctx: MockContext<()> = MockContext::with_id(record_id, ReplayMode::Replay);
    let slot = ctx.next_slot(CallType::Postgres, fp.to_string(), None);

    let found =
        store.find_match(slot.record_id, CallType::Postgres, &slot.fingerprint, slot.sequence);

    assert!(found.is_some(), "should find recorded interaction");
    let SqlStep::Rows(rows) = after_match(found) else {
        panic!("the recorded rows");
    };
    assert_eq!(rows.len(), 2);
    assert_eq!(rows[0].get("id").unwrap().as_str(), Some("pay_123"));
    assert_eq!(rows[1].get("status").unwrap().as_str(), Some("pending"));
}

#[test]
fn replay_returns_stored_execute_result() {
    let mut store = InMemoryStore::new();
    let record_id = fresh();
    let fp = "UPDATE payments SET status = ? WHERE id = ?";

    store.write(&make_pg_interaction(record_id, 0, fp, j(r#"{"rows_affected": 1}"#)));

    let mut ctx: MockContext<()> = MockContext::with_id(record_id, ReplayMode::Replay);
    let slot = ctx.next_slot(CallType::Postgres, fp.to_string(), None);

    let found =
        store.find_match(slot.record_id, CallType::Postgres, &slot.fingerprint, slot.sequence);

    assert_eq!(replay_affected(&found), 1);
}

#[test]
fn fuzzy_match_bridges_sequence_drift() {
    let mut store = InMemoryStore::new();
    let record_id = fresh();
    let fp = "SELECT * FROM payments WHERE id = ?";

    store.write(&make_pg_interaction(record_id, 2, fp, j(r#"{"rows": [{"id": "pay_999"}]}"#)));

    let found = store.find_nearest(record_id, fp, 3);
    assert!(found.is_some(), "fuzzy match should bridge drift of 1");
    let rows = replay_rows(&found.unwrap().response);
    assert_eq!(rows[0].get("id").unwrap().as_str(), Some("pay_999"));
}

#[test]
fn multiple_queries_get_sequential_slots() {
    let record_id = fresh();
    let mut ctx: MockContext<()> = MockContext::with_id(record_id, ReplayMode::Record);
    let s1 = ctx.next_slot(
        CallType::Postgres,
        "SELECT * FROM payments WHERE id = ?".to_string(),
        None,
    );
    let s2 = ctx.next_slot(
        CallType::Postgres,
        "UPDATE payments SET status = ? WHERE id = ?".to_string(),
        None,
    );
    let s3 = ctx.next_slot(CallType::Redis, "payment:{id}".to_string(), None);

    assert_eq!(s1.sequence, 0);
    assert_eq!(s2.sequence, 1);
    assert_eq!(s3.sequence, 2);
    assert_eq!(s1.record_id, record_id);
    assert_eq!(s2.record_id, record_id);
    assert_eq!(s3.record_id, record_id);
}

#[test]
fn no_interaction_stored_outside_record_mode() {
    let mut ctx: MockContext<()> = MockContext::with_id(fresh(), ReplayMode::Passthrough);
    ctx.next_slot(CallType::Postgres, "SELECT 1".to_string(), None);
    let slot = ctx.next_slot(CallType::Postgres, "SELECT 1".to_string(), None);
    assert!(matches!(slot.mode, ReplayMode::Passthrough));
    assert!(matches!(start(Some(slot.mode)), SqlStep::Execute));
    assert!(matches!(start(None), SqlStep::Execute));
    assert!(matches!(start(Some(ReplayMode::Off)), SqlStep::Execute));
}

#[test]
fn queries_follow_the_mode() {
    assert!(matches!(start(Some(ReplayMode::Record)), SqlStep::ExecuteAndRecord));
    assert!(matches!(start(Some(ReplayMode::Replay)), SqlStep::FindMatch));
    assert!(matches!(start(Some(ReplayMode::Shadow)), SqlStep::FindMatch));
    assert!(matches!(after_match(None), SqlStep::FindNearest));
    assert!(matches!(after_json_match(None), SqlStep::Execute));
    assert!(matches!(after_nearest(None), SqlStep::NotFound));
}

#[test]
fn recorded_rows_are_replayed() {
    let mut store = InMemoryStore::new();
    let mut ctx: MockContext<()> = MockContext::with_id(7, ReplayMode::Record);
    ctx.service_name = "svc".to_string();
    ctx.tag = "t".to_string();
    let sql = "SELECT a FROM t WHERE b = $1";
    let slot = ctx.next_slot(
        CallType::Postgres,
        ditto_replay::fingerprint::FingerprintBuilder::sql(sql),
        None,
    );
    let i = record(&slot, sql, rows_to_json(vec![j("1"), j("2")]), 4);
    assert_eq!(i.request.to_compact(), r#"{"sql":"SELECT a FROM t WHERE b = $1"}"#);
    assert_eq!(i.fingerprint, "SELECT a FROM t WHERE b = ?");
    assert_eq!(i.service_name, "");
    store.write(&i);
    let found = lookup(&store, &slot, CallType::Postgres).unwrap();
    assert_eq!(replay_rows(&found.response), vec![j("1"), j("2")]);

    let named = record_with_service(&slot, sql, affected_to_json(3), 4);
    assert_eq!(named.service_name, "svc");
    assert_eq!(named.tag, "t");
    assert_eq!(replay_affected(&Some(named)), 3);
    assert_eq!(replay_affected(&None), 0);
    assert!(replay_rows(&j(r#"{"rows":5}"#)).is_empty());
    assert!(replay_rows(&j("{}")).is_empty());
}

#[test]
fn a_placed_statement_carries_what_it_is_given() {
    let i = record_placed(3, 8, "DELETE FROM t WHERE a = $2", affected_to_json(9), 5, "b", "s", "g");
    assert_eq!(i.record_id, 3);
    assert_eq!(i.sequence, 8);
    assert_eq!(i.call_type, CallType::Postgres);
    assert_eq!(i.fingerprint, "DELETE FROM t WHERE a = ?");
    assert_eq!(i.response.to_compact(), r#"{"rows_affected":9}"#);
    assert_eq!(i.duration_ms, 5);
    assert_eq!(i.build_hash, "b");
    assert_eq!(i.service_name, "s");
    assert_eq!(i.tag, "g");
}

#[test]
fn single_rows_are_the_first_ones() {
    assert_eq!(first_row(vec![4, 5]), Some(4));
    assert_eq!(first_row(Vec::<u8>::new()), None);
    assert_eq!(decode_message("bad"), "ditto replay decode error: bad");
}

#[test]
fn json_rows_come_from_the_recording() {
    let slot = MockContext::<()>::with_id(7, ReplayMode::Record).next_slot(
        CallType::Postgres,
        "SELECT 1".to_string(),
        None,
    );
    let recorded = record(&slot, "SELECT 1", rows_to_json(vec![j(r#"{"a":1}"#), j("2")]), 4);
    match after_json_match(Some(recorded)) {
        SqlStep::Rows(rows) => assert_eq!(rows, vec![j(r#"{"a":1}"#), j("2")]),
        _ => panic!("the recorded rows"),
    }
}
