use ditto_replay::context::MockContext;
use ditto_replay::flow::lookup;
use ditto_replay::interaction::Interaction;
use ditto_replay::json::{object, JsonValue};
use ditto_replay::memory::InMemoryStore;
use ditto_replay::redis::{
    any_key, command_to_json, count_reply, deleted_reply, exists_reply, ok_reply, plan_command,
    plan_set, record, replay_del, replay_exists, replay_get, replay_incr, set_to_json,
    value_reply, RedisInterceptorError, RedisPlan,
};
use ditto_replay::types::{CallType, ReplayMode};
use uuid::Uuid;

fn j(s: &str) -> JsonValue {
    JsonValue::parse(s).expect("JSON")
}

fn fresh() -> u128 {
    Uuid::new_v4().as_u128()
}

fn make_redis_interaction(record_id: u128, seq: u32, fp: &str, response: JsonValue) -> Interaction {
    Interaction::new(
        record_id,
        seq,
        CallType::Redis,
        fp.to_string(),
        object(vec![("op", JsonValue::text("GET")), ("key", JsonValue::text(fp))]),
        response,
        1,
    )
}

fn replayed(recorded: Interaction, fp: &str) -> Option<Interaction> {
    let mut store = InMemoryStore::new();
    let record_id = recorded.record_id;
    store.write(&recorded);
    let mut ctx: MockContext<()> = MockContext::with_id(record_id, ReplayMode::Replay);
    let slot = ctx.next_slot(CallType::Redis, fp.to_string(), None);
    store.find_match(slot.record_id, CallType::Redis, &slot.fingerprint, slot.sequence)
}

#[test]
fn replay_get_returns_stored_value() {
    let fp = "session:{id}";
    let recorded = make_redis_interaction(fresh(), 0, fp, j(r#"{"value": "user_data_xyz"}"#));
    let found = replayed(recorded, fp);
    assert_eq!(replay_get(&found), Some("user_data_xyz".to_string()));
}

#[test]
fn replay_get_returns_none_for_stored_null() {
    let fp = "session:{id}";
    let recorded = make_redis_interaction(fresh(), 0, fp, j(r#"{"value": null}"#));
    let found = replayed(recorded, fp);
    assert!(found.is_some());
    assert!(replay_get(&found).is_none());
}

#[test]
fn replay_del_returns_stored_result() {
    let fp = "idempotency:{id}";
    let recorded = Interaction::new(
        fresh(),
        0,
        CallType::Redis,
        fp.to_string(),
        j(r#"{"op": "DEL", "key": "idempotency:pay_123"}"#),
        j(r#"{"deleted": true}"#),
        1,
    );
    assert!(replay_del(&replayed(recorded, fp)));
}

#[test]
fn replay_exists_returns_stored_result() {
    let fp = "idempotency:{id}";
    let recorded = Interaction::new(
        fresh(),
        0,
        CallType::Redis,
        fp.to_string(),
        j(r#"{"op": "EXISTS", "key": "idempotency:pay_123"}"#),
        j(r#"{"exists": true}"#),
        1,
    );
    assert!(replay_exists(&replayed(recorded, fp)));
}

#[test]
fn replay_incr_returns_stored_value() {
    let fp = "rate:{id}";
    let recorded = Interaction::new(
        fresh(),
        0,
        CallType::Redis,
        fp.to_string(),
        j(r#"{"op": "INCR", "key": "rate:user123"}"#),
        j(r#"{"value": 5}"#),
        1,
    );
    assert_eq!(replay_incr(&replayed(recorded, fp)), 5);
}

#[test]
fn mixed_redis_operations_get_sequential_slots() {
    let mut ctx: MockContext<()> = MockContext::with_id(fresh(), ReplayMode::Record);
    let s_get = ctx.next_slot(CallType::Redis, "session:{id}".to_string(), None);
    let s_exists = ctx.next_slot(CallType::Redis, "idempotency:{id}".to_string(), None);
    let s_set = ctx.next_slot(CallType::Redis, "session:{id}".to_string(), None);

    assert_eq!(s_get.sequence, 0);
    assert_eq!(s_exists.sequence, 1);
    assert_eq!(s_set.sequence, 2);
}

#[test]
fn idempotency_key_replay_flow() {
    let mut store = InMemoryStore::new();
    let record_id = fresh();

    let interactions = vec![
        Interaction::new(
            record_id,
            0,
            CallType::Redis,
            "idempotency:{id}".into(),
            j(r#"{"op": "EXISTS", "key": "idempotency:pay_abc"}"#),
            j(r#"{"exists": false}"#),
            1,
        ),
        Interaction::new(
            record_id,
            1,
            CallType::Redis,
            "idempotency:{id}".into(),
            j(r#"{"op": "SET", "key": "idempotency:pay_abc", "value": "processing", "ttl": 300}"#),
            j(r#"{"ok": true}"#),
            1,
        ),
        Interaction::new(
            record_id,
            2,
            CallType::Http,
            "POST /v1/charges".into(),
            j(r#"{"method": "POST", "url": "/v1/charges"}"#),
            j(r#"{"status": 200, "body": {"id": "ch_123"}}"#),
            50,
        ),
        Interaction::new(
            record_id,
            3,
            CallType::Redis,
            "idempotency:{id}".into(),
            j(r#"{"op": "SET", "key": "idempotency:pay_abc", "value": "done", "ttl": 86400}"#),
            j(r#"{"ok": true}"#),
            1,
        ),
    ];

    for i in &interactions {
        store.write(i);
    }

    let all = store.get_by_record_id(record_id);
    assert_eq!(all.len(), 4);
    assert_eq!(all[0].response.get("exists").unwrap().as_bool(), Some(false));
    assert_eq!(all[1].request.get("op").unwrap().as_str(), Some("SET"));
    assert_eq!(all[2].call_type, CallType::Http);
    assert_eq!(all[3].request.get("value").unwrap().as_str(), Some("done"));
}

#[test]
fn commands_and_replies_have_their_shape() {
    assert_eq!(command_to_json("GET", "k").to_compact(), r#"{"key":"k","op":"GET"}"#);
    assert_eq!(
        set_to_json("k", "v", 300).to_compact(),
        r#"{"key":"k","op":"SET","ttl":300,"value":"v"}"#
    );
    assert_eq!(value_reply(&Some("v".to_string())).to_compact(), r#"{"value":"v"}"#);
    assert_eq!(value_reply(&None).to_compact(), r#"{"value":null}"#);
    assert_eq!(ok_reply().to_compact(), r#"{"ok":true}"#);
    assert_eq!(deleted_reply(false).to_compact(), r#"{"deleted":false}"#);
    assert_eq!(exists_reply(true).to_compact(), r#"{"exists":true}"#);
    assert_eq!(count_reply(-3).to_compact(), r#"{"value":-3}"#);
    assert!(any_key(2) && !any_key(0) && !any_key(-1));
}

#[test]
fn recorded_replies_are_replayed() {
    let mut store = InMemoryStore::new();
    let mut ctx: MockContext<()> = MockContext::with_id(2, ReplayMode::Record);
    for reply in [value_reply(&Some("x".to_string())), count_reply(i64::MIN), deleted_reply(true)] {
        let slot = ctx.next_slot(CallType::Redis, "k".to_string(), None);
        store.write(&record(&slot, command_to_json("X", "k"), reply, 1));
    }
    let mut ctx: MockContext<()> = MockContext::with_id(2, ReplayMode::Replay);
    let slot = ctx.next_slot(CallType::Redis, "k".to_string(), None);
    assert_eq!(replay_get(&lookup(&store, &slot, CallType::Redis)), Some("x".to_string()));
    let slot = ctx.next_slot(CallType::Redis, "k".to_string(), None);
    assert_eq!(replay_incr(&lookup(&store, &slot, CallType::Redis)), i64::MIN);
    let slot = ctx.next_slot(CallType::Redis, "k".to_string(), None);
    assert!(replay_del(&lookup(&store, &slot, CallType::Redis)));
}

#[test]
fn what_was_not_recorded_has_a_default() {
    assert_eq!(replay_get(&None), None);
    assert!(!replay_del(&None));
    assert!(!replay_exists(&None));
    assert_eq!(replay_incr(&None), 1);
    let odd = Some(make_redis_interaction(1, 0, "k", j(r#"{"value":[1]}"#)));
    assert_eq!(replay_get(&odd), Some("[1]".to_string()));
    assert_eq!(replay_incr(&odd), 1);
    let bare = Some(make_redis_interaction(1, 0, "k", j("{}")));
    assert_eq!(replay_get(&bare), None);
}

#[test]
fn redis_commands_follow_the_mode() {
    assert!(matches!(plan_command(None), RedisPlan::Execute));
    assert!(matches!(plan_command(Some(ReplayMode::Off)), RedisPlan::Execute));
    assert!(matches!(plan_command(Some(ReplayMode::Record)), RedisPlan::ExecuteAndRecord));
    assert!(matches!(plan_command(Some(ReplayMode::Replay)), RedisPlan::Replay));
    assert!(matches!(plan_command(Some(ReplayMode::Shadow)), RedisPlan::Replay));
    assert!(matches!(plan_set(Some(ReplayMode::Replay)), RedisPlan::RecordAttempt));
    assert!(matches!(plan_set(Some(ReplayMode::Record)), RedisPlan::ExecuteAndRecord));
    assert!(matches!(plan_set(Some(ReplayMode::Passthrough)), RedisPlan::Execute));
    assert_eq!(RedisInterceptorError::Redis("x".to_string()).message(), "redis error: x");
}
