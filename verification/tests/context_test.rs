use std::cell::RefCell;
use std::rc::Rc;

use ditto_replay::calls::{fn_call_at, record_fn_call, replay_fn_call, replay_in_memory};
use ditto_replay::context::{next_interaction_slot, InteractionSlot, MockContext};
use ditto_replay::ids::Timestamp;
use ditto_replay::json::{object, JsonValue};
use ditto_replay::memory::InMemoryStore;
use ditto_replay::types::{CallType, ReplayMode};
use uuid::Uuid;

type Shared = Rc<RefCell<InMemoryStore>>;

fn j(s: &str) -> JsonValue {
    JsonValue::parse(s).expect("JSON")
}

fn fresh() -> u128 {
    Uuid::new_v4().as_u128()
}

fn shared() -> Shared {
    Rc::new(RefCell::new(InMemoryStore::new()))
}

fn slot(
    ctx: &mut Option<MockContext<Shared>>,
    call_type: CallType,
    fp: &str,
) -> Option<InteractionSlot<Shared>> {
    next_interaction_slot(ctx, call_type, fp.to_string(), None)
}

/// What an annotated function does around its body.
fn annotated(
    ctx: &mut Option<MockContext<Shared>>,
    name: &str,
    args: Vec<(&str, JsonValue)>,
    body: &dyn Fn() -> JsonValue,
) -> JsonValue {
    let path = format!("app::{name}");
    let slot = next_interaction_slot(ctx, CallType::Function, path, None);
    let Some(slot) = slot else {
        return body();
    };
    if slot.mode == ReplayMode::Replay {
        if let Some(store) = replay_fn_call(&slot, None) {
            let found =
                store.borrow().load_fn_response(slot.record_id, &slot.fingerprint, slot.sequence);
            if let Some(v) = found {
                return v;
            }
        }
        return body();
    }
    let request = object(args);
    let result = body();
    if matches!(slot.mode, ReplayMode::Record | ReplayMode::Shadow) {
        if let Some((store, call)) = record_fn_call(&slot, None, request, result.duplicate(), 1) {
            store.borrow_mut().store_fn_call(&call);
        }
    }
    result
}

fn compute_fee(ctx: &mut Option<MockContext<Shared>>, amount: u64, currency: &str) -> JsonValue {
    annotated(
        ctx,
        "compute_fee",
        vec![("amount", JsonValue::unsigned(amount)), ("currency", JsonValue::text(currency))],
        &|| JsonValue::unsigned(amount * 2 + 100),
    )
}

fn echo_string(ctx: &mut Option<MockContext<Shared>>, s: &str) -> JsonValue {
    annotated(ctx, "echo_string", vec![("s", JsonValue::text(s))], &|| {
        JsonValue::text(&format!("echo: {s}"))
    })
}

fn process_payment(ctx: &mut Option<MockContext<Shared>>, amount: u64) -> JsonValue {
    annotated(ctx, "process_payment", vec![("amount", JsonValue::unsigned(amount))], &|| {
        object(vec![
            ("id", JsonValue::text(&format!("pay_{amount}"))),
            ("status", JsonValue::text("succeeded")),
            ("fee", JsonValue::unsigned(amount / 10)),
        ])
    })
}

#[test]
fn sequence_is_monotonic() {
    let mut ctx = Some(MockContext::new(ReplayMode::Record));
    let s1 = slot(&mut ctx, CallType::Http, "a").unwrap();
    let s2 = slot(&mut ctx, CallType::Postgres, "b").unwrap();
    let s3 = slot(&mut ctx, CallType::Redis, "c").unwrap();
    assert_eq!(s1.sequence, 0);
    assert_eq!(s2.sequence, 1);
    assert_eq!(s3.sequence, 2);
}

#[test]
fn no_slot_outside_context() {
    let mut none: Option<MockContext<Shared>> = None;
    assert!(slot(&mut none, CallType::Http, "test").is_none());
}

#[test]
fn slot_carries_tag_and_service_name() {
    let mut ctx = MockContext::new(ReplayMode::Record);
    ctx.tag = "my-tag".into();
    ctx.service_name = "my-svc".into();
    let mut ctx = Some(ctx);
    let slot = slot(&mut ctx, CallType::Http, "GET /foo").unwrap();
    assert_eq!(slot.tag, "my-tag");
    assert_eq!(slot.service_name, "my-svc");
}

#[test]
fn mock_context_sequence_counter() {
    let mut ctx: MockContext<Shared> = MockContext::new(ReplayMode::Record);
    assert_eq!(ctx.next_seq(), 0);
    assert_eq!(ctx.next_seq(), 1);
    assert_eq!(ctx.next_seq(), 2);
}

#[test]
fn the_counter_wraps_around() {
    let mut ctx: MockContext<Shared> = MockContext::new(ReplayMode::Record);
    ctx.sequence = u32::MAX;
    assert_eq!(ctx.next_seq(), u32::MAX);
    assert_eq!(ctx.next_seq(), 0);
}

#[test]
fn three_nested_calls_share_record_id_and_increment_sequence() {
    let ctx = MockContext::new(ReplayMode::Record);
    let record_id = ctx.record_id;
    let mut ctx = Some(ctx);

    let s1 = slot(&mut ctx, CallType::Http, "GET /a").unwrap();
    let s2 = slot(&mut ctx, CallType::Postgres, "SELECT ?").unwrap();
    let s3 = slot(&mut ctx, CallType::Redis, "cache:{id}").unwrap();

    assert_eq!(s1.record_id, record_id);
    assert_eq!(s2.record_id, record_id);
    assert_eq!(s3.record_id, record_id);

    assert_eq!(s1.sequence, 0);
    assert_eq!(s2.sequence, 1);
    assert_eq!(s3.sequence, 2);
}

#[test]
fn fresh_contexts_differ() {
    let a: MockContext<Shared> = MockContext::new(ReplayMode::Record);
    let b: MockContext<Shared> = MockContext::new(ReplayMode::Record);
    assert_ne!(a.record_id, b.record_id);
    assert!(a.store.is_none() && a.capture_id.is_none());
    assert_eq!(a.build_hash, "");
}

#[test]
fn the_store_of_the_context_comes_first() {
    let own = shared();
    let global = shared();
    let with: MockContext<Shared> =
        MockContext::with_store(1, ReplayMode::Record, own.clone());
    let without: MockContext<Shared> = MockContext::with_id(1, ReplayMode::Record);
    assert!(Rc::ptr_eq(with.effective_store(Some(&global)).unwrap(), &own));
    assert!(Rc::ptr_eq(without.effective_store(Some(&global)).unwrap(), &global));
    assert!(without.effective_store(None).is_none());
    let mut with = with;
    let s = with.next_slot(CallType::Http, "x".to_string(), Some(&global));
    assert!(Rc::ptr_eq(s.store.as_ref().unwrap(), &own));
}

#[test]
fn shadow_context_propagates_capture_id() {
    let record_id = fresh();
    let capture_id = fresh();
    let mut ctx = Some(MockContext::shadow(record_id, capture_id));

    let slot = slot(&mut ctx, CallType::Function, "fn::test").unwrap();
    assert_eq!(slot.mode, ReplayMode::Shadow);
    assert_eq!(slot.record_id, record_id);
    assert_eq!(slot.capture_id, Some(capture_id));
}

#[test]
fn record_fn_call_writes_to_capture_id_in_shadow_mode() {
    let store = shared();

    let record_id = fresh();
    let capture_id = fresh();
    let mut ctx = Some(MockContext::shadow_with_store(record_id, capture_id, store.clone()));

    let slot = slot(&mut ctx, CallType::Function, "compute_tax").unwrap();
    assert_eq!(slot.mode, ReplayMode::Shadow);

    let (to, call) =
        record_fn_call(&slot, None, j(r#"{ "amount": 99.99 }"#), j("9.0"), 1).unwrap();
    to.borrow_mut().store_fn_call(&call);

    let in_capture = store.borrow().get_by_record_id(capture_id);
    let in_original = store.borrow().get_by_record_id(record_id);

    assert_eq!(in_capture.len(), 1, "should have 1 interaction under capture_id");
    assert_eq!(in_original.len(), 0, "original recording must not be polluted");

    let cap = &in_capture[0];
    assert_eq!(cap.fingerprint, "compute_tax");
    assert_eq!(cap.response, j("9.0"));
    assert_eq!(cap.call_type, CallType::Function);
}

#[test]
fn shadow_roundtrip_shows_different_fn_result() {
    let store = shared();
    let record_id = fresh();

    {
        let mut ctx = Some(MockContext::with_id(record_id, ReplayMode::Record));
        let slot = next_interaction_slot(
            &mut ctx,
            CallType::Function,
            "compute_tax".to_string(),
            Some(&store),
        )
        .unwrap();
        let (to, call) =
            record_fn_call(&slot, Some(&store), j(r#"{ "amount": 100.0 }"#), j("8.0"), 1).unwrap();
        to.borrow_mut().store_fn_call(&call);
    }

    let recorded = store.borrow().get_by_record_id(record_id);
    assert_eq!(recorded[0].response, j("8.0"), "recorded value must be 8.0");

    let capture_id = fresh();
    {
        let mut ctx = Some(MockContext::shadow(record_id, capture_id));
        let slot = next_interaction_slot(
            &mut ctx,
            CallType::Function,
            "compute_tax".to_string(),
            Some(&store),
        )
        .unwrap();
        let (to, call) =
            record_fn_call(&slot, Some(&store), j(r#"{ "amount": 100.0 }"#), j("9.0"), 1).unwrap();
        to.borrow_mut().store_fn_call(&call);
    }

    let captured = store.borrow().get_by_record_id(capture_id);
    assert_eq!(captured.len(), 1);
    assert_eq!(captured[0].response, j("9.0"), "captured value must be 9.0 (faulty)");

    assert_ne!(
        recorded[0].response, captured[0].response,
        "diff engine would detect this as a regression"
    );

    store.borrow_mut().delete_by_record_id(capture_id);
    let after = store.borrow().get_by_record_id(capture_id);
    assert!(after.is_empty(), "temp capture record must be cleaned up");
}

#[test]
fn nothing_is_recorded_without_a_store() {
    let mut ctx: Option<MockContext<Shared>> = Some(MockContext::with_id(1, ReplayMode::Record));
    let slot = slot(&mut ctx, CallType::Function, "f").unwrap();
    assert!(record_fn_call(&slot, None, j("{}"), j("1"), 1).is_none());
    assert!(replay_fn_call(&slot, None).is_none());
}

#[test]
fn record_captures_return_value() {
    let store = shared();
    let id = fresh();

    let mut ctx = Some(MockContext::with_store(id, ReplayMode::Record, store.clone()));
    let fee = compute_fee(&mut ctx, 500, "USD");
    assert_eq!(fee, JsonValue::unsigned(1100));

    let interactions = store.borrow().get_by_record_id(id);
    assert_eq!(interactions.len(), 1);

    let i = &interactions[0];
    assert_eq!(i.call_type, CallType::Function);
    assert!(i.fingerprint.ends_with("::compute_fee"), "fingerprint: {}", i.fingerprint);
    assert_eq!(i.request.get("amount").unwrap().as_u64(), Some(500));
    assert_eq!(i.request.get("currency").unwrap().as_str(), Some("USD"));
    assert_eq!(i.response, JsonValue::unsigned(1100));
}

#[test]
fn replay_returns_stored_value_without_running_body() {
    let store = shared();
    let id = fresh();

    let mut ctx = Some(MockContext::with_store(id, ReplayMode::Record, store.clone()));
    assert_eq!(compute_fee(&mut ctx, 500, "USD"), JsonValue::unsigned(1100));
    assert_eq!(store.borrow().get_by_record_id(id).len(), 1);

    let mut ctx = Some(MockContext::with_store(id, ReplayMode::Replay, store.clone()));
    let replayed = annotated(&mut ctx, "compute_fee", vec![], &|| panic!("the body must not run"));

    assert_eq!(replayed, JsonValue::unsigned(1100));
}

#[test]
fn replay_struct_return_type() {
    let store = shared();
    let id = fresh();

    let mut ctx = Some(MockContext::with_store(id, ReplayMode::Record, store.clone()));
    let r = process_payment(&mut ctx, 1000);
    assert_eq!(r.get("fee").unwrap().as_u64(), Some(100));

    let mut ctx = Some(MockContext::with_store(id, ReplayMode::Replay, store.clone()));
    let replayed = process_payment(&mut ctx, 1000);

    assert_eq!(replayed.get("id").unwrap().as_str(), Some("pay_1000"));
    assert_eq!(replayed.get("status").unwrap().as_str(), Some("succeeded"));
    assert_eq!(replayed.get("fee").unwrap().as_u64(), Some(100));
}

#[test]
fn replay_string_return_type() {
    let store = shared();
    let id = fresh();

    let mut ctx = Some(MockContext::with_store(id, ReplayMode::Record, store.clone()));
    assert_eq!(echo_string(&mut ctx, "hello"), JsonValue::text("echo: hello"));

    let mut ctx = Some(MockContext::with_store(id, ReplayMode::Replay, store.clone()));
    assert_eq!(echo_string(&mut ctx, "hello"), JsonValue::text("echo: hello"));
}

#[test]
fn passthrough_mode_executes_real_body() {
    let mut ctx = Some(MockContext::new(ReplayMode::Passthrough));
    assert_eq!(compute_fee(&mut ctx, 200, "EUR"), JsonValue::unsigned(500));
}

#[test]
fn no_context_executes_real_body() {
    assert_eq!(compute_fee(&mut None, 100, "GBP"), JsonValue::unsigned(300));
}

#[test]
fn unit_return_type_records_and_replays() {
    let store = shared();
    let id = fresh();

    let mut ctx = Some(MockContext::with_store(id, ReplayMode::Record, store.clone()));
    annotated(&mut ctx, "returns_unit", vec![("x", JsonValue::unsigned(42))], &|| JsonValue::Null);

    let interactions = store.borrow().get_by_record_id(id);
    assert_eq!(interactions.len(), 1, "unit fn should still be recorded");

    let mut ctx = Some(MockContext::with_store(id, ReplayMode::Replay, store.clone()));
    let r = annotated(&mut ctx, "returns_unit", vec![], &|| panic!("the body must not run"));
    assert_eq!(r, JsonValue::Null);
}

#[test]
fn multiple_annotated_calls_get_sequential_slots() {
    let store = shared();
    let id = fresh();

    let mut ctx = Some(MockContext::with_store(id, ReplayMode::Record, store.clone()));
    compute_fee(&mut ctx, 100, "USD");
    echo_string(&mut ctx, "a");
    compute_fee(&mut ctx, 200, "EUR");

    let interactions = store.borrow().get_by_record_id(id);
    assert_eq!(interactions.len(), 3);
    assert_eq!(interactions[0].sequence, 0);
    assert_eq!(interactions[1].sequence, 1);
    assert_eq!(interactions[2].sequence, 2);
}

#[test]
fn replay_all_three_calls_in_sequence() {
    let store = shared();
    let id = fresh();

    let mut ctx = Some(MockContext::with_store(id, ReplayMode::Record, store.clone()));
    compute_fee(&mut ctx, 100, "USD");
    echo_string(&mut ctx, "hello");
    compute_fee(&mut ctx, 200, "EUR");

    let mut ctx = Some(MockContext::with_store(id, ReplayMode::Replay, store.clone()));
    let fee1 = compute_fee(&mut ctx, 0, "");
    let echo = echo_string(&mut ctx, "");
    let fee2 = compute_fee(&mut ctx, 0, "");

    assert_eq!(fee1, JsonValue::unsigned(300));
    assert_eq!(echo, JsonValue::text("echo: hello"));
    assert_eq!(fee2, JsonValue::unsigned(500));
}

#[test]
fn record_io_records_free_fn() {
    let store = shared();
    let record_id = fresh();

    let mut ctx = Some(MockContext::with_store(record_id, ReplayMode::Record, store.clone()));
    let result = annotated(&mut ctx, "double", vec![("x", JsonValue::unsigned(21))], &|| {
        JsonValue::unsigned(21 * 2)
    });
    assert_eq!(result, JsonValue::unsigned(42));

    let stored = store.borrow().get_by_record_id(record_id);
    assert_eq!(stored.len(), 1, "interaction must be written to store");
}

#[test]
fn record_io_replays_free_fn_from_store() {
    let store = shared();
    let record_id = fresh();

    let mut ctx = Some(MockContext::with_store(record_id, ReplayMode::Record, store.clone()));
    annotated(&mut ctx, "double", vec![("x", JsonValue::unsigned(21))], &|| {
        JsonValue::unsigned(42)
    });

    let mut ctx = Some(MockContext::with_store(record_id, ReplayMode::Replay, store.clone()));
    let replayed = annotated(&mut ctx, "double", vec![("x", JsonValue::unsigned(0))], &|| {
        JsonValue::unsigned(0)
    });
    assert_eq!(
        replayed,
        JsonValue::unsigned(42),
        "replay must return stored value, not recompute"
    );
}

#[test]
fn a_recorded_call_is_what_its_slot_replays() {
    let mut ctx: Option<MockContext<()>> = Some(MockContext::with_id(7, ReplayMode::Record));
    let first = next_interaction_slot(&mut ctx, CallType::Function, "m::f".to_string(), None).unwrap();
    let second = next_interaction_slot(&mut ctx, CallType::Function, "m::f".to_string(), None).unwrap();
    let at = Timestamp { secs: 3, nanos: 4 };
    let mut store = InMemoryStore::new();
    assert!(replay_in_memory(&store, &first).is_none());
    let call = fn_call_at(&first, 1, at, j(r#"{"x": 2}"#), j("[4]"), 9);
    assert_eq!((call.id, call.record_id, call.sequence, call.recorded_at), (1, 7, 0, at));
    store.write(&call);
    assert_eq!(replay_in_memory(&store, &first).unwrap().to_compact(), "[4]");
    // The nearest call with the fingerprint answers where none was recorded.
    assert_eq!(replay_in_memory(&store, &second).unwrap().to_compact(), "[4]");
    let other = next_interaction_slot(&mut ctx, CallType::Function, "m::g".to_string(), None).unwrap();
    assert!(replay_in_memory(&store, &other).is_none());
}

#[test]
fn contexts_and_slots_can_be_cloned() {
    let mut ctx = MockContext::with_store(3, ReplayMode::Record, 9u8);
    ctx.tag = "t".to_string();
    let slot = ctx.next_slot(CallType::Redis, "k".to_string(), None);
    let copy = slot.clone();
    assert_eq!((copy.record_id, copy.sequence, copy.store), (3, 0, Some(9)));
    assert_eq!((copy.fingerprint.as_str(), copy.tag.as_str()), ("k", "t"));
    let mut other = ctx.clone();
    assert_eq!((other.record_id, other.store, other.sequence), (3, Some(9), 1));
    assert_eq!(other.next_slot(CallType::Redis, "k".to_string(), None).sequence, 1);
}
