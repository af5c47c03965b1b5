use std::cell::{Cell, RefCell};

use ditto_replay::context::{next_interaction_slot, MockContext};
use ditto_replay::flow::{plan, slot_mode, CallPlan};
use ditto_replay::interaction::Interaction;
use ditto_replay::json::{object, JsonValue};
use ditto_replay::memory::InMemoryStore;
use ditto_replay::runner::{
    after_match, after_nearest, after_write, keeps, record, run_in_memory, start, ReplayError, RunStep,
};
use ditto_replay::store::StoreError;
use ditto_replay::types::{CallType, ReplayMode};
use uuid::Uuid;

type Ctx = Option<MockContext<()>>;

fn fresh() -> u128 {
    Uuid::new_v4().as_u128()
}

/// An interceptor that echoes its request and counts its executions.
struct Echo {
    store: RefCell<InMemoryStore>,
    executed: Cell<u32>,
    call_type: CallType,
}

impl Echo {
    fn new() -> Echo {
        Echo {
            store: RefCell::new(InMemoryStore::new()),
            executed: Cell::new(0),
            call_type: CallType::Function,
        }
    }

    fn execute(&self, req: &str) -> JsonValue {
        self.executed.set(self.executed.get() + 1);
        object(vec![("value", JsonValue::text(req))])
    }

    fn run(&self, ctx: &mut Ctx, fp: &str, req: &str) -> Result<JsonValue, ReplayError> {
        let slot = next_interaction_slot(ctx, self.call_type, fp.to_string(), None);
        match start(slot_mode(&slot)) {
            RunStep::Execute => Ok(self.execute(req)),
            RunStep::ExecuteAndRecord => {
                let slot = slot.unwrap();
                let result = self.execute(req);
                let request = object(vec![("input", JsonValue::text(req))]);
                let i = record(&slot, self.call_type, request, result.duplicate(), 1);
                self.store.borrow_mut().write(&i);
                Ok(result)
            }
            _ => match run_in_memory(&self.store.borrow(), &slot, self.call_type) {
                RunStep::Answer(v) => Ok(v),
                RunStep::Fail(e) => Err(e),
                _ => panic!("a replayed call is answered or fails"),
            },
        }
    }

    fn echo(&self, ctx: &mut Ctx, req: &str) -> Result<JsonValue, ReplayError> {
        self.run(ctx, &format!("echo:{req}"), req)
    }
}

fn value(v: &JsonValue) -> String {
    v.get("value").unwrap().as_str().unwrap().to_string()
}

#[test]
fn no_context_passes_through_without_touching_store() {
    let runner = Echo::new();

    let result = runner.echo(&mut None, "hello").ok().unwrap();

    assert_eq!(value(&result), "hello");
    assert_eq!(runner.executed.get(), 1, "execute() must be called");
    assert!(runner.store.borrow().get_recent_record_ids(10).is_empty(), "nothing stored");
}

#[test]
fn record_mode_calls_execute_and_writes_to_store() {
    let runner = Echo::new();
    let record_id = fresh();

    let mut ctx = Some(MockContext::with_id(record_id, ReplayMode::Record));
    let result = runner.echo(&mut ctx, "hello").ok().unwrap();

    assert_eq!(value(&result), "hello");
    assert_eq!(runner.executed.get(), 1, "execute() must be called once in record mode");

    let stored = runner.store.borrow().get_by_record_id(record_id);
    assert_eq!(stored.len(), 1);
    assert_eq!(stored[0].fingerprint, "echo:hello");
    assert_eq!(stored[0].call_type, CallType::Function);
    assert_eq!(stored[0].sequence, 0);
}

#[test]
fn record_mode_sequences_increment_across_calls() {
    let runner = Echo::new();
    let record_id = fresh();

    let mut ctx = Some(MockContext::with_id(record_id, ReplayMode::Record));
    runner.echo(&mut ctx, "a").ok().unwrap();
    runner.echo(&mut ctx, "b").ok().unwrap();
    runner.echo(&mut ctx, "c").ok().unwrap();

    let stored = runner.store.borrow().get_by_record_id(record_id);
    assert_eq!(stored.len(), 3);
    assert_eq!(stored[0].sequence, 0);
    assert_eq!(stored[1].sequence, 1);
    assert_eq!(stored[2].sequence, 2);
}

#[test]
fn replay_mode_returns_stored_response_without_calling_execute() {
    let runner = Echo::new();
    let record_id = fresh();

    let stored_resp = object(vec![("value", JsonValue::text("stored value"))]);
    let interaction = Interaction::new(
        record_id,
        0,
        CallType::Function,
        "echo:anything".to_string(),
        object(vec![("input", JsonValue::text("anything"))]),
        stored_resp.duplicate(),
        0,
    );
    runner.store.borrow_mut().write(&interaction);

    let mut ctx = Some(MockContext::with_id(record_id, ReplayMode::Replay));
    let result = runner.echo(&mut ctx, "anything").ok().unwrap();

    assert_eq!(result, stored_resp, "must return stored response");
    assert_eq!(runner.executed.get(), 0, "execute() must NOT be called in replay mode");
}

#[test]
fn replay_mode_errors_on_store_miss() {
    let runner = Echo::new();

    let mut ctx = Some(MockContext::with_id(fresh(), ReplayMode::Replay));
    let result = runner.echo(&mut ctx, "nothing_recorded");

    assert!(result.is_err(), "should error on store miss");
    assert!(
        matches!(result.err().unwrap(), ReplayError::NotFound { .. }),
        "error should be ReplayError::NotFound"
    );
    assert_eq!(runner.executed.get(), 0, "execute() must NOT be called");
}

#[test]
fn replay_mode_uses_fuzzy_fallback_on_sequence_drift() {
    let runner = Echo::new();
    let record_id = fresh();

    let stored_resp = object(vec![("value", JsonValue::text("fuzzy match"))]);
    runner.store.borrow_mut().write(&Interaction::new(
        record_id,
        0,
        CallType::Function,
        "echo:test".to_string(),
        object(vec![("input", JsonValue::text("test"))]),
        stored_resp.duplicate(),
        0,
    ));

    let result = runner.store.borrow().find_nearest(record_id, "echo:test", 1);

    assert!(result.is_some(), "fuzzy match should find seq=0 when searching for seq=1");
    let found = result.unwrap();
    assert_eq!(found.sequence, 0);
    assert_eq!(found.response, stored_resp);

    // The same through the runner, with a call before this one.
    let mut ctx: Ctx = Some(MockContext::with_id(record_id, ReplayMode::Replay));
    next_interaction_slot(&mut ctx, CallType::Function, "other".to_string(), None);
    assert_eq!(runner.echo(&mut ctx, "test").ok().unwrap(), stored_resp);
}

#[test]
fn passthrough_mode_calls_execute_without_writing_to_store() {
    let runner = Echo::new();
    let record_id = fresh();

    let mut ctx = Some(MockContext::with_id(record_id, ReplayMode::Passthrough));
    let result = runner.echo(&mut ctx, "passthrough_req").ok().unwrap();

    assert_eq!(value(&result), "passthrough_req");
    assert_eq!(runner.executed.get(), 1, "execute() must be called");
    assert!(
        runner.store.borrow().get_by_record_id(record_id).is_empty(),
        "nothing should be stored in passthrough mode"
    );
}

#[test]
fn off_mode_calls_execute_without_writing_to_store() {
    let runner = Echo::new();
    let record_id = fresh();

    let mut ctx = Some(MockContext::with_id(record_id, ReplayMode::Off));
    let result = runner.echo(&mut ctx, "off_req").ok().unwrap();

    assert_eq!(value(&result), "off_req");
    assert_eq!(runner.executed.get(), 1, "execute() must be called");
    assert!(
        runner.store.borrow().get_by_record_id(record_id).is_empty(),
        "nothing should be stored in off mode"
    );
}

#[test]
fn interceptor_runner_shadow_mocks_from_original_not_capture() {
    let mut runner = Echo::new();
    runner.call_type = CallType::Http;

    let record_id = fresh();
    let capture_id = fresh();
    runner.store.borrow_mut().seed(vec![Interaction::new(
        record_id,
        1,
        CallType::Http,
        "GET /widget".into(),
        object(vec![("req", JsonValue::text("widget"))]),
        object(vec![("value", JsonValue::text("stored:widget"))]),
        10,
    )]);

    let mut ctx = Some(MockContext::shadow(record_id, capture_id));
    next_interaction_slot(&mut ctx, CallType::Http, "entry".to_string(), None);
    let result = runner.run(&mut ctx, "GET /widget", "widget").ok().unwrap();

    assert_eq!(
        value(&result),
        "stored:widget",
        "Shadow mode must mock external deps from the original recording"
    );
    assert_eq!(runner.executed.get(), 0, "execute() must NOT be called in Shadow mode");
}

#[test]
fn the_mode_decides_what_is_done() {
    assert!(matches!(plan(None), CallPlan::Forward));
    assert!(matches!(plan(Some(ReplayMode::Off)), CallPlan::Forward));
    assert!(matches!(plan(Some(ReplayMode::Passthrough)), CallPlan::Forward));
    assert!(matches!(plan(Some(ReplayMode::Record)), CallPlan::Record));
    assert!(matches!(plan(Some(ReplayMode::Replay)), CallPlan::Lookup));
    assert!(matches!(plan(Some(ReplayMode::Shadow)), CallPlan::Lookup));
}

#[test]
fn a_failing_store_fails_the_replay() {
    let failed = after_match(Err(StoreError::Database("gone".to_string())));
    match failed {
        RunStep::Fail(e) => {
            assert_eq!(e.message(), "replay: store error: database error: gone");
        }
        _ => panic!("a failure"),
    }
    assert!(matches!(after_match(Ok(None)), RunStep::FindNearest));
    let mut ctx: Ctx = Some(MockContext::with_id(1, ReplayMode::Replay));
    let slot = next_interaction_slot(&mut ctx, CallType::Http, "GET /x".to_string(), None).unwrap();
    match after_nearest(&slot, Ok(None)) {
        RunStep::Fail(e) => assert_eq!(
            e.message(),
            "replay: no stored interaction for fingerprint=`GET /x` seq=0"
        ),
        _ => panic!("a failure"),
    }
    match after_nearest(&slot, Err(StoreError::NotFound)) {
        RunStep::Fail(e) => {
            assert_eq!(e.message(), "replay: store error: interaction not found");
        }
        _ => panic!("a failure"),
    }
    assert_eq!(
        ReplayError::Deserialize("e".to_string()).message(),
        "replay: failed to deserialize stored response: e"
    );
}

#[test]
fn only_calls_that_succeed_are_recorded() {
    assert!(keeps(&start(Some(ReplayMode::Record)), true));
    assert!(!keeps(&start(Some(ReplayMode::Record)), false));
    for mode in [None, Some(ReplayMode::Off), Some(ReplayMode::Passthrough)] {
        assert!(!keeps(&start(mode), true));
    }
    for mode in [ReplayMode::Replay, ReplayMode::Shadow] {
        assert!(!keeps(&start(Some(mode)), true));
    }
}

#[test]
fn a_failed_write_changes_no_result() {
    let (result, warning) = after_write::<u8, String>(Ok(7), Ok(()));
    assert_eq!((result, warning), (Ok(7), None));
    let failed = Err(StoreError::Database("gone".to_string()));
    let (result, warning) = after_write::<u8, String>(Ok(7), failed);
    assert_eq!(result, Ok(7));
    assert_eq!(
        warning.unwrap(),
        "[ditto WARN] runner: store write failed: database error: gone"
    );
}
