use ditto_replay::interaction::Interaction;
use ditto_replay::json::{object, JsonValue};
use ditto_replay::matching::{MatchConfig, MatchOutcome, MatchingEngine, MissStrategy};
use ditto_replay::memory::InMemoryStore;
use ditto_replay::types::CallType;
use uuid::Uuid;

fn fresh() -> u128 {
    Uuid::new_v4().as_u128()
}

fn make_interaction(record_id: u128, seq: u32, call_type: CallType, fp: &str) -> Interaction {
    Interaction::new(
        record_id,
        seq,
        call_type,
        fp.to_string(),
        object(vec![("fp", JsonValue::text(fp))]),
        object(vec![("ok", JsonValue::Bool(true))]),
        1,
    )
}

#[test]
fn exact_match_returns_exact_outcome() {
    let mut store = InMemoryStore::new();
    let record_id = fresh();
    let fp = "GET /payments/{id}";

    store.write(&make_interaction(record_id, 3, CallType::Http, fp));

    let engine = MatchingEngine::new(store);
    let outcome = engine.resolve(record_id, CallType::Http, fp, 3);

    assert!(matches!(outcome, MatchOutcome::Exact(_)));
}

#[test]
fn fuzzy_match_within_drift_returns_fuzzy_outcome() {
    let mut store = InMemoryStore::new();
    let record_id = fresh();
    let fp = "SELECT * FROM payments WHERE id = ?";

    store.write(&make_interaction(record_id, 5, CallType::Postgres, fp));

    let engine = MatchingEngine::new(store);
    let outcome = engine.resolve(record_id, CallType::Postgres, fp, 7);

    match outcome {
        MatchOutcome::Fuzzy { drift, .. } => assert_eq!(drift, 2),
        _ => panic!("expected Fuzzy"),
    }
}

#[test]
fn fuzzy_match_beyond_drift_returns_miss() {
    let mut store = InMemoryStore::new();
    let record_id = fresh();
    let fp = "GET /charges/{id}";

    store.write(&make_interaction(record_id, 0, CallType::Http, fp));

    let config = MatchConfig { max_sequence_drift: 5, ..Default::default() };
    let engine = MatchingEngine::with_config(store, config);
    let outcome = engine.resolve(record_id, CallType::Http, fp, 20);

    assert!(matches!(outcome, MatchOutcome::Miss));
}

#[test]
fn empty_store_returns_miss() {
    let engine = MatchingEngine::new(InMemoryStore::new());
    let outcome = engine.resolve(fresh(), CallType::Http, "GET /payments", 0);

    assert!(matches!(outcome, MatchOutcome::Miss));
}

#[test]
fn wrong_fingerprint_returns_miss() {
    let mut store = InMemoryStore::new();
    let record_id = fresh();

    store.write(&make_interaction(record_id, 0, CallType::Http, "GET /charges"));

    let engine = MatchingEngine::new(store);
    let outcome = engine.resolve(record_id, CallType::Http, "POST /charges", 0);

    assert!(matches!(outcome, MatchOutcome::Miss));
}

#[test]
fn default_miss_strategies_are_correct() {
    let engine = MatchingEngine::new(InMemoryStore::new());

    assert_eq!(engine.miss_strategy_for(CallType::Http), &MissStrategy::Error);
    assert_eq!(engine.miss_strategy_for(CallType::Grpc), &MissStrategy::Error);
    assert_eq!(engine.miss_strategy_for(CallType::Postgres), &MissStrategy::Error);
    assert_eq!(engine.miss_strategy_for(CallType::Redis), &MissStrategy::Empty);
    assert_eq!(engine.miss_strategy_for(CallType::Function), &MissStrategy::Passthrough);
}

#[test]
fn custom_miss_strategy_overrides_default() {
    let config = MatchConfig { http: MissStrategy::Passthrough, ..Default::default() };
    let engine = MatchingEngine::with_config(InMemoryStore::new(), config);
    assert_eq!(engine.miss_strategy_for(CallType::Http), &MissStrategy::Passthrough);
    assert_eq!(engine.miss_strategy_for(CallType::Postgres), &MissStrategy::Error);
}

#[test]
fn drift_exactly_at_max_is_accepted() {
    let mut store = InMemoryStore::new();
    let record_id = fresh();
    let fp = "idempotency:{id}";

    store.write(&make_interaction(record_id, 0, CallType::Redis, fp));

    let config = MatchConfig { max_sequence_drift: 5, ..Default::default() };
    let engine = MatchingEngine::with_config(store, config);
    let outcome = engine.resolve(record_id, CallType::Redis, fp, 5);

    assert!(matches!(outcome, MatchOutcome::Fuzzy { drift: 5, .. }));
}

#[test]
fn drift_one_over_max_is_miss() {
    let mut store = InMemoryStore::new();
    let record_id = fresh();
    let fp = "idempotency:{id}";

    store.write(&make_interaction(record_id, 0, CallType::Redis, fp));

    let config = MatchConfig { max_sequence_drift: 5, ..Default::default() };
    let engine = MatchingEngine::with_config(store, config);
    let outcome = engine.resolve(record_id, CallType::Redis, fp, 6);

    assert!(matches!(outcome, MatchOutcome::Miss));
}

#[test]
fn exact_match_preferred_over_fuzzy_candidate() {
    let mut store = InMemoryStore::new();
    let record_id = fresh();
    let fp = "GET /payments/{id}";

    store.write(&make_interaction(record_id, 2, CallType::Http, fp));
    store.write(&make_interaction(record_id, 5, CallType::Http, fp));

    let engine = MatchingEngine::new(store);
    let outcome = engine.resolve(record_id, CallType::Http, fp, 5);

    assert!(matches!(outcome, MatchOutcome::Exact(_)));
}

#[test]
fn a_near_call_of_another_type_is_a_fuzzy_match() {
    let mut store = InMemoryStore::new();
    store.write(&make_interaction(1, 4, CallType::Redis, "k"));
    let engine = MatchingEngine::new(store);
    match engine.resolve(1, CallType::Http, "k", 4) {
        MatchOutcome::Fuzzy { drift, interaction } => {
            assert_eq!(drift, 0);
            assert_eq!(interaction.call_type, CallType::Redis);
        }
        _ => panic!("a fuzzy match"),
    }
}

#[test]
fn engines_can_be_cloned() {
    let mut config = MatchConfig::default();
    config.max_sequence_drift = 2;
    config.redis = MissStrategy::Error;
    let engine = MatchingEngine::with_config(7u8, config);
    let copy = engine.clone();
    assert_eq!(copy.store, 7);
    assert_eq!(copy.config.max_sequence_drift, 2);
    assert_eq!(*copy.miss_strategy_for(CallType::Redis), MissStrategy::Error);
}
