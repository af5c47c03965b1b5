use ditto_replay::ids::Timestamp;
use ditto_replay::interaction::Interaction;
use ditto_replay::json::{object, JsonValue};
use ditto_replay::memory::{by_recency, page, summarize, InMemoryStore};
use ditto_replay::store::StoreError;
use ditto_replay::types::CallType;
use uuid::Uuid;

fn j(s: &str) -> JsonValue {
    JsonValue::parse(s).expect("JSON")
}

fn fresh() -> u128 {
    Uuid::new_v4().as_u128()
}

fn make(record_id: u128, seq: u32, call_type: CallType, fp: &str) -> Interaction {
    Interaction::new(
        record_id,
        seq,
        call_type,
        fp.to_string(),
        j("{}"),
        object(vec![("seq", JsonValue::unsigned(seq as u64))]),
        10,
    )
}

#[test]
fn write_and_read_by_record_id() {
    let mut store = InMemoryStore::new();
    let id = fresh();
    store.write(&make(id, 0, CallType::Http, "GET /a"));
    store.write(&make(id, 1, CallType::Http, "GET /a"));

    let found = store.get_by_record_id(id);
    assert_eq!(found.len(), 2);
    assert_eq!(found[0].sequence, 0);
    assert_eq!(found[1].sequence, 1);
}

#[test]
fn write_batch_stores_all_interactions() {
    let mut store = InMemoryStore::new();
    let id = fresh();
    let batch: Vec<_> = (0u32..5).map(|s| make(id, s, CallType::Http, "GET /b")).collect();
    store.write_batch(&batch);

    let found = store.get_by_record_id(id);
    assert_eq!(found.len(), 5);
    assert_eq!(found, batch);
}

#[test]
fn unknown_record_id_returns_empty_vec() {
    let store = InMemoryStore::new();
    assert!(store.get_by_record_id(fresh()).is_empty());
}

#[test]
fn get_entry_point_returns_sequence_zero() {
    let mut store = InMemoryStore::new();
    let id = fresh();
    for seq in [3u32, 1, 0, 2] {
        store.write(&make(id, seq, CallType::Http, "GET /ep"));
    }

    let ep = store.get_entry_point(id);
    assert!(ep.is_some());
    assert_eq!(ep.unwrap().sequence, 0);
}

#[test]
fn get_entry_point_returns_none_for_unknown_id() {
    let store = InMemoryStore::new();
    assert!(store.get_entry_point(fresh()).is_none());
}

#[test]
fn the_entry_point_is_an_http_call() {
    let mut store = InMemoryStore::new();
    let id = fresh();
    store.write(&make(id, 0, CallType::Redis, "GET k"));
    assert!(store.get_entry_point(id).is_none());
    store.write(&make(id, 0, CallType::Http, "GET /ep"));
    assert_eq!(store.get_entry_point(id).unwrap().fingerprint, "GET /ep");
}

#[test]
fn find_match_exact_hit() {
    let mut store = InMemoryStore::new();
    let id = fresh();
    store.write(&make(id, 0, CallType::Http, "GET /pay"));
    store.write(&make(id, 1, CallType::Postgres, "SELECT ?"));

    let m = store.find_match(id, CallType::Http, "GET /pay", 0);
    assert!(m.is_some());
    assert_eq!(m.unwrap().sequence, 0);
}

#[test]
fn find_match_wrong_sequence_returns_none() {
    let mut store = InMemoryStore::new();
    let id = fresh();
    store.write(&make(id, 0, CallType::Http, "GET /pay"));

    let m = store.find_match(id, CallType::Http, "GET /pay", 5);
    assert!(m.is_none(), "wrong sequence must not match");
}

#[test]
fn find_match_wrong_call_type_returns_none() {
    let mut store = InMemoryStore::new();
    let id = fresh();
    store.write(&make(id, 0, CallType::Http, "GET /pay"));

    let m = store.find_match(id, CallType::Postgres, "GET /pay", 0);
    assert!(m.is_none(), "wrong call_type must not match");
}

#[test]
fn find_nearest_bridges_sequence_drift() {
    let mut store = InMemoryStore::new();
    let id = fresh();
    store.write(&make(id, 2, CallType::Http, "POST /charges"));

    let m = store.find_nearest(id, "POST /charges", 3);
    assert!(m.is_some());
    assert_eq!(m.unwrap().sequence, 2, "nearest should bridge drift of 1");
}

#[test]
fn find_nearest_no_fingerprint_match_returns_none() {
    let mut store = InMemoryStore::new();
    let id = fresh();
    store.write(&make(id, 0, CallType::Http, "GET /foo"));
    assert!(store.find_nearest(id, "GET /bar", 0).is_none());
}

#[test]
fn get_recent_record_ids_returns_up_to_limit() {
    let mut store = InMemoryStore::new();
    let mut written: Vec<u128> = Vec::new();
    for _ in 0..7 {
        let id = fresh();
        written.push(id);
        store.write(&make(id, 0, CallType::Http, "GET /"));
    }

    let ids = store.get_recent_record_ids(5);
    assert!(ids.len() <= 5, "must respect the limit");
    written.reverse();
    assert_eq!(ids, written[..5].to_vec());
}

#[test]
fn get_recent_record_ids_empty_when_nothing_stored() {
    let store = InMemoryStore::new();
    assert!(store.get_recent_record_ids(10).is_empty());
}

#[test]
fn different_record_ids_are_independent() {
    let mut store = InMemoryStore::new();
    let id_a = fresh();
    let id_b = fresh();

    store.write(&make(id_a, 0, CallType::Http, "GET /a"));
    store.write(&make(id_b, 0, CallType::Redis, "GET key"));

    let a = store.get_by_record_id(id_a);
    let b = store.get_by_record_id(id_b);

    assert_eq!(a.len(), 1);
    assert_eq!(b.len(), 1);
    assert_eq!(a[0].call_type, CallType::Http);
    assert_eq!(b[0].call_type, CallType::Redis);
}

#[test]
fn in_memory_seed_populates_store() {
    let mut store = InMemoryStore::new();
    let id = fresh();
    let interactions: Vec<_> =
        (0u32..3).map(|s| make(id, s, CallType::Http, "GET /seed")).collect();

    store.seed(interactions);
    assert_eq!(store.len(), 3);
    assert!(!store.is_empty());
}

#[test]
fn in_memory_all_returns_every_interaction() {
    let mut store = InMemoryStore::new();
    let id_a = fresh();
    let id_b = fresh();

    store.seed(vec![
        make(id_a, 0, CallType::Http, "GET /a"),
        make(id_a, 1, CallType::Redis, "GET k"),
        make(id_b, 0, CallType::Http, "POST /b"),
    ]);

    assert_eq!(store.len(), 3);
    let all = store.all();
    assert_eq!(all.len(), 3);
    assert_eq!(all[2].fingerprint, "POST /b");
}

#[test]
fn in_memory_is_empty_on_new() {
    assert!(InMemoryStore::new().is_empty());
    assert!(InMemoryStore::default().is_empty());
}

#[test]
fn in_memory_seed_then_replay_returns_seeded_responses() {
    let mut store = InMemoryStore::new();
    let record_id = fresh();

    let stored_body = j(r#"{ "status": 200, "body": "stored" }"#);
    store.seed(vec![Interaction::new(
        record_id,
        0,
        CallType::Http,
        "GET /test".to_string(),
        j("{}"),
        stored_body.clone(),
        5,
    )]);

    let found = store.find_match(record_id, CallType::Http, "GET /test", 0);

    assert!(found.is_some());
    assert_eq!(found.unwrap().response, stored_body);
}

#[test]
fn write_1000_and_read_back() {
    let mut store = InMemoryStore::new();
    let id = fresh();

    for seq in 0..1000u32 {
        store.write(&make(id, seq, CallType::Http, "GET /api/{id}"));
    }

    let results = store.get_by_record_id(id);
    assert_eq!(results.len(), 1000);
    assert_eq!(results.first().unwrap().sequence, 0);
    assert_eq!(results.last().unwrap().sequence, 999);
}

#[test]
fn find_nearest_drift_of_two() {
    let mut store = InMemoryStore::new();
    let id = fresh();

    for seq in [0u32, 2, 4] {
        store.write(&make(id, seq, CallType::Http, "POST /charges"));
    }

    let m = store.find_nearest(id, "POST /charges", 3);
    assert!(m.is_some());
    let seq = m.unwrap().sequence;
    assert!(seq == 2 || seq == 4, "expected 2 or 4, got {seq}");
    assert_eq!(seq, 2);
}

#[test]
fn get_entry_point_returns_seq_zero() {
    let mut store = InMemoryStore::new();
    let id = fresh();
    for seq in 0..5u32 {
        store.write(&make(id, seq, CallType::Http, "GET /foo"));
    }
    let entry = store.get_entry_point(id);
    assert_eq!(entry.unwrap().sequence, 0);
}

#[test]
fn write_and_read_back_ordered() {
    let mut store = InMemoryStore::new();
    let id = fresh();

    for seq in [4u32, 1, 3, 0, 2] {
        store.write(&make(id, seq, CallType::Http, "GET /foo"));
    }

    let results = store.get_by_record_id(id);
    assert_eq!(results.len(), 5);
    for (i, r) in results.iter().enumerate() {
        assert_eq!(r.sequence, i as u32, "should be sorted by sequence");
    }
}

#[test]
fn equal_sequences_keep_the_order_of_writing() {
    let mut store = InMemoryStore::new();
    let id = fresh();
    store.write(&make(id, 1, CallType::Http, "a"));
    store.write(&make(id, 0, CallType::Http, "b"));
    store.write(&make(id, 1, CallType::Http, "c"));
    store.write(&make(id, 0, CallType::Http, "d"));
    let fps: Vec<String> =
        store.get_by_record_id(id).into_iter().map(|i| i.fingerprint).collect();
    assert_eq!(fps, vec!["b", "d", "a", "c"]);
}

#[test]
fn find_match_exact() {
    let mut store = InMemoryStore::new();
    let id = fresh();
    store.write(&make(id, 0, CallType::Http, "GET /payments"));
    store.write(&make(id, 1, CallType::Postgres, "SELECT ?"));

    let m = store.find_match(id, CallType::Http, "GET /payments", 0);
    assert!(m.is_some());
    assert_eq!(m.unwrap().sequence, 0);

    let miss = store.find_match(id, CallType::Http, "GET /payments", 1);
    assert!(miss.is_none(), "wrong sequence should not match");
}

#[test]
fn find_nearest_handles_drift() {
    let mut store = InMemoryStore::new();
    let id = fresh();
    store.write(&make(id, 2, CallType::Http, "POST /charges"));

    let m = store.find_nearest(id, "POST /charges", 3);
    assert!(m.is_some());
    assert_eq!(m.unwrap().sequence, 2, "nearest should bridge a drift of 1");
}

#[test]
fn find_nearest_returns_none_when_no_fingerprint_match() {
    let mut store = InMemoryStore::new();
    let id = fresh();
    store.write(&make(id, 0, CallType::Http, "GET /foo"));
    assert!(store.find_nearest(id, "GET /bar", 0).is_none());
}

#[test]
fn empty_record_id_returns_empty_vec() {
    let store = InMemoryStore::new();
    assert!(store.get_by_record_id(fresh()).is_empty());
}

#[test]
fn nearest_is_measured_over_all_sequence_numbers() {
    let mut store = InMemoryStore::new();
    let id = fresh();
    store.write(&make(id, 0, CallType::Http, "x"));
    store.write(&make(id, u32::MAX, CallType::Http, "x"));
    assert_eq!(store.find_nearest(id, "x", u32::MAX - 1).unwrap().sequence, u32::MAX);
    assert_eq!(store.find_nearest(id, "x", 5).unwrap().sequence, 0);
}

#[test]
fn delete_by_record_id_only_removes_target() {
    let mut store = InMemoryStore::new();
    let keep_id = fresh();
    let delete_id = fresh();

    store.seed(vec![
        Interaction::new(keep_id, 0, CallType::Http, "GET /a".into(), j("{}"), j("{}"), 1),
        Interaction::new(delete_id, 0, CallType::Http, "GET /b".into(), j("{}"), j("{}"), 1),
    ]);

    store.delete_by_record_id(delete_id);

    let after_keep = store.get_by_record_id(keep_id);
    let after_delete = store.get_by_record_id(delete_id);

    assert_eq!(after_keep.len(), 1, "unrelated recording must not be deleted");
    assert_eq!(after_delete.len(), 0, "target recording must be deleted");
}

#[test]
fn function_calls_are_loaded_exactly_and_by_distance() {
    let mut store = InMemoryStore::new();
    let id = fresh();
    let mut call = make(id, 3, CallType::Function, "m::f");
    call.response = j("42");
    store.store_fn_call(&call);
    assert_eq!(store.load_fn_response(id, "m::f", 3), Some(j("42")));
    assert_eq!(store.load_fn_response(id, "m::f", 9), Some(j("42")));
    assert_eq!(store.load_fn_response(id, "m::g", 3), None);
    assert_eq!(store.load_fn_response(id + 1, "m::f", 3), None);
}

#[test]
fn recordings_are_listed_with_the_latest_first() {
    let mut store = InMemoryStore::new();
    let now = Timestamp { secs: 5000, nanos: 0 };
    for (id, secs, nanos) in [(1u128, 100i64, 5u32), (2, 300, 0), (3, 100, 7), (4, -20, 0)] {
        let mut entry = make(id, 0, CallType::Http, "GET /p");
        entry.request = j(r#"{"method":"GET","path":"/p"}"#);
        entry.response = j(r#"{"status":201}"#);
        entry.recorded_at = Timestamp { secs, nanos };
        entry.service_name = "svc".to_string();
        entry.build_hash = "b1".to_string();
        store.write(&make(id, 1, CallType::Redis, "GET k"));
        store.write(&entry);
    }
    store.write(&make(5, 7, CallType::Redis, "GET k"));
    let all = store.list_recordings_at(10, 0, now);
    let ids: Vec<u128> = all.iter().map(|s| s.record_id).collect();
    assert_eq!(ids, vec![5, 2, 3, 1, 4]);
    assert_eq!(all[0].method, "");
    assert_eq!(all[0].status_code, 0);
    assert_eq!(all[0].recorded_at, now);
    assert_eq!(all[0].interaction_count, 1);
    assert_eq!(all[1].method, "GET");
    assert_eq!(all[1].path, "/p");
    assert_eq!(all[1].status_code, 201);
    assert_eq!(all[1].interaction_count, 2);
    assert_eq!(all[1].service_name, "svc");
    assert_eq!(all[1].build_hash, "b1");
    let some: Vec<u128> =
        store.list_recordings_at(2, 1, now).iter().map(|s| s.record_id).collect();
    assert_eq!(some, vec![2, 3]);
    assert!(store.list_recordings_at(2, 9, now).is_empty());
    assert_eq!(store.list_recordings(10, 0).len(), 5);
}

#[test]
fn a_page_is_a_stretch_of_the_ids() {
    let ids: Vec<u128> = vec![1, 2, 3, 4];
    assert_eq!(page(&ids, 2, 1), vec![2, 3]);
    assert_eq!(page(&ids, 9, 3), vec![4]);
    assert!(page(&ids, 9, 4).is_empty());
    assert!(page(&ids, 0, 0).is_empty());
    assert_eq!(page(&ids, usize::MAX, usize::MAX), Vec::<u128>::new());
}

#[test]
fn a_status_wider_than_sixteen_bits_is_cut() {
    let mut entry = make(1, 0, CallType::Http, "GET /");
    entry.response = j(r#"{"status":65736}"#);
    let s = summarize(1, &vec![entry], Timestamp { secs: 0, nanos: 0 });
    assert_eq!(s.status_code, 200);
}

#[test]
fn store_errors_have_messages() {
    assert_eq!(StoreError::NotFound.message(), "interaction not found");
    assert_eq!(StoreError::Database("x".to_string()).message(), "database error: x");
}

#[test]
fn new_interactions_are_completed_now() {
    let a = make(9, 1, CallType::Http, "x");
    let b = make(9, 1, CallType::Http, "x");
    assert_ne!(a.id, b.id);
    assert_eq!(Uuid::from_u128(a.id).get_version_num(), 4);
    assert!(a.recorded_at.secs > 1_600_000_000);
    assert!(a.parent_id.is_none() && a.error.is_none());
    assert_eq!(a.service_name, "");
    assert_eq!(a.build_hash, "");
    assert_eq!(a.tag, "");
    assert_eq!(a.duration_ms, 10);
    assert_eq!(a.duplicate(), a);
}

#[test]
fn rows_are_listed_by_time() {
    let at = |secs: i64, nanos: u32| Timestamp { secs, nanos };
    let row = |id: u128, t: Timestamp| summarize(id, &vec![], t);
    let rows = vec![row(1, at(5, 0)), row(2, at(9, 1)), row(3, at(9, 2)), row(4, at(5, 0)), row(5, at(-1, 7))];
    let ids: Vec<u128> = by_recency(&rows).iter().map(|r| r.record_id).collect();
    assert_eq!(ids, vec![3, 2, 1, 4, 5]);
    assert!(by_recency(&vec![]).is_empty());
}
