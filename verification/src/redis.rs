//! Recording and replaying of Redis commands.
use crate::context::InteractionSlot;
use crate::flow;
use crate::flow::{plan, record_call, CallPlan};
use crate::ids;
use crate::ids::{fresh_id, now, RecordId, Timestamp};
use crate::interaction::{Interaction, InteractionView};
use crate::json;
use crate::json::{object, JsonTree, JsonValue, NumberView};
use crate::json_codec;
use crate::memory;
use crate::store;
use crate::store::Log;
use crate::text::concat;
use crate::types::{CallStatus, CallType, ReplayMode};
use vstd::prelude::*;

verus! {

broadcast use json::lemma_value_view;

/// A failed command: the message of the client.
#[derive(Debug, PartialEq)]
pub enum RedisInterceptorError {
    Redis(String),
}

impl RedisInterceptorError {
    /// The message for people.
    pub fn message(&self) -> (r: String)
        ensures
            match *self {
                RedisInterceptorError::Redis(s) => r@ == "redis error: "@ + s@,
            },
    {
        match self {
            RedisInterceptorError::Redis(s) => concat("redis error: ", s.as_str()),
        }
    }
}

/// A command on a key, in JSON.
pub open spec fn command_tree(op: Seq<char>, key: Seq<char>) -> JsonTree {
    json::object_of(seq![("op"@, JsonTree::Text(op)), ("key"@, JsonTree::Text(key))])
}

/// A `SET`, in JSON.
pub open spec fn set_tree(key: Seq<char>, value: Seq<char>, ttl_s: u64) -> JsonTree {
    json::object_of(
        seq![
            ("op"@, JsonTree::Text("SET"@)),
            ("key"@, JsonTree::Text(key)),
            ("value"@, JsonTree::Text(value)),
            ("ttl"@, JsonTree::Number(NumberView::Int(ttl_s as int))),
        ],
    )
}

/// A reply with one field, in JSON.
pub open spec fn reply_tree(field: Seq<char>, value: JsonTree) -> JsonTree {
    json::object_of(seq![(field, value)])
}

/// The value of a `GET`, in JSON.
pub open spec fn value_tree(value: Option<Seq<char>>) -> JsonTree {
    match value {
        Some(s) => JsonTree::Text(s),
        None => JsonTree::Null,
    }
}

/// What stands under a field of a recorded reply; `Null` if nothing does.
pub open spec fn field(response: JsonTree, name: Seq<char>) -> JsonTree {
    match json::member(response, name) {
        Some(v) => v,
        None => JsonTree::Null,
    }
}

/// The value that a `GET` is replayed with: none if nothing was recorded or
/// the key was absent; a text as it is; everything else as JSON text.
pub open spec fn replayed_value(found: Option<InteractionView>) -> Option<Seq<char>> {
    match found {
        Some(i) => match field(i.response, "value"@) {
            JsonTree::Null => None,
            JsonTree::Text(s) => Some(s),
            other => Some(json_codec::compact(other)),
        },
        None => None,
    }
}

/// The truth value that a command is replayed with: false if none was
/// recorded.
pub open spec fn replayed_flag(found: Option<InteractionView>, name: Seq<char>) -> bool {
    match found {
        Some(i) => match field(i.response, name) {
            JsonTree::Bool(b) => b,
            _ => false,
        },
        None => false,
    }
}

/// The number that an `INCR` is replayed with: one if none was recorded.
pub open spec fn replayed_count(found: Option<InteractionView>) -> i64 {
    match found {
        Some(i) => match json::tree_i64(field(i.response, "value"@)) {
            Some(n) => n,
            None => 1,
        },
        None => 1,
    }
}

/// A command on a key, in JSON.
pub fn command_to_json(op: &str, key: &str) -> (r: JsonValue)
    ensures
        r@ == command_tree(op@, key@),
{
    let fields: Vec<(&str, JsonValue)> = vec![
        ("op", JsonValue::text(op)),
        ("key", JsonValue::text(key)),
    ];
    proof {
        assert(json::field_views(fields@) =~= seq![
            ("op"@, JsonTree::Text(op@)),
            ("key"@, JsonTree::Text(key@)),
        ]);
    }
    object(fields)
}

/// A `SET`, in JSON.
pub fn set_to_json(key: &str, value: &str, ttl_s: u64) -> (r: JsonValue)
    ensures
        r@ == set_tree(key@, value@, ttl_s),
{
    let fields: Vec<(&str, JsonValue)> = vec![
        ("op", JsonValue::text("SET")),
        ("key", JsonValue::text(key)),
        ("value", JsonValue::text(value)),
        ("ttl", JsonValue::unsigned(ttl_s)),
    ];
    proof {
        assert(json::field_views(fields@) =~= seq![
            ("op"@, JsonTree::Text("SET"@)),
            ("key"@, JsonTree::Text(key@)),
            ("value"@, JsonTree::Text(value@)),
            ("ttl"@, JsonTree::Number(NumberView::Int(ttl_s as int))),
        ]);
    }
    object(fields)
}

/// A reply with one field, in JSON.
fn reply(name: &str, value: JsonValue) -> (r: JsonValue)
    ensures
        r@ == reply_tree(name@, value@),
{
    let ghost v = value@;
    let fields: Vec<(&str, JsonValue)> = vec![(name, value)];
    proof {
        assert(json::field_views(fields@) =~= seq![(name@, v)]);
    }
    object(fields)
}

/// The reply of a `GET`, in JSON.
pub fn value_reply(value: &Option<String>) -> (r: JsonValue)
    ensures
        r@ == reply_tree(
            "value"@,
            value_tree(
                match *value {
                    Some(s) => Some(s@),
                    None => None,
                },
            ),
        ),
{
    match value {
        Some(s) => reply("value", JsonValue::text(s.as_str())),
        None => reply("value", JsonValue::Null),
    }
}

/// The reply of a `SET`, in JSON.
pub fn ok_reply() -> (r: JsonValue)
    ensures
        r@ == reply_tree("ok"@, JsonTree::Bool(true)),
{
    reply("ok", JsonValue::Bool(true))
}

/// The reply of a `DEL`, in JSON.
pub fn deleted_reply(deleted: bool) -> (r: JsonValue)
    ensures
        r@ == reply_tree("deleted"@, JsonTree::Bool(deleted)),
{
    reply("deleted", JsonValue::Bool(deleted))
}

/// The reply of an `EXISTS`, in JSON.
pub fn exists_reply(present: bool) -> (r: JsonValue)
    ensures
        r@ == reply_tree("exists"@, JsonTree::Bool(present)),
{
    reply("exists", JsonValue::Bool(present))
}

/// The reply of an `INCR`, in JSON.
pub fn count_reply(value: i64) -> (r: JsonValue)
    ensures
        r@ == reply_tree("value"@, JsonTree::Number(NumberView::Int(value as int))),
{
    reply("value", JsonValue::signed(value))
}

/// Whether a command that counts keys found one.
pub fn any_key(count: i64) -> (r: bool)
    ensures
        r == (count > 0),
{
    count > 0
}

/// The value that a `GET` is replayed with.
pub fn replay_get(found: &Option<Interaction>) -> (r: Option<String>)
    ensures
        match replayed_value(memory::found(*found)) {
            Some(s) => r is Some && r->0@ == s,
            None => r is None,
        },
{
    match found {
        Some(i) => match i.response.get("value") {
            Some(JsonValue::Null) => None,
            Some(JsonValue::Text(s)) => Some(s.clone()),
            Some(other) => Some(other.to_compact()),
            None => None,
        },
        None => None,
    }
}

/// The truth value under a field of what was found.
fn replay_flag(found: &Option<Interaction>, name: &str) -> (r: bool)
    ensures
        r == replayed_flag(memory::found(*found), name@),
{
    match found {
        Some(i) => match i.response.get(name) {
            Some(v) => match v.as_bool() {
                Some(b) => b,
                None => false,
            },
            None => false,
        },
        None => false,
    }
}

/// Whether a replayed `DEL` deleted a key.
pub fn replay_del(found: &Option<Interaction>) -> (r: bool)
    ensures
        r == replayed_flag(memory::found(*found), "deleted"@),
{
    replay_flag(found, "deleted")
}

/// Whether a replayed `EXISTS` found a key.
pub fn replay_exists(found: &Option<Interaction>) -> (r: bool)
    ensures
        r == replayed_flag(memory::found(*found), "exists"@),
{
    replay_flag(found, "exists")
}

/// The number that an `INCR` is replayed with.
pub fn replay_incr(found: &Option<Interaction>) -> (r: i64)
    ensures
        r == replayed_count(memory::found(*found)),
{
    match found {
        Some(i) => match i.response.get("value") {
            Some(v) => match v.as_i64() {
                Some(n) => n,
                None => 1,
            },
            None => 1,
        },
        None => 1,
    }
}

/// What to do with a command.
#[derive(Debug, Clone, Copy, PartialEq, Eq, Structural)]
pub enum RedisPlan {
    /// Run it; its reply is the answer.
    Execute,
    /// Run it and record it; its reply is the answer.
    ExecuteAndRecord,
    /// Do not run it; the answer is what was recorded.
    Replay,
    /// Do not run it; record that it was attempted, with no duration.
    RecordAttempt,
}

/// The plan for a mode, where `instead` is what a replay does.
pub open spec fn plan_or(mode: Option<ReplayMode>, instead: RedisPlan) -> RedisPlan {
    match flow::plan_for(mode) {
        CallPlan::Forward => RedisPlan::Execute,
        CallPlan::Record => RedisPlan::ExecuteAndRecord,
        CallPlan::Lookup => instead,
    }
}

/// What to do with a command that reads, deletes or counts.
pub open spec fn command_plan(mode: Option<ReplayMode>) -> RedisPlan {
    plan_or(mode, RedisPlan::Replay)
}

/// What to do with a `SET`.
pub open spec fn set_plan(mode: Option<ReplayMode>) -> RedisPlan {
    plan_or(mode, RedisPlan::RecordAttempt)
}

/// What to do with a command that reads, deletes or counts.
pub fn plan_command(mode: Option<ReplayMode>) -> (r: RedisPlan)
    ensures
        r == command_plan(mode),
{
    match plan(mode) {
        CallPlan::Forward => RedisPlan::Execute,
        CallPlan::Record => RedisPlan::ExecuteAndRecord,
        CallPlan::Lookup => RedisPlan::Replay,
    }
}

/// What to do with a `SET`: a replay sets nothing, but keeps that a key would
/// have been set, so that a build which stops setting it is found out.
pub fn plan_set(mode: Option<ReplayMode>) -> (r: RedisPlan)
    ensures
        r == set_plan(mode),
{
    match plan(mode) {
        CallPlan::Forward => RedisPlan::Execute,
        CallPlan::Record => RedisPlan::ExecuteAndRecord,
        CallPlan::Lookup => RedisPlan::RecordAttempt,
    }
}

/// What is recorded of a command.
pub open spec fn redis_record<S>(
    slot: InteractionSlot<S>,
    id: RecordId,
    recorded_at: Timestamp,
    request: JsonTree,
    response: JsonTree,
    duration_ms: u64,
) -> InteractionView {
    flow::slot_call(
        slot,
        id,
        recorded_at,
        CallType::Redis,
        request,
        response,
        duration_ms,
        CallStatus::Completed,
        Seq::empty(),
        Seq::empty(),
    )
}

/// What to record of a command, under a fresh identifier and the present time.
pub fn record<S>(
    slot: &InteractionSlot<S>,
    request: JsonValue,
    response: JsonValue,
    duration_ms: u64,
) -> (r: Interaction)
    ensures
        r@ == redis_record(*slot, r.id, r.recorded_at, request@, response@, duration_ms),
        ids::random_id(r.id),
{
    record_at(slot, fresh_id(), now(), request, response, duration_ms)
}

/// What to record of a command.
pub fn record_at<S>(
    slot: &InteractionSlot<S>,
    id: RecordId,
    recorded_at: Timestamp,
    request: JsonValue,
    response: JsonValue,
    duration_ms: u64,
) -> (r: Interaction)
    ensures
        r@ == redis_record(*slot, id, recorded_at, request@, response@, duration_ms),
{
    record_call(
        slot,
        id,
        recorded_at,
        CallType::Redis,
        request,
        response,
        duration_ms,
        CallStatus::Completed,
        String::new(),
        String::new(),
    )
}

// ---------------------------------------------------------------------------
// Laws
// ---------------------------------------------------------------------------

/// A recorded `GET` is replayed with the value that it read.
pub proof fn lemma_get_round_trip(value: Option<Seq<char>>, i: InteractionView)
    requires
        i.response == reply_tree("value"@, value_tree(value)),
    ensures
        replayed_value(Some(i)) == value,
{
    json::lemma_field_of_object(seq![("value"@, value_tree(value))], "value"@);
}

/// A recorded `DEL` or `EXISTS` is replayed with its outcome.
pub proof fn lemma_flag_round_trip(name: Seq<char>, flag: bool, i: InteractionView)
    requires
        i.response == reply_tree(name, JsonTree::Bool(flag)),
    ensures
        replayed_flag(Some(i), name) == flag,
{
    json::lemma_field_of_object(seq![(name, JsonTree::Bool(flag))], name);
}

/// A recorded `INCR` is replayed with its number.
pub proof fn lemma_count_round_trip(value: i64, i: InteractionView)
    requires
        i.response == reply_tree("value"@, JsonTree::Number(NumberView::Int(value as int))),
    ensures
        replayed_count(Some(i)) == value,
{
    json::lemma_field_of_object(
        seq![("value"@, JsonTree::Number(NumberView::Int(value as int)))],
        "value"@,
    );
}

/// What was recorded is what is replayed: after a command was recorded, the
/// same slot is answered with that command, unless the place in the recording
/// was taken already. A `GET` is hence answered with the value that it read.
pub proof fn lemma_get_is_replayed<S>(
    log: Log,
    slot: InteractionSlot<S>,
    id: RecordId,
    recorded_at: Timestamp,
    key: Seq<char>,
    value: Option<Seq<char>>,
    duration_ms: u64,
)
    requires
        store::find_first(
            log,
            store::exactly(slot.record_id, CallType::Redis, slot.fingerprint@, slot.sequence),
        ) is None,
    ensures
        replayed_value(
            flow::stored_call(
                log.push(
                    redis_record(
                        slot,
                        id,
                        recorded_at,
                        command_tree("GET"@, key),
                        reply_tree("value"@, value_tree(value)),
                        duration_ms,
                    ),
                ),
                slot.record_id,
                CallType::Redis,
                slot.fingerprint@,
                slot.sequence,
            ),
        ) == value,
{
    let written = redis_record(
        slot,
        id,
        recorded_at,
        command_tree("GET"@, key),
        reply_tree("value"@, value_tree(value)),
        duration_ms,
    );
    flow::lemma_recorded_call_answers(log, written);
    lemma_get_round_trip(value, written);
}

/// A recorded command holds its name and its key; a `SET` its value and its
/// time to live, too.
pub proof fn lemma_recorded_command(
    op: Seq<char>,
    key: Seq<char>,
    value: Seq<char>,
    ttl_s: u64,
)
    ensures
        json::member(command_tree(op, key), "op"@) == Some(JsonTree::Text(op)),
        json::member(command_tree(op, key), "key"@) == Some(JsonTree::Text(key)),
        json::member(command_tree(op, key), "value"@) is None,
        json::member(set_tree(key, value, ttl_s), "op"@) == Some(JsonTree::Text("SET"@)),
        json::member(set_tree(key, value, ttl_s), "key"@) == Some(JsonTree::Text(key)),
        json::member(set_tree(key, value, ttl_s), "value"@) == Some(JsonTree::Text(value)),
        json::member(set_tree(key, value, ttl_s), "ttl"@) == Some(
            JsonTree::Number(NumberView::Int(ttl_s as int)),
        ),
{
    reveal_strlit("op");
    reveal_strlit("key");
    reveal_strlit("value");
    reveal_strlit("ttl");
    reveal_strlit("");
    assert("op"@.len() == 2 && "key"@.len() == 3 && "value"@.len() == 5 && "ttl"@.len() == 3);
    assert("key"@[0] == 'k' && "ttl"@[0] == 't');
    let c = seq![("op"@, JsonTree::Text(op)), ("key"@, JsonTree::Text(key))];
    json::lemma_fields_are_found(c, 0, "value"@);
    json::lemma_fields_are_found(c, 1, "value"@);
    let s = seq![
        ("op"@, JsonTree::Text("SET"@)),
        ("key"@, JsonTree::Text(key)),
        ("value"@, JsonTree::Text(value)),
        ("ttl"@, JsonTree::Number(NumberView::Int(ttl_s as int))),
    ];
    json::lemma_fields_are_found(s, 0, ""@);
    json::lemma_fields_are_found(s, 1, ""@);
    json::lemma_fields_are_found(s, 2, ""@);
    json::lemma_fields_are_found(s, 3, ""@);
}

/// Without a recording a `GET` reads nothing, a `DEL` and an `EXISTS` find
/// nothing, and an `INCR` counts the first; and so it is with a reply that
/// lacks the field.
pub proof fn lemma_nothing_recorded(i: InteractionView, name: Seq<char>)
    ensures
        replayed_value(None) is None,
        !replayed_flag(None, name),
        replayed_count(None) == 1,
        json::member(i.response, "value"@) is None ==> replayed_value(Some(i)) is None
            && replayed_count(Some(i)) == 1,
        json::member(i.response, name) is None ==> !replayed_flag(Some(i), name),
{
}

/// What is recorded of a command is a completed Redis call at the place of its
/// slot, with the command and the reply that it was given.
pub proof fn lemma_record_of_a_command<S>(
    slot: InteractionSlot<S>,
    id: RecordId,
    recorded_at: Timestamp,
    request: JsonTree,
    response: JsonTree,
    duration_ms: u64,
)
    ensures
        ({
            let r = redis_record(slot, id, recorded_at, request, response, duration_ms);
            &&& r.call_type == CallType::Redis && r.status == CallStatus::Completed
            &&& r.record_id == slot.record_id && r.sequence == slot.sequence
            &&& r.fingerprint == slot.fingerprint@ && r.duration_ms == duration_ms
            &&& r.request == request && r.response == response
        }),
{
}

/// What a command does, by its mode: it is run without a context and in `Off`
/// and `Passthrough` mode, run and recorded in `Record` mode, and never run in
/// `Replay` and `Shadow` mode. There a `SET` is kept as an attempt, and every
/// other command is answered from the recording.
pub proof fn lemma_what_a_command_does(mode: Option<ReplayMode>)
    ensures
        command_plan(mode) == RedisPlan::ExecuteAndRecord <==> mode == Some(ReplayMode::Record),
        set_plan(mode) == RedisPlan::ExecuteAndRecord <==> mode == Some(ReplayMode::Record),
        command_plan(mode) == RedisPlan::Replay <==> mode == Some(ReplayMode::Replay) || mode
            == Some(ReplayMode::Shadow),
        set_plan(mode) == RedisPlan::RecordAttempt <==> mode == Some(ReplayMode::Replay) || mode
            == Some(ReplayMode::Shadow),
        command_plan(mode) == RedisPlan::Execute <==> mode is None || mode == Some(ReplayMode::Off)
            || mode == Some(ReplayMode::Passthrough),
        set_plan(mode) == RedisPlan::Execute <==> mode is None || mode == Some(ReplayMode::Off)
            || mode == Some(ReplayMode::Passthrough),
{
}

/// A value that is neither a text nor absent is replayed as its compact JSON
/// text.
pub proof fn lemma_other_value_is_replayed(i: InteractionView, v: JsonTree)
    requires
        json::member(i.response, "value"@) == Some(v),
        !(v is Text),
        !(v is Null),
    ensures
        replayed_value(Some(i)) == Some(json_codec::compact(v)),
{
}

} // verus!
