//! Recording and replaying of SQL statements.
use crate::context::InteractionSlot;
use crate::fingerprint;
use crate::fingerprint::FingerprintBuilder;
use crate::flow;
use crate::flow::{plan, record_call, CallPlan};
use crate::ids;
use crate::ids::{fresh_id, now, RecordId, Timestamp};
use crate::interaction::{Interaction, InteractionView};
use crate::json;
use crate::json::{object, JsonTree, JsonValue, NumberView};
use crate::memory;
use crate::store;
use crate::store::{get_u64, Log};
use crate::text::concat;
use crate::types::{CallStatus, CallType, ReplayMode};
use vstd::prelude::*;

verus! {

broadcast use json::lemma_value_view;

/// A statement in JSON.
pub open spec fn statement_tree(sql: Seq<char>) -> JsonTree {
    json::object_of(seq![("sql"@, JsonTree::Text(sql))])
}

/// The outcome of a statement that returns no rows, in JSON.
pub open spec fn affected_tree(rows_affected: u64) -> JsonTree {
    json::object_of(
        seq![("rows_affected"@, JsonTree::Number(NumberView::Int(rows_affected as int)))],
    )
}

/// The outcome of a query, in JSON.
pub open spec fn rows_tree(rows: Seq<JsonTree>) -> JsonTree {
    json::object_of(seq![("rows"@, JsonTree::Array(rows))])
}

/// The number of affected rows in a recorded outcome; zero if it has none, or
/// if nothing was recorded.
pub open spec fn recorded_affected(found: Option<InteractionView>) -> u64 {
    match found {
        Some(i) => match store::u64_member(i.response, "rows_affected"@) {
            Some(n) => n,
            None => 0,
        },
        None => 0,
    }
}

/// The rows in a recorded outcome; none if it has no list of them.
pub open spec fn recorded_rows(response: JsonTree) -> Seq<JsonTree> {
    match json::member(response, "rows"@) {
        Some(JsonTree::Array(rows)) => rows,
        _ => Seq::empty(),
    }
}

/// A statement in JSON.
pub fn statement_to_json(sql: &str) -> (r: JsonValue)
    ensures
        r@ == statement_tree(sql@),
{
    let fields: Vec<(&str, JsonValue)> = vec![("sql", JsonValue::text(sql))];
    proof {
        assert(json::field_views(fields@) =~= seq![("sql"@, JsonTree::Text(sql@))]);
    }
    object(fields)
}

/// The outcome of a statement that returns no rows, in JSON.
pub fn affected_to_json(rows_affected: u64) -> (r: JsonValue)
    ensures
        r@ == affected_tree(rows_affected),
{
    let fields: Vec<(&str, JsonValue)> = vec![
        ("rows_affected", JsonValue::unsigned(rows_affected)),
    ];
    proof {
        assert(json::field_views(fields@) =~= seq![
            ("rows_affected"@, JsonTree::Number(NumberView::Int(rows_affected as int))),
        ]);
    }
    object(fields)
}

/// The outcome of a query, in JSON.
pub fn rows_to_json(rows: Vec<JsonValue>) -> (r: JsonValue)
    ensures
        r@ == rows_tree(json::trees(rows@)),
{
    let ghost all = json::trees(rows@);
    let fields: Vec<(&str, JsonValue)> = vec![("rows", JsonValue::Array(rows))];
    proof {
        assert(json::field_views(fields@) =~= seq![("rows"@, JsonTree::Array(all))]);
    }
    object(fields)
}

/// The number of affected rows that a statement is replayed with. Only the
/// call at the exact place counts; a store that failed found nothing.
pub fn replay_affected(found: &Option<Interaction>) -> (r: u64)
    ensures
        r == recorded_affected(memory::found(*found)),
{
    match found {
        Some(i) => match get_u64(&i.response, "rows_affected") {
            Some(n) => n,
            None => 0,
        },
        None => 0,
    }
}

/// The rows that a query is replayed with.
pub fn replay_rows(response: &JsonValue) -> (r: Vec<JsonValue>)
    ensures
        json::trees(r@) == recorded_rows(response@),
{
    match response.get("rows") {
        Some(JsonValue::Array(rows)) => {
            let mut out: Vec<JsonValue> = Vec::new();
            let mut i: usize = 0;
            while i < rows.len()
                invariant
                    i <= rows@.len(),
                    out@.len() == i,
                    forall|j: int| 0 <= j < i ==> (#[trigger] out@[j])@ == rows@[j]@,
                decreases rows.len() - i,
            {
                out.push(rows[i].duplicate());
                i = i + 1;
            }
            proof {
                assert(json::trees(out@) =~= json::trees(rows@));
            }
            out
        },
        _ => {
            let out: Vec<JsonValue> = Vec::new();
            proof {
                assert(json::trees(out@) =~= Seq::<JsonTree>::empty());
            }
            out
        },
    }
}

/// What is recorded of a statement.
pub open spec fn sql_record<S>(
    slot: InteractionSlot<S>,
    id: RecordId,
    recorded_at: Timestamp,
    sql: Seq<char>,
    outcome: JsonTree,
    duration_ms: u64,
    service_name: Seq<char>,
    tag: Seq<char>,
) -> InteractionView {
    flow::slot_call(
        slot,
        id,
        recorded_at,
        CallType::Postgres,
        statement_tree(sql),
        outcome,
        duration_ms,
        CallStatus::Completed,
        service_name,
        tag,
    )
}

/// What to record of a statement on a pool, under a fresh identifier and the
/// present time.
pub fn record<S>(
    slot: &InteractionSlot<S>,
    sql: &str,
    outcome: JsonValue,
    duration_ms: u64,
) -> (r: Interaction)
    ensures
        r@ == sql_record(
            *slot,
            r.id,
            r.recorded_at,
            sql@,
            outcome@,
            duration_ms,
            Seq::empty(),
            Seq::empty(),
        ),
        ids::random_id(r.id),
{
    record_at(
        slot,
        fresh_id(),
        now(),
        sql,
        outcome,
        duration_ms,
        String::new(),
        String::new(),
    )
}

/// What to record of a statement on a pooled connection, which names its
/// service and tag too, under a fresh identifier and the present time.
pub fn record_with_service<S>(
    slot: &InteractionSlot<S>,
    sql: &str,
    outcome: JsonValue,
    duration_ms: u64,
) -> (r: Interaction)
    ensures
        r@ == sql_record(
            *slot,
            r.id,
            r.recorded_at,
            sql@,
            outcome@,
            duration_ms,
            slot.service_name@,
            slot.tag@,
        ),
        ids::random_id(r.id),
{
    record_at(
        slot,
        fresh_id(),
        now(),
        sql,
        outcome,
        duration_ms,
        slot.service_name.clone(),
        slot.tag.clone(),
    )
}

/// What to record of a statement.
pub fn record_at<S>(
    slot: &InteractionSlot<S>,
    id: RecordId,
    recorded_at: Timestamp,
    sql: &str,
    outcome: JsonValue,
    duration_ms: u64,
    service_name: String,
    tag: String,
) -> (r: Interaction)
    ensures
        r@ == sql_record(
            *slot,
            id,
            recorded_at,
            sql@,
            outcome@,
            duration_ms,
            service_name@,
            tag@,
        ),
{
    record_call(
        slot,
        id,
        recorded_at,
        CallType::Postgres,
        statement_to_json(sql),
        outcome,
        duration_ms,
        CallStatus::Completed,
        service_name,
        tag,
    )
}

/// What to do next with a query.
#[derive(Debug, PartialEq)]
pub enum SqlStep {
    /// Run it; its rows are the answer.
    Execute,
    /// Run it and record its rows, which are the answer.
    ExecuteAndRecord,
    /// Ask the store for the query at its exact place.
    FindMatch,
    /// Ask the store for the nearest query with the fingerprint.
    FindNearest,
    /// Answer with these rows.
    Rows(Vec<JsonValue>),
    /// Nothing was recorded.
    NotFound,
}

/// What an [`SqlStep`] is.
pub enum SqlStepView {
    Execute,
    ExecuteAndRecord,
    FindMatch,
    FindNearest,
    Rows(Seq<JsonTree>),
    NotFound,
}

impl View for SqlStep {
    type V = SqlStepView;

    open spec fn view(&self) -> SqlStepView {
        match *self {
            SqlStep::Execute => SqlStepView::Execute,
            SqlStep::ExecuteAndRecord => SqlStepView::ExecuteAndRecord,
            SqlStep::FindMatch => SqlStepView::FindMatch,
            SqlStep::FindNearest => SqlStepView::FindNearest,
            SqlStep::Rows(v) => SqlStepView::Rows(json::trees(v@)),
            SqlStep::NotFound => SqlStepView::NotFound,
        }
    }
}

/// The first step of a query or a statement in the given mode.
pub open spec fn first_step(mode: Option<ReplayMode>) -> SqlStepView {
    match flow::plan_for(mode) {
        CallPlan::Forward => SqlStepView::Execute,
        CallPlan::Record => SqlStepView::ExecuteAndRecord,
        CallPlan::Lookup => SqlStepView::FindMatch,
    }
}

/// What was found, or else another step.
pub open spec fn rows_or(found: Option<InteractionView>, other: SqlStepView) -> SqlStepView {
    match found {
        Some(i) => SqlStepView::Rows(recorded_rows(i.response)),
        None => other,
    }
}

/// The step after the store was asked for the exact place.
pub open spec fn match_step(found: Option<InteractionView>) -> SqlStepView {
    rows_or(found, SqlStepView::FindNearest)
}

/// The step of a query for rows in JSON after the store was asked.
pub open spec fn json_match_step(found: Option<InteractionView>) -> SqlStepView {
    rows_or(found, SqlStepView::Execute)
}

/// The step after the store was asked for the nearest query.
pub open spec fn nearest_step(found: Option<InteractionView>) -> SqlStepView {
    rows_or(found, SqlStepView::NotFound)
}

/// The first step of a query, whatever form its rows take, or of a statement
/// that returns no rows, in the given mode.
pub fn start(mode: Option<ReplayMode>) -> (r: SqlStep)
    ensures
        r@ == first_step(mode),
{
    match plan(mode) {
        CallPlan::Forward => SqlStep::Execute,
        CallPlan::Record => SqlStep::ExecuteAndRecord,
        CallPlan::Lookup => SqlStep::FindMatch,
    }
}

/// The step after the store was asked for the exact place.
pub fn after_match(found: Option<Interaction>) -> (r: SqlStep)
    ensures
        r@ == match_step(memory::found(found)),
{
    match found {
        Some(i) => SqlStep::Rows(replay_rows(&i.response)),
        None => SqlStep::FindNearest,
    }
}

/// The step of a query for rows in JSON after the store was asked for the
/// exact place, which is the only one that counts: what was recorded is the
/// answer, and the query is run only if nothing was.
pub fn after_json_match(found: Option<Interaction>) -> (r: SqlStep)
    ensures
        r@ == json_match_step(memory::found(found)),
{
    match found {
        Some(i) => SqlStep::Rows(replay_rows(&i.response)),
        None => SqlStep::Execute,
    }
}

/// The step after the store was asked for the nearest query.
pub fn after_nearest(found: Option<Interaction>) -> (r: SqlStep)
    ensures
        r@ == nearest_step(memory::found(found)),
{
    match found {
        Some(i) => SqlStep::Rows(replay_rows(&i.response)),
        None => SqlStep::NotFound,
    }
}

/// The first of a list of rows.
pub fn first_row<T>(rows: Vec<T>) -> (r: Option<T>)
    ensures
        r == (if rows@.len() > 0 {
            Some(rows@[0])
        } else {
            None
        }),
{
    let mut rows = rows;
    if rows.len() > 0 {
        Some(rows.swap_remove(0))
    } else {
        None
    }
}

/// The message of a row that could not be decoded.
pub fn decode_message(error: &str) -> (r: String)
    ensures
        r@ == "ditto replay decode error: "@ + error@,
{
    concat("ditto replay decode error: ", error)
}

// ---------------------------------------------------------------------------
// Statements that are placed by hand
// ---------------------------------------------------------------------------

/// What is recorded of a statement whose place is given by its caller.
pub open spec fn placed_record(
    id: RecordId,
    recorded_at: Timestamp,
    record_id: RecordId,
    sequence: u32,
    sql: Seq<char>,
    outcome: JsonTree,
    duration_ms: u64,
    build_hash: Seq<char>,
    service_name: Seq<char>,
    tag: Seq<char>,
) -> InteractionView {
    InteractionView {
        id,
        record_id,
        parent_id: None,
        sequence,
        call_type: CallType::Postgres,
        fingerprint: fingerprint::sql_template(sql),
        request: statement_tree(sql),
        response: outcome,
        duration_ms,
        status: CallStatus::Completed,
        error: None,
        recorded_at,
        build_hash,
        service_name,
        tag,
    }
}

/// What to record of a statement whose place is given by its caller, under a
/// fresh identifier and the present time.
pub fn record_placed(
    record_id: RecordId,
    sequence: u32,
    sql: &str,
    outcome: JsonValue,
    duration_ms: u64,
    build_hash: &str,
    service_name: &str,
    tag: &str,
) -> (r: Interaction)
    ensures
        r@ == placed_record(
            r.id,
            r.recorded_at,
            record_id,
            sequence,
            sql@,
            outcome@,
            duration_ms,
            build_hash@,
            service_name@,
            tag@,
        ),
        ids::random_id(r.id),
{
    Interaction {
        id: fresh_id(),
        record_id,
        parent_id: None,
        sequence,
        call_type: CallType::Postgres,
        fingerprint: FingerprintBuilder::sql(sql),
        request: statement_to_json(sql),
        response: outcome,
        duration_ms,
        status: CallStatus::Completed,
        error: None,
        recorded_at: now(),
        build_hash: build_hash.to_owned(),
        service_name: service_name.to_owned(),
        tag: tag.to_owned(),
    }
}

// ---------------------------------------------------------------------------
// Laws
// ---------------------------------------------------------------------------

/// A recorded number of affected rows is replayed as it was.
pub proof fn lemma_affected_round_trip(rows_affected: u64, i: InteractionView)
    requires
        i.response == affected_tree(rows_affected),
    ensures
        recorded_affected(Some(i)) == rows_affected,
{
    json::lemma_field_of_object(
        seq![("rows_affected"@, JsonTree::Number(NumberView::Int(rows_affected as int)))],
        "rows_affected"@,
    );
}

/// Recorded rows are replayed as they were, in their order.
pub proof fn lemma_rows_round_trip(rows: Seq<JsonTree>)
    ensures
        recorded_rows(rows_tree(rows)) == rows,
{
    json::lemma_field_of_object(seq![("rows"@, JsonTree::Array(rows))], "rows"@);
}

/// What was recorded is what is replayed: after a query was recorded, the same
/// slot is answered with the recorded rows, unless the place in the recording
/// was taken already.
pub proof fn lemma_query_is_replayed<S>(
    log: Log,
    slot: InteractionSlot<S>,
    id: RecordId,
    recorded_at: Timestamp,
    sql: Seq<char>,
    rows: Seq<JsonTree>,
    duration_ms: u64,
    service_name: Seq<char>,
    tag: Seq<char>,
)
    requires
        store::find_first(
            log,
            store::exactly(slot.record_id, CallType::Postgres, slot.fingerprint@, slot.sequence),
        ) is None,
    ensures
        ({
            let written = sql_record(
                slot,
                id,
                recorded_at,
                sql,
                rows_tree(rows),
                duration_ms,
                service_name,
                tag,
            );
            &&& flow::stored_call(
                log.push(written),
                slot.record_id,
                CallType::Postgres,
                slot.fingerprint@,
                slot.sequence,
            ) == Some(written)
            &&& recorded_rows(written.response) == rows
        }),
{
    flow::lemma_recorded_call_answers(
        log,
        sql_record(
            slot,
            id,
            recorded_at,
            sql,
            rows_tree(rows),
            duration_ms,
            service_name,
            tag,
        ),
    );
    lemma_rows_round_trip(rows);
}

/// After a statement was recorded, the same slot is answered with the recorded
/// number of affected rows, unless the place in the recording was taken
/// already.
pub proof fn lemma_statement_is_replayed<S>(
    log: Log,
    slot: InteractionSlot<S>,
    id: RecordId,
    recorded_at: Timestamp,
    sql: Seq<char>,
    rows_affected: u64,
    duration_ms: u64,
    service_name: Seq<char>,
    tag: Seq<char>,
)
    requires
        store::find_first(
            log,
            store::exactly(slot.record_id, CallType::Postgres, slot.fingerprint@, slot.sequence),
        ) is None,
    ensures
        recorded_affected(
            store::find_first(
                log.push(
                    sql_record(
                        slot,
                        id,
                        recorded_at,
                        sql,
                        affected_tree(rows_affected),
                        duration_ms,
                        service_name,
                        tag,
                    ),
                ),
                store::exactly(
                    slot.record_id,
                    CallType::Postgres,
                    slot.fingerprint@,
                    slot.sequence,
                ),
            ),
        ) == rows_affected,
{
    let written = sql_record(
        slot,
        id,
        recorded_at,
        sql,
        affected_tree(rows_affected),
        duration_ms,
        service_name,
        tag,
    );
    store::lemma_written_is_found(log, written);
    lemma_affected_round_trip(rows_affected, written);
}

/// A recorded statement holds its text as it was, is a completed call at the
/// place of its slot, and holds the outcome that it was given.
pub proof fn lemma_record_of_a_statement<S>(
    slot: InteractionSlot<S>,
    id: RecordId,
    recorded_at: Timestamp,
    sql: Seq<char>,
    outcome: JsonTree,
    duration_ms: u64,
    service_name: Seq<char>,
    tag: Seq<char>,
)
    ensures
        ({
            let r = sql_record(
                slot,
                id,
                recorded_at,
                sql,
                outcome,
                duration_ms,
                service_name,
                tag,
            );
            &&& r.call_type == CallType::Postgres && r.status == CallStatus::Completed
            &&& r.record_id == slot.record_id && r.sequence == slot.sequence
            &&& r.fingerprint == slot.fingerprint@ && r.duration_ms == duration_ms
            &&& r.service_name == service_name && r.tag == tag
            &&& r.response == outcome
            &&& json::member(r.request, "sql"@) == Some(JsonTree::Text(sql))
        }),
{
    json::lemma_field_of_object(seq![("sql"@, JsonTree::Text(sql))], "sql"@);
}

/// A statement that is placed by hand is recorded at that place, under the
/// template of its text: two statements that differ only in the number of a
/// placeholder share it.
pub proof fn lemma_placed_statement(
    id: RecordId,
    recorded_at: Timestamp,
    record_id: RecordId,
    sequence: u32,
    number: Seq<char>,
    rest: Seq<char>,
    outcome: JsonTree,
    duration_ms: u64,
    build_hash: Seq<char>,
    service_name: Seq<char>,
    tag: Seq<char>,
)
    requires
        number.len() > 0,
        number[0] != '0',
        forall|i: int| 0 <= i < number.len() ==> '0' <= #[trigger] number[i] && number[i] <= '9',
        rest.len() > 0 ==> !('0' <= rest[0] && rest[0] <= '9'),
    ensures
        ({
            let r = placed_record(
                id,
                recorded_at,
                record_id,
                sequence,
                seq!['$'] + number + rest,
                outcome,
                duration_ms,
                build_hash,
                service_name,
                tag,
            );
            &&& r.call_type == CallType::Postgres && r.status == CallStatus::Completed
            &&& r.record_id == record_id && r.sequence == sequence
            &&& r.fingerprint == seq!['?'] + fingerprint::sql_template(rest)
            &&& r.response == outcome && r.duration_ms == duration_ms
            &&& r.build_hash == build_hash && r.service_name == service_name && r.tag == tag
            &&& r.parent_id is None && r.error is None
            &&& json::member(r.request, "sql"@) == Some(
                JsonTree::Text(seq!['$'] + number + rest),
            )
        }),
{
    fingerprint::lemma_template_by_characters(number, rest, ' ');
    json::lemma_field_of_object(
        seq![("sql"@, JsonTree::Text(seq!['$'] + number + rest))],
        "sql"@,
    );
}

/// Without a recording no row was affected; and a response without a list of
/// rows has none.
pub proof fn lemma_nothing_recorded(response: JsonTree, i: InteractionView)
    ensures
        recorded_affected(None) == 0,
        json::member(i.response, "rows_affected"@) is None ==> recorded_affected(Some(i)) == 0,
        json::member(response, "rows"@) is None ==> recorded_rows(response).len() == 0,
        json::member(response, "rows"@) == Some(JsonTree::Null) ==> recorded_rows(response).len()
            == 0,
{
}

/// What a query does, by its mode: it is run without a context and in `Off`
/// and `Passthrough` mode, run and recorded in `Record` mode, and looked up in
/// `Replay` and `Shadow` mode. A recorded one is answered with its rows; one
/// that was not recorded is not found, and only a query for rows in JSON is run
/// after all.
pub proof fn lemma_what_a_query_does(
    mode: Option<ReplayMode>,
    i: InteractionView,
    rows: Seq<JsonTree>,
)
    ensures
        first_step(mode) is ExecuteAndRecord <==> mode == Some(ReplayMode::Record),
        first_step(mode) is FindMatch <==> mode == Some(ReplayMode::Replay) || mode == Some(
            ReplayMode::Shadow,
        ),
        first_step(mode) is Execute <==> mode is None || mode == Some(ReplayMode::Off) || mode
            == Some(ReplayMode::Passthrough),
        match_step(None) is FindNearest,
        nearest_step(None) is NotFound,
        json_match_step(None) is Execute,
        json::member(i.response, "rows"@) == Some(JsonTree::Array(rows)) ==> match_step(Some(i))
            == SqlStepView::Rows(rows) && nearest_step(Some(i)) == SqlStepView::Rows(rows)
            && json_match_step(Some(i)) == SqlStepView::Rows(rows),
{
}

} // verus!
