//! The rows in which a relational store keeps interactions.
use crate::ids::{RecordId, Timestamp};
use crate::interaction;
use crate::interaction::{copy_text, Interaction, InteractionView};
use crate::json::{JsonTree, JsonValue};
use crate::text::same_text;
use crate::types::{CallStatus, CallType};
use vstd::prelude::*;

verus! {

/// The name of a kind of call.
pub open spec fn call_type_name(ct: CallType) -> Seq<char> {
    match ct {
        CallType::Http => "http"@,
        CallType::Grpc => "grpc"@,
        CallType::Postgres => "postgres"@,
        CallType::Redis => "redis"@,
        CallType::Function => "function"@,
    }
}

/// The name of a status.
pub open spec fn call_status_name(cs: CallStatus) -> Seq<char> {
    match cs {
        CallStatus::Completed => "completed"@,
        CallStatus::Error => "error"@,
        CallStatus::Cancelled => "cancelled"@,
        CallStatus::Timeout => "timeout"@,
    }
}

/// The kind of call with a name; a function call for any other name.
pub open spec fn call_type_named(s: Seq<char>) -> CallType {
    if s == "http"@ {
        CallType::Http
    } else if s == "grpc"@ {
        CallType::Grpc
    } else if s == "postgres"@ {
        CallType::Postgres
    } else if s == "redis"@ {
        CallType::Redis
    } else {
        CallType::Function
    }
}

/// The status with a name; completed for any other name.
pub open spec fn call_status_named(s: Seq<char>) -> CallStatus {
    if s == "error"@ {
        CallStatus::Error
    } else if s == "cancelled"@ {
        CallStatus::Cancelled
    } else if s == "timeout"@ {
        CallStatus::Timeout
    } else {
        CallStatus::Completed
    }
}

/// The name of a kind of call.
pub fn call_type_str(ct: &CallType) -> (r: &'static str)
    ensures
        r@ == call_type_name(*ct),
{
    match ct {
        CallType::Http => "http",
        CallType::Grpc => "grpc",
        CallType::Postgres => "postgres",
        CallType::Redis => "redis",
        CallType::Function => "function",
    }
}

/// The name of a status.
pub fn call_status_str(cs: &CallStatus) -> (r: &'static str)
    ensures
        r@ == call_status_name(*cs),
{
    match cs {
        CallStatus::Completed => "completed",
        CallStatus::Error => "error",
        CallStatus::Cancelled => "cancelled",
        CallStatus::Timeout => "timeout",
    }
}

/// The kind of call with a name; a function call for any other name.
pub fn parse_call_type(s: &str) -> (r: CallType)
    ensures
        r == call_type_named(s@),
{
    if same_text(s, "http") {
        CallType::Http
    } else if same_text(s, "grpc") {
        CallType::Grpc
    } else if same_text(s, "postgres") {
        CallType::Postgres
    } else if same_text(s, "redis") {
        CallType::Redis
    } else {
        CallType::Function
    }
}

/// The status with a name; completed for any other name.
pub fn parse_call_status(s: &str) -> (r: CallStatus)
    ensures
        r == call_status_named(s@),
{
    if same_text(s, "error") {
        CallStatus::Error
    } else if same_text(s, "cancelled") {
        CallStatus::Cancelled
    } else if same_text(s, "timeout") {
        CallStatus::Timeout
    } else {
        CallStatus::Completed
    }
}

/// A row: an interaction in the types of its columns. There is no column for
/// the tag.
#[derive(Debug, PartialEq)]
pub struct InteractionRow {
    pub id: RecordId,
    pub record_id: RecordId,
    pub parent_id: Option<RecordId>,
    pub sequence: i32,
    pub call_type: String,
    pub fingerprint: String,
    pub request: JsonValue,
    pub response: JsonValue,
    pub duration_ms: i64,
    pub status: String,
    pub error: Option<String>,
    pub recorded_at: Timestamp,
    pub build_hash: String,
    pub service_name: String,
}

/// What an [`InteractionRow`] is.
pub struct RowView {
    pub id: RecordId,
    pub record_id: RecordId,
    pub parent_id: Option<RecordId>,
    pub sequence: i32,
    pub call_type: Seq<char>,
    pub fingerprint: Seq<char>,
    pub request: JsonTree,
    pub response: JsonTree,
    pub duration_ms: i64,
    pub status: Seq<char>,
    pub error: Option<Seq<char>>,
    pub recorded_at: Timestamp,
    pub build_hash: Seq<char>,
    pub service_name: Seq<char>,
}

impl View for InteractionRow {
    type V = RowView;

    open spec fn view(&self) -> RowView {
        RowView {
            id: self.id,
            record_id: self.record_id,
            parent_id: self.parent_id,
            sequence: self.sequence,
            call_type: self.call_type@,
            fingerprint: self.fingerprint@,
            request: self.request@,
            response: self.response@,
            duration_ms: self.duration_ms,
            status: self.status@,
            error: interaction::optional_text(self.error),
            recorded_at: self.recorded_at,
            build_hash: self.build_hash@,
            service_name: self.service_name@,
        }
    }
}

/// The row of an interaction. Numbers keep their bits.
pub open spec fn row_of(i: InteractionView) -> RowView {
    RowView {
        id: i.id,
        record_id: i.record_id,
        parent_id: i.parent_id,
        sequence: i.sequence as i32,
        call_type: call_type_name(i.call_type),
        fingerprint: i.fingerprint,
        request: i.request,
        response: i.response,
        duration_ms: i.duration_ms as i64,
        status: call_status_name(i.status),
        error: i.error,
        recorded_at: i.recorded_at,
        build_hash: i.build_hash,
        service_name: i.service_name,
    }
}

/// The interaction of a row.
pub open spec fn interaction_of(r: RowView) -> InteractionView {
    InteractionView {
        id: r.id,
        record_id: r.record_id,
        parent_id: r.parent_id,
        sequence: r.sequence as u32,
        call_type: call_type_named(r.call_type),
        fingerprint: r.fingerprint,
        request: r.request,
        response: r.response,
        duration_ms: r.duration_ms as u64,
        status: call_status_named(r.status),
        error: r.error,
        recorded_at: r.recorded_at,
        build_hash: r.build_hash,
        service_name: r.service_name,
        tag: Seq::empty(),
    }
}

/// The row of an interaction.
pub fn interaction_to_row(i: &Interaction) -> (r: InteractionRow)
    ensures
        r@ == row_of(i@),
{
    InteractionRow {
        id: i.id,
        record_id: i.record_id,
        parent_id: i.parent_id,
        sequence: i.sequence as i32,
        call_type: call_type_str(&i.call_type).to_owned(),
        fingerprint: i.fingerprint.clone(),
        request: i.request.duplicate(),
        response: i.response.duplicate(),
        duration_ms: i.duration_ms as i64,
        status: call_status_str(&i.status).to_owned(),
        error: copy_text(&i.error),
        recorded_at: i.recorded_at,
        build_hash: i.build_hash.clone(),
        service_name: i.service_name.clone(),
    }
}

/// The interaction of a row.
pub fn row_to_interaction(row: InteractionRow) -> (r: Interaction)
    ensures
        r@ == interaction_of(row@),
{
    Interaction {
        id: row.id,
        record_id: row.record_id,
        parent_id: row.parent_id,
        sequence: row.sequence as u32,
        call_type: parse_call_type(row.call_type.as_str()),
        fingerprint: row.fingerprint,
        request: row.request,
        response: row.response,
        duration_ms: row.duration_ms as u64,
        status: parse_call_status(row.status.as_str()),
        error: row.error,
        recorded_at: row.recorded_at,
        build_hash: row.build_hash,
        service_name: row.service_name,
        tag: String::new(),
    }
}

// ---------------------------------------------------------------------------
// Laws
// ---------------------------------------------------------------------------

/// Every kind of call is read back from its name.
pub proof fn lemma_call_type_round_trip(ct: CallType)
    ensures
        call_type_named(call_type_name(ct)) == ct,
{
    reveal_strlit("http");
    reveal_strlit("grpc");
    reveal_strlit("postgres");
    reveal_strlit("redis");
    reveal_strlit("function");
    assert("http"@.len() == 4 && "grpc"@.len() == 4 && "postgres"@.len() == 8 && "redis"@.len()
        == 5 && "function"@.len() == 8);
    assert("http"@[0] == 'h' && "grpc"@[0] == 'g' && "postgres"@[0] == 'p' && "function"@[0]
        == 'f');
}

/// Every status is read back from its name.
pub proof fn lemma_call_status_round_trip(cs: CallStatus)
    ensures
        call_status_named(call_status_name(cs)) == cs,
{
    reveal_strlit("completed");
    reveal_strlit("error");
    reveal_strlit("cancelled");
    reveal_strlit("timeout");
    assert("completed"@.len() == 9 && "error"@.len() == 5 && "cancelled"@.len() == 9
        && "timeout"@.len() == 7);
    assert("completed"@[1] == 'o' && "cancelled"@[1] == 'a');
}

/// An interaction is read back from its row as it was, but for its tag.
pub proof fn lemma_row_round_trip(i: InteractionView)
    ensures
        interaction_of(row_of(i)) == (InteractionView { tag: Seq::empty(), ..i }),
{
    lemma_call_type_round_trip(i.call_type);
    lemma_call_status_round_trip(i.status);
    let s = i.sequence;
    let d = i.duration_ms;
    assert((s as i32) as u32 == s) by (bit_vector);
    assert((d as i64) as u64 == d) by (bit_vector);
}

/// The words for the kinds of calls and for statuses. Any other word is read
/// as a function call, or as completed.
pub proof fn lemma_words_in_rows(s: Seq<char>)
    ensures
        call_type_named("http"@) == CallType::Http,
        call_type_named("grpc"@) == CallType::Grpc,
        call_type_named("postgres"@) == CallType::Postgres,
        call_type_named("redis"@) == CallType::Redis,
        call_type_named("function"@) == CallType::Function,
        s != "http"@ && s != "grpc"@ && s != "postgres"@ && s != "redis"@ ==> call_type_named(s)
            == CallType::Function,
        call_status_named("completed"@) == CallStatus::Completed,
        call_status_named("error"@) == CallStatus::Error,
        call_status_named("cancelled"@) == CallStatus::Cancelled,
        call_status_named("timeout"@) == CallStatus::Timeout,
        s != "error"@ && s != "cancelled"@ && s != "timeout"@ ==> call_status_named(s)
            == CallStatus::Completed,
{
    lemma_call_type_round_trip(CallType::Http);
    lemma_call_type_round_trip(CallType::Grpc);
    lemma_call_type_round_trip(CallType::Postgres);
    lemma_call_type_round_trip(CallType::Redis);
    lemma_call_type_round_trip(CallType::Function);
    lemma_call_status_round_trip(CallStatus::Completed);
    lemma_call_status_round_trip(CallStatus::Error);
    lemma_call_status_round_trip(CallStatus::Cancelled);
    lemma_call_status_round_trip(CallStatus::Timeout);
}

/// A row keeps its interaction's identifiers, texts and values, and its
/// numbers as far as its columns reach.
pub proof fn lemma_columns_of_a_row(i: InteractionView)
    ensures
        ({
            let r = row_of(i);
            &&& r.id == i.id && r.record_id == i.record_id && r.parent_id == i.parent_id
            &&& r.fingerprint == i.fingerprint
            &&& r.request == i.request && r.response == i.response
            &&& r.error == i.error && r.recorded_at == i.recorded_at
            &&& r.build_hash == i.build_hash && r.service_name == i.service_name
            &&& i.sequence <= i32::MAX ==> r.sequence == i.sequence
            &&& i.duration_ms <= i64::MAX ==> r.duration_ms == i.duration_ms
        }),
{
}

} // verus!
