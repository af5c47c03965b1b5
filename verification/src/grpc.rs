//! Recording and replaying of unary gRPC calls.
//!
//! Messages are recorded as the base64 text of their bytes, so that no schema
//! is needed. A replay hands the very bytes out again.
use crate::context::InteractionSlot;
use crate::flow;
use crate::flow::{plan, record_call, verdict, CallPlan};
use crate::ids;
use crate::ids::{fresh_id, now, RecordId, Timestamp};
use crate::interaction::{Interaction, InteractionView};
use crate::json;
use crate::json::{object, JsonTree, JsonValue, NumberView};
use crate::memory;
use crate::store;
use crate::store::get_text;
use crate::types::{CallStatus, CallType, ReplayMode};
use base64::Engine;
use vstd::prelude::*;

verus! {

broadcast use json::lemma_value_view;

/// The standard base64 text of bytes.
pub uninterp spec fn base64_text(b: Seq<u8>) -> Seq<char>;

/// The bytes that a standard base64 text stands for, if it is one.
pub uninterp spec fn base64_bytes(s: Seq<char>) -> Option<Seq<u8>>;

/// `STANDARD.encode` of the `base64` crate: the standard alphabet, padded.
/// Decoding gives the bytes back. It panics only if the text would not fit
/// into memory.
#[verifier::external_body]
fn encode_base64(b: &Vec<u8>) -> (r: String)
    ensures
        r@ == base64_text(b@),
        base64_bytes(r@) == Some(b@),
{
    base64::engine::general_purpose::STANDARD.encode(b)
}

/// `STANDARD.decode` of the `base64` crate.
#[verifier::external_body]
fn decode_base64(s: &str) -> (r: Option<Vec<u8>>)
    ensures
        match base64_bytes(s@) {
            Some(b) => r is Some && r->0@ == b,
            None => r is None,
        },
{
    base64::engine::general_purpose::STANDARD.decode(s).ok()
}

/// A request in JSON.
pub open spec fn request_tree(path: Seq<char>, message: Seq<u8>) -> JsonTree {
    json::object_of(
        seq![("path"@, JsonTree::Text(path)), ("body_b64"@, JsonTree::Text(base64_text(message)))],
    )
}

/// A response in JSON.
pub open spec fn response_tree(status: u16, message: Seq<u8>) -> JsonTree {
    json::object_of(
        seq![
            ("status"@, JsonTree::Number(NumberView::Int(status as int))),
            ("body_b64"@, JsonTree::Text(base64_text(message))),
        ],
    )
}

/// The message in a recorded response; empty if it holds none.
pub open spec fn recorded_message(response: JsonTree) -> Seq<u8> {
    match base64_bytes(store::text_member(response, "body_b64"@)) {
        Some(b) => b,
        None => Seq::empty(),
    }
}

/// A request in JSON.
pub fn request_to_json(path: &str, message: &Vec<u8>) -> (r: JsonValue)
    ensures
        r@ == request_tree(path@, message@),
{
    let fields: Vec<(&str, JsonValue)> = vec![
        ("path", JsonValue::text(path)),
        ("body_b64", JsonValue::Text(encode_base64(message))),
    ];
    proof {
        assert(json::field_views(fields@) =~= seq![
            ("path"@, JsonTree::Text(path@)),
            ("body_b64"@, JsonTree::Text(base64_text(message@))),
        ]);
    }
    object(fields)
}

/// A response in JSON. It holds its message: reading it gives the bytes back.
pub fn response_to_json(status: u16, message: &Vec<u8>) -> (r: JsonValue)
    ensures
        r@ == response_tree(status, message@),
        recorded_message(r@) == message@,
{
    let body = encode_base64(message);
    let fields: Vec<(&str, JsonValue)> = vec![
        ("status", JsonValue::unsigned(status as u64)),
        ("body_b64", JsonValue::Text(body)),
    ];
    proof {
        let all = seq![
            ("status"@, JsonTree::Number(NumberView::Int(status as int))),
            ("body_b64"@, JsonTree::Text(base64_text(message@))),
        ];
        assert(json::field_views(fields@) =~= all);
        json::lemma_field_of_object(all, "body_b64"@);
    }
    object(fields)
}

/// The message that a recorded response is replayed as.
pub fn replay_message(response: &JsonValue) -> (r: Vec<u8>)
    ensures
        r@ == recorded_message(response@),
{
    let body = get_text(response, "body_b64");
    match decode_base64(body.as_str()) {
        Some(b) => b,
        None => Vec::new(),
    }
}

/// What is recorded of a call.
pub open spec fn grpc_record<S>(
    slot: InteractionSlot<S>,
    id: RecordId,
    recorded_at: Timestamp,
    path: Seq<char>,
    request: Seq<u8>,
    status: u16,
    response: Seq<u8>,
    duration_ms: u64,
) -> InteractionView {
    flow::slot_call(
        slot,
        id,
        recorded_at,
        CallType::Grpc,
        request_tree(path, request),
        response_tree(status, response),
        duration_ms,
        flow::status_verdict(status),
        Seq::empty(),
        Seq::empty(),
    )
}

/// What to record of a call, under a fresh identifier and the present time.
pub fn record<S>(
    slot: &InteractionSlot<S>,
    path: &str,
    request: &Vec<u8>,
    status: u16,
    response: &Vec<u8>,
    duration_ms: u64,
) -> (r: Interaction)
    ensures
        r@ == grpc_record(
            *slot,
            r.id,
            r.recorded_at,
            path@,
            request@,
            status,
            response@,
            duration_ms,
        ),
        recorded_message(r@.response) == response@,
        ids::random_id(r.id),
{
    record_at(slot, fresh_id(), now(), path, request, status, response, duration_ms)
}

/// What to record of a call. Its replay is the response message, byte for
/// byte.
pub fn record_at<S>(
    slot: &InteractionSlot<S>,
    id: RecordId,
    recorded_at: Timestamp,
    path: &str,
    request: &Vec<u8>,
    status: u16,
    response: &Vec<u8>,
    duration_ms: u64,
) -> (r: Interaction)
    ensures
        r@ == grpc_record(
            *slot,
            id,
            recorded_at,
            path@,
            request@,
            status,
            response@,
            duration_ms,
        ),
        recorded_message(r@.response) == response@,
{
    record_call(
        slot,
        id,
        recorded_at,
        CallType::Grpc,
        request_to_json(path, request),
        response_to_json(status, response),
        duration_ms,
        verdict(status),
        String::new(),
        String::new(),
    )
}

/// What to do next with a call.
#[derive(Debug, PartialEq)]
pub enum GrpcStep {
    /// Make the call; its response is the answer.
    Forward,
    /// Make the call and record it; its response is the answer.
    ForwardAndRecord,
    /// Ask the store for the call at its exact place.
    FindMatch,
    /// Ask the store for the nearest call with the fingerprint.
    FindNearest,
    /// Answer with status 200 and this message.
    Respond(Vec<u8>),
}

/// What a [`GrpcStep`] is.
pub enum GrpcStepView {
    Forward,
    ForwardAndRecord,
    FindMatch,
    FindNearest,
    Respond(Seq<u8>),
}

impl View for GrpcStep {
    type V = GrpcStepView;

    open spec fn view(&self) -> GrpcStepView {
        match *self {
            GrpcStep::Forward => GrpcStepView::Forward,
            GrpcStep::ForwardAndRecord => GrpcStepView::ForwardAndRecord,
            GrpcStep::FindMatch => GrpcStepView::FindMatch,
            GrpcStep::FindNearest => GrpcStepView::FindNearest,
            GrpcStep::Respond(b) => GrpcStepView::Respond(b@),
        }
    }
}

/// The first step of a call in the given mode.
pub open spec fn first_step(mode: Option<ReplayMode>) -> GrpcStepView {
    match flow::plan_for(mode) {
        CallPlan::Forward => GrpcStepView::Forward,
        CallPlan::Record => GrpcStepView::ForwardAndRecord,
        CallPlan::Lookup => GrpcStepView::FindMatch,
    }
}

/// The step after the store was asked for the exact place.
pub open spec fn match_step(found: Option<InteractionView>) -> GrpcStepView {
    match found {
        Some(i) => GrpcStepView::Respond(recorded_message(i.response)),
        None => GrpcStepView::FindNearest,
    }
}

/// The step after the store was asked for the nearest call.
pub open spec fn nearest_step(found: Option<InteractionView>) -> GrpcStepView {
    match found {
        Some(i) => GrpcStepView::Respond(recorded_message(i.response)),
        None => GrpcStepView::Forward,
    }
}

/// The first step of a call in the given mode.
pub fn start(mode: Option<ReplayMode>) -> (r: GrpcStep)
    ensures
        r@ == first_step(mode),
{
    match plan(mode) {
        CallPlan::Forward => GrpcStep::Forward,
        CallPlan::Record => GrpcStep::ForwardAndRecord,
        CallPlan::Lookup => GrpcStep::FindMatch,
    }
}

/// The step after the store was asked for the exact place. A store that
/// failed found nothing.
pub fn after_match(found: Option<Interaction>) -> (r: GrpcStep)
    ensures
        r@ == match_step(memory::found(found)),
{
    match found {
        Some(i) => GrpcStep::Respond(replay_message(&i.response)),
        None => GrpcStep::FindNearest,
    }
}

/// The step after the store was asked for the nearest call: without a
/// recording the call is made.
pub fn after_nearest(found: Option<Interaction>) -> (r: GrpcStep)
    ensures
        r@ == nearest_step(memory::found(found)),
{
    match found {
        Some(i) => GrpcStep::Respond(replay_message(&i.response)),
        None => GrpcStep::Forward,
    }
}

// ---------------------------------------------------------------------------
// Laws
// ---------------------------------------------------------------------------

/// A recorded call holds its path, its status and its two messages in base64,
/// is a gRPC call at the place of its slot, and failed exactly if its status is
/// 500 or more.
pub proof fn lemma_record_of_a_call<S>(
    slot: InteractionSlot<S>,
    id: RecordId,
    recorded_at: Timestamp,
    path: Seq<char>,
    request: Seq<u8>,
    status: u16,
    response: Seq<u8>,
    duration_ms: u64,
)
    ensures
        ({
            let r = grpc_record(
                slot,
                id,
                recorded_at,
                path,
                request,
                status,
                response,
                duration_ms,
            );
            &&& r.call_type == CallType::Grpc
            &&& r.record_id == slot.record_id && r.sequence == slot.sequence
            &&& r.fingerprint == slot.fingerprint@ && r.duration_ms == duration_ms
            &&& r.status == CallStatus::Error <==> status >= 500
            &&& json::member(r.request, "path"@) == Some(JsonTree::Text(path))
            &&& json::member(r.request, "body_b64"@) == Some(JsonTree::Text(base64_text(request)))
            &&& json::member(r.response, "status"@) == Some(
                JsonTree::Number(NumberView::Int(status as int)),
            )
            &&& json::member(r.response, "body_b64"@) == Some(
                JsonTree::Text(base64_text(response)),
            )
        }),
{
    reveal_strlit("path");
    reveal_strlit("body_b64");
    reveal_strlit("status");
    reveal_strlit("");
    assert("path"@.len() == 4 && "body_b64"@.len() == 8 && "status"@.len() == 6);
    let q = seq![
        ("path"@, JsonTree::Text(path)),
        ("body_b64"@, JsonTree::Text(base64_text(request))),
    ];
    let a = seq![
        ("status"@, JsonTree::Number(NumberView::Int(status as int))),
        ("body_b64"@, JsonTree::Text(base64_text(response))),
    ];
    json::lemma_fields_are_found(q, 0, ""@);
    json::lemma_fields_are_found(q, 1, ""@);
    json::lemma_fields_are_found(a, 0, ""@);
    json::lemma_fields_are_found(a, 1, ""@);
}

/// The message of a recorded response is what its base64 text stands for, and
/// empty if there is no such text.
pub proof fn lemma_replayed_message(response: JsonTree, s: Seq<char>, b: Seq<u8>)
    requires
        json::member(response, "body_b64"@) == Some(JsonTree::Text(s)),
    ensures
        base64_bytes(s) == Some(b) ==> recorded_message(response) == b,
        base64_bytes(s) is None ==> recorded_message(response).len() == 0,
{
}

/// What a call does, by its mode: it is made without a context and in `Off`
/// and `Passthrough` mode, made and recorded in `Record` mode, and looked up in
/// `Replay` and `Shadow` mode. A recorded call is answered with its message; one
/// that was not recorded is made after all.
pub proof fn lemma_what_a_call_does(
    mode: Option<ReplayMode>,
    i: InteractionView,
    s: Seq<char>,
    b: Seq<u8>,
)
    ensures
        first_step(mode) is ForwardAndRecord <==> mode == Some(ReplayMode::Record),
        first_step(mode) is FindMatch <==> mode == Some(ReplayMode::Replay) || mode == Some(
            ReplayMode::Shadow,
        ),
        first_step(mode) is Forward <==> mode is None || mode == Some(ReplayMode::Off) || mode
            == Some(ReplayMode::Passthrough),
        match_step(None) is FindNearest,
        nearest_step(None) is Forward,
        json::member(i.response, "body_b64"@) == Some(JsonTree::Text(s)) && base64_bytes(s) == Some(
            b,
        ) ==> match_step(Some(i)) == GrpcStepView::Respond(b) && nearest_step(Some(i))
            == GrpcStepView::Respond(b),
{
}

} // verus!
