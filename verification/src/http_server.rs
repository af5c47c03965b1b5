//! Contexts for incoming requests, and the record of the entry point.
use crate::context;
use crate::context::{InteractionSlot, MockContext};
use crate::fingerprint;
use crate::fingerprint::FingerprintBuilder;
use crate::flow;
use crate::flow::{record_call, verdict};
use crate::ids;
use crate::ids::{fresh_id, id_from_text, now, RecordId, Timestamp};
use crate::interaction::{Interaction, InteractionView};
use crate::json;
use crate::json::{object, Entries, JsonTree, JsonValue, NumberView};
use crate::json_codec;
use crate::store;
use crate::text::same_text;
use crate::types::{CallStatus, CallType, ReplayMode};
use vstd::prelude::*;

verus! {

broadcast use json::lemma_value_view;

// ---------------------------------------------------------------------------
// Configuration
// ---------------------------------------------------------------------------

/// The mode that a setting names; `Off` for everything else, and without a
/// setting.
pub open spec fn mode_named(setting: Option<Seq<char>>) -> ReplayMode {
    match setting {
        Some(s) => if s == "record"@ {
            ReplayMode::Record
        } else if s == "replay"@ {
            ReplayMode::Replay
        } else if s == "passthrough"@ {
            ReplayMode::Passthrough
        } else {
            ReplayMode::Off
        },
        None => ReplayMode::Off,
    }
}

/// An optional text reference.
pub open spec fn optional_str(s: Option<&str>) -> Option<Seq<char>> {
    match s {
        Some(s) => Some(s@),
        None => None,
    }
}

/// The mode that a setting names.
pub fn mode_from_setting(setting: Option<&str>) -> (r: ReplayMode)
    ensures
        r == mode_named(optional_str(setting)),
{
    match setting {
        Some(s) => if same_text(s, "record") {
            ReplayMode::Record
        } else if same_text(s, "replay") {
            ReplayMode::Replay
        } else if same_text(s, "passthrough") {
            ReplayMode::Passthrough
        } else {
            ReplayMode::Off
        },
        None => ReplayMode::Off,
    }
}

/// The tag of a setting; empty without one.
pub fn tag_from_setting(setting: Option<&str>) -> (r: String)
    ensures
        r@ == (match setting {
            Some(s) => s@,
            None => Seq::empty(),
        }),
{
    match setting {
        Some(s) => s.to_owned(),
        None => String::new(),
    }
}

/// The name of the service: that of the setting, or else the file name of the
/// program, or else `unknown`.
pub fn service_name_from(setting: Option<&str>, program: Option<&str>) -> (r: String)
    ensures
        r@ == (match (setting, program) {
            (Some(s), _) => s@,
            (None, Some(p)) => p@,
            (None, None) => "unknown"@,
        }),
{
    match setting {
        Some(s) => s.to_owned(),
        None => match program {
            Some(p) => p.to_owned(),
            None => "unknown".to_owned(),
        },
    }
}

// ---------------------------------------------------------------------------
// Contexts
// ---------------------------------------------------------------------------

/// The identifier in a header, if it holds one.
pub open spec fn header_id(header: Option<Seq<char>>) -> Option<RecordId> {
    match header {
        Some(s) => ids::parsed_id(s),
        None => None,
    }
}

/// The identifier in a header, if it holds one. One that was written in the
/// hyphenated notation is read back.
pub fn id_from_header(header: Option<&str>) -> (r: Option<RecordId>)
    ensures
        r == header_id(optional_str(header)),
        forall|id: RecordId|
            optional_str(header) == Some(#[trigger] ids::hyphenated(id)) ==> r == Some(id),
{
    match header {
        Some(s) => id_from_text(s),
        None => None,
    }
}

/// The recording of a request: in `Replay` mode the one that its header names,
/// and a fresh one otherwise.
pub open spec fn request_record(
    mode: ReplayMode,
    header: Option<RecordId>,
    fresh: RecordId,
) -> RecordId {
    if mode == ReplayMode::Replay && header is Some {
        header->0
    } else {
        fresh
    }
}

/// The recording of a request.
pub fn record_for(mode: ReplayMode, header: Option<RecordId>, fresh: RecordId) -> (r: RecordId)
    ensures
        r == request_record(mode, header, fresh),
{
    match (mode, header) {
        (ReplayMode::Replay, Some(id)) => id,
        _ => fresh,
    }
}

/// The context of a request: none when recording is off.
pub open spec fn request_context(
    mode: ReplayMode,
    header: Option<RecordId>,
    fresh: RecordId,
) -> Option<RecordId> {
    if mode == ReplayMode::Off {
        None
    } else {
        Some(request_record(mode, header, fresh))
    }
}

/// The context of a request, or none when recording is off. A request without
/// a recording of its own gets a fresh one; a replay that names its recording
/// in the hyphenated notation gets that one.
pub fn context_for_request<S>(mode: ReplayMode, record_header: Option<&str>) -> (r: Option<
    MockContext<S>,
>)
    ensures
        match r {
            None => mode == ReplayMode::Off,
            Some(ctx) => {
                &&& mode != ReplayMode::Off
                &&& ctx.fresh(ctx.record_id, mode, None, None)
                &&& request_context(mode, header_id(optional_str(record_header)), ctx.record_id)
                    == Some(ctx.record_id)
                &&& mode != ReplayMode::Replay || header_id(optional_str(record_header)) is None
                    ==> ids::random_id(ctx.record_id)
                &&& forall|id: RecordId|
                    mode == ReplayMode::Replay && optional_str(record_header) == Some(
                        #[trigger] ids::hyphenated(id),
                    ) ==> ctx.record_id == id
            },
        },
{
    if mode == ReplayMode::Off {
        None
    } else {
        let id: RecordId = record_for(mode, id_from_header(record_header), fresh_id());
        Some(MockContext::with_id(id, mode))
    }
}

/// What to do with a request whose entry point may be recorded.
#[derive(Debug, Clone, Copy, PartialEq, Eq, Structural)]
pub struct EntryPlan {
    pub record_id: RecordId,
    /// The mode of the context.
    pub mode: ReplayMode,
    /// The capture of the context.
    pub capture_id: Option<RecordId>,
    /// Whether the body of the request is read, for its record.
    pub read_body: bool,
    /// Whether the entry point takes the first sequence number.
    pub claim_entry: bool,
    /// Whether the entry point is recorded.
    pub record_entry: bool,
}

/// The plan for a request, with the identifiers from its headers. A capture
/// header makes a replay a shadow run; in every other mode it means nothing.
pub open spec fn entry_plan(
    mode: ReplayMode,
    record_header: Option<RecordId>,
    capture_header: Option<RecordId>,
    fresh: RecordId,
) -> Option<EntryPlan> {
    if mode == ReplayMode::Off {
        None
    } else {
        let shadow = mode == ReplayMode::Replay && capture_header is Some;
        Some(
            EntryPlan {
                record_id: request_record(mode, record_header, fresh),
                mode: if shadow {
                    ReplayMode::Shadow
                } else {
                    mode
                },
                capture_id: if shadow {
                    capture_header
                } else {
                    None
                },
                read_body: mode == ReplayMode::Record,
                claim_entry: mode == ReplayMode::Record || shadow,
                record_entry: mode == ReplayMode::Record,
            },
        )
    }
}

/// The plan for a request with a fresh identifier at hand.
pub fn plan_entry(
    mode: ReplayMode,
    record_header: Option<RecordId>,
    capture_header: Option<RecordId>,
    fresh: RecordId,
) -> (r: Option<EntryPlan>)
    ensures
        r == entry_plan(mode, record_header, capture_header, fresh),
{
    if mode == ReplayMode::Off {
        return None;
    }
    let capture_id = if mode == ReplayMode::Replay {
        capture_header
    } else {
        None
    };
    let shadow = match capture_id {
        Some(_) => true,
        None => false,
    };
    Some(
        EntryPlan {
            record_id: record_for(mode, record_header, fresh),
            mode: if shadow {
                ReplayMode::Shadow
            } else {
                mode
            },
            capture_id,
            read_body: mode == ReplayMode::Record,
            claim_entry: mode == ReplayMode::Record || shadow,
            record_entry: mode == ReplayMode::Record,
        },
    )
}

/// The plan for a request, from its headers. A replay that names its recording
/// in the hyphenated notation gets that one.
pub fn plan_request(
    mode: ReplayMode,
    record_header: Option<&str>,
    capture_header: Option<&str>,
) -> (r: Option<EntryPlan>)
    ensures
        exists|fresh: RecordId|
            ids::random_id(fresh) && r == #[trigger] entry_plan(
                mode,
                header_id(optional_str(record_header)),
                header_id(optional_str(capture_header)),
                fresh,
            ),
        forall|id: RecordId|
            mode == ReplayMode::Replay && optional_str(record_header) == Some(
                #[trigger] ids::hyphenated(id),
            ) ==> r is Some && r->0.record_id == id,
{
    plan_entry(
        mode,
        id_from_header(record_header),
        id_from_header(capture_header),
        fresh_id(),
    )
}

/// The context of a planned request.
pub fn context_for_plan<S>(plan: EntryPlan, tag: String, service_name: String) -> (r: MockContext<
    S,
>)
    ensures
        r.record_id == plan.record_id,
        r.mode == plan.mode,
        r.capture_id == plan.capture_id,
        r.store is None,
        r.build_hash@ == Seq::<char>::empty(),
        r.tag == tag,
        r.service_name == service_name,
        r.sequence == 0,
{
    MockContext {
        record_id: plan.record_id,
        mode: plan.mode,
        build_hash: String::new(),
        service_name,
        tag,
        store: None,
        capture_id: plan.capture_id,
        sequence: 0,
    }
}

// ---------------------------------------------------------------------------
// The entry point
// ---------------------------------------------------------------------------

/// A field for a body: none if the body is not JSON, or `null`.
pub open spec fn body_field(body: JsonTree) -> Entries {
    if body is Null {
        Seq::empty()
    } else {
        seq![("body"@, body)]
    }
}

/// The request of an entry point in JSON.
pub open spec fn entry_request(method: Seq<char>, path: Seq<char>, body: JsonTree) -> JsonTree {
    json::object_of(
        seq![("method"@, JsonTree::Text(method)), ("path"@, JsonTree::Text(path))] + body_field(
            body,
        ),
    )
}

/// The response of an entry point in JSON.
pub open spec fn entry_response(status: u16, body: JsonTree) -> JsonTree {
    json::object_of(
        seq![("status"@, JsonTree::Number(NumberView::Int(status as int)))] + body_field(body),
    )
}

/// The value in the bytes of a body; `null` if they are not JSON.
pub open spec fn body_value(bytes: Seq<u8>) -> JsonTree {
    match json_codec::parsed_bytes(bytes) {
        Some(t) => t,
        None => JsonTree::Null,
    }
}

/// The value in the bytes of a body; `null` if they are not JSON.
pub fn body_from_bytes(bytes: &[u8]) -> (r: JsonValue)
    ensures
        r@ == body_value(bytes@),
{
    match JsonValue::parse_bytes(bytes) {
        Some(v) => v,
        None => JsonValue::Null,
    }
}

/// The request of an entry point in JSON.
pub fn entry_request_json(method: &str, path: &str, body: &JsonValue) -> (r: JsonValue)
    ensures
        r@ == entry_request(method@, path@, body@),
{
    let mut fields: Vec<(&str, JsonValue)> = vec![
        ("method", JsonValue::text(method)),
        ("path", JsonValue::text(path)),
    ];
    if !body.is_null() {
        fields.push(("body", body.duplicate()));
    }
    proof {
        assert(json::field_views(fields@) =~= seq![
            ("method"@, JsonTree::Text(method@)),
            ("path"@, JsonTree::Text(path@)),
        ] + body_field(body@));
    }
    object(fields)
}

/// The response of an entry point in JSON.
pub fn entry_response_json(status: u16, body: &JsonValue) -> (r: JsonValue)
    ensures
        r@ == entry_response(status, body@),
{
    let mut fields: Vec<(&str, JsonValue)> = vec![("status", JsonValue::unsigned(status as u64))];
    if !body.is_null() {
        fields.push(("body", body.duplicate()));
    }
    proof {
        assert(json::field_views(fields@) =~= seq![
            ("status"@, JsonTree::Number(NumberView::Int(status as int))),
        ] + body_field(body@));
    }
    object(fields)
}

/// Takes the first sequence number for an entry point, so that the calls it
/// makes get those from one on.
pub fn claim_entry<S: Clone>(
    ctx: &mut MockContext<S>,
    method: &str,
    path: &str,
    global: Option<&S>,
) -> (r: InteractionSlot<S>)
    ensures
        context::slot_for(
            *old(ctx),
            CallType::Http,
            fingerprint::http_fingerprint(method@, path@),
            context::referent(global),
            r,
        ),
        old(ctx).sequence == 0 ==> r.sequence == 0 && final(ctx).sequence == 1,
        final(ctx).sequence == (if r.sequence == u32::MAX {
            0
        } else {
            r.sequence + 1
        }),
        final(ctx).same_but_counter(old(ctx)),
{
    ctx.next_slot(CallType::Http, FingerprintBuilder::http(method, path), global)
}

/// What is recorded of an entry point.
pub open spec fn entry_record<S>(
    slot: InteractionSlot<S>,
    id: RecordId,
    recorded_at: Timestamp,
    request: JsonTree,
    response: JsonTree,
    status: u16,
    duration_ms: u64,
) -> InteractionView {
    flow::slot_call(
        slot,
        id,
        recorded_at,
        CallType::Http,
        request,
        response,
        duration_ms,
        flow::status_verdict(status),
        slot.service_name@,
        slot.tag@,
    )
}

/// What to record of an entry point, under a fresh identifier and the present
/// time.
pub fn record_entry<S>(
    slot: &InteractionSlot<S>,
    method: &str,
    path: &str,
    request_body: &JsonValue,
    status: u16,
    response_body: &JsonValue,
    duration_ms: u64,
) -> (r: Interaction)
    ensures
        r@ == entry_record(
            *slot,
            r.id,
            r.recorded_at,
            entry_request(method@, path@, request_body@),
            entry_response(status, response_body@),
            status,
            duration_ms,
        ),
        ids::random_id(r.id),
{
    record_entry_at(
        slot,
        fresh_id(),
        now(),
        method,
        path,
        request_body,
        status,
        response_body,
        duration_ms,
    )
}

/// What to record of an entry point.
pub fn record_entry_at<S>(
    slot: &InteractionSlot<S>,
    id: RecordId,
    recorded_at: Timestamp,
    method: &str,
    path: &str,
    request_body: &JsonValue,
    status: u16,
    response_body: &JsonValue,
    duration_ms: u64,
) -> (r: Interaction)
    ensures
        r@ == entry_record(
            *slot,
            id,
            recorded_at,
            entry_request(method@, path@, request_body@),
            entry_response(status, response_body@),
            status,
            duration_ms,
        ),
{
    record_call(
        slot,
        id,
        recorded_at,
        CallType::Http,
        entry_request_json(method, path, request_body),
        entry_response_json(status, response_body),
        duration_ms,
        verdict(status),
        slot.service_name.clone(),
        slot.tag.clone(),
    )
}

// ---------------------------------------------------------------------------
// Laws
// ---------------------------------------------------------------------------

/// A request is recorded exactly in `Record` mode, whatever its headers say:
/// its body is then read, and it takes the first sequence number of a fresh
/// recording. A context has a capture exactly if it is a shadow context.
pub proof fn lemma_only_record_mode_records(
    mode: ReplayMode,
    record_header: Option<RecordId>,
    capture_header: Option<RecordId>,
    fresh: RecordId,
)
    ensures
        match entry_plan(mode, record_header, capture_header, fresh) {
            Some(p) => {
                &&& p.record_entry <==> mode == ReplayMode::Record
                &&& p.record_entry ==> p.mode == ReplayMode::Record && p.read_body
                    && p.claim_entry && p.record_id == fresh
                &&& mode != ReplayMode::Shadow ==> (p.capture_id is Some <==> p.mode
                    == ReplayMode::Shadow)
            },
            None => mode == ReplayMode::Off,
        },
{
}

/// A recorded entry point is found again with its method and path.
pub proof fn lemma_entry_request_fields(method: Seq<char>, path: Seq<char>, body: JsonTree)
    ensures
        store::text_member(entry_request(method, path, body), "method"@) == method,
        store::text_member(entry_request(method, path, body), "path"@) == path,
        json::member(entry_request(method, path, body), "method"@) == Some(JsonTree::Text(method)),
        json::member(entry_request(method, path, body), "path"@) == Some(JsonTree::Text(path)),
        json::member(entry_request(method, path, body), "headers"@) is None,
        json::member(entry_request(method, path, body), "body"@) == (if body is Null {
            None
        } else {
            Some(body)
        }),
{
    let two = seq![("method"@, JsonTree::Text(method)), ("path"@, JsonTree::Text(path))];
    let one = seq![("method"@, JsonTree::Text(method))];
    let all = two + body_field(body);
    assert(two.drop_last() =~= one);
    reveal_strlit("method");
    reveal_strlit("path");
    reveal_strlit("body");
    reveal_strlit("headers");
    assert("method"@.len() == 6 && "path"@.len() == 4 && "body"@.len() == 4);
    assert("headers"@.len() == 7);
    assert("path"@[0] == 'p' && "body"@[0] == 'b');
    json::lemma_field_of_object(all, "headers"@);
    json::lemma_field_of_object(two, "headers"@);
    json::lemma_field_of_object(one, "headers"@);
    json::lemma_field_of_object(one.drop_last(), "headers"@);
    json::lemma_field_of_object(all, "body"@);
    json::lemma_field_of_object(two, "body"@);
    json::lemma_field_of_object(one, "body"@);
    json::lemma_field_of_object(one.drop_last(), "body"@);
    if body is Null {
        assert(all =~= two);
    } else {
        assert(all.drop_last() =~= two);
        json::lemma_field_of_object(all, "method"@);
        json::lemma_field_of_object(all, "path"@);
    }
    json::lemma_field_of_object(two, "method"@);
    json::lemma_field_of_object(two, "path"@);
    json::lemma_field_of_object(one, "method"@);
}

/// A recorded entry point is found again with its status and its body.
pub proof fn lemma_entry_response_fields(status: u16, body: JsonTree)
    ensures
        store::status_of(entry_response(status, body)) == status,
        json::member(entry_response(status, body), "body"@) == (if body is Null {
            None
        } else {
            Some(body)
        }),
{
    let one = seq![("status"@, JsonTree::Number(NumberView::Int(status as int)))];
    let all = one + body_field(body);
    reveal_strlit("status");
    reveal_strlit("body");
    assert("status"@.len() == 6 && "body"@.len() == 4);
    if body is Null {
        assert(all =~= one);
    } else {
        assert(all.drop_last() =~= one);
        json::lemma_field_of_object(all, "status"@);
        json::lemma_field_of_object(all, "body"@);
    }
    json::lemma_field_of_object(one, "status"@);
    json::lemma_field_of_object(one, "body"@);
    assert(one.drop_last() =~= Seq::<(Seq<char>, JsonTree)>::empty());
    json::lemma_field_of_object(one.drop_last(), "body"@);
    assert((status as u64) as u16 == status);
}

/// A setting names a mode by its word, in lower case; `Shadow` has no word,
/// and whatever is no word switches recording off.
pub proof fn lemma_words_of_modes(s: Seq<char>)
    ensures
        mode_named(Some(s)) == ReplayMode::Record <==> s == "record"@,
        mode_named(Some(s)) == ReplayMode::Replay <==> s == "replay"@,
        mode_named(Some(s)) == ReplayMode::Passthrough <==> s == "passthrough"@,
        mode_named(Some(s)) != ReplayMode::Shadow,
        mode_named(None) == ReplayMode::Off,
{
    reveal_strlit("record");
    reveal_strlit("replay");
    reveal_strlit("passthrough");
    assert("record"@[2] == 'c' && "replay"@[2] == 'p');
    assert("record"@.len() == 6 && "replay"@.len() == 6 && "passthrough"@.len() == 11);
}

/// Only a replay takes its recording from a header; every other request, and a
/// replay without the header, gets a fresh one.
pub proof fn lemma_whose_recording(
    mode: ReplayMode,
    named: RecordId,
    capture: Option<RecordId>,
    fresh: RecordId,
)
    ensures
        request_record(ReplayMode::Replay, Some(named), fresh) == named,
        request_record(mode, None, fresh) == fresh,
        mode != ReplayMode::Replay ==> request_record(mode, Some(named), fresh) == fresh,
        entry_plan(ReplayMode::Replay, Some(named), capture, fresh) matches Some(p)
            && p.record_id == named,
        mode != ReplayMode::Replay && mode != ReplayMode::Off ==> (entry_plan(
            mode,
            Some(named),
            capture,
            fresh,
        ) matches Some(p) && p.record_id == fresh),
        entry_plan(ReplayMode::Off, Some(named), capture, fresh) is None,
        request_context(ReplayMode::Off, Some(named), fresh) is None,
{
}

/// A capture header turns a replay into a shadow run, which takes the first
/// sequence number for its entry point and records nothing of it itself; in
/// every other mode, and without the header, the mode stays.
pub proof fn lemma_what_a_capture_does(
    mode: ReplayMode,
    header: Option<RecordId>,
    capture: RecordId,
    fresh: RecordId,
)
    ensures
        entry_plan(ReplayMode::Replay, header, Some(capture), fresh) matches Some(p) && p.mode
            == ReplayMode::Shadow && p.capture_id == Some(capture) && p.claim_entry
            && !p.record_entry && !p.read_body,
        entry_plan(ReplayMode::Replay, header, None, fresh) matches Some(p) && p.mode
            == ReplayMode::Replay && p.capture_id is None && !p.claim_entry && !p.record_entry
            && !p.read_body,
        mode != ReplayMode::Replay && mode != ReplayMode::Off ==> (entry_plan(
            mode,
            header,
            Some(capture),
            fresh,
        ) matches Some(p) && p.mode == mode && p.capture_id is None),
        entry_plan(ReplayMode::Record, header, Some(capture), fresh) matches Some(p)
            && p.claim_entry && p.record_entry && p.read_body,
{
}

/// The response of an entry point is an object with its status.
pub proof fn lemma_entry_status(status: u16, body: JsonTree)
    ensures
        entry_response(status, body) is Object,
        json::member(entry_response(status, body), "status"@) == Some(
            JsonTree::Number(NumberView::Int(status as int)),
        ),
{
    let one = seq![("status"@, JsonTree::Number(NumberView::Int(status as int)))];
    let all = one + body_field(body);
    reveal_strlit("status");
    reveal_strlit("body");
    assert("status"@.len() == 6 && "body"@.len() == 4);
    if body is Null {
        assert(all =~= one);
    } else {
        assert(all.drop_last() =~= one);
        json::lemma_field_of_object(all, "status"@);
    }
    json::lemma_field_of_object(one, "status"@);
}

/// What is recorded of an entry point is an HTTP call at the place of its
/// slot, with the service and the tag of its context, that failed exactly if
/// its status is 500 or more.
pub proof fn lemma_record_of_an_entry_point<S>(
    slot: InteractionSlot<S>,
    id: RecordId,
    recorded_at: Timestamp,
    request: JsonTree,
    response: JsonTree,
    status: u16,
    duration_ms: u64,
)
    ensures
        ({
            let r = entry_record(slot, id, recorded_at, request, response, status, duration_ms);
            &&& r.id == id && r.recorded_at == recorded_at && r.call_type == CallType::Http
            &&& r.request == request && r.response == response && r.duration_ms == duration_ms
            &&& r.record_id == slot.record_id && r.sequence == slot.sequence
            &&& r.fingerprint == slot.fingerprint@ && r.build_hash == slot.build_hash@
            &&& r.service_name == slot.service_name@ && r.tag == slot.tag@
            &&& status >= 500 ==> r.status == CallStatus::Error
            &&& status < 500 ==> r.status == CallStatus::Completed
        }),
{
}

/// A recorded entry point is listed with its method, its path and its status.
pub proof fn lemma_entry_point_is_listed<S>(
    slot: InteractionSlot<S>,
    id: RecordId,
    recorded_at: Timestamp,
    method: Seq<char>,
    path: Seq<char>,
    body: JsonTree,
    status: u16,
    answer: JsonTree,
    duration_ms: u64,
    count: u32,
    now: Timestamp,
)
    ensures
        ({
            let e = entry_record(
                slot,
                id,
                recorded_at,
                entry_request(method, path, body),
                entry_response(status, answer),
                status,
                duration_ms,
            );
            let s = store::summary_of(slot.record_id, Some(e), count, now);
            &&& s.method == method && s.path == path && s.status_code == status
            &&& s.recorded_at == recorded_at && s.service_name == slot.service_name@
        }),
{
    let e = entry_record(
        slot,
        id,
        recorded_at,
        entry_request(method, path, body),
        entry_response(status, answer),
        status,
        duration_ms,
    );
    lemma_entry_request_fields(method, path, body);
    lemma_entry_status(status, answer);
    store::lemma_row_of_an_entry_point(slot.record_id, e, count, now, method, path, status);
}

} // verus!
