//! Recording and replaying of outgoing HTTP requests.
use crate::context::InteractionSlot;
use crate::flow;
use crate::flow::{plan, record_call, verdict, CallPlan};
use crate::ids;
use crate::ids::{fresh_id, now, RecordId, Timestamp};
use crate::interaction::{Interaction, InteractionView};
use crate::json;
use crate::json::{object, Entries, JsonMap, JsonTree, JsonValue, NumberView};
use crate::json_codec;
use crate::memory::InMemoryStore;
use crate::store;
use crate::store::{get_u64, Log, StoreError};
use crate::text;
use crate::text::{concat3, decimal_text, same_text};
use crate::types::{CallStatus, CallType, ReplayMode};
use vstd::prelude::*;
use vstd::string::*;

verus! {

broadcast use json::lemma_value_view;

/// The headers that are left out of a recorded request: credentials and
/// whatever differs from request to request.
pub open spec fn redacted_headers() -> Seq<Seq<char>> {
    seq![
        "authorization"@,
        "x-api-key"@,
        "stripe-signature"@,
        "x-request-id"@,
        "x-b3-traceid"@,
        "x-b3-spanid"@,
    ]
}

/// Whether a header is left out of a recorded request.
pub fn is_redacted(name: &str) -> (r: bool)
    ensures
        r == redacted_headers().contains(name@),
{
    let ghost all = redacted_headers();
    proof {
        assert(all[0] == "authorization"@);
        assert(all[1] == "x-api-key"@);
        assert(all[2] == "stripe-signature"@);
        assert(all[3] == "x-request-id"@);
        assert(all[4] == "x-b3-traceid"@);
        assert(all[5] == "x-b3-spanid"@);
    }
    same_text(name, "authorization") || same_text(name, "x-api-key") || same_text(
        name,
        "stripe-signature",
    ) || same_text(name, "x-request-id") || same_text(name, "x-b3-traceid") || same_text(
        name,
        "x-b3-spanid",
    )
}

/// A list of headers: names and texts.
pub open spec fn header_views(v: Seq<(String, String)>) -> Seq<(Seq<char>, Seq<char>)> {
    Seq::new(v.len(), |i: int| (v[i].0@, v[i].1@))
}

/// The entries of headers in JSON; of several headers with one name the last
/// counts.
pub open spec fn header_entries(v: Seq<(Seq<char>, Seq<char>)>, redact: bool) -> Entries
    decreases v.len(),
{
    if v.len() == 0 {
        Seq::empty()
    } else {
        let before = header_entries(v.drop_last(), redact);
        if redact && redacted_headers().contains(v.last().0) {
            before
        } else {
            json::entries_with(before, v.last().0, JsonTree::Text(v.last().1))
        }
    }
}

/// A request in JSON: method, address and headers, without the redacted ones.
pub open spec fn request_tree(
    method: Seq<char>,
    url: Seq<char>,
    headers: Seq<(Seq<char>, Seq<char>)>,
) -> JsonTree {
    json::object_of(
        seq![
            ("method"@, JsonTree::Text(method)),
            ("url"@, JsonTree::Text(url)),
            ("headers"@, JsonTree::Object(header_entries(headers, true))),
        ],
    )
}

/// A body in JSON: the value that its text holds, the text itself if it holds
/// none, and `null` if it could not be read.
pub open spec fn body_tree(body: Option<Seq<char>>) -> JsonTree {
    match body {
        Some(s) => match json_codec::parsed(s) {
            Some(t) => t,
            None => JsonTree::Text(s),
        },
        None => JsonTree::Null,
    }
}

/// A response in JSON: status, headers and body.
pub open spec fn response_tree(
    status: u16,
    headers: Seq<(Seq<char>, Seq<char>)>,
    body: Option<Seq<char>>,
) -> JsonTree {
    json::object_of(
        seq![
            ("status"@, JsonTree::Number(NumberView::Int(status as int))),
            ("headers"@, JsonTree::Object(header_entries(headers, false))),
            ("body"@, body_tree(body)),
        ],
    )
}

/// Headers in JSON.
fn headers_json(v: &Vec<(String, String)>, redact: bool) -> (r: JsonValue)
    ensures
        r@ == JsonTree::Object(header_entries(header_views(v@), redact)),
{
    let ghost all = header_views(v@);
    let mut out = JsonMap::new();
    let mut i: usize = 0;
    proof {
        assert(all.take(0) =~= Seq::<(Seq<char>, Seq<char>)>::empty());
    }
    while i < v.len()
        invariant
            all == header_views(v@),
            i <= v@.len(),
            out@ == header_entries(all.take(i as int), redact),
        decreases v.len() - i,
    {
        proof {
            assert(all.take(i + 1).drop_last() =~= all.take(i as int));
            assert(all.take(i + 1).last() == (v@[i as int].0@, v@[i as int].1@));
        }
        if !(redact && is_redacted(v[i].0.as_str())) {
            out.insert(v[i].0.clone(), JsonValue::Text(v[i].1.clone()));
        }
        i = i + 1;
    }
    proof {
        assert(all.take(i as int) =~= all);
    }
    JsonValue::Object(out)
}

/// A request in JSON. Header names are in lower case.
pub fn request_to_json(method: &str, url: &str, headers: &Vec<(String, String)>) -> (r: JsonValue)
    ensures
        r@ == request_tree(method@, url@, header_views(headers@)),
{
    let fields: Vec<(&str, JsonValue)> = vec![
        ("method", JsonValue::text(method)),
        ("url", JsonValue::text(url)),
        ("headers", headers_json(headers, true)),
    ];
    proof {
        assert(json::field_views(fields@) =~= seq![
            ("method"@, JsonTree::Text(method@)),
            ("url"@, JsonTree::Text(url@)),
            ("headers"@, JsonTree::Object(header_entries(header_views(headers@), true))),
        ]);
    }
    object(fields)
}

/// A body in JSON.
pub fn body_to_json(body: Option<&str>) -> (r: JsonValue)
    ensures
        r@ == body_tree(
            match body {
                Some(s) => Some(s@),
                None => None,
            },
        ),
{
    match body {
        Some(s) => match JsonValue::parse(s) {
            Some(v) => v,
            None => JsonValue::text(s),
        },
        None => JsonValue::Null,
    }
}

/// A response in JSON; there is no body if it could not be read.
pub fn response_to_json(status: u16, headers: &Vec<(String, String)>, body: Option<&str>) -> (r:
    JsonValue)
    ensures
        r@ == response_tree(
            status,
            header_views(headers@),
            match body {
                Some(s) => Some(s@),
                None => None,
            },
        ),
{
    let ghost b = match body {
        Some(s) => Some(s@),
        None => None,
    };
    let fields: Vec<(&str, JsonValue)> = vec![
        ("status", JsonValue::unsigned(status as u64)),
        ("headers", headers_json(headers, false)),
        ("body", body_to_json(body)),
    ];
    proof {
        assert(json::field_views(fields@) =~= seq![
            ("status"@, JsonTree::Number(NumberView::Int(status as int))),
            ("headers"@, JsonTree::Object(header_entries(header_views(headers@), false))),
            ("body"@, body_tree(b)),
        ]);
    }
    object(fields)
}

/// A status and the bytes of a body.
#[derive(Debug, PartialEq)]
pub struct PlainResponse {
    pub status: u16,
    pub body: Vec<u8>,
}

/// The status of a rebuilt response: a code of three digits, and 200 for
/// everything else.
pub open spec fn valid_status(status: u16) -> u16 {
    if 100 <= status && status <= 999 {
        status
    } else {
        200
    }
}

/// The bytes of a body in JSON: those of the text of a text, and those of the
/// JSON text of everything else.
pub open spec fn body_bytes(t: JsonTree) -> Seq<u8> {
    match t {
        JsonTree::Text(s) => vstd::utf8::encode_utf8(s),
        _ => vstd::utf8::encode_utf8(json_codec::compact(t)),
    }
}

/// Bytes hold a body: reading them as JSON gives it back, unless it is a text,
/// which is sent as it is, or JSON cannot be read back as it was.
pub open spec fn holds_body(bytes: Seq<u8>, body: JsonTree) -> bool {
    !(body is Text) && json_codec::reads_back(body) ==> json_codec::parsed_bytes(bytes) == Some(
        body,
    )
}

/// The body of a recorded response: what stands under `body`, or all of it.
pub open spec fn recorded_body(t: JsonTree) -> JsonTree {
    match json::member(t, "body"@) {
        Some(b) => b,
        None => t,
    }
}

/// Rebuilds a response from JSON. Its body can be read back.
pub fn json_to_response(status_code: u16, value: &JsonValue) -> (r: PlainResponse)
    ensures
        r.status == valid_status(status_code),
        r.body@ == body_bytes(recorded_body(value@)),
        holds_body(r.body@, recorded_body(value@)),
{
    let status: u16 = if 100 <= status_code && status_code <= 999 {
        status_code
    } else {
        200
    };
    let content = match value.get("body") {
        Some(b) => b,
        None => value,
    };
    let body: Vec<u8> = match content {
        JsonValue::Text(s) => s.as_str().as_bytes_vec(),
        other => other.to_compact().as_str().as_bytes_vec(),
    };
    PlainResponse { status, body }
}

/// The status in a recorded response: its lower sixteen bits, and 200 if it
/// has none.
pub open spec fn replay_status(response: JsonTree) -> u16 {
    match store::u64_member(response, "status"@) {
        Some(n) => n as u16,
        None => 200,
    }
}

/// The response that a recorded one is replayed as. Its body can be read back.
pub fn replay_response(response: &JsonValue) -> (r: PlainResponse)
    ensures
        r.status == valid_status(replay_status(response@)),
        r.body@ == body_bytes(recorded_body(response@)),
        holds_body(r.body@, recorded_body(response@)),
{
    let status: u16 = match get_u64(response, "status") {
        Some(n) => n as u16,
        None => 200,
    };
    json_to_response(status, response)
}

/// What is recorded of a request and its response.
pub open spec fn http_record<S>(
    slot: InteractionSlot<S>,
    id: RecordId,
    recorded_at: Timestamp,
    request: JsonTree,
    response: JsonTree,
    status_code: u16,
    duration_ms: u64,
) -> InteractionView {
    flow::slot_call(
        slot,
        id,
        recorded_at,
        CallType::Http,
        request,
        response,
        duration_ms,
        flow::status_verdict(status_code),
        slot.service_name@,
        slot.tag@,
    )
}

/// What to record of a request and its response, under a fresh identifier and
/// the present time.
pub fn record<S>(
    slot: &InteractionSlot<S>,
    request: JsonValue,
    response: JsonValue,
    status_code: u16,
    duration_ms: u64,
) -> (r: Interaction)
    ensures
        r@ == http_record(
            *slot,
            r.id,
            r.recorded_at,
            request@,
            response@,
            status_code,
            duration_ms,
        ),
        ids::random_id(r.id),
{
    record_at(slot, fresh_id(), now(), request, response, status_code, duration_ms)
}

/// What to record of a request and its response.
pub fn record_at<S>(
    slot: &InteractionSlot<S>,
    id: RecordId,
    recorded_at: Timestamp,
    request: JsonValue,
    response: JsonValue,
    status_code: u16,
    duration_ms: u64,
) -> (r: Interaction)
    ensures
        r@ == http_record(
            *slot,
            id,
            recorded_at,
            request@,
            response@,
            status_code,
            duration_ms,
        ),
{
    record_call(
        slot,
        id,
        recorded_at,
        CallType::Http,
        request,
        response,
        duration_ms,
        verdict(status_code),
        slot.service_name.clone(),
        slot.tag.clone(),
    )
}

/// The message of a replay without a recorded response.
pub open spec fn not_recorded(fingerprint: Seq<char>, sequence: u32) -> Seq<char> {
    "ditto: no recorded response for "@ + fingerprint + " seq="@ + text::decimal(sequence as nat)
}

/// The message of a replay without a recorded response.
pub fn not_recorded_message(fingerprint: &str, sequence: u32) -> (r: String)
    ensures
        r@ == not_recorded(fingerprint@, sequence),
{
    let mut s = concat3("ditto: no recorded response for ", fingerprint, " seq=");
    s.append(decimal_text(sequence as u64).as_str());
    s
}

/// What to do next with a request.
#[derive(Debug, PartialEq)]
pub enum HttpStep {
    /// Send the request; its response is the answer.
    Forward,
    /// Send the request and read its response; record it, and answer with what
    /// [`json_to_response`] makes of the record. A failure to write is no
    /// failure of the request.
    ForwardAndRecord,
    /// Ask the store for the request at its exact place.
    FindMatch,
    /// Ask the store for the nearest request with the fingerprint.
    FindNearest,
    /// Answer with this response.
    Respond(PlainResponse),
    /// Fail with this message.
    Fail(String),
}

/// What an [`HttpStep`] is.
pub enum HttpStepView {
    Forward,
    ForwardAndRecord,
    FindMatch,
    FindNearest,
    Respond(u16, Seq<u8>),
    Fail(Seq<char>),
}

impl View for HttpStep {
    type V = HttpStepView;

    open spec fn view(&self) -> HttpStepView {
        match *self {
            HttpStep::Forward => HttpStepView::Forward,
            HttpStep::ForwardAndRecord => HttpStepView::ForwardAndRecord,
            HttpStep::FindMatch => HttpStepView::FindMatch,
            HttpStep::FindNearest => HttpStepView::FindNearest,
            HttpStep::Respond(p) => HttpStepView::Respond(p.status, p.body@),
            HttpStep::Fail(s) => HttpStepView::Fail(s@),
        }
    }
}

/// The answer of a replay with the given recorded response.
pub open spec fn replayed(response: JsonTree) -> HttpStepView {
    HttpStepView::Respond(
        valid_status(replay_status(response)),
        body_bytes(recorded_body(response)),
    )
}

/// An answer whose bytes hold a body.
pub open spec fn answers_with_body(step: HttpStepView, body: JsonTree) -> bool {
    match step {
        HttpStepView::Respond(_, bytes) => holds_body(bytes, body),
        _ => false,
    }
}

/// The first step of a request in the given mode.
pub open spec fn first_step(mode: Option<ReplayMode>) -> HttpStepView {
    match flow::plan_for(mode) {
        CallPlan::Forward => HttpStepView::Forward,
        CallPlan::Record => HttpStepView::ForwardAndRecord,
        CallPlan::Lookup => HttpStepView::FindMatch,
    }
}

/// What was found is the answer, a store that failed fails the request, and
/// without either there is another step.
pub open spec fn answer_or(
    found: Result<Option<Interaction>, StoreError>,
    other: HttpStepView,
) -> HttpStepView {
    match found {
        Ok(Some(i)) => replayed(i.response@),
        Ok(None) => other,
        Err(e) => HttpStepView::Fail(store::store_error_text(e)),
    }
}

/// The step after the store was asked for the exact place.
pub open spec fn match_step(found: Result<Option<Interaction>, StoreError>) -> HttpStepView {
    answer_or(found, HttpStepView::FindNearest)
}

/// The step after the store was asked for the nearest request.
pub open spec fn nearest_step(
    fingerprint: Seq<char>,
    sequence: u32,
    found: Result<Option<Interaction>, StoreError>,
) -> HttpStepView {
    answer_or(found, HttpStepView::Fail(not_recorded(fingerprint, sequence)))
}

/// The first step of a request in the given mode.
pub fn start(mode: Option<ReplayMode>) -> (r: HttpStep)
    ensures
        r@ == first_step(mode),
{
    match plan(mode) {
        CallPlan::Forward => HttpStep::Forward,
        CallPlan::Record => HttpStep::ForwardAndRecord,
        CallPlan::Lookup => HttpStep::FindMatch,
    }
}

/// The step after the store was asked for the exact place.
pub fn after_match(found: Result<Option<Interaction>, StoreError>) -> (r: HttpStep)
    ensures
        r@ == match_step(found),
        found matches Ok(Some(i)) ==> answers_with_body(r@, recorded_body(i.response@)),
{
    match found {
        Ok(Some(i)) => HttpStep::Respond(replay_response(&i.response)),
        Ok(None) => HttpStep::FindNearest,
        Err(e) => HttpStep::Fail(e.message()),
    }
}

/// The step after the store was asked for the nearest request.
pub fn after_nearest(
    fingerprint: &str,
    sequence: u32,
    found: Result<Option<Interaction>, StoreError>,
) -> (r: HttpStep)
    ensures
        r@ == nearest_step(fingerprint@, sequence, found),
        found matches Ok(Some(i)) ==> answers_with_body(r@, recorded_body(i.response@)),
{
    match found {
        Ok(Some(i)) => HttpStep::Respond(replay_response(&i.response)),
        Ok(None) => HttpStep::Fail(not_recorded_message(fingerprint, sequence)),
        Err(e) => HttpStep::Fail(e.message()),
    }
}

/// Where a request ends up with a store in memory: it is sent, or it is
/// answered, or it fails for want of a recording.
pub open spec fn destination<S>(log: Log, slot: Option<InteractionSlot<S>>) -> HttpStepView {
    match slot {
        None => HttpStepView::Forward,
        Some(s) => match flow::plan_for(Some(s.mode)) {
            CallPlan::Forward => HttpStepView::Forward,
            CallPlan::Record => HttpStepView::ForwardAndRecord,
            CallPlan::Lookup => match flow::stored_call(
                log,
                s.record_id,
                CallType::Http,
                s.fingerprint@,
                s.sequence,
            ) {
                Some(i) => replayed(i.response),
                None => HttpStepView::Fail(not_recorded(s.fingerprint@, s.sequence)),
            },
        },
    }
}

/// The call that a slot is answered with was recorded with this status and
/// body.
pub open spec fn answered_by<S>(
    log: Log,
    slot: InteractionSlot<S>,
    status: u16,
    headers: Seq<(Seq<char>, Seq<char>)>,
    body: Option<Seq<char>>,
) -> bool {
    match flow::stored_call(
        log,
        slot.record_id,
        CallType::Http,
        slot.fingerprint@,
        slot.sequence,
    ) {
        Some(i) => i.response == response_tree(status, headers, body),
        None => false,
    }
}

/// Takes a request as far as a store in memory can answer. A request that was
/// recorded is answered, in `Replay` and `Shadow` mode, with the recorded status
/// and with bytes from which the recorded body is read back.
pub fn run_in_memory<S>(store: &InMemoryStore, slot: &Option<InteractionSlot<S>>) -> (r: HttpStep)
    ensures
        r@ == destination(store@, *slot),
        forall|status: u16, headers: Seq<(Seq<char>, Seq<char>)>, body: Option<Seq<char>>|
            slot is Some && flow::plan_for(Some(slot->0.mode)) == CallPlan::Lookup
                && #[trigger] answered_by(store@, slot->0, status, headers, body) ==> {
                &&& r@ == HttpStepView::Respond(valid_status(status), body_bytes(body_tree(body)))
                &&& answers_with_body(r@, body_tree(body))
            },
{
    let r = match slot {
        None => start(None),
        Some(s) => match start(Some(s.mode)) {
            HttpStep::FindMatch => {
                let found = store.find_match(
                    s.record_id,
                    CallType::Http,
                    s.fingerprint.as_str(),
                    s.sequence,
                );
                match after_match(Ok(found)) {
                    HttpStep::FindNearest => after_nearest(
                        s.fingerprint.as_str(),
                        s.sequence,
                        Ok(
                            store.find_nearest(
                                s.record_id,
                                s.fingerprint.as_str(),
                                s.sequence,
                            ),
                        ),
                    ),
                    step => step,
                }
            },
            step => step,
        },
    };
    proof {
        assert forall|status: u16, headers: Seq<(Seq<char>, Seq<char>)>, body: Option<Seq<char>>|
            slot is Some && flow::plan_for(Some(slot->0.mode)) == CallPlan::Lookup
                && #[trigger] answered_by(store@, slot->0, status, headers, body) implies {
            &&& r@ == HttpStepView::Respond(valid_status(status), body_bytes(body_tree(body)))
            &&& answers_with_body(r@, body_tree(body))
        } by {
            lemma_replay_equals_recorded(status, headers, body);
        }
    }
    r
}

/// What the recording side answers and what a replay answers are the same
/// response.
pub proof fn lemma_replay_equals_recorded(
    status: u16,
    headers: Seq<(Seq<char>, Seq<char>)>,
    body: Option<Seq<char>>,
)
    ensures
        replay_status(response_tree(status, headers, body)) == status,
        recorded_body(response_tree(status, headers, body)) == body_tree(body),
        replayed(response_tree(status, headers, body)) == HttpStepView::Respond(
            valid_status(status),
            body_bytes(recorded_body(response_tree(status, headers, body))),
        ),
{
    let hs = JsonTree::Object(header_entries(headers, false));
    let st = JsonTree::Number(NumberView::Int(status as int));
    let all = seq![("status"@, st), ("headers"@, hs), ("body"@, body_tree(body))];
    let two = seq![("status"@, st), ("headers"@, hs)];
    let one = seq![("status"@, st)];
    assert(all.drop_last() =~= two);
    assert(two.drop_last() =~= one);
    reveal_strlit("status");
    reveal_strlit("headers");
    reveal_strlit("body");
    assert("status"@.len() == 6 && "headers"@.len() == 7 && "body"@.len() == 4);
    json::lemma_field_of_object(all, "status"@);
    json::lemma_field_of_object(two, "status"@);
    json::lemma_field_of_object(one, "status"@);
    json::lemma_field_of_object(all, "body"@);
    assert((status as u64) as u16 == status);
}

/// What was recorded is what is replayed: after a request was recorded, the
/// same slot in replay or shadow mode is answered with the recorded status and
/// body, unless the place in the recording was taken already. The request is not
/// sent. What [`run_in_memory`] says of the call that answers a slot then says
/// that the body is read back from the bytes of the answer.
pub proof fn lemma_http_round_trip<S>(
    log: Log,
    slot: InteractionSlot<S>,
    again: InteractionSlot<S>,
    id: RecordId,
    recorded_at: Timestamp,
    request: JsonTree,
    status: u16,
    headers: Seq<(Seq<char>, Seq<char>)>,
    body: Option<Seq<char>>,
    duration_ms: u64,
)
    requires
        again.mode == ReplayMode::Replay || again.mode == ReplayMode::Shadow,
        again.record_id == slot.record_id,
        again.sequence == slot.sequence,
        again.fingerprint@ == slot.fingerprint@,
        store::find_first(
            log,
            store::exactly(slot.record_id, CallType::Http, slot.fingerprint@, slot.sequence),
        ) is None,
    ensures
        ({
            let written = http_record(
                slot,
                id,
                recorded_at,
                request,
                response_tree(status, headers, body),
                status,
                duration_ms,
            );
            &&& flow::stored_call(
                log.push(written),
                slot.record_id,
                CallType::Http,
                slot.fingerprint@,
                slot.sequence,
            ) == Some(written)
            &&& answered_by(log.push(written), again, status, headers, body)
            &&& destination(log.push(written), Some(again)) == HttpStepView::Respond(
                valid_status(status),
                body_bytes(body_tree(body)),
            )
        }),
{
    flow::lemma_recorded_call_answers(
        log,
        http_record(
            slot,
            id,
            recorded_at,
            request,
            response_tree(status, headers, body),
            status,
            duration_ms,
        ),
    );
    lemma_replay_equals_recorded(status, headers, body);
}

/// The headers that are not redacted, in their order.
pub open spec fn open_headers(v: Seq<(Seq<char>, Seq<char>)>) -> Seq<(Seq<char>, Seq<char>)>
    decreases v.len(),
{
    if v.len() == 0 {
        Seq::empty()
    } else {
        let before = open_headers(v.drop_last());
        if redacted_headers().contains(v.last().0) {
            before
        } else {
            before.push(v.last())
        }
    }
}

/// Redacted headers leave no trace: two requests that differ in them alone are
/// recorded alike.
pub proof fn lemma_redacted_headers_leave_no_trace(
    method: Seq<char>,
    url: Seq<char>,
    a: Seq<(Seq<char>, Seq<char>)>,
    b: Seq<(Seq<char>, Seq<char>)>,
)
    requires
        open_headers(a) == open_headers(b),
    ensures
        request_tree(method, url, a) == request_tree(method, url, b),
{
    lemma_only_open_headers_count(a);
    lemma_only_open_headers_count(b);
}

proof fn lemma_only_open_headers_count(v: Seq<(Seq<char>, Seq<char>)>)
    ensures
        header_entries(v, true) == header_entries(open_headers(v), false),
    decreases v.len(),
{
    if v.len() > 0 {
        lemma_only_open_headers_count(v.drop_last());
        let before = open_headers(v.drop_last());
        assert(before.push(v.last()).drop_last() =~= before);
    }
}

/// No redacted header is ever recorded.
pub proof fn lemma_redacted_headers_are_not_recorded(
    headers: Seq<(Seq<char>, Seq<char>)>,
    name: Seq<char>,
)
    requires
        redacted_headers().contains(name),
    ensures
        json::value_at(header_entries(headers, true), name) is None,
    decreases headers.len(),
{
    if headers.len() > 0 {
        let front = headers.drop_last();
        lemma_redacted_headers_are_not_recorded(front, name);
        lemma_header_entries_ascend(front, true);
        if !redacted_headers().contains(headers.last().0) {
            json::lemma_entries_with(
                header_entries(front, true),
                headers.last().0,
                JsonTree::Text(headers.last().1),
            );
        }
    }
}

proof fn lemma_header_entries_ascend(headers: Seq<(Seq<char>, Seq<char>)>, redact: bool)
    ensures
        json::ascending(header_entries(headers, redact)),
    decreases headers.len(),
{
    if headers.len() > 0 {
        lemma_header_entries_ascend(headers.drop_last(), redact);
        json::lemma_entries_with(
            header_entries(headers.drop_last(), redact),
            headers.last().0,
            JsonTree::Text(headers.last().1),
        );
    }
}

/// The six headers that carry credentials or differ from request to request
/// are never recorded with a request.
pub proof fn lemma_credentials_are_left_out(
    method: Seq<char>,
    url: Seq<char>,
    headers: Seq<(Seq<char>, Seq<char>)>,
    name: Seq<char>,
)
    requires
        name == "authorization"@ || name == "x-api-key"@ || name == "stripe-signature"@ || name
            == "x-request-id"@ || name == "x-b3-traceid"@ || name == "x-b3-spanid"@,
    ensures
        json::member(request_tree(method, url, headers), "headers"@) matches Some(h)
            && json::member(h, name) is None,
{
    let all = redacted_headers();
    assert(all[0] == "authorization"@);
    assert(all[1] == "x-api-key"@);
    assert(all[2] == "stripe-signature"@);
    assert(all[3] == "x-request-id"@);
    assert(all[4] == "x-b3-traceid"@);
    assert(all[5] == "x-b3-spanid"@);
    assert(all.contains(name));
    lemma_redacted_headers_are_not_recorded(headers, name);
    lemma_recorded_request(method, url, headers);
}

/// Every other header is recorded with a request, and every header with a
/// response: by its name, and the last one of that name.
pub proof fn lemma_other_headers_are_recorded(
    before: Seq<(Seq<char>, Seq<char>)>,
    name: Seq<char>,
    value: Seq<char>,
    after: Seq<(Seq<char>, Seq<char>)>,
    redact: bool,
)
    requires
        redact ==> name != "authorization"@ && name != "x-api-key"@ && name != "stripe-signature"@
            && name != "x-request-id"@ && name != "x-b3-traceid"@ && name != "x-b3-spanid"@,
        forall|i: int| 0 <= i < after.len() ==> (#[trigger] after[i]).0 != name,
    ensures
        json::value_at(header_entries(before.push((name, value)) + after, redact), name) == Some(
            JsonTree::Text(value),
        ),
    decreases after.len(),
{
    let all = before.push((name, value)) + after;
    let front = all.drop_last();
    lemma_header_entries_ascend(front, redact);
    json::lemma_entries_with(
        header_entries(front, redact),
        all.last().0,
        JsonTree::Text(all.last().1),
    );
    if after.len() == 0 {
        assert(all =~= before.push((name, value)));
        let r = redacted_headers();
        assert(r.len() == 6 && r[0] == "authorization"@ && r[1] == "x-api-key"@ && r[2]
            == "stripe-signature"@ && r[3] == "x-request-id"@ && r[4] == "x-b3-traceid"@ && r[5]
            == "x-b3-spanid"@);
        if redact && r.contains(name) {
            let j = choose|j: int| 0 <= j < r.len() && r[j] == name;
            assert(r[j] == name);
        }
    } else {
        let rest = after.drop_last();
        assert(front =~= before.push((name, value)) + rest);
        assert(all.last() == after[after.len() - 1]);
        assert forall|i: int| 0 <= i < rest.len() implies (#[trigger] rest[i]).0 != name by {
            assert(rest[i] == after[i]);
        }
        lemma_other_headers_are_recorded(before, name, value, rest, redact);
    }
}

/// A recorded request holds its method, its address and its headers.
pub proof fn lemma_recorded_request(
    method: Seq<char>,
    url: Seq<char>,
    headers: Seq<(Seq<char>, Seq<char>)>,
)
    ensures
        json::member(request_tree(method, url, headers), "method"@) == Some(JsonTree::Text(method)),
        json::member(request_tree(method, url, headers), "url"@) == Some(JsonTree::Text(url)),
        json::member(request_tree(method, url, headers), "headers"@) == Some(
            JsonTree::Object(header_entries(headers, true)),
        ),
{
    let hs = JsonTree::Object(header_entries(headers, true));
    let all = seq![
        ("method"@, JsonTree::Text(method)),
        ("url"@, JsonTree::Text(url)),
        ("headers"@, hs),
    ];
    reveal_strlit("method");
    reveal_strlit("url");
    reveal_strlit("headers");
    reveal_strlit("");
    assert("method"@.len() == 6 && "url"@.len() == 3 && "headers"@.len() == 7);
    json::lemma_fields_are_found(all, 0, ""@);
    json::lemma_fields_are_found(all, 1, ""@);
    json::lemma_fields_are_found(all, 2, ""@);
}

/// A recorded response holds its status, its headers and its body: the value
/// that the body is in JSON, or else its text, or `null` without a body.
pub proof fn lemma_recorded_response(
    status: u16,
    headers: Seq<(Seq<char>, Seq<char>)>,
    s: Seq<char>,
)
    ensures
        ({
            let r = response_tree(status, headers, Some(s));
            &&& json::member(r, "status"@) == Some(
                JsonTree::Number(NumberView::Int(status as int)),
            )
            &&& json::member(r, "headers"@) == Some(
                JsonTree::Object(header_entries(headers, false)),
            )
            &&& json_codec::parsed(s) is None ==> json::member(r, "body"@) == Some(
                JsonTree::Text(s),
            )
            &&& json_codec::parsed(s) is Some ==> json::member(r, "body"@)
                == json_codec::parsed(s)
        }),
        json::member(response_tree(status, headers, None), "body"@) == Some(JsonTree::Null),
{
    reveal_strlit("status");
    reveal_strlit("headers");
    reveal_strlit("body");
    reveal_strlit("");
    assert("status"@.len() == 6 && "headers"@.len() == 7 && "body"@.len() == 4);
    let st = JsonTree::Number(NumberView::Int(status as int));
    let hs = JsonTree::Object(header_entries(headers, false));
    let a = seq![("status"@, st), ("headers"@, hs), ("body"@, body_tree(Some(s)))];
    let b = seq![("status"@, st), ("headers"@, hs), ("body"@, body_tree(None))];
    json::lemma_fields_are_found(a, 0, ""@);
    json::lemma_fields_are_found(a, 1, ""@);
    json::lemma_fields_are_found(a, 2, ""@);
    json::lemma_fields_are_found(b, 2, ""@);
}

/// A body that is no JSON is replayed byte for byte.
pub proof fn lemma_plain_body_is_replayed(
    status: u16,
    headers: Seq<(Seq<char>, Seq<char>)>,
    s: Seq<char>,
)
    requires
        json_codec::parsed(s) is None,
        100 <= status <= 999,
    ensures
        replayed(response_tree(status, headers, Some(s))) == HttpStepView::Respond(
            status,
            vstd::utf8::encode_utf8(s),
        ),
{
    lemma_replay_equals_recorded(status, headers, Some(s));
}

/// A recorded response without a status is replayed as a success, and so is
/// one whose status is no code of three digits.
pub proof fn lemma_status_of_a_replay(response: JsonTree, n: u16)
    ensures
        json::member(response, "status"@) is None ==> valid_status(replay_status(response)) == 200,
        json::member(response, "status"@) == Some(JsonTree::Number(NumberView::Int(n as int)))
            ==> valid_status(replay_status(response)) == (if n < 100 || n > 999 {
            200
        } else {
            n as int
        }),
{
    assert((n as u64) as u16 == n);
}

/// Where a request ends up, by its mode: it is sent without a context and in
/// `Off` and `Passthrough` mode, sent and recorded in `Record` mode, and
/// answered or refused in `Replay` and `Shadow` mode. It is refused if nothing
/// in the recording has its fingerprint.
pub proof fn lemma_where_a_request_ends<S>(log: Log, slot: InteractionSlot<S>)
    ensures
        destination::<S>(log, None) == HttpStepView::Forward,
        slot.mode == ReplayMode::Off || slot.mode == ReplayMode::Passthrough ==> destination(
            log,
            Some(slot),
        ) == HttpStepView::Forward,
        slot.mode == ReplayMode::Record ==> destination(log, Some(slot))
            == HttpStepView::ForwardAndRecord,
        slot.mode == ReplayMode::Replay || slot.mode == ReplayMode::Shadow ==> {
            let d = destination(log, Some(slot));
            &&& d is Respond || d is Fail
            &&& d is Fail <==> forall|k: int|
                0 <= k < log.len() ==> (#[trigger] log[k]).record_id != slot.record_id
                    || log[k].fingerprint != slot.fingerprint@
        },
{
    if slot.mode == ReplayMode::Replay || slot.mode == ReplayMode::Shadow {
        let none = forall|k: int|
            0 <= k < log.len() ==> (#[trigger] log[k]).record_id != slot.record_id
                || log[k].fingerprint != slot.fingerprint@;
        if none {
            flow::lemma_what_answers(
                log,
                slot.record_id,
                CallType::Http,
                slot.fingerprint@,
                slot.sequence,
                0,
            );
        } else {
            let k = choose|k: int|
                0 <= k < log.len() && (#[trigger] log[k]).record_id == slot.record_id
                    && log[k].fingerprint == slot.fingerprint@;
            flow::lemma_what_answers(
                log,
                slot.record_id,
                CallType::Http,
                slot.fingerprint@,
                slot.sequence,
                k,
            );
        }
    }
}

/// What is recorded of a request is an HTTP call, failed exactly if its status
/// is 500 or more.
pub proof fn lemma_http_record<S>(
    slot: InteractionSlot<S>,
    id: RecordId,
    recorded_at: Timestamp,
    request: JsonTree,
    response: JsonTree,
    status_code: u16,
    duration_ms: u64,
)
    ensures
        ({
            let r = http_record(
                slot,
                id,
                recorded_at,
                request,
                response,
                status_code,
                duration_ms,
            );
            &&& r.call_type == CallType::Http
            &&& r.request == request && r.response == response && r.duration_ms == duration_ms
            &&& r.record_id == slot.record_id && r.sequence == slot.sequence
            &&& r.fingerprint == slot.fingerprint@
            &&& r.service_name == slot.service_name@ && r.tag == slot.tag@
            &&& status_code >= 500 ==> r.status == CallStatus::Error
            &&& status_code < 500 ==> r.status == CallStatus::Completed
        }),
{
}

/// What a request does, by its mode and by what the store says: it is sent
/// without a context and in `Off` and `Passthrough` mode, sent and recorded in
/// `Record` mode, and looked up in `Replay` and `Shadow` mode, where it is
/// answered with what was recorded, or fails by its fingerprint.
pub proof fn lemma_what_a_request_does(
    mode: Option<ReplayMode>,
    fingerprint: Seq<char>,
    sequence: u32,
    i: Interaction,
    e: StoreError,
    status: u16,
    headers: Seq<(Seq<char>, Seq<char>)>,
    body: Option<Seq<char>>,
)
    ensures
        first_step(mode) is ForwardAndRecord <==> mode == Some(ReplayMode::Record),
        first_step(mode) is FindMatch <==> mode == Some(ReplayMode::Replay) || mode == Some(
            ReplayMode::Shadow,
        ),
        first_step(mode) is Forward <==> mode is None || mode == Some(ReplayMode::Off) || mode
            == Some(ReplayMode::Passthrough),
        match_step(Ok(None)) is FindNearest,
        match_step(Err(e)) == HttpStepView::Fail(store::store_error_text(e)),
        nearest_step(fingerprint, sequence, Err(e)) == HttpStepView::Fail(
            store::store_error_text(e),
        ),
        nearest_step(fingerprint, sequence, Ok(None)) matches HttpStepView::Fail(s)
            && text::has_text(s, fingerprint) && text::has_suffix(
            s,
            text::decimal(sequence as nat),
        ),
        100 <= status <= 999 && i.response@ == response_tree(status, headers, body) ==> match_step(
            Ok(Some(i)),
        ) == HttpStepView::Respond(status, body_bytes(body_tree(body))) && nearest_step(
            fingerprint,
            sequence,
            Ok(Some(i)),
        ) == HttpStepView::Respond(status, body_bytes(body_tree(body))),
{
    lemma_replay_equals_recorded(status, headers, body);
    let a = "ditto: no recorded response for "@;
    let d = text::decimal(sequence as nat);
    let s = not_recorded(fingerprint, sequence);
    text::lemma_has_text_between(a, fingerprint, " seq="@ + d);
    assert(s =~= a + fingerprint + (" seq="@ + d));
    assert(s.subrange(s.len() - d.len(), s.len() as int) =~= d);
}

/// A body that is JSON is replayed as its compact text, unless it is a text,
/// which is replayed without quotes.
pub proof fn lemma_json_body_is_replayed(
    status: u16,
    headers: Seq<(Seq<char>, Seq<char>)>,
    s: Seq<char>,
    t: JsonTree,
    inner: Seq<char>,
)
    requires
        100 <= status <= 999,
        json_codec::parsed(s) == Some(t),
    ensures
        !(t is Text) ==> replayed(response_tree(status, headers, Some(s)))
            == HttpStepView::Respond(
            status,
            vstd::utf8::encode_utf8(json_codec::compact(t)),
        ),
        t == JsonTree::Text(inner) ==> replayed(response_tree(status, headers, Some(s)))
            == HttpStepView::Respond(status, vstd::utf8::encode_utf8(inner)),
{
    lemma_replay_equals_recorded(status, headers, Some(s));
}

/// A recorded response without a body is itself the body.
pub proof fn lemma_response_without_body(response: JsonTree)
    requires
        json::member(response, "body"@) is None,
        !(response is Text),
    ensures
        replayed(response) matches HttpStepView::Respond(_, bytes) && bytes
            == vstd::utf8::encode_utf8(json_codec::compact(response)),
{
}

} // verus!
