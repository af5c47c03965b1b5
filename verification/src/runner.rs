//! The life of a call through a custom interceptor.
//!
//! [`start`] says what to do first. Whoever drives the call does it, and hands
//! what came of it to [`after_match`], [`after_nearest`] or [`record`].
use crate::context::InteractionSlot;
use crate::flow;
use crate::flow::{plan, record_call, CallPlan};
use crate::ids;
use crate::ids::{fresh_id, now, RecordId, Timestamp};
use crate::interaction::{Interaction, InteractionView};
use crate::json::{JsonTree, JsonValue};
use crate::memory::InMemoryStore;
use crate::store;
use crate::store::{Log, StoreError};
use crate::text;
use crate::text::{concat, decimal_text};
use crate::types::{CallStatus, CallType, ReplayMode};
use vstd::prelude::*;
use vstd::string::*;

verus! {

/// Why a call could not be replayed.
#[derive(Debug, PartialEq)]
pub enum ReplayError {
    NotFound { fingerprint: String, sequence: u32 },
    Store(String),
    Deserialize(String),
}

/// What a [`ReplayError`] is.
pub enum ErrorView {
    NotFound { fingerprint: Seq<char>, sequence: u32 },
    Store(Seq<char>),
    Deserialize(Seq<char>),
}

impl View for ReplayError {
    type V = ErrorView;

    open spec fn view(&self) -> ErrorView {
        match *self {
            ReplayError::NotFound { fingerprint, sequence } => ErrorView::NotFound {
                fingerprint: fingerprint@,
                sequence,
            },
            ReplayError::Store(s) => ErrorView::Store(s@),
            ReplayError::Deserialize(s) => ErrorView::Deserialize(s@),
        }
    }
}

/// The message of an error.
pub open spec fn error_text(e: ErrorView) -> Seq<char> {
    match e {
        ErrorView::NotFound { fingerprint, sequence } =>
            "replay: no stored interaction for fingerprint=`"@ + fingerprint + "` seq="@
                + text::decimal(sequence as nat),
        ErrorView::Store(s) => "replay: store error: "@ + s,
        ErrorView::Deserialize(s) => "replay: failed to deserialize stored response: "@ + s,
    }
}

impl ReplayError {
    /// The message for people.
    pub fn message(&self) -> (r: String)
        ensures
            r@ == error_text(self@),
    {
        match self {
            ReplayError::NotFound { fingerprint, sequence } => {
                let mut s = concat(
                    "replay: no stored interaction for fingerprint=`",
                    fingerprint.as_str(),
                );
                s.append("` seq=");
                s.append(decimal_text(*sequence as u64).as_str());
                s
            },
            ReplayError::Store(s) => concat("replay: store error: ", s.as_str()),
            ReplayError::Deserialize(s) => concat(
                "replay: failed to deserialize stored response: ",
                s.as_str(),
            ),
        }
    }
}

/// What to do next with a call.
#[derive(Debug, PartialEq)]
pub enum RunStep {
    /// Make the call; its result is the answer.
    Execute,
    /// Make the call; its result is the answer, and if it succeeded it is
    /// recorded. A failure to write is no failure of the call.
    ExecuteAndRecord,
    /// Ask the store for the call at its exact place.
    FindMatch,
    /// Ask the store for the nearest call with the fingerprint.
    FindNearest,
    /// Answer with this recorded response.
    Answer(JsonValue),
    /// Fail.
    Fail(ReplayError),
}

/// What a [`RunStep`] is.
pub enum StepView {
    Execute,
    ExecuteAndRecord,
    FindMatch,
    FindNearest,
    Answer(JsonTree),
    Fail(ErrorView),
}

impl View for RunStep {
    type V = StepView;

    open spec fn view(&self) -> StepView {
        match *self {
            RunStep::Execute => StepView::Execute,
            RunStep::ExecuteAndRecord => StepView::ExecuteAndRecord,
            RunStep::FindMatch => StepView::FindMatch,
            RunStep::FindNearest => StepView::FindNearest,
            RunStep::Answer(v) => StepView::Answer(v@),
            RunStep::Fail(e) => StepView::Fail(e@),
        }
    }
}

/// The first step of a call.
pub open spec fn first_step(mode: Option<ReplayMode>) -> StepView {
    match flow::plan_for(mode) {
        CallPlan::Forward => StepView::Execute,
        CallPlan::Record => StepView::ExecuteAndRecord,
        CallPlan::Lookup => StepView::FindMatch,
    }
}

/// The step after the store was asked for the exact place.
pub open spec fn match_step(found: Result<Option<Interaction>, StoreError>) -> StepView {
    match found {
        Ok(Some(i)) => StepView::Answer(i.response@),
        Ok(None) => StepView::FindNearest,
        Err(e) => StepView::Fail(ErrorView::Store(store::store_error_text(e))),
    }
}

/// The step after the store was asked for the nearest call.
pub open spec fn nearest_step(
    fingerprint: Seq<char>,
    sequence: u32,
    found: Result<Option<Interaction>, StoreError>,
) -> StepView {
    match found {
        Ok(Some(i)) => StepView::Answer(i.response@),
        Ok(None) => StepView::Fail(ErrorView::NotFound { fingerprint, sequence }),
        Err(e) => StepView::Fail(ErrorView::Store(store::store_error_text(e))),
    }
}

/// The first step of a call in the given mode; there is no mode outside a
/// context.
pub fn start(mode: Option<ReplayMode>) -> (r: RunStep)
    ensures
        r@ == first_step(mode),
{
    match plan(mode) {
        CallPlan::Forward => RunStep::Execute,
        CallPlan::Record => RunStep::ExecuteAndRecord,
        CallPlan::Lookup => RunStep::FindMatch,
    }
}

/// The step after the store was asked for the exact place.
pub fn after_match(found: Result<Option<Interaction>, StoreError>) -> (r: RunStep)
    ensures
        r@ == match_step(found),
{
    match found {
        Ok(Some(i)) => RunStep::Answer(i.response),
        Ok(None) => RunStep::FindNearest,
        Err(e) => RunStep::Fail(ReplayError::Store(e.message())),
    }
}

/// The step after the store was asked for the nearest call.
pub fn after_nearest<S>(
    slot: &InteractionSlot<S>,
    found: Result<Option<Interaction>, StoreError>,
) -> (r: RunStep)
    ensures
        r@ == nearest_step(slot.fingerprint@, slot.sequence, found),
{
    match found {
        Ok(Some(i)) => RunStep::Answer(i.response),
        Ok(None) => RunStep::Fail(
            ReplayError::NotFound {
                fingerprint: slot.fingerprint.clone(),
                sequence: slot.sequence,
            },
        ),
        Err(e) => RunStep::Fail(ReplayError::Store(e.message())),
    }
}

/// Whether a call that was made is to be recorded: only in `Record` mode, and
/// only if it succeeded.
pub open spec fn kept(step: StepView, succeeded: bool) -> bool {
    step is ExecuteAndRecord && succeeded
}

/// Whether a call that was made is to be recorded.
pub fn keeps(step: &RunStep, succeeded: bool) -> (r: bool)
    ensures
        r == kept(step@, succeeded),
{
    match step {
        RunStep::ExecuteAndRecord => succeeded,
        _ => false,
    }
}

/// The result of a recorded call once it was written, and a warning if the
/// store failed: a failed write changes nothing of the result.
pub fn after_write<T, E>(result: Result<T, E>, written: Result<(), StoreError>) -> (r: (
    Result<T, E>,
    Option<String>,
))
    ensures
        r.0 == result,
        match written {
            Ok(_) => r.1 is None,
            Err(e) => r.1 is Some && r.1->0@ == "[ditto WARN] runner: store write failed: "@
                + store::store_error_text(e),
        },
{
    match written {
        Ok(_) => (result, None),
        Err(e) => (
            result,
            Some(
                concat("[ditto WARN] runner: store write failed: ", e.message().as_str()),
            ),
        ),
    }
}

/// What is recorded of a call that succeeded.
pub open spec fn run_record<S>(
    slot: InteractionSlot<S>,
    id: RecordId,
    recorded_at: Timestamp,
    call_type: CallType,
    request: JsonTree,
    response: JsonTree,
    duration_ms: u64,
) -> InteractionView {
    flow::slot_call(
        slot,
        id,
        recorded_at,
        call_type,
        request,
        response,
        duration_ms,
        CallStatus::Completed,
        Seq::empty(),
        Seq::empty(),
    )
}

/// What to record of a call that succeeded, under a fresh identifier and the
/// present time.
pub fn record<S>(
    slot: &InteractionSlot<S>,
    call_type: CallType,
    request: JsonValue,
    response: JsonValue,
    duration_ms: u64,
) -> (r: Interaction)
    ensures
        r@ == run_record(
            *slot,
            r.id,
            r.recorded_at,
            call_type,
            request@,
            response@,
            duration_ms,
        ),
        ids::random_id(r.id),
{
    record_at(slot, fresh_id(), now(), call_type, request, response, duration_ms)
}

/// What to record of a call that succeeded.
pub fn record_at<S>(
    slot: &InteractionSlot<S>,
    id: RecordId,
    recorded_at: Timestamp,
    call_type: CallType,
    request: JsonValue,
    response: JsonValue,
    duration_ms: u64,
) -> (r: Interaction)
    ensures
        r@ == run_record(
            *slot,
            id,
            recorded_at,
            call_type,
            request@,
            response@,
            duration_ms,
        ),
{
    record_call(
        slot,
        id,
        recorded_at,
        call_type,
        request,
        response,
        duration_ms,
        CallStatus::Completed,
        String::new(),
        String::new(),
    )
}

/// Where a call ends up with a store in memory: the call is made, or it is
/// answered, or it fails for want of a recording.
pub open spec fn destination<S>(
    log: Log,
    slot: Option<InteractionSlot<S>>,
    call_type: CallType,
) -> StepView {
    match slot {
        None => StepView::Execute,
        Some(s) => match flow::plan_for(Some(s.mode)) {
            CallPlan::Forward => StepView::Execute,
            CallPlan::Record => StepView::ExecuteAndRecord,
            CallPlan::Lookup => match flow::stored_call(
                log,
                s.record_id,
                call_type,
                s.fingerprint@,
                s.sequence,
            ) {
                Some(i) => StepView::Answer(i.response),
                None => StepView::Fail(
                    ErrorView::NotFound { fingerprint: s.fingerprint@, sequence: s.sequence },
                ),
            },
        },
    }
}

/// Takes a call as far as a store in memory can answer.
pub fn run_in_memory<S>(
    store: &InMemoryStore,
    slot: &Option<InteractionSlot<S>>,
    call_type: CallType,
) -> (r: RunStep)
    ensures
        r@ == destination(store@, *slot, call_type),
{
    match slot {
        None => start(None),
        Some(s) => {
            let first = start(Some(s.mode));
            match first {
                RunStep::FindMatch => {
                    let second = after_match(
                        Ok(
                            store.find_match(
                                s.record_id,
                                call_type,
                                s.fingerprint.as_str(),
                                s.sequence,
                            ),
                        ),
                    );
                    match second {
                        RunStep::FindNearest => after_nearest(
                            s,
                            Ok(
                                store.find_nearest(
                                    s.record_id,
                                    s.fingerprint.as_str(),
                                    s.sequence,
                                ),
                            ),
                        ),
                        step => step,
                    }
                },
                step => step,
            }
        },
    }
}

/// What a run does, by its mode: the call is made without a context and in
/// `Record`, `Passthrough` and `Off` mode, and never in `Replay` or `Shadow`
/// mode, where alone the store is read; it is written to only in `Record` mode
/// and only after a call that succeeded. No later step of a replay makes or
/// records the call.
pub proof fn lemma_what_a_run_does(
    mode: Option<ReplayMode>,
    succeeded: bool,
    matched: Result<Option<Interaction>, StoreError>,
    near: Result<Option<Interaction>, StoreError>,
    fingerprint: Seq<char>,
    sequence: u32,
)
    ensures
        first_step(mode) is Execute || first_step(mode) is ExecuteAndRecord <==> !(mode == Some(
            ReplayMode::Replay,
        ) || mode == Some(ReplayMode::Shadow)),
        first_step(mode) is FindMatch <==> mode == Some(ReplayMode::Replay) || mode == Some(
            ReplayMode::Shadow,
        ),
        kept(first_step(mode), succeeded) <==> mode == Some(ReplayMode::Record) && succeeded,
        ({
            let step = match_step(matched);
            &&& step is Answer || step is FindNearest || step is Fail
            &&& !kept(step, succeeded)
        }),
        ({
            let step = nearest_step(fingerprint, sequence, near);
            &&& step is Answer || step is Fail
            &&& !kept(step, succeeded)
        }),
{
}

/// A call that is to be answered from a recording is never made.
pub proof fn lemma_replay_never_executes<S>(
    log: Log,
    slot: InteractionSlot<S>,
    call_type: CallType,
)
    requires
        slot.mode == ReplayMode::Replay || slot.mode == ReplayMode::Shadow,
    ensures
        destination(log, Some(slot), call_type) is Answer || destination(
            log,
            Some(slot),
            call_type,
        ) is Fail,
{
}

/// What was recorded is what is replayed: after a call was recorded, the same
/// slot in replay or shadow mode is answered with the recorded response,
/// unless the place in the recording was taken already.
pub proof fn lemma_replay_returns_recorded<S>(
    log: Log,
    slot: InteractionSlot<S>,
    again: InteractionSlot<S>,
    id: RecordId,
    recorded_at: Timestamp,
    call_type: CallType,
    request: JsonTree,
    response: JsonTree,
    duration_ms: u64,
)
    requires
        again.mode == ReplayMode::Replay || again.mode == ReplayMode::Shadow,
        again.record_id == slot.record_id,
        again.sequence == slot.sequence,
        again.fingerprint@ == slot.fingerprint@,
        store::find_first(
            log,
            store::exactly(slot.record_id, call_type, slot.fingerprint@, slot.sequence),
        ) is None,
    ensures
        destination(
            log.push(
                run_record(slot, id, recorded_at, call_type, request, response, duration_ms),
            ),
            Some(again),
            call_type,
        ) == StepView::Answer(response),
{
    flow::lemma_recorded_call_answers(
        log,
        run_record(slot, id, recorded_at, call_type, request, response, duration_ms),
    );
}

/// What the store says decides: a recorded call is answered with its response,
/// a store that failed fails the call, and a call that was not recorded is
/// looked for once more and then fails by its fingerprint and its place.
pub proof fn lemma_what_the_store_says(
    fingerprint: Seq<char>,
    sequence: u32,
    i: Interaction,
    e: StoreError,
)
    ensures
        match_step(Ok(Some(i))) == StepView::Answer(i.response@),
        nearest_step(fingerprint, sequence, Ok(Some(i))) == StepView::Answer(i.response@),
        match_step(Ok(None)) is FindNearest,
        nearest_step(fingerprint, sequence, Ok(None)) matches StepView::Fail(
            ErrorView::NotFound { fingerprint: f, sequence: s },
        ) && f == fingerprint && s == sequence,
        match_step(Err(e)) matches StepView::Fail(ErrorView::Store(m)) && m
            == store::store_error_text(e),
        nearest_step(fingerprint, sequence, Err(e)) matches StepView::Fail(ErrorView::Store(m))
            && m == store::store_error_text(e),
{
}

/// The message of an error names what it is about.
pub proof fn lemma_error_names_its_cause(s: Seq<char>, sequence: u32)
    ensures
        text::has_text(error_text(ErrorView::NotFound { fingerprint: s, sequence }), s),
        text::has_suffix(
            error_text(ErrorView::NotFound { fingerprint: s, sequence }),
            text::decimal(sequence as nat),
        ),
        text::has_suffix(error_text(ErrorView::Store(s)), s),
        text::has_suffix(error_text(ErrorView::Deserialize(s)), s),
{
    let a = "replay: no stored interaction for fingerprint=`"@;
    let d = text::decimal(sequence as nat);
    let all = error_text(ErrorView::NotFound { fingerprint: s, sequence });
    text::lemma_has_text_between(a, s, "` seq="@ + d);
    assert(all =~= a + s + ("` seq="@ + d));
    assert(all.subrange(all.len() - d.len(), all.len() as int) =~= d);
    let b = "replay: store error: "@ + s;
    let c = "replay: failed to deserialize stored response: "@ + s;
    assert(b.subrange(b.len() - s.len(), b.len() as int) =~= s);
    assert(c.subrange(c.len() - s.len(), c.len() as int) =~= s);
}

/// What is recorded of a call that succeeded is a completed call of its kind,
/// at the place of its slot, with the request and the response that it was
/// given.
pub proof fn lemma_record_of_a_run<S>(
    slot: InteractionSlot<S>,
    id: RecordId,
    recorded_at: Timestamp,
    call_type: CallType,
    request: JsonTree,
    response: JsonTree,
    duration_ms: u64,
)
    ensures
        ({
            let r = run_record(
                slot,
                id,
                recorded_at,
                call_type,
                request,
                response,
                duration_ms,
            );
            &&& r.call_type == call_type && r.status == CallStatus::Completed
            &&& r.record_id == slot.record_id && r.sequence == slot.sequence
            &&& r.fingerprint == slot.fingerprint@ && r.duration_ms == duration_ms
            &&& r.request == request && r.response == response
        }),
{
}

} // verus!
