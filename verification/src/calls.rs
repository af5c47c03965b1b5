//! Calls of annotated functions.
use crate::context;
use crate::context::{hand_on, InteractionSlot};
use crate::flow;
use crate::ids;
use crate::ids::{fresh_id, now, RecordId, Timestamp};
use crate::interaction::{Interaction, InteractionView};
use crate::json::{JsonTree, JsonValue};
use crate::memory;
use crate::memory::InMemoryStore;
use crate::store;
use crate::store::Log;
use crate::types::{CallStatus, CallType, ReplayMode};
use vstd::prelude::*;

verus! {

/// The recording that a function call is written to: in `Shadow` mode the
/// capture, if there is one, and the recording itself otherwise.
pub open spec fn target<S>(slot: InteractionSlot<S>) -> RecordId {
    if slot.mode == ReplayMode::Shadow && slot.capture_id is Some {
        slot.capture_id->0
    } else {
        slot.record_id
    }
}

/// What is recorded of a function call.
pub open spec fn fn_call<S>(
    slot: InteractionSlot<S>,
    id: RecordId,
    recorded_at: Timestamp,
    request: JsonTree,
    response: JsonTree,
    duration_ms: u64,
) -> InteractionView {
    InteractionView {
        record_id: target(slot),
        ..flow::slot_call(
            slot,
            id,
            recorded_at,
            slot.call_type,
            request,
            response,
            duration_ms,
            CallStatus::Completed,
            slot.service_name@,
            slot.tag@,
        )
    }
}

/// What to record of a function call, and the store to write it to: that of
/// the slot, or else the process-wide one. Without a store there is nothing to
/// do.
pub fn record_fn_call<S: Clone>(
    slot: &InteractionSlot<S>,
    global: Option<&S>,
    request: JsonValue,
    response: JsonValue,
    duration_ms: u64,
) -> (r: Option<(S, Interaction)>)
    ensures
        match (context::effective(slot.store, context::referent(global)), r) {
            (Some(s), Some((handle, i))) => {
                &&& cloned(s, handle)
                &&& i@ == fn_call(*slot, i.id, i.recorded_at, request@, response@, duration_ms)
                &&& ids::random_id(i.id)
            },
            (None, None) => true,
            _ => false,
        },
{
    let own = match &slot.store {
        Some(s) => Some(s),
        None => global,
    };
    match hand_on(own) {
        Some(s) => Some(
            (s, fn_call_at(slot, fresh_id(), now(), request, response, duration_ms)),
        ),
        None => None,
    }
}

/// What to record of a function call.
pub fn fn_call_at<S>(
    slot: &InteractionSlot<S>,
    id: RecordId,
    recorded_at: Timestamp,
    request: JsonValue,
    response: JsonValue,
    duration_ms: u64,
) -> (r: Interaction)
    ensures
        r@ == fn_call(*slot, id, recorded_at, request@, response@, duration_ms),
{
    let record_id: RecordId = if slot.mode == ReplayMode::Shadow {
        match slot.capture_id {
            Some(c) => c,
            None => slot.record_id,
        }
    } else {
        slot.record_id
    };
    Interaction {
        id,
        record_id,
        parent_id: None,
        sequence: slot.sequence,
        call_type: slot.call_type,
        fingerprint: slot.fingerprint.clone(),
        request,
        response,
        duration_ms,
        status: CallStatus::Completed,
        error: None,
        recorded_at,
        build_hash: slot.build_hash.clone(),
        service_name: slot.service_name.clone(),
        tag: slot.tag.clone(),
    }
}

/// The store to ask for the recorded result of a function call; `None` if
/// there is no store, and hence no result.
pub fn replay_fn_call<S: Clone>(slot: &InteractionSlot<S>, global: Option<&S>) -> (r: Option<S>)
    ensures
        context::handed_on(context::effective(slot.store, context::referent(global)), r),
{
    match &slot.store {
        Some(s) => hand_on(Some(s)),
        None => hand_on(global),
    }
}

/// The recorded result of a function call, from a store in memory.
pub fn replay_in_memory<S>(store: &InMemoryStore, slot: &InteractionSlot<S>) -> (r: Option<
    JsonValue,
>)
    ensures
        match memory::fn_response(store@, slot.record_id, slot.fingerprint@, slot.sequence) {
            Some(t) => r is Some && r->0@ == t,
            None => r is None,
        },
{
    store.load_fn_response(slot.record_id, slot.fingerprint.as_str(), slot.sequence)
}

/// A function call that was recorded is what its slot replays, unless the
/// place in the recording was taken already.
pub proof fn lemma_fn_call_round_trip<S>(
    log: Log,
    slot: InteractionSlot<S>,
    id: RecordId,
    recorded_at: Timestamp,
    request: JsonTree,
    response: JsonTree,
    duration_ms: u64,
)
    requires
        slot.call_type == CallType::Function,
        slot.mode != ReplayMode::Shadow,
        store::find_first(
            log,
            store::exactly(
                slot.record_id,
                CallType::Function,
                slot.fingerprint@,
                slot.sequence,
            ),
        ) is None,
    ensures
        memory::fn_response(
            log.push(fn_call(slot, id, recorded_at, request, response, duration_ms)),
            slot.record_id,
            slot.fingerprint@,
            slot.sequence,
        ) == Some(response),
{
    memory::lemma_function_call_is_replayed(
        log,
        fn_call(slot, id, recorded_at, request, response, duration_ms),
    );
}

/// A shadow run leaves the recording as it is: what it writes goes to its
/// capture.
pub proof fn lemma_shadow_keeps_recording<S>(
    log: Log,
    slot: InteractionSlot<S>,
    id: RecordId,
    recorded_at: Timestamp,
    request: JsonTree,
    response: JsonTree,
    duration_ms: u64,
)
    requires
        slot.mode == ReplayMode::Shadow,
        slot.capture_id is Some,
        slot.capture_id->0 != slot.record_id,
    ensures
        memory::recording(
            log.push(fn_call(slot, id, recorded_at, request, response, duration_ms)),
            slot.record_id,
        ) == memory::recording(log, slot.record_id),
        memory::of_record(
            log.push(fn_call(slot, id, recorded_at, request, response, duration_ms)),
            slot.capture_id->0,
        ) == memory::of_record(log, slot.capture_id->0).push(
            fn_call(slot, id, recorded_at, request, response, duration_ms),
        ),
{
    memory::lemma_write_is_isolated(
        log,
        fn_call(slot, id, recorded_at, request, response, duration_ms),
        slot.record_id,
    );
}

/// The record of a function call holds its arguments, its result and its time,
/// at the place of its slot, and is a completed call. Only a shadow run with a
/// capture writes elsewhere than to the recording.
pub proof fn lemma_record_of_a_function_call<S>(
    slot: InteractionSlot<S>,
    id: RecordId,
    recorded_at: Timestamp,
    request: JsonTree,
    response: JsonTree,
    duration_ms: u64,
)
    ensures
        ({
            let r = fn_call(slot, id, recorded_at, request, response, duration_ms);
            &&& r.id == id && r.recorded_at == recorded_at && r.call_type == slot.call_type
            &&& r.request == request && r.response == response
            &&& r.duration_ms == duration_ms && r.status == CallStatus::Completed
            &&& r.sequence == slot.sequence && r.fingerprint == slot.fingerprint@
            &&& r.build_hash == slot.build_hash@
            &&& r.service_name == slot.service_name@ && r.tag == slot.tag@
            &&& r.parent_id is None && r.error is None
            &&& slot.mode != ReplayMode::Shadow || slot.capture_id is None ==> r.record_id
                == slot.record_id
            &&& slot.mode == ReplayMode::Shadow ==> (slot.capture_id matches Some(c) ==> r.record_id
                == c)
        }),
{
}

} // verus!
