//! Decisions that all interceptors share: what to do with a call, what to
//! write of it, and what a recording answers for it.
use crate::context::InteractionSlot;
use crate::ids::{RecordId, Timestamp};
use crate::interaction::{Interaction, InteractionView};
use crate::json::{JsonTree, JsonValue};
use crate::memory;
use crate::memory::InMemoryStore;
use crate::store;
use crate::store::{Log, StoreError};
use crate::types::{CallStatus, CallType, ReplayMode};
use vstd::prelude::*;

verus! {

/// What to do with an intercepted call.
#[derive(Debug, Clone, Copy, PartialEq, Eq, Structural)]
pub enum CallPlan {
    /// Make the call and keep nothing of it.
    Forward,
    /// Make the call and record it.
    Record,
    /// Answer it from the recording.
    Lookup,
}

/// The plan for a mode; there is none outside a context. In `Shadow` mode
/// calls to other systems are answered from the recording, as in `Replay`.
pub open spec fn plan_for(mode: Option<ReplayMode>) -> CallPlan {
    match mode {
        None => CallPlan::Forward,
        Some(ReplayMode::Record) => CallPlan::Record,
        Some(ReplayMode::Replay) => CallPlan::Lookup,
        Some(ReplayMode::Shadow) => CallPlan::Lookup,
        Some(ReplayMode::Passthrough) => CallPlan::Forward,
        Some(ReplayMode::Off) => CallPlan::Forward,
    }
}

/// The plan for a mode.
pub fn plan(mode: Option<ReplayMode>) -> (r: CallPlan)
    ensures
        r == plan_for(mode),
{
    match mode {
        None => CallPlan::Forward,
        Some(ReplayMode::Record) => CallPlan::Record,
        Some(ReplayMode::Replay) => CallPlan::Lookup,
        Some(ReplayMode::Shadow) => CallPlan::Lookup,
        Some(ReplayMode::Passthrough) => CallPlan::Forward,
        Some(ReplayMode::Off) => CallPlan::Forward,
    }
}

/// The mode of an optional slot.
pub fn slot_mode<S>(slot: &Option<InteractionSlot<S>>) -> (r: Option<ReplayMode>)
    ensures
        r == (match *slot {
            Some(s) => Some(s.mode),
            None => None,
        }),
{
    match slot {
        Some(s) => Some(s.mode),
        None => None,
    }
}

/// The record of a call that was made for a slot.
pub open spec fn slot_call<S>(
    slot: InteractionSlot<S>,
    id: RecordId,
    recorded_at: Timestamp,
    call_type: CallType,
    request: JsonTree,
    response: JsonTree,
    duration_ms: u64,
    status: CallStatus,
    service_name: Seq<char>,
    tag: Seq<char>,
) -> InteractionView {
    InteractionView {
        id,
        record_id: slot.record_id,
        parent_id: None,
        sequence: slot.sequence,
        call_type,
        fingerprint: slot.fingerprint@,
        request,
        response,
        duration_ms,
        status,
        error: None,
        recorded_at,
        build_hash: slot.build_hash@,
        service_name,
        tag,
    }
}

/// The record of a call that was made for a slot.
pub fn record_call<S>(
    slot: &InteractionSlot<S>,
    id: RecordId,
    recorded_at: Timestamp,
    call_type: CallType,
    request: JsonValue,
    response: JsonValue,
    duration_ms: u64,
    status: CallStatus,
    service_name: String,
    tag: String,
) -> (r: Interaction)
    ensures
        r@ == slot_call(
            *slot,
            id,
            recorded_at,
            call_type,
            request@,
            response@,
            duration_ms,
            status,
            service_name@,
            tag@,
        ),
{
    Interaction {
        id,
        record_id: slot.record_id,
        parent_id: None,
        sequence: slot.sequence,
        call_type,
        fingerprint: slot.fingerprint.clone(),
        request,
        response,
        duration_ms,
        status,
        error: None,
        recorded_at,
        build_hash: slot.build_hash.clone(),
        service_name,
        tag,
    }
}

/// How a call ended, by its HTTP status: an error from 500 on.
pub open spec fn status_verdict(status_code: u16) -> CallStatus {
    if status_code < 500 {
        CallStatus::Completed
    } else {
        CallStatus::Error
    }
}

/// How a call ended, by its HTTP status.
pub fn verdict(status_code: u16) -> (r: CallStatus)
    ensures
        r == status_verdict(status_code),
{
    if status_code < 500 {
        CallStatus::Completed
    } else {
        CallStatus::Error
    }
}

/// What a store that may fail found; a failure counts as nothing.
pub open spec fn leniently(found: Result<Option<Interaction>, StoreError>) -> Option<
    InteractionView,
> {
    match found {
        Ok(i) => memory::found(i),
        Err(_) => None,
    }
}

/// What a store that may fail found; a failure counts as nothing.
pub fn or_nothing(found: Result<Option<Interaction>, StoreError>) -> (r: Option<Interaction>)
    ensures
        memory::found(r) == leniently(found),
{
    match found {
        Ok(i) => i,
        Err(_) => None,
    }
}

/// The recorded call that answers a slot: the one at its exact place, or else
/// the nearest one with its fingerprint.
pub open spec fn stored_call(
    log: Log,
    record_id: RecordId,
    call_type: CallType,
    fingerprint: Seq<char>,
    sequence: u32,
) -> Option<InteractionView> {
    match store::find_first(log, store::exactly(record_id, call_type, fingerprint, sequence)) {
        Some(i) => Some(i),
        None => store::nearest(log, record_id, fingerprint, sequence),
    }
}

/// The recorded call that answers a slot, from a store in memory.
pub fn lookup<S>(
    store: &InMemoryStore,
    slot: &InteractionSlot<S>,
    call_type: CallType,
) -> (r: Option<Interaction>)
    ensures
        memory::found(r) == stored_call(
            store@,
            slot.record_id,
            call_type,
            slot.fingerprint@,
            slot.sequence,
        ),
{
    match store.find_match(slot.record_id, call_type, slot.fingerprint.as_str(), slot.sequence) {
        Some(i) => Some(i),
        None => store.find_nearest(slot.record_id, slot.fingerprint.as_str(), slot.sequence),
    }
}

/// A call that was recorded for a slot answers that slot, unless its place in
/// the recording was taken already.
pub proof fn lemma_recorded_call_answers(log: Log, i: InteractionView)
    requires
        store::find_first(
            log,
            store::exactly(i.record_id, i.call_type, i.fingerprint, i.sequence),
        ) is None,
    ensures
        stored_call(log.push(i), i.record_id, i.call_type, i.fingerprint, i.sequence) == Some(i),
{
    store::lemma_written_is_found(log, i);
}

/// A call is recorded in `Record` mode alone, answered from the recording in
/// `Replay` and `Shadow` mode alone, and otherwise made as if nothing watched.
pub proof fn lemma_plan_by_mode(mode: Option<ReplayMode>)
    ensures
        plan_for(mode) == CallPlan::Record <==> mode == Some(ReplayMode::Record),
        plan_for(mode) == CallPlan::Lookup <==> mode == Some(ReplayMode::Replay) || mode == Some(
            ReplayMode::Shadow,
        ),
        plan_for(mode) == CallPlan::Forward <==> mode is None || mode == Some(ReplayMode::Off)
            || mode == Some(ReplayMode::Passthrough),
{
}

/// A status of the server's making, from 500 on, is an error; any other is
/// none, a client's mistake among them.
pub proof fn lemma_server_errors(hundreds: u16, rest: u16)
    requires
        rest < 100,
        hundreds <= 9,
    ensures
        status_verdict((hundreds * 100 + rest) as u16) == CallStatus::Error <==> hundreds >= 5,
        status_verdict((hundreds * 100 + rest) as u16) == CallStatus::Completed <==> hundreds <= 4,
{
}

/// The record of a call holds what it was given, stands at the place of its
/// slot, and has neither a parent nor an error.
pub proof fn lemma_record_of_a_call<S>(
    slot: InteractionSlot<S>,
    id: RecordId,
    recorded_at: Timestamp,
    call_type: CallType,
    request: JsonTree,
    response: JsonTree,
    duration_ms: u64,
    status: CallStatus,
    service_name: Seq<char>,
    tag: Seq<char>,
)
    ensures
        ({
            let r = slot_call(
                slot,
                id,
                recorded_at,
                call_type,
                request,
                response,
                duration_ms,
                status,
                service_name,
                tag,
            );
            &&& r.id == id && r.recorded_at == recorded_at && r.call_type == call_type
            &&& r.request == request && r.response == response
            &&& r.duration_ms == duration_ms && r.status == status
            &&& r.service_name == service_name && r.tag == tag
            &&& r.record_id == slot.record_id && r.sequence == slot.sequence
            &&& r.fingerprint == slot.fingerprint@ && r.build_hash == slot.build_hash@
            &&& r.parent_id is None && r.error is None
        }),
{
}

/// What answers a slot belongs to its recording and has its fingerprint. If
/// the very place was recorded, it is of the same kind and at the same place;
/// and if nothing in the recording has the fingerprint, nothing answers.
pub proof fn lemma_what_answers(
    log: Log,
    record_id: RecordId,
    call_type: CallType,
    fingerprint: Seq<char>,
    sequence: u32,
    k: int,
)
    ensures
        stored_call(log, record_id, call_type, fingerprint, sequence) matches Some(i)
            ==> i.record_id == record_id && i.fingerprint == fingerprint && log.contains(i),
        0 <= k < log.len() && log[k].record_id == record_id && log[k].call_type == call_type
            && log[k].fingerprint == fingerprint && log[k].sequence == sequence ==> (stored_call(
            log,
            record_id,
            call_type,
            fingerprint,
            sequence,
        ) matches Some(i) && i.call_type == call_type && i.sequence == sequence),
        0 <= k < log.len() && log[k].record_id == record_id && log[k].fingerprint == fingerprint
            ==> stored_call(log, record_id, call_type, fingerprint, sequence) is Some,
        (forall|j: int|
            0 <= j < log.len() ==> (#[trigger] log[j]).record_id != record_id || log[j].fingerprint
                != fingerprint) ==> stored_call(log, record_id, call_type, fingerprint, sequence)
            is None,
{
    let p = store::exactly(record_id, call_type, fingerprint, sequence);
    store::lemma_find_first(log, p);
    store::lemma_nearest(log, record_id, fingerprint, sequence);
    if 0 <= k < log.len() {
        assert(p(log[k]) == (log[k].record_id == record_id && log[k].call_type == call_type
            && log[k].fingerprint == fingerprint && log[k].sequence == sequence));
    }
}

/// A store that failed found nothing; any other found what it says.
pub proof fn lemma_failed_store_found_nothing(i: Interaction, e: StoreError)
    ensures
        leniently(Err(e)) is None,
        leniently(Ok(None)) is None,
        leniently(Ok(Some(i))) == Some(i@),
{
}

} // verus!
