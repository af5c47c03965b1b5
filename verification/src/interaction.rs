//! One recorded call.
use crate::ids;
use crate::ids::{fresh_id, now, RecordId, Timestamp};
use crate::json::{JsonTree, JsonValue};
use crate::types::{CallStatus, CallType};
use vstd::prelude::*;

verus! {

/// One recorded call: what was asked, what was answered, and where it stands
/// in the recording.
#[derive(Debug, PartialEq)]
pub struct Interaction {
    pub id: RecordId,
    pub record_id: RecordId,
    pub parent_id: Option<RecordId>,
    pub sequence: u32,
    pub call_type: CallType,
    pub fingerprint: String,
    pub request: JsonValue,
    pub response: JsonValue,
    pub duration_ms: u64,
    pub status: CallStatus,
    pub error: Option<String>,
    pub recorded_at: Timestamp,
    pub build_hash: String,
    pub service_name: String,
    pub tag: String,
}

/// What an [`Interaction`] is.
pub struct InteractionView {
    pub id: RecordId,
    pub record_id: RecordId,
    pub parent_id: Option<RecordId>,
    pub sequence: u32,
    pub call_type: CallType,
    pub fingerprint: Seq<char>,
    pub request: JsonTree,
    pub response: JsonTree,
    pub duration_ms: u64,
    pub status: CallStatus,
    pub error: Option<Seq<char>>,
    pub recorded_at: Timestamp,
    pub build_hash: Seq<char>,
    pub service_name: Seq<char>,
    pub tag: Seq<char>,
}

/// An optional text.
pub open spec fn optional_text(s: Option<String>) -> Option<Seq<char>> {
    match s {
        Some(s) => Some(s@),
        None => None,
    }
}

impl View for Interaction {
    type V = InteractionView;

    open spec fn view(&self) -> InteractionView {
        InteractionView {
            id: self.id,
            record_id: self.record_id,
            parent_id: self.parent_id,
            sequence: self.sequence,
            call_type: self.call_type,
            fingerprint: self.fingerprint@,
            request: self.request@,
            response: self.response@,
            duration_ms: self.duration_ms,
            status: self.status,
            error: optional_text(self.error),
            recorded_at: self.recorded_at,
            build_hash: self.build_hash@,
            service_name: self.service_name@,
            tag: self.tag@,
        }
    }
}

/// The views of a list of interactions.
pub open spec fn interaction_views(v: Seq<Interaction>) -> Seq<InteractionView> {
    Seq::new(v.len(), |i: int| v[i]@)
}

/// A completed call of a recording, without build, service and tag.
pub open spec fn completed_call(
    id: RecordId,
    recorded_at: Timestamp,
    record_id: RecordId,
    sequence: u32,
    call_type: CallType,
    fingerprint: Seq<char>,
    request: JsonTree,
    response: JsonTree,
    duration_ms: u64,
) -> InteractionView {
    InteractionView {
        id,
        record_id,
        parent_id: None,
        sequence,
        call_type,
        fingerprint,
        request,
        response,
        duration_ms,
        status: CallStatus::Completed,
        error: None,
        recorded_at,
        build_hash: Seq::empty(),
        service_name: Seq::empty(),
        tag: Seq::empty(),
    }
}

/// A copy of an optional text.
pub fn copy_text(s: &Option<String>) -> (r: Option<String>)
    ensures
        optional_text(r) == optional_text(*s),
{
    match s {
        Some(s) => Some(s.clone()),
        None => None,
    }
}

impl Interaction {
    /// A completed call with a fresh identifier, recorded now.
    pub fn new(
        record_id: RecordId,
        sequence: u32,
        call_type: CallType,
        fingerprint: String,
        request: JsonValue,
        response: JsonValue,
        duration_ms: u64,
    ) -> (r: Interaction)
        ensures
            r@ == completed_call(
                r.id,
                r.recorded_at,
                record_id,
                sequence,
                call_type,
                fingerprint@,
                request@,
                response@,
                duration_ms,
            ),
            ids::random_id(r.id),
    {
        Interaction::completed(
            fresh_id(),
            now(),
            record_id,
            sequence,
            call_type,
            fingerprint,
            request,
            response,
            duration_ms,
        )
    }

    /// A completed call with the given identifier and time.
    pub fn completed(
        id: RecordId,
        recorded_at: Timestamp,
        record_id: RecordId,
        sequence: u32,
        call_type: CallType,
        fingerprint: String,
        request: JsonValue,
        response: JsonValue,
        duration_ms: u64,
    ) -> (r: Interaction)
        ensures
            r@ == completed_call(
                id,
                recorded_at,
                record_id,
                sequence,
                call_type,
                fingerprint@,
                request@,
                response@,
                duration_ms,
            ),
    {
        Interaction {
            id,
            record_id,
            parent_id: None,
            sequence,
            call_type,
            fingerprint,
            request,
            response,
            duration_ms,
            status: CallStatus::Completed,
            error: None,
            recorded_at,
            build_hash: String::new(),
            service_name: String::new(),
            tag: String::new(),
        }
    }

    /// A copy of the interaction.
    pub fn duplicate(&self) -> (r: Interaction)
        ensures
            r@ == self@,
    {
        Interaction {
            id: self.id,
            record_id: self.record_id,
            parent_id: self.parent_id,
            sequence: self.sequence,
            call_type: self.call_type,
            fingerprint: self.fingerprint.clone(),
            request: self.request.duplicate(),
            response: self.response.duplicate(),
            duration_ms: self.duration_ms,
            status: self.status,
            error: copy_text(&self.error),
            recorded_at: self.recorded_at,
            build_hash: self.build_hash.clone(),
            service_name: self.service_name.clone(),
            tag: self.tag.clone(),
        }
    }
}

impl Clone for Interaction {
    fn clone(&self) -> (r: Interaction)
        ensures
            r@ == self@,
    {
        self.duplicate()
    }
}

/// A completed call holds what it was given, and nothing of a build, a service
/// or a tag.
pub proof fn lemma_completed_call(
    id: RecordId,
    recorded_at: Timestamp,
    record_id: RecordId,
    sequence: u32,
    call_type: CallType,
    fingerprint: Seq<char>,
    request: JsonTree,
    response: JsonTree,
    duration_ms: u64,
)
    ensures
        ({
            let r = completed_call(
                id,
                recorded_at,
                record_id,
                sequence,
                call_type,
                fingerprint,
                request,
                response,
                duration_ms,
            );
            &&& r.id == id && r.recorded_at == recorded_at && r.record_id == record_id
            &&& r.sequence == sequence && r.call_type == call_type && r.fingerprint == fingerprint
            &&& r.request == request && r.response == response && r.duration_ms == duration_ms
            &&& r.status == CallStatus::Completed && r.error is None && r.parent_id is None
            &&& r.build_hash.len() == 0 && r.service_name.len() == 0 && r.tag.len() == 0
        }),
{
}

} // verus!
