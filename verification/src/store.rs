//! What every store of interactions keeps and answers.
use crate::ids::{RecordId, Timestamp};
use crate::interaction::InteractionView;
use crate::json;
use crate::json::{JsonTree, JsonValue};
use crate::text::concat;
use crate::types::CallType;
use vstd::prelude::*;

verus! {

/// Why a store could not answer.
#[derive(Debug, PartialEq)]
pub enum StoreError {
    NotFound,
    Database(String),
}

/// The message of a [`StoreError`].
pub open spec fn store_error_text(e: StoreError) -> Seq<char> {
    match e {
        StoreError::NotFound => "interaction not found"@,
        StoreError::Database(s) => "database error: "@ + s@,
    }
}

impl StoreError {
    /// The message for people.
    pub fn message(&self) -> (r: String)
        ensures
            r@ == store_error_text(*self),
    {
        match self {
            StoreError::NotFound => "interaction not found".to_owned(),
            StoreError::Database(s) => concat("database error: ", s.as_str()),
        }
    }
}

/// One row of the list of recordings.
#[derive(Debug, Clone, PartialEq)]
pub struct RecordingSummary {
    pub record_id: RecordId,
    /// HTTP method of the entry point, such as `GET`.
    pub method: String,
    /// URL path of the entry point, such as `/payments/42`.
    pub path: String,
    /// HTTP status of the answer of the entry point.
    pub status_code: u16,
    pub recorded_at: Timestamp,
    pub build_hash: String,
    pub service_name: String,
    /// Number of interactions, the entry point among them.
    pub interaction_count: u32,
}

/// What a [`RecordingSummary`] is.
pub struct SummaryView {
    pub record_id: RecordId,
    pub method: Seq<char>,
    pub path: Seq<char>,
    pub status_code: u16,
    pub recorded_at: Timestamp,
    pub build_hash: Seq<char>,
    pub service_name: Seq<char>,
    pub interaction_count: u32,
}

impl View for RecordingSummary {
    type V = SummaryView;

    open spec fn view(&self) -> SummaryView {
        SummaryView {
            record_id: self.record_id,
            method: self.method@,
            path: self.path@,
            status_code: self.status_code,
            recorded_at: self.recorded_at,
            build_hash: self.build_hash@,
            service_name: self.service_name@,
            interaction_count: self.interaction_count,
        }
    }
}

/// The interactions that a store holds, in the order in which they came.
pub type Log = Seq<InteractionView>;

/// The first interaction that satisfies `p`.
pub open spec fn find_first(log: Log, p: spec_fn(InteractionView) -> bool) -> Option<
    InteractionView,
>
    decreases log.len(),
{
    if log.len() == 0 {
        None
    } else {
        match find_first(log.drop_last(), p) {
            Some(i) => Some(i),
            None => if p(log.last()) {
                Some(log.last())
            } else {
                None
            },
        }
    }
}

/// The entry point of a recording: its HTTP call at sequence zero.
pub open spec fn entry_point_of(record_id: RecordId) -> spec_fn(InteractionView) -> bool {
    |i: InteractionView|
        i.record_id == record_id && i.sequence == 0 && i.call_type == CallType::Http
}

/// The call of a recording at an exact place.
pub open spec fn exactly(
    record_id: RecordId,
    call_type: CallType,
    fingerprint: Seq<char>,
    sequence: u32,
) -> spec_fn(InteractionView) -> bool {
    |i: InteractionView|
        i.record_id == record_id && i.call_type == call_type && i.fingerprint == fingerprint
            && i.sequence == sequence
}

/// The distance between two sequence numbers.
pub open spec fn distance(a: u32, b: u32) -> nat {
    if a >= b {
        (a - b) as nat
    } else {
        (b - a) as nat
    }
}

/// The call with a fingerprint whose sequence number is nearest; of several
/// equally near ones the first.
pub open spec fn nearest(
    log: Log,
    record_id: RecordId,
    fingerprint: Seq<char>,
    sequence: u32,
) -> Option<InteractionView>
    decreases log.len(),
{
    if log.len() == 0 {
        None
    } else {
        let best = nearest(log.drop_last(), record_id, fingerprint, sequence);
        let i = log.last();
        if i.record_id == record_id && i.fingerprint == fingerprint && (best is None || distance(
            i.sequence,
            sequence,
        ) < distance(best->0.sequence, sequence)) {
            Some(i)
        } else {
            best
        }
    }
}

/// The text under a key of a JSON object, empty if there is none.
pub open spec fn text_member(t: JsonTree, key: Seq<char>) -> Seq<char> {
    match json::member(t, key) {
        Some(JsonTree::Text(s)) => s,
        _ => Seq::empty(),
    }
}

/// The unsigned integer under a key of a JSON object, if there is one.
pub open spec fn u64_member(t: JsonTree, key: Seq<char>) -> Option<u64> {
    match json::member(t, key) {
        Some(v) => json::tree_u64(v),
        None => None,
    }
}

/// The HTTP status in a recorded response: zero if there is none, and its
/// lower sixteen bits otherwise.
pub open spec fn status_of(response: JsonTree) -> u16 {
    match u64_member(response, "status"@) {
        Some(n) => n as u16,
        None => 0,
    }
}

/// The row of a recording with `count` interactions and the given entry
/// point; `now` stands for the time of one without.
pub open spec fn summary_of(
    record_id: RecordId,
    entry: Option<InteractionView>,
    count: u32,
    now: Timestamp,
) -> SummaryView {
    match entry {
        Some(e) => SummaryView {
            record_id,
            method: text_member(e.request, "method"@),
            path: text_member(e.request, "path"@),
            status_code: status_of(e.response),
            recorded_at: e.recorded_at,
            build_hash: e.build_hash,
            service_name: e.service_name,
            interaction_count: count,
        },
        None => SummaryView {
            record_id,
            method: Seq::empty(),
            path: Seq::empty(),
            status_code: 0,
            recorded_at: now,
            build_hash: Seq::empty(),
            service_name: Seq::empty(),
            interaction_count: count,
        },
    }
}

/// The text under a key of a JSON object, empty if there is none.
pub fn get_text(t: &JsonValue, key: &str) -> (r: String)
    ensures
        r@ == text_member(t@, key@),
{
    match t.get(key) {
        Some(v) => match v.as_str() {
            Some(s) => s.to_owned(),
            None => String::new(),
        },
        None => String::new(),
    }
}

/// The unsigned integer under a key of a JSON object, if there is one.
pub fn get_u64(t: &JsonValue, key: &str) -> (r: Option<u64>)
    ensures
        r == u64_member(t@, key@),
{
    match t.get(key) {
        Some(v) => v.as_u64(),
        None => None,
    }
}

// ---------------------------------------------------------------------------
// Laws
// ---------------------------------------------------------------------------

/// What is found satisfies the condition and was written; and nothing is
/// found exactly if nothing written satisfies it.
pub proof fn lemma_find_first(log: Log, p: spec_fn(InteractionView) -> bool)
    ensures
        match find_first(log, p) {
            Some(i) => exists|k: int|
                0 <= k < log.len() && #[trigger] log[k] == i && p(i) && forall|j: int|
                    0 <= j < k ==> !p(#[trigger] log[j]),
            None => forall|k: int| 0 <= k < log.len() ==> !p(#[trigger] log[k]),
        },
    decreases log.len(),
{
    if log.len() > 0 {
        let front = log.drop_last();
        lemma_find_first(front, p);
        match find_first(front, p) {
            Some(i) => {
                let k = choose|k: int|
                    0 <= k < front.len() && #[trigger] front[k] == i && p(i) && forall|j: int|
                        0 <= j < k ==> !p(#[trigger] front[j]);
                assert(log[k] == i);
                assert forall|j: int| 0 <= j < k implies !p(#[trigger] log[j]) by {
                    assert(front[j] == log[j]);
                }
            },
            None => {
                assert forall|j: int| 0 <= j < front.len() implies !p(#[trigger] log[j]) by {
                    assert(front[j] == log[j]);
                }
                if p(log.last()) {
                    assert(log[log.len() - 1] == log.last());
                }
            },
        }
    }
}

/// What is nearest has the fingerprint, and nothing with it is nearer;
/// nothing is nearest exactly if nothing has the fingerprint.
pub proof fn lemma_nearest(
    log: Log,
    record_id: RecordId,
    fingerprint: Seq<char>,
    sequence: u32,
)
    ensures
        match nearest(log, record_id, fingerprint, sequence) {
            Some(i) => {
                &&& i.record_id == record_id
                &&& i.fingerprint == fingerprint
                &&& log.contains(i)
                &&& forall|k: int|
                    0 <= k < log.len() && (#[trigger] log[k]).record_id == record_id
                        && log[k].fingerprint == fingerprint ==> distance(i.sequence, sequence)
                        <= distance(log[k].sequence, sequence)
            },
            None => forall|k: int|
                0 <= k < log.len() ==> (#[trigger] log[k]).record_id != record_id
                    || log[k].fingerprint != fingerprint,
        },
    decreases log.len(),
{
    if log.len() > 0 {
        let front = log.drop_last();
        lemma_nearest(front, record_id, fingerprint, sequence);
        assert forall|k: int| 0 <= k < front.len() implies #[trigger] log[k] == front[k] by {}
        if let Some(i) = nearest(front, record_id, fingerprint, sequence) {
            let k = choose|k: int| 0 <= k < front.len() && front[k] == i;
            assert(log[k] == i);
        }
        assert(log[log.len() - 1] == log.last());
    }
}

/// A stored call at the exact place is at distance zero from it: the nearest
/// call is then at that place, too.
pub proof fn lemma_exact_is_nearest(
    log: Log,
    record_id: RecordId,
    call_type: CallType,
    fingerprint: Seq<char>,
    sequence: u32,
)
    requires
        find_first(log, exactly(record_id, call_type, fingerprint, sequence)) is Some,
    ensures
        nearest(log, record_id, fingerprint, sequence) is Some,
        nearest(log, record_id, fingerprint, sequence)->0.sequence == sequence,
{
    lemma_find_first(log, exactly(record_id, call_type, fingerprint, sequence));
    lemma_nearest(log, record_id, fingerprint, sequence);
}

/// A call that is written is found at its place, unless an earlier one was
/// there already.
pub proof fn lemma_written_is_found(log: Log, i: InteractionView)
    ensures
        find_first(log, exactly(i.record_id, i.call_type, i.fingerprint, i.sequence)) is None
            ==> find_first(
            log.push(i),
            exactly(i.record_id, i.call_type, i.fingerprint, i.sequence),
        ) == Some(i),
        find_first(log, exactly(i.record_id, i.call_type, i.fingerprint, i.sequence)) is Some
            ==> find_first(
            log.push(i),
            exactly(i.record_id, i.call_type, i.fingerprint, i.sequence),
        ) == find_first(log, exactly(i.record_id, i.call_type, i.fingerprint, i.sequence)),
{
    assert(log.push(i).drop_last() =~= log);
}

/// The distance of two sequence numbers is how far one must count from the
/// smaller to reach the other.
pub proof fn lemma_distance(a: u32, b: u32)
    ensures
        distance(a, b) == distance(b, a),
        a <= b ==> a + distance(a, b) == b,
        distance(a, b) == 0 <==> a == b,
{
}

/// The entry point of a recording is its first HTTP call at sequence zero, and
/// there is one exactly if there is such a call.
pub proof fn lemma_entry_point(log: Log, record_id: RecordId)
    ensures
        match find_first(log, entry_point_of(record_id)) {
            Some(i) => i.record_id == record_id && i.sequence == 0 && i.call_type == CallType::Http
                && exists|k: int|
                0 <= k < log.len() && #[trigger] log[k] == i && forall|j: int|
                    0 <= j < k ==> (#[trigger] log[j]).record_id != record_id || log[j].sequence
                        != 0 || log[j].call_type != CallType::Http,
            None => forall|k: int|
                0 <= k < log.len() ==> (#[trigger] log[k]).record_id != record_id || log[k].sequence
                    != 0 || log[k].call_type != CallType::Http,
        },
{
    let p = entry_point_of(record_id);
    lemma_find_first(log, p);
    match find_first(log, p) {
        Some(i) => {
            let k = choose|k: int|
                0 <= k < log.len() && #[trigger] log[k] == i && p(i) && forall|j: int|
                    0 <= j < k ==> !p(#[trigger] log[j]);
            assert forall|j: int| 0 <= j < k implies (#[trigger] log[j]).record_id != record_id
                || log[j].sequence != 0 || log[j].call_type != CallType::Http by {
                assert(!p(log[j]));
            }
            assert(log[k] == i);
        },
        None => {
            assert forall|k: int| 0 <= k < log.len() implies (#[trigger] log[k]).record_id
                != record_id || log[k].sequence != 0 || log[k].call_type != CallType::Http by {
                assert(!p(log[k]));
            }
        },
    }
}

/// The call at an exact place is the first with that recording, kind,
/// fingerprint and sequence number, and there is one exactly if there is such
/// a call.
pub proof fn lemma_exact_place(
    log: Log,
    record_id: RecordId,
    call_type: CallType,
    fingerprint: Seq<char>,
    sequence: u32,
    k: int,
)
    ensures
        find_first(log, exactly(record_id, call_type, fingerprint, sequence)) matches Some(i)
            ==> i.record_id == record_id && i.call_type == call_type && i.fingerprint == fingerprint
            && i.sequence == sequence && log.contains(i),
        0 <= k < log.len() && log[k].record_id == record_id && log[k].call_type == call_type
            && log[k].fingerprint == fingerprint && log[k].sequence == sequence ==> find_first(
            log,
            exactly(record_id, call_type, fingerprint, sequence),
        ) is Some,
{
    let p = exactly(record_id, call_type, fingerprint, sequence);
    lemma_find_first(log, p);
    if 0 <= k < log.len() && log[k].record_id == record_id && log[k].call_type == call_type
        && log[k].fingerprint == fingerprint && log[k].sequence == sequence {
        assert(p(log[k]));
    }
}

/// A call that is written later is nearest only if it is nearer than all that
/// were written before; one of another recording or fingerprint never is.
pub proof fn lemma_nearer_replaces(
    log: Log,
    i: InteractionView,
    record_id: RecordId,
    fingerprint: Seq<char>,
    sequence: u32,
)
    ensures
        i.record_id != record_id || i.fingerprint != fingerprint ==> nearest(
            log.push(i),
            record_id,
            fingerprint,
            sequence,
        ) == nearest(log, record_id, fingerprint, sequence),
        i.record_id == record_id && i.fingerprint == fingerprint ==> (match nearest(
            log,
            record_id,
            fingerprint,
            sequence,
        ) {
            None => nearest(log.push(i), record_id, fingerprint, sequence) == Some(i),
            Some(best) => nearest(log.push(i), record_id, fingerprint, sequence) == Some(
                if distance(i.sequence, sequence) < distance(best.sequence, sequence) {
                    i
                } else {
                    best
                },
            ),
        }),
{
    assert(log.push(i).drop_last() =~= log);
}

/// The row of a recording says what its entry point says: when and by whom it
/// was recorded, and its method, path and status.
pub proof fn lemma_row_of_an_entry_point(
    record_id: RecordId,
    e: InteractionView,
    count: u32,
    now: Timestamp,
    method: Seq<char>,
    path: Seq<char>,
    status: u16,
)
    requires
        json::member(e.request, "method"@) == Some(JsonTree::Text(method)),
        json::member(e.request, "path"@) == Some(JsonTree::Text(path)),
        json::member(e.response, "status"@) == Some(
            JsonTree::Number(json::NumberView::Int(status as int)),
        ),
    ensures
        ({
            let s = summary_of(record_id, Some(e), count, now);
            &&& s.record_id == record_id && s.interaction_count == count
            &&& s.method == method && s.path == path && s.status_code == status
            &&& s.recorded_at == e.recorded_at
            &&& s.build_hash == e.build_hash && s.service_name == e.service_name
        }),
{
    assert((status as u64) as u16 == status);
}

/// The row of a recording without an entry point is empty, but for its
/// identifier, its size and the present time.
pub proof fn lemma_row_without_an_entry_point(record_id: RecordId, count: u32, now: Timestamp)
    ensures
        ({
            let s = summary_of(record_id, None, count, now);
            &&& s.record_id == record_id && s.interaction_count == count && s.recorded_at == now
            &&& s.method.len() == 0 && s.path.len() == 0 && s.status_code == 0
            &&& s.build_hash.len() == 0 && s.service_name.len() == 0
        }),
{
}

} // verus!
