//! The ambient state of one request, shared by all interceptors.
use crate::ids;
use crate::ids::{fresh_id, RecordId};
use crate::types::{CallType, ReplayMode};
use vstd::prelude::*;

verus! {

/// Per-request state. `S` is a handle of a store.
#[derive(Debug)]
pub struct MockContext<S> {
    pub record_id: RecordId,
    pub mode: ReplayMode,
    pub build_hash: String,
    pub service_name: String,
    pub tag: String,
    /// Store of this context. It takes precedence over the process-wide one.
    pub store: Option<S>,
    /// In `Shadow` mode, the record that annotated functions write to.
    pub capture_id: Option<RecordId>,
    /// The sequence number of the next call.
    pub sequence: u32,
}

/// One intercepted call, before it is recorded or replayed.
#[derive(Debug)]
pub struct InteractionSlot<S> {
    pub record_id: RecordId,
    pub sequence: u32,
    pub call_type: CallType,
    pub fingerprint: String,
    pub mode: ReplayMode,
    pub build_hash: String,
    pub service_name: String,
    pub tag: String,
    /// The store for this call, resolved from the context.
    pub store: Option<S>,
    /// In `Shadow` mode, the record that annotated functions write to.
    pub capture_id: Option<RecordId>,
}

impl<S: Clone> Clone for MockContext<S> {
    /// A copy that counts on from the same sequence number, by itself. Calls
    /// that are to share one counter share one context.
    fn clone(&self) -> (r: MockContext<S>)
        ensures
            r.record_id == self.record_id,
            r.mode == self.mode,
            r.build_hash@ == self.build_hash@,
            r.service_name@ == self.service_name@,
            r.tag@ == self.tag@,
            handed_on(self.store, r.store),
            r.capture_id == self.capture_id,
            r.sequence == self.sequence,
    {
        MockContext {
            record_id: self.record_id,
            mode: self.mode,
            build_hash: self.build_hash.clone(),
            service_name: self.service_name.clone(),
            tag: self.tag.clone(),
            store: match &self.store {
                Some(s) => hand_on(Some(s)),
                None => None,
            },
            capture_id: self.capture_id,
            sequence: self.sequence,
        }
    }
}

impl<S: Clone> Clone for InteractionSlot<S> {
    fn clone(&self) -> (r: InteractionSlot<S>)
        ensures
            r.record_id == self.record_id,
            r.sequence == self.sequence,
            r.call_type == self.call_type,
            r.fingerprint@ == self.fingerprint@,
            r.mode == self.mode,
            r.build_hash@ == self.build_hash@,
            r.service_name@ == self.service_name@,
            r.tag@ == self.tag@,
            handed_on(self.store, r.store),
            r.capture_id == self.capture_id,
    {
        InteractionSlot {
            record_id: self.record_id,
            sequence: self.sequence,
            call_type: self.call_type,
            fingerprint: self.fingerprint.clone(),
            mode: self.mode,
            build_hash: self.build_hash.clone(),
            service_name: self.service_name.clone(),
            tag: self.tag.clone(),
            store: match &self.store {
                Some(s) => hand_on(Some(s)),
                None => None,
            },
            capture_id: self.capture_id,
        }
    }
}

/// The store of the context if it has one, and the process-wide store if not.
pub open spec fn effective<S>(own: Option<S>, global: Option<S>) -> Option<S> {
    if own is Some {
        own
    } else {
        global
    }
}

/// A handle, or a clone of it.
pub open spec fn handed_on<S: Clone>(from: Option<S>, to: Option<S>) -> bool {
    match from {
        Some(s) => to is Some && cloned(s, to->0),
        None => to is None,
    }
}

/// An optional reference as an optional value.
pub open spec fn referent<S>(s: Option<&S>) -> Option<S> {
    match s {
        Some(s) => Some(*s),
        None => None,
    }
}

impl<S> MockContext<S> {
    /// A fresh context: no metadata, no call made yet.
    pub open spec fn fresh(
        &self,
        record_id: RecordId,
        mode: ReplayMode,
        store: Option<S>,
        capture_id: Option<RecordId>,
    ) -> bool {
        &&& self.record_id == record_id
        &&& self.mode == mode
        &&& self.build_hash@ == Seq::<char>::empty()
        &&& self.service_name@ == Seq::<char>::empty()
        &&& self.tag@ == Seq::<char>::empty()
        &&& self.store == store
        &&& self.capture_id == capture_id
        &&& self.sequence == 0
    }

    /// A context for a new recording.
    pub fn new(mode: ReplayMode) -> (r: MockContext<S>)
        ensures
            r.fresh(r.record_id, mode, None, None),
            ids::random_id(r.record_id),
    {
        MockContext::with_id(fresh_id(), mode)
    }

    /// A context for the given recording.
    pub fn with_id(record_id: RecordId, mode: ReplayMode) -> (r: MockContext<S>)
        ensures
            r.fresh(record_id, mode, None, None),
    {
        MockContext::start(record_id, mode, None, None)
    }

    /// A context with its own store.
    pub fn with_store(record_id: RecordId, mode: ReplayMode, store: S) -> (r: MockContext<S>)
        ensures
            r.fresh(record_id, mode, Some(store), None),
    {
        MockContext::start(record_id, mode, Some(store), None)
    }

    /// A shadow context: other systems are answered from `record_id`, and
    /// annotated functions write to `capture_id`.
    pub fn shadow(record_id: RecordId, capture_id: RecordId) -> (r: MockContext<S>)
        ensures
            r.fresh(record_id, ReplayMode::Shadow, None, Some(capture_id)),
    {
        MockContext::start(record_id, ReplayMode::Shadow, None, Some(capture_id))
    }

    /// A shadow context with its own store.
    pub fn shadow_with_store(record_id: RecordId, capture_id: RecordId, store: S) -> (r:
        MockContext<S>)
        ensures
            r.fresh(record_id, ReplayMode::Shadow, Some(store), Some(capture_id)),
    {
        MockContext::start(record_id, ReplayMode::Shadow, Some(store), Some(capture_id))
    }

    fn start(
        record_id: RecordId,
        mode: ReplayMode,
        store: Option<S>,
        capture_id: Option<RecordId>,
    ) -> (r: MockContext<S>)
        ensures
            r.fresh(record_id, mode, store, capture_id),
    {
        MockContext {
            record_id,
            mode,
            build_hash: String::new(),
            service_name: String::new(),
            tag: String::new(),
            store,
            capture_id,
            sequence: 0,
        }
    }

    /// Everything but the counter is as in `other`.
    pub open spec fn same_but_counter(&self, other: &MockContext<S>) -> bool {
        &&& self.record_id == other.record_id
        &&& self.mode == other.mode
        &&& self.build_hash == other.build_hash
        &&& self.service_name == other.service_name
        &&& self.tag == other.tag
        &&& self.store == other.store
        &&& self.capture_id == other.capture_id
    }

    /// Takes the next sequence number: the numbers count up from zero, and
    /// start over after the last 32-bit number.
    pub fn next_seq(&mut self) -> (r: u32)
        ensures
            r == old(self).sequence,
            final(self).sequence == (if r == u32::MAX {
                0
            } else {
                r + 1
            }),
            final(self).same_but_counter(old(self)),
    {
        let r: u32 = self.sequence;
        self.sequence = r.wrapping_add(1);
        r
    }

    /// The store to use: that of the context, or else the process-wide one.
    pub fn effective_store<'a>(&'a self, global: Option<&'a S>) -> (r: Option<&'a S>)
        ensures
            referent(r) == effective(self.store, referent(global)),
    {
        match &self.store {
            Some(s) => Some(s),
            None => global,
        }
    }
}

/// The slot that a context gives to a call.
pub open spec fn slot_for<S: Clone>(
    ctx: MockContext<S>,
    call_type: CallType,
    fingerprint: Seq<char>,
    global: Option<S>,
    slot: InteractionSlot<S>,
) -> bool {
    &&& slot.record_id == ctx.record_id
    &&& slot.sequence == ctx.sequence
    &&& slot.call_type == call_type
    &&& slot.fingerprint@ == fingerprint
    &&& slot.mode == ctx.mode
    &&& slot.build_hash == ctx.build_hash
    &&& slot.service_name == ctx.service_name
    &&& slot.tag == ctx.tag
    &&& handed_on(effective(ctx.store, global), slot.store)
    &&& slot.capture_id == ctx.capture_id
}

/// A clone of an optional handle.
pub fn hand_on<S: Clone>(s: Option<&S>) -> (r: Option<S>)
    ensures
        handed_on(referent(s), r),
{
    match s {
        Some(s) => Some(s.clone()),
        None => None,
    }
}

impl<S: Clone> MockContext<S> {
    /// Takes a slot for a call.
    pub fn next_slot(&mut self, call_type: CallType, fingerprint: String, global: Option<&S>) -> (r:
        InteractionSlot<S>)
        ensures
            slot_for(*old(self), call_type, fingerprint@, referent(global), r),
            final(self).sequence == (if r.sequence == u32::MAX {
                0
            } else {
                r.sequence + 1
            }),
            final(self).same_but_counter(old(self)),
    {
        let sequence: u32 = self.next_seq();
        let store = hand_on(self.effective_store(global));
        InteractionSlot {
            record_id: self.record_id,
            sequence,
            call_type,
            fingerprint,
            mode: self.mode,
            build_hash: self.build_hash.clone(),
            service_name: self.service_name.clone(),
            tag: self.tag.clone(),
            store,
            capture_id: self.capture_id,
        }
    }
}

/// Takes a slot for a call from the ambient context; `None` if there is none.
pub fn next_interaction_slot<S: Clone>(
    ctx: &mut Option<MockContext<S>>,
    call_type: CallType,
    fingerprint: String,
    global: Option<&S>,
) -> (r: Option<InteractionSlot<S>>)
    ensures
        match *old(ctx) {
            None => r is None && *final(ctx) == *old(ctx),
            Some(c) => {
                &&& r is Some
                &&& slot_for(c, call_type, fingerprint@, referent(global), r->0)
                &&& *final(ctx) is Some
                &&& final(ctx)->0.same_but_counter(&c)
                &&& final(ctx)->0.sequence == (if c.sequence == u32::MAX {
                    0
                } else {
                    c.sequence + 1
                })
            },
        },
{
    match ctx {
        Some(c) => Some(c.next_slot(call_type, fingerprint, global)),
        None => None,
    }
}

/// The store of a context takes precedence over the process-wide one, which
/// serves where there is no other.
pub proof fn lemma_own_store_first<S>(own: S, global: Option<S>)
    ensures
        effective(Some(own), global) == Some(own),
        effective(None, global) == global,
{
}

/// A slot belongs to the recording and the mode of its context, stands at its
/// next place, and is for the call that asked.
pub proof fn lemma_slot_of_a_context<S: Clone>(
    ctx: MockContext<S>,
    call_type: CallType,
    fingerprint: Seq<char>,
    global: Option<S>,
    slot: InteractionSlot<S>,
)
    requires
        slot_for(ctx, call_type, fingerprint, global, slot),
    ensures
        slot.record_id == ctx.record_id,
        slot.mode == ctx.mode,
        slot.sequence == ctx.sequence,
        slot.capture_id == ctx.capture_id,
        slot.call_type == call_type,
        slot.fingerprint@ == fingerprint,
        slot.build_hash == ctx.build_hash,
        slot.service_name == ctx.service_name,
        slot.tag == ctx.tag,
        slot.store is Some <==> ctx.store is Some || global is Some,
{
}

/// A fresh context has made no call: its first slot is at sequence zero.
pub proof fn lemma_first_slot_is_zero<S: Clone>(
    ctx: MockContext<S>,
    record_id: RecordId,
    mode: ReplayMode,
    store: Option<S>,
    capture_id: Option<RecordId>,
    call_type: CallType,
    fingerprint: Seq<char>,
    global: Option<S>,
    slot: InteractionSlot<S>,
)
    requires
        ctx.fresh(record_id, mode, store, capture_id),
        slot_for(ctx, call_type, fingerprint, global, slot),
    ensures
        slot.sequence == 0,
        slot.record_id == record_id,
        slot.mode == mode,
        slot.capture_id == capture_id,
        slot.tag@.len() == 0 && slot.service_name@.len() == 0 && slot.build_hash@.len() == 0,
{
}

} // verus!
