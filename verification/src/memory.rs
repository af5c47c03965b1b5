//! A store in memory.
use crate::ids;
use crate::ids::{now, RecordId, Timestamp};
use crate::interaction;
use crate::interaction::{Interaction, InteractionView};
use crate::json::{JsonTree, JsonValue};
use crate::order;
use crate::order::sort_positions;
use crate::store;
use crate::store::{get_text, get_u64, Log, RecordingSummary, SummaryView};
use crate::text::same_text;
use crate::types::CallType;
use vstd::prelude::*;

verus! {

/// A store that keeps its interactions in memory, in the order in which they
/// were written.
#[derive(Debug)]
pub struct InMemoryStore {
    log: Vec<Interaction>,
}

impl View for InMemoryStore {
    type V = Log;

    closed spec fn view(&self) -> Log {
        interaction::interaction_views(self.log@)
    }
}

/// The interactions of one recording.
pub open spec fn of_record(log: Log, record_id: RecordId) -> Log
    decreases log.len(),
{
    if log.len() == 0 {
        Seq::empty()
    } else {
        let before = of_record(log.drop_last(), record_id);
        if log.last().record_id == record_id {
            before.push(log.last())
        } else {
            before
        }
    }
}

/// The interactions of all recordings but one.
pub open spec fn without_record(log: Log, record_id: RecordId) -> Log
    decreases log.len(),
{
    if log.len() == 0 {
        Seq::empty()
    } else {
        let before = without_record(log.drop_last(), record_id);
        if log.last().record_id == record_id {
            before
        } else {
            before.push(log.last())
        }
    }
}

/// The sequence numbers of a list of interactions.
pub open spec fn sequence_keys(calls: Log) -> Seq<int> {
    Seq::new(calls.len(), |i: int| calls[i].sequence as int)
}

/// The items at the given positions.
pub open spec fn picked<T>(items: Seq<T>, positions: Seq<int>) -> Seq<T> {
    Seq::new(positions.len(), |i: int| items[positions[i]])
}

/// The interactions of one recording in the order of their sequence numbers,
/// and those with the same number in the order in which they were written.
pub open spec fn recording(log: Log, record_id: RecordId) -> Log {
    picked(
        of_record(log, record_id),
        order::stable_order(sequence_keys(of_record(log, record_id))),
    )
}

/// The identifiers among the first `n` interactions, last written first,
/// after those in `seen`.
pub open spec fn recent_from(log: Log, n: int, seen: Seq<RecordId>) -> Seq<RecordId>
    decreases n,
{
    if n <= 0 {
        seen
    } else if seen.contains(log[n - 1].record_id) {
        recent_from(log, n - 1, seen)
    } else {
        recent_from(log, n - 1, seen.push(log[n - 1].record_id))
    }
}

/// The identifiers of all recordings, the one written to last first.
pub open spec fn recent_ids(log: Log) -> Seq<RecordId> {
    recent_from(log, log.len() as int, Seq::empty())
}

/// The identifiers of all recordings, the one begun first first.
pub open spec fn known_ids(log: Log) -> Seq<RecordId>
    decreases log.len(),
{
    if log.len() == 0 {
        Seq::empty()
    } else {
        let before = known_ids(log.drop_last());
        if before.contains(log.last().record_id) {
            before
        } else {
            before.push(log.last().record_id)
        }
    }
}

/// The first `n` items, or all if there are fewer.
pub open spec fn at_most<T>(s: Seq<T>, n: int) -> Seq<T> {
    if n < s.len() {
        s.take(n)
    } else {
        s
    }
}

/// The items after the first `n`, or none if there are no more.
pub open spec fn after<T>(s: Seq<T>, n: int) -> Seq<T> {
    if n < s.len() {
        s.skip(n)
    } else {
        Seq::empty()
    }
}

/// A number that orders times.
pub open spec fn time_key(t: Timestamp) -> int {
    t.secs * 0x1_0000_0000 + t.nanos
}

/// The row of one recording.
pub open spec fn row(log: Log, record_id: RecordId, now: Timestamp) -> SummaryView {
    store::summary_of(
        record_id,
        store::find_first(log, store::entry_point_of(record_id)),
        of_record(log, record_id).len() as u32,
        now,
    )
}

/// The rows of all recordings, in the order in which they were begun.
pub open spec fn rows(log: Log, now: Timestamp) -> Seq<SummaryView> {
    Seq::new(known_ids(log).len(), |i: int| row(log, known_ids(log)[i], now))
}

/// The keys by which rows are listed: the most recent first.
pub open spec fn recency_keys(rows: Seq<SummaryView>) -> Seq<int> {
    Seq::new(rows.len(), |i: int| -time_key(rows[i].recorded_at))
}

/// Rows, the most recent first, and those of the same time in their own order.
pub open spec fn listed(rows: Seq<SummaryView>) -> Seq<SummaryView> {
    picked(rows, order::stable_order(recency_keys(rows)))
}

/// The rows of all recordings, the most recent first.
pub open spec fn recordings(log: Log, now: Timestamp) -> Seq<SummaryView> {
    listed(rows(log, now))
}

/// The response of a function call: that of the exact call, or else that of
/// the nearest one with the fingerprint.
pub open spec fn fn_response(
    log: Log,
    record_id: RecordId,
    fingerprint: Seq<char>,
    sequence: u32,
) -> Option<JsonTree> {
    match store::find_first(
        log,
        store::exactly(record_id, CallType::Function, fingerprint, sequence),
    ) {
        Some(i) => Some(i.response),
        None => match store::nearest(log, record_id, fingerprint, sequence) {
            Some(i) => Some(i.response),
            None => None,
        },
    }
}

/// An optional interaction.
pub open spec fn found(r: Option<Interaction>) -> Option<InteractionView> {
    match r {
        Some(i) => Some(i@),
        None => None,
    }
}

proof fn lemma_push(log: Seq<Interaction>, i: Interaction)
    ensures
        interaction::interaction_views(log.push(i)) == interaction::interaction_views(log).push(
            i@,
        ),
{
    assert(interaction::interaction_views(log.push(i)) =~= interaction::interaction_views(
        log,
    ).push(i@));
}

proof fn lemma_take(log: Seq<Interaction>, n: int)
    requires
        0 <= n < log.len(),
    ensures
        interaction::interaction_views(log).take(n + 1).drop_last()
            == interaction::interaction_views(log).take(n),
        interaction::interaction_views(log).take(n + 1).last() == log[n]@,
{
    assert(interaction::interaction_views(log).take(n + 1).drop_last()
        =~= interaction::interaction_views(log).take(n));
}

impl InMemoryStore {
    /// An empty store.
    pub fn new() -> (r: InMemoryStore)
        ensures
            r@ == Seq::<InteractionView>::empty(),
    {
        let r = InMemoryStore { log: Vec::new() };
        proof {
            assert(r@ =~= Seq::<InteractionView>::empty());
        }
        r
    }

    /// Appends interactions.
    pub fn seed(&mut self, interactions: Vec<Interaction>)
        ensures
            final(self)@ == old(self)@ + interaction::interaction_views(interactions@),
    {
        self.write_batch(interactions.as_slice());
    }

    /// All interactions, in the order in which they were written.
    pub fn all(&self) -> (r: Vec<Interaction>)
        ensures
            interaction::interaction_views(r@) == self@,
    {
        let mut out: Vec<Interaction> = Vec::new();
        let mut i: usize = 0;
        while i < self.log.len()
            invariant
                i <= self.log@.len(),
                out@.len() == i,
                forall|j: int| 0 <= j < i ==> (#[trigger] out@[j])@ == self.log@[j]@,
            decreases self.log.len() - i,
        {
            out.push(self.log[i].duplicate());
            i = i + 1;
        }
        proof {
            assert(interaction::interaction_views(out@) =~= self@);
        }
        out
    }

    /// The number of interactions.
    pub fn len(&self) -> (r: usize)
        ensures
            r == self@.len(),
    {
        self.log.len()
    }

    /// Whether nothing was written.
    pub fn is_empty(&self) -> (r: bool)
        ensures
            r == (self@.len() == 0),
    {
        self.log.len() == 0
    }

    /// Appends one interaction.
    pub fn write(&mut self, interaction: &Interaction)
        ensures
            final(self)@ == old(self)@.push(interaction@),
    {
        let copy = interaction.duplicate();
        proof {
            lemma_push(self.log@, copy);
        }
        self.log.push(copy);
    }

    /// Appends interactions in their order.
    pub fn write_batch(&mut self, interactions: &[Interaction])
        ensures
            final(self)@ == old(self)@ + interaction::interaction_views(interactions@),
    {
        let ghost before = self@;
        let ghost all = interaction::interaction_views(interactions@);
        let mut i: usize = 0;
        proof {
            assert(before + all.take(0) =~= before);
        }
        while i < interactions.len()
            invariant
                all == interaction::interaction_views(interactions@),
                i <= interactions@.len(),
                self@ == before + all.take(i as int),
            decreases interactions.len() - i,
        {
            self.write(&interactions[i]);
            proof {
                assert((before + all.take(i as int)).push(all[i as int]) =~= before + all.take(
                    i + 1,
                ));
            }
            i = i + 1;
        }
        proof {
            assert(all.take(i as int) =~= all);
        }
    }

    /// All interactions of a recording, ordered by sequence.
    pub fn get_by_record_id(&self, record_id: RecordId) -> (r: Vec<Interaction>)
        ensures
            interaction::interaction_views(r@) == recording(self@, record_id),
    {
        let ghost log = self@;
        let mut places: Vec<usize> = Vec::new();
        let mut keys: Vec<i128> = Vec::new();
        let mut i: usize = 0;
        proof {
            assert(log.take(0) =~= Seq::<InteractionView>::empty());
        }
        while i < self.log.len()
            invariant
                log == interaction::interaction_views(self.log@),
                i <= self.log@.len(),
                places@.len() == keys@.len() == of_record(log.take(i as int), record_id).len(),
                forall|j: int|
                    0 <= j < places@.len() ==> (#[trigger] places@[j]) < i && log[places@[j] as int]
                        == of_record(log.take(i as int), record_id)[j],
                forall|j: int|
                    0 <= j < keys@.len() ==> (#[trigger] keys@[j]) == of_record(
                        log.take(i as int),
                        record_id,
                    )[j].sequence,
            decreases self.log.len() - i,
        {
            proof {
                lemma_take(self.log@, i as int);
            }
            if self.log[i].record_id == record_id {
                places.push(i);
                keys.push(self.log[i].sequence as i128);
            }
            i = i + 1;
        }
        proof {
            assert(log.take(i as int) =~= log);
        }
        let ghost calls = of_record(log, record_id);
        let p = sort_positions(&keys);
        proof {
            assert(order::ints(keys@) =~= sequence_keys(calls));
        }
        let mut out: Vec<Interaction> = Vec::new();
        let mut k: usize = 0;
        while k < p.len()
            invariant
                log == interaction::interaction_views(self.log@),
                calls == of_record(log, record_id),
                places@.len() == keys@.len() == calls.len(),
                forall|j: int|
                    0 <= j < places@.len() ==> (#[trigger] places@[j]) < self.log@.len()
                        && log[places@[j] as int] == calls[j],
                forall|j: int| 0 <= j < p@.len() ==> #[trigger] p@[j] < keys@.len(),
                k <= p@.len(),
                out@.len() == k,
                forall|j: int| 0 <= j < k ==> (#[trigger] out@[j])@ == calls[p@[j] as int],
            decreases p.len() - k,
        {
            let at: usize = places[p[k]];
            proof {
                assert(log[at as int] == self.log@[at as int]@);
            }
            out.push(self.log[at].duplicate());
            k = k + 1;
        }
        proof {
            assert(interaction::interaction_views(out@) =~= picked(
                calls,
                order::stable_order(sequence_keys(calls)),
            )) by {
                assert(order::positions(p@) == order::stable_order(sequence_keys(calls)));
                assert forall|j: int| 0 <= j < out@.len() implies (#[trigger] out@[j])@
                    == calls[order::positions(p@)[j]] by {}
            }
        }
        out
    }

    /// The entry point of a recording.
    pub fn get_entry_point(&self, record_id: RecordId) -> (r: Option<Interaction>)
        ensures
            found(r) == store::find_first(self@, store::entry_point_of(record_id)),
    {
        let ghost log = self@;
        let ghost p = store::entry_point_of(record_id);
        let mut i: usize = 0;
        proof {
            assert(log.take(0) =~= Seq::<InteractionView>::empty());
        }
        while i < self.log.len()
            invariant
                log == interaction::interaction_views(self.log@),
                p == store::entry_point_of(record_id),
                i <= self.log@.len(),
                store::find_first(log.take(i as int), p) is None,
            decreases self.log.len() - i,
        {
            proof {
                lemma_take(self.log@, i as int);
            }
            let it = &self.log[i];
            if it.record_id == record_id && it.sequence == 0 && it.call_type == CallType::Http {
                proof {
                    lemma_found_stays(log, p, i + 1);
                }
                return Some(it.duplicate());
            }
            i = i + 1;
        }
        proof {
            assert(log.take(i as int) =~= log);
        }
        None
    }

    /// The call of a recording at an exact place.
    pub fn find_match(
        &self,
        record_id: RecordId,
        call_type: CallType,
        fingerprint: &str,
        sequence: u32,
    ) -> (r: Option<Interaction>)
        ensures
            found(r) == store::find_first(
                self@,
                store::exactly(record_id, call_type, fingerprint@, sequence),
            ),
    {
        let ghost log = self@;
        let ghost p = store::exactly(record_id, call_type, fingerprint@, sequence);
        let mut i: usize = 0;
        proof {
            assert(log.take(0) =~= Seq::<InteractionView>::empty());
        }
        while i < self.log.len()
            invariant
                log == interaction::interaction_views(self.log@),
                p == store::exactly(record_id, call_type, fingerprint@, sequence),
                i <= self.log@.len(),
                store::find_first(log.take(i as int), p) is None,
            decreases self.log.len() - i,
        {
            proof {
                lemma_take(self.log@, i as int);
            }
            let it = &self.log[i];
            if it.record_id == record_id && it.call_type == call_type && same_text(
                it.fingerprint.as_str(),
                fingerprint,
            ) && it.sequence == sequence {
                proof {
                    lemma_found_stays(log, p, i + 1);
                }
                return Some(it.duplicate());
            }
            i = i + 1;
        }
        proof {
            assert(log.take(i as int) =~= log);
        }
        None
    }

    /// The call of a recording with the fingerprint and the nearest sequence.
    pub fn find_nearest(&self, record_id: RecordId, fingerprint: &str, sequence: u32) -> (r: Option<
        Interaction,
    >)
        ensures
            found(r) == store::nearest(self@, record_id, fingerprint@, sequence),
    {
        let ghost log = self@;
        let mut best: Option<usize> = None;
        let mut i: usize = 0;
        proof {
            assert(log.take(0) =~= Seq::<InteractionView>::empty());
        }
        while i < self.log.len()
            invariant
                log == interaction::interaction_views(self.log@),
                i <= self.log@.len(),
                match best {
                    Some(k) => k < i && store::nearest(
                        log.take(i as int),
                        record_id,
                        fingerprint@,
                        sequence,
                    ) == Some(log[k as int]),
                    None => store::nearest(log.take(i as int), record_id, fingerprint@, sequence)
                        is None,
                },
            decreases self.log.len() - i,
        {
            proof {
                lemma_take(self.log@, i as int);
            }
            if self.log[i].record_id == record_id && same_text(
                self.log[i].fingerprint.as_str(),
                fingerprint,
            ) {
                let closer = match best {
                    Some(k) => gap(self.log[i].sequence, sequence) < gap(
                        self.log[k].sequence,
                        sequence,
                    ),
                    None => true,
                };
                if closer {
                    best = Some(i);
                }
            }
            i = i + 1;
        }
        proof {
            assert(log.take(i as int) =~= log);
        }
        match best {
            Some(k) => Some(self.log[k].duplicate()),
            None => None,
        }
    }

    /// Removes all interactions of a recording.
    pub fn delete_by_record_id(&mut self, record_id: RecordId)
        ensures
            final(self)@ == without_record(old(self)@, record_id),
    {
        let ghost log = self@;
        let mut kept: Vec<Interaction> = Vec::new();
        let mut i: usize = 0;
        proof {
            assert(log.take(0) =~= Seq::<InteractionView>::empty());
            assert(interaction::interaction_views(kept@) =~= Seq::<InteractionView>::empty());
        }
        while i < self.log.len()
            invariant
                log == interaction::interaction_views(self.log@),
                i <= self.log@.len(),
                interaction::interaction_views(kept@) == without_record(
                    log.take(i as int),
                    record_id,
                ),
            decreases self.log.len() - i,
        {
            proof {
                lemma_take(self.log@, i as int);
            }
            if self.log[i].record_id != record_id {
                let copy = self.log[i].duplicate();
                proof {
                    lemma_push(kept@, copy);
                }
                kept.push(copy);
            }
            i = i + 1;
        }
        proof {
            assert(log.take(i as int) =~= log);
        }
        self.log = kept;
    }

    /// The identifiers of recent recordings, the one written to last first.
    pub fn get_recent_record_ids(&self, limit: usize) -> (r: Vec<RecordId>)
        ensures
            r@ == at_most(recent_ids(self@), limit as int),
    {
        let ghost log = self@;
        let mut ids: Vec<RecordId> = Vec::new();
        let mut n: usize = self.log.len();
        proof {
            assert(ids@ =~= Seq::<RecordId>::empty());
        }
        while n > 0 && ids.len() < limit
            invariant
                log == interaction::interaction_views(self.log@),
                n <= log.len(),
                ids@.len() <= limit,
                recent_from(log, n as int, ids@) == recent_ids(log),
            decreases n,
        {
            let id: RecordId = self.log[n - 1].record_id;
            proof {
                assert(log[n - 1].record_id == id);
            }
            if !contains_id(&ids, id) {
                ids.push(id);
            }
            n = n - 1;
        }
        proof {
            lemma_recent_extends(log, n as int, ids@);
            if ids@.len() == limit {
                assert(at_most(recent_ids(log), limit as int) =~= ids@);
            } else {
                assert(recent_from(log, 0, ids@) == ids@);
            }
        }
        ids
    }

    /// A page of the list of recordings, the most recent first; those without
    /// an entry point count as recorded now.
    pub fn list_recordings(&self, limit: usize, offset: usize) -> (r: Vec<RecordingSummary>)
        ensures
            exists|now: Timestamp|
                summary_views(r@) == at_most(
                    after(#[trigger] recordings(self@, now), offset as int),
                    limit as int,
                ),
    {
        self.list_recordings_at(limit, offset, now())
    }

    /// A page of the list of recordings, the most recent first; those without
    /// an entry point count as recorded at `now`.
    pub fn list_recordings_at(&self, limit: usize, offset: usize, now: Timestamp) -> (r: Vec<
        RecordingSummary,
    >)
        ensures
            summary_views(r@) == at_most(
                after(recordings(self@, now), offset as int),
                limit as int,
            ),
    {
        let ids = self.ids_in_order();
        let ghost all = rows(self@, now);
        let mut summaries: Vec<RecordingSummary> = Vec::new();
        let mut i: usize = 0;
        while i < ids.len()
            invariant
                ids@ == known_ids(self@),
                all == rows(self@, now),
                i <= ids@.len(),
                summaries@.len() == i,
                forall|j: int| 0 <= j < i ==> (#[trigger] summaries@[j])@ == all[j],
            decreases ids.len() - i,
        {
            summaries.push(self.summary_row(ids[i], now));
            i = i + 1;
        }
        proof {
            assert(summary_views(summaries@) =~= all);
        }
        let ordered = by_recency(&summaries);
        let ghost sorted = recordings(self@, now);
        let mut out: Vec<RecordingSummary> = Vec::new();
        let mut k: usize = offset;
        while k < ordered.len() && out.len() < limit
            invariant
                sorted == summary_views(ordered@),
                offset <= k,
                k <= ordered@.len() || k == offset,
                out@.len() == k - offset,
                out@.len() <= limit,
                forall|j: int|
                    0 <= j < out@.len() ==> (#[trigger] out@[j])@ == sorted[offset + j],
            decreases ordered.len() - k,
        {
            out.push(copy_summary(&ordered[k]));
            k = k + 1;
        }
        proof {
            assert(summary_views(out@) =~= at_most(after(sorted, offset as int), limit as int));
        }
        out
    }

    /// The row of one recording.
    fn summary_row(&self, record_id: RecordId, now: Timestamp) -> (r: RecordingSummary)
        ensures
            r@ == row(self@, record_id, now),
    {
        let interaction_count: u32 = self.count_of(record_id) as u32;
        match self.get_entry_point(record_id) {
            Some(e) => entry_row(record_id, &e, interaction_count),
            None => bare_row(record_id, interaction_count, now),
        }
    }

    /// The number of interactions of a recording.
    fn count_of(&self, record_id: RecordId) -> (r: usize)
        ensures
            r == of_record(self@, record_id).len(),
    {
        let ghost log = self@;
        let mut n: usize = 0;
        let mut i: usize = 0;
        proof {
            assert(log.take(0) =~= Seq::<InteractionView>::empty());
        }
        while i < self.log.len()
            invariant
                log == interaction::interaction_views(self.log@),
                i <= self.log@.len(),
                n <= i,
                n == of_record(log.take(i as int), record_id).len(),
            decreases self.log.len() - i,
        {
            proof {
                lemma_take(self.log@, i as int);
            }
            if self.log[i].record_id == record_id {
                n = n + 1;
            }
            i = i + 1;
        }
        proof {
            assert(log.take(i as int) =~= log);
        }
        n
    }

    /// The identifiers of all recordings, the one begun first first.
    fn ids_in_order(&self) -> (r: Vec<RecordId>)
        ensures
            r@ == known_ids(self@),
    {
        let ghost log = self@;
        let mut ids: Vec<RecordId> = Vec::new();
        let mut i: usize = 0;
        proof {
            assert(log.take(0) =~= Seq::<InteractionView>::empty());
        }
        while i < self.log.len()
            invariant
                log == interaction::interaction_views(self.log@),
                i <= self.log@.len(),
                ids@ == known_ids(log.take(i as int)),
            decreases self.log.len() - i,
        {
            proof {
                lemma_take(self.log@, i as int);
            }
            let id: RecordId = self.log[i].record_id;
            if !contains_id(&ids, id) {
                ids.push(id);
            }
            i = i + 1;
        }
        proof {
            assert(log.take(i as int) =~= log);
        }
        ids
    }

    /// The response of a function call, by exact place or else by nearest
    /// sequence.
    pub fn load_fn_response(&self, record_id: RecordId, fingerprint: &str, sequence: u32) -> (r:
        Option<JsonValue>)
        ensures
            match fn_response(self@, record_id, fingerprint@, sequence) {
                Some(t) => r is Some && r->0@ == t,
                None => r is None,
            },
    {
        match self.find_match(record_id, CallType::Function, fingerprint, sequence) {
            Some(i) => Some(i.response),
            None => match self.find_nearest(record_id, fingerprint, sequence) {
                Some(i) => Some(i.response),
                None => None,
            },
        }
    }

    /// Keeps a function call.
    pub fn store_fn_call(&mut self, interaction: &Interaction)
        ensures
            final(self)@ == old(self)@.push(interaction@),
    {
        self.write(interaction);
    }
}

/// The row of a recording, from its interactions.
pub fn summarize(record_id: RecordId, interactions: &Vec<Interaction>, now: Timestamp) -> (r:
    RecordingSummary)
    ensures
        r@ == store::summary_of(
            record_id,
            store::find_first(
                interaction::interaction_views(interactions@),
                store::entry_point_of(record_id),
            ),
            interactions@.len() as u32,
            now,
        ),
{
    let ghost log = interaction::interaction_views(interactions@);
    let ghost p = store::entry_point_of(record_id);
    let interaction_count: u32 = interactions.len() as u32;
    let mut i: usize = 0;
    proof {
        assert(log.take(0) =~= Seq::<InteractionView>::empty());
    }
    while i < interactions.len()
        invariant
            log == interaction::interaction_views(interactions@),
            p == store::entry_point_of(record_id),
            interaction_count == interactions@.len() as u32,
            i <= interactions@.len(),
            store::find_first(log.take(i as int), p) is None,
        decreases interactions.len() - i,
    {
        proof {
            lemma_take(interactions@, i as int);
        }
        let it = &interactions[i];
        if it.record_id == record_id && it.sequence == 0 && it.call_type == CallType::Http {
            proof {
                lemma_found_stays(log, p, i + 1);
            }
            return entry_row(record_id, it, interaction_count);
        }
        i = i + 1;
    }
    proof {
        assert(log.take(i as int) =~= log);
    }
    bare_row(record_id, interaction_count, now)
}

/// The row of a recording with the given entry point.
fn entry_row(record_id: RecordId, e: &Interaction, interaction_count: u32) -> (r: RecordingSummary)
    ensures
        forall|now: Timestamp|
            r@ == #[trigger] store::summary_of(record_id, Some(e@), interaction_count, now),
{
    RecordingSummary {
        record_id,
        method: get_text(&e.request, "method"),
        path: get_text(&e.request, "path"),
        status_code: match get_u64(&e.response, "status") {
            Some(n) => n as u16,
            None => 0,
        },
        recorded_at: e.recorded_at,
        build_hash: e.build_hash.clone(),
        service_name: e.service_name.clone(),
        interaction_count,
    }
}

/// The row of a recording without an entry point.
fn bare_row(record_id: RecordId, interaction_count: u32, now: Timestamp) -> (r: RecordingSummary)
    ensures
        r@ == store::summary_of(record_id, None, interaction_count, now),
{
    RecordingSummary {
        record_id,
        method: String::new(),
        path: String::new(),
        status_code: 0,
        recorded_at: now,
        build_hash: String::new(),
        service_name: String::new(),
        interaction_count,
    }
}

/// Rows, the most recent first, and those of the same time in their own order.
pub fn by_recency(rows: &Vec<RecordingSummary>) -> (r: Vec<RecordingSummary>)
    ensures
        summary_views(r@) == listed(summary_views(rows@)),
{
    let ghost all = summary_views(rows@);
    let mut keys: Vec<i128> = Vec::new();
    let mut i: usize = 0;
    while i < rows.len()
        invariant
            all == summary_views(rows@),
            i <= rows@.len(),
            keys@.len() == i,
            forall|j: int| 0 <= j < i ==> (#[trigger] keys@[j]) == -time_key(all[j].recorded_at),
        decreases rows.len() - i,
    {
        let at: Timestamp = rows[i].recorded_at;
        keys.push(-((at.secs as i128) * 0x1_0000_0000 + at.nanos as i128));
        i = i + 1;
    }
    let p = sort_positions(&keys);
    proof {
        assert(order::ints(keys@) =~= recency_keys(all));
    }
    let ghost sorted = listed(all);
    let mut out: Vec<RecordingSummary> = Vec::new();
    let mut k: usize = 0;
    while k < p.len()
        invariant
            all == summary_views(rows@),
            sorted == picked(all, order::positions(p@)),
            forall|j: int| 0 <= j < p@.len() ==> #[trigger] p@[j] < rows@.len(),
            k <= p@.len(),
            out@.len() == k,
            forall|j: int| 0 <= j < k ==> (#[trigger] out@[j])@ == sorted[j],
        decreases p.len() - k,
    {
        out.push(copy_summary(&rows[p[k]]));
        k = k + 1;
    }
    proof {
        assert(summary_views(out@) =~= sorted);
    }
    out
}

/// A page of a list of identifiers.
pub fn page(ids: &Vec<RecordId>, limit: usize, offset: usize) -> (r: Vec<RecordId>)
    ensures
        r@ == at_most(after(ids@, offset as int), limit as int),
{
    let mut out: Vec<RecordId> = Vec::new();
    let mut i: usize = offset;
    while i < ids.len() && out.len() < limit
        invariant
            offset <= i,
            i <= ids@.len() || i == offset,
            out@.len() == i - offset,
            out@.len() <= limit,
            forall|j: int| 0 <= j < out@.len() ==> #[trigger] out@[j] == ids@[offset + j],
        decreases ids.len() - i,
    {
        out.push(ids[i]);
        i = i + 1;
    }
    proof {
        assert(out@ =~= at_most(after(ids@, offset as int), limit as int));
    }
    out
}

impl Default for InMemoryStore {
    fn default() -> (r: InMemoryStore)
        ensures
            r@ == Seq::<InteractionView>::empty(),
    {
        InMemoryStore::new()
    }
}

/// The views of a list of rows.
pub open spec fn summary_views(v: Seq<RecordingSummary>) -> Seq<SummaryView> {
    Seq::new(v.len(), |i: int| v[i]@)
}

/// A copy of a row.
fn copy_summary(s: &RecordingSummary) -> (r: RecordingSummary)
    ensures
        r@ == s@,
{
    RecordingSummary {
        record_id: s.record_id,
        method: s.method.clone(),
        path: s.path.clone(),
        status_code: s.status_code,
        recorded_at: s.recorded_at,
        build_hash: s.build_hash.clone(),
        service_name: s.service_name.clone(),
        interaction_count: s.interaction_count,
    }
}

/// Whether an identifier is in a list.
fn contains_id(ids: &Vec<RecordId>, id: RecordId) -> (r: bool)
    ensures
        r == ids@.contains(id),
{
    let mut i: usize = 0;
    while i < ids.len()
        invariant
            i <= ids@.len(),
            forall|j: int| 0 <= j < i ==> ids@[j] != id,
        decreases ids.len() - i,
    {
        if ids[i] == id {
            return true;
        }
        i = i + 1;
    }
    false
}

/// The distance between two sequence numbers.
fn gap(a: u32, b: u32) -> (r: u32)
    ensures
        r == store::distance(a, b),
{
    if a >= b {
        a - b
    } else {
        b - a
    }
}

/// What was found in the beginning of a log is found in all of it.
proof fn lemma_found_stays(log: Log, p: spec_fn(InteractionView) -> bool, n: int)
    requires
        0 <= n <= log.len(),
        store::find_first(log.take(n), p) is Some,
    ensures
        store::find_first(log, p) == store::find_first(log.take(n), p),
    decreases log.len() - n,
{
    if n < log.len() {
        assert(log.take(n + 1).drop_last() =~= log.take(n));
        lemma_found_stays(log, p, n + 1);
    } else {
        assert(log.take(n) =~= log);
    }
}

/// Further identifiers come after those already seen.
proof fn lemma_recent_extends(log: Log, n: int, seen: Seq<RecordId>)
    ensures
        recent_from(log, n, seen).len() >= seen.len(),
        recent_from(log, n, seen).take(seen.len() as int) == seen,
    decreases n,
{
    if n > 0 {
        let id = log[n - 1].record_id;
        if seen.contains(id) {
            lemma_recent_extends(log, n - 1, seen);
        } else {
            lemma_recent_extends(log, n - 1, seen.push(id));
            let all = recent_from(log, n, seen);
            assert(all.take(seen.len() as int) =~= all.take(seen.len() as int + 1).take(
                seen.len() as int,
            ));
            assert(seen.push(id).take(seen.len() as int) =~= seen);
        }
    } else {
        assert(seen.take(seen.len() as int) =~= seen);
    }
}

// ---------------------------------------------------------------------------
// Laws
// ---------------------------------------------------------------------------

/// A recording is read back in the order of its sequence numbers, each of its
/// interactions once.
pub proof fn lemma_recording_ordered(log: Log, record_id: RecordId)
    ensures
        recording(log, record_id).len() == of_record(log, record_id).len(),
        forall|i: int, j: int|
            0 <= i < j < recording(log, record_id).len() ==> (#[trigger] recording(
                log,
                record_id,
            )[i]).sequence <= (#[trigger] recording(log, record_id)[j]).sequence,
        forall|k: int|
            0 <= k < of_record(log, record_id).len() ==> recording(log, record_id).contains(
                #[trigger] of_record(log, record_id)[k],
            ),
{
    let calls = of_record(log, record_id);
    let keys = sequence_keys(calls);
    let p = order::stable_order(keys);
    order::lemma_stable_order(keys);
    let r = recording(log, record_id);
    assert forall|i: int, j: int| 0 <= i < j < r.len() implies (#[trigger] r[i]).sequence <= (
    #[trigger] r[j]).sequence by {
        assert(order::before(keys, p[i], p[j]));
        assert(keys[p[i]] == calls[p[i]].sequence);
        assert(keys[p[j]] == calls[p[j]].sequence);
    }
    assert forall|k: int| 0 <= k < calls.len() implies r.contains(#[trigger] calls[k]) by {
        assert(p.contains(k));
        let i = choose|i: int| 0 <= i < p.len() && p[i] == k;
        assert(r[i] == calls[k]);
    }
}

/// Deleting a recording leaves nothing of it, and every other recording as it
/// was.
pub proof fn lemma_delete(log: Log, deleted: RecordId, other: RecordId)
    ensures
        of_record(without_record(log, deleted), deleted).len() == 0,
        other != deleted ==> of_record(without_record(log, deleted), other) == of_record(
            log,
            other,
        ),
    decreases log.len(),
{
    if log.len() > 0 {
        let front = log.drop_last();
        lemma_delete(front, deleted, other);
        let kept = without_record(front, deleted);
        assert(kept.push(log.last()).drop_last() =~= kept);
    }
}

/// Writing to one recording changes no other.
pub proof fn lemma_write_is_isolated(log: Log, i: InteractionView, other: RecordId)
    requires
        other != i.record_id,
    ensures
        of_record(log.push(i), other) == of_record(log, other),
        recording(log.push(i), other) == recording(log, other),
        of_record(log.push(i), i.record_id) == of_record(log, i.record_id).push(i),
{
    assert(log.push(i).drop_last() =~= log);
}

/// Something was written to the recording.
pub open spec fn written_to(log: Log, record_id: RecordId) -> bool {
    exists|k: int| 0 <= k < log.len() && (#[trigger] log[k]).record_id == record_id
}

/// The list of recent recordings names each recording once.
pub proof fn lemma_recent_ids(log: Log)
    ensures
        forall|i: int, j: int|
            0 <= i < j < recent_ids(log).len() ==> recent_ids(log)[i] != recent_ids(log)[j],
        forall|k: int|
            0 <= k < log.len() ==> recent_ids(log).contains((#[trigger] log[k]).record_id),
        forall|i: int|
            0 <= i < recent_ids(log).len() ==> written_to(log, #[trigger] recent_ids(log)[i]),
        log.len() > 0 ==> recent_ids(log).len() > 0 && recent_ids(log)[0] == log.last().record_id,
{
    lemma_recent_from(log, log.len() as int, Seq::empty());
    if log.len() > 0 {
        let n = log.len() as int;
        let first = Seq::<RecordId>::empty().push(log[n - 1].record_id);
        lemma_recent_extends(log, n - 1, first);
        assert(recent_ids(log) == recent_from(log, n - 1, first));
        assert(recent_ids(log).take(1)[0] == first[0]);
    }
}

proof fn lemma_recent_from(log: Log, n: int, seen: Seq<RecordId>)
    requires
        0 <= n <= log.len(),
        forall|i: int, j: int| 0 <= i < j < seen.len() ==> seen[i] != seen[j],
        forall|i: int|
            0 <= i < seen.len() ==> written_to(log, #[trigger] seen[i]),
        forall|k: int| n <= k < log.len() ==> seen.contains((#[trigger] log[k]).record_id),
    ensures
        forall|i: int, j: int|
            0 <= i < j < recent_from(log, n, seen).len() ==> recent_from(log, n, seen)[i]
                != recent_from(log, n, seen)[j],
        forall|k: int|
            0 <= k < log.len() ==> recent_from(log, n, seen).contains(
                (#[trigger] log[k]).record_id,
            ),
        forall|i: int|
            0 <= i < recent_from(log, n, seen).len() ==> written_to(
                log,
                #[trigger] recent_from(log, n, seen)[i],
            ),
    decreases n,
{
    if n > 0 {
        let id = log[n - 1].record_id;
        if seen.contains(id) {
            lemma_recent_from(log, n - 1, seen);
        } else {
            let more = seen.push(id);
            assert forall|i: int, j: int| 0 <= i < j < more.len() implies more[i] != more[j] by {
                if j == seen.len() {
                    assert(seen.contains(seen[i]));
                }
            }
            assert forall|i: int| 0 <= i < more.len() implies written_to(
                log,
                #[trigger] more[i],
            ) by {
                if i == seen.len() {
                    assert(log[n - 1].record_id == more[i]);
                } else {
                    assert(more[i] == seen[i]);
                }
            }
            assert forall|k: int| n - 1 <= k < log.len() implies more.contains(
                (#[trigger] log[k]).record_id,
            ) by {
                if k == n - 1 {
                    assert(more[seen.len() as int] == id);
                } else {
                    let i = choose|i: int| 0 <= i < seen.len() && seen[i] == log[k].record_id;
                    assert(more[i] == log[k].record_id);
                }
            }
            lemma_recent_from(log, n - 1, more);
        }
    }
}

/// Recordings are listed by time, the most recent first.
pub proof fn lemma_recordings_ordered(log: Log, now: Timestamp)
    ensures
        recordings(log, now).len() == known_ids(log).len(),
        forall|i: int, j: int|
            0 <= i < j < recordings(log, now).len() ==> time_key(
                (#[trigger] recordings(log, now)[i]).recorded_at,
            ) >= time_key((#[trigger] recordings(log, now)[j]).recorded_at),
{
    lemma_listed(rows(log, now));
}

/// Listing rows keeps each of them, and puts the most recent first.
pub proof fn lemma_listed(all: Seq<SummaryView>)
    ensures
        listed(all).len() == all.len(),
        forall|k: int| 0 <= k < all.len() ==> listed(all).contains(#[trigger] all[k]),
        forall|i: int, j: int|
            0 <= i < j < listed(all).len() ==> time_key((#[trigger] listed(all)[i]).recorded_at)
                >= time_key((#[trigger] listed(all)[j]).recorded_at),
{
    let keys = recency_keys(all);
    let p = order::stable_order(keys);
    order::lemma_stable_order(keys);
    let r = listed(all);
    assert forall|k: int| 0 <= k < all.len() implies r.contains(#[trigger] all[k]) by {
        assert(p.contains(k));
        let i = choose|i: int| 0 <= i < p.len() && p[i] == k;
        assert(r[i] == all[k]);
    }
    assert forall|i: int, j: int| 0 <= i < j < r.len() implies time_key(
        (#[trigger] r[i]).recorded_at,
    ) >= time_key((#[trigger] r[j]).recorded_at) by {
        assert(order::before(keys, p[i], p[j]));
        assert(keys[p[i]] == -time_key(all[p[i]].recorded_at));
        assert(keys[p[j]] == -time_key(all[p[j]].recorded_at));
    }
}

/// A later time has the greater key.
pub proof fn lemma_time_key(a: Timestamp, b: Timestamp)
    ensures
        time_key(a) < time_key(b) <==> (a.secs < b.secs || (a.secs == b.secs && a.nanos
            < b.nanos)),
{
}

/// A function call that was written is what its place answers, unless the
/// place was taken already.
pub proof fn lemma_function_call_is_replayed(log: Log, i: InteractionView)
    requires
        i.call_type == CallType::Function,
        store::find_first(
            log,
            store::exactly(i.record_id, CallType::Function, i.fingerprint, i.sequence),
        ) is None,
    ensures
        fn_response(log.push(i), i.record_id, i.fingerprint, i.sequence) == Some(i.response),
{
    store::lemma_written_is_found(log, i);
}

/// A recording holds every call that was written to it, and no other.
pub proof fn lemma_members_of_a_recording(log: Log, record_id: RecordId, i: InteractionView)
    ensures
        of_record(log, record_id).contains(i) <==> log.contains(i) && i.record_id == record_id,
        without_record(log, record_id).contains(i) <==> log.contains(i) && i.record_id != record_id,
        of_record(log, record_id).len() + without_record(log, record_id).len() == log.len(),
    decreases log.len(),
{
    if log.len() > 0 {
        let front = log.drop_last();
        lemma_members_of_a_recording(front, record_id, i);
        let last = log.last();
        assert(log[log.len() - 1] == last);
        if front.contains(i) {
            let k = choose|k: int| 0 <= k < front.len() && front[k] == i;
            assert(log[k] == i);
        }
        if log.contains(i) {
            let k = choose|k: int| 0 <= k < log.len() && log[k] == i;
            if k < front.len() {
                assert(front[k] == i);
            }
        }
        let a = of_record(front, record_id);
        let b = without_record(front, record_id);
        lemma_pushed_contains(a, last, i);
        lemma_pushed_contains(b, last, i);
    }
}

proof fn lemma_pushed_contains(s: Log, x: InteractionView, i: InteractionView)
    ensures
        s.push(x).contains(i) <==> s.contains(i) || x == i,
{
    let t = s.push(x);
    assert(t[s.len() as int] == x);
    if s.contains(i) {
        let k = choose|k: int| 0 <= k < s.len() && s[k] == i;
        assert(t[k] == i);
    }
    if t.contains(i) {
        let k = choose|k: int| 0 <= k < t.len() && t[k] == i;
        if k < s.len() {
            assert(s[k] == i);
        }
    }
}

/// The answer to a function call belongs to its recording and has its
/// fingerprint; there is none exactly if nothing in the recording has the
/// fingerprint.
pub proof fn lemma_answer_to_a_function_call(
    log: Log,
    record_id: RecordId,
    fingerprint: Seq<char>,
    sequence: u32,
)
    ensures
        match fn_response(log, record_id, fingerprint, sequence) {
            Some(t) => exists|k: int|
                0 <= k < log.len() && (#[trigger] log[k]).record_id == record_id
                    && log[k].fingerprint == fingerprint && log[k].response == t,
            None => forall|k: int|
                0 <= k < log.len() ==> (#[trigger] log[k]).record_id != record_id
                    || log[k].fingerprint != fingerprint,
        },
{
    let p = store::exactly(record_id, CallType::Function, fingerprint, sequence);
    store::lemma_find_first(log, p);
    store::lemma_nearest(log, record_id, fingerprint, sequence);
    match store::find_first(log, p) {
        Some(i) => {
            let k = choose|k: int| 0 <= k < log.len() && #[trigger] log[k] == i;
            assert(log[k].response == i.response);
        },
        None => {
            if let Some(i) = store::nearest(log, record_id, fingerprint, sequence) {
                let k = choose|k: int| 0 <= k < log.len() && log[k] == i;
                assert(log[k].response == i.response);
            }
        },
    }
}

/// Every recording that was written to is listed once, the one begun first
/// first: a call to a known recording adds nothing to the list, and a call to
/// a new one adds it at the end.
pub proof fn lemma_known_ids(log: Log, i: InteractionView)
    ensures
        known_ids(log.push(i)) == (if written_to(log, i.record_id) {
            known_ids(log)
        } else {
            known_ids(log).push(i.record_id)
        }),
        known_ids(log).contains(i.record_id) <==> written_to(log, i.record_id),
    decreases log.len(),
{
    assert(log.push(i).drop_last() =~= log);
    if log.len() > 0 {
        let front = log.drop_last();
        let last = log.last();
        lemma_known_ids(front, i);
        lemma_known_ids(front, last);
        assert(log[log.len() - 1] == last);
        let before = known_ids(front);
        if written_to(front, i.record_id) {
            let k = choose|k: int|
                0 <= k < front.len() && (#[trigger] front[k]).record_id == i.record_id;
            assert(log[k].record_id == i.record_id);
        }
        if written_to(log, i.record_id) {
            let k = choose|k: int|
                0 <= k < log.len() && (#[trigger] log[k]).record_id == i.record_id;
            if k < front.len() {
                assert(front[k].record_id == i.record_id);
            }
        }
        let all = known_ids(log);
        if all != before {
            assert(all[before.len() as int] == last.record_id);
            if before.contains(i.record_id) {
                let k = choose|k: int| 0 <= k < before.len() && before[k] == i.record_id;
                assert(all[k] == i.record_id);
            }
            if all.contains(i.record_id) {
                let k = choose|k: int| 0 <= k < all.len() && all[k] == i.record_id;
                if k < before.len() {
                    assert(before[k] == i.record_id);
                }
            }
        }
    }
}

/// A page is what follows the items before it: taking the first `offset`
/// items, the page and what comes after it gives everything back.
pub proof fn lemma_page<T>(s: Seq<T>, limit: int, offset: int)
    requires
        0 <= limit,
        0 <= offset,
    ensures
        at_most(s, offset) + at_most(after(s, offset), limit) + after(after(s, offset), limit) == s,
        at_most(after(s, offset), limit).len() <= limit,
        offset + limit <= s.len() ==> at_most(after(s, offset), limit).len() == limit,
{
    assert(at_most(s, offset) + at_most(after(s, offset), limit) + after(after(s, offset), limit)
        =~= s);
}

/// Every recording has a row of its own, which counts its calls.
pub proof fn lemma_every_recording_is_listed(log: Log, now: Timestamp, i: InteractionView)
    requires
        log.contains(i),
    ensures
        exists|k: int|
            0 <= k < recordings(log, now).len() && (#[trigger] recordings(log, now)[k]).record_id
                == i.record_id && recordings(log, now)[k].interaction_count == of_record(
                log,
                i.record_id,
            ).len() as u32,
{
    let at = choose|k: int| 0 <= k < log.len() && log[k] == i;
    assert(log[at].record_id == i.record_id);
    lemma_known_ids(log, i);
    let ids = known_ids(log);
    let j = choose|j: int| 0 <= j < ids.len() && ids[j] == i.record_id;
    let all = rows(log, now);
    lemma_listed(all);
    assert(all[j] == row(log, i.record_id, now));
    assert(listed(all).contains(all[j]));
    let k = choose|k: int| 0 <= k < listed(all).len() && listed(all)[k] == all[j];
    assert(recordings(log, now)[k].record_id == i.record_id);
}

} // verus!
