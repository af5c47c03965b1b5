//! Matching of calls with recorded ones, in three tiers.
//!
//! 1. Exact: the call was recorded at this very place.
//! 2. Fuzzy: it was recorded at a place near enough. This bridges calls that
//!    were inserted or removed since.
//! 3. Miss: the [`MissStrategy`] of its kind says what to do.
use crate::ids::RecordId;
use crate::interaction::{Interaction, InteractionView};
use crate::memory;
use crate::memory::InMemoryStore;
use crate::store;
use crate::store::Log;
use crate::types::CallType;
use vstd::prelude::*;

verus! {

/// What to do about a call that was not recorded.
#[derive(Debug, Clone, Copy, PartialEq, Eq, Structural)]
pub enum MissStrategy {
    /// Fail: the call is not expected.
    Error,
    /// Make the call.
    Passthrough,
    /// Answer with nothing.
    Empty,
}

/// A strategy for each kind of call, and how far a sequence may drift.
#[derive(Debug)]
pub struct MatchConfig {
    pub http: MissStrategy,
    pub grpc: MissStrategy,
    pub postgres: MissStrategy,
    pub redis: MissStrategy,
    pub function: MissStrategy,
    /// The largest distance of sequence numbers for a fuzzy match.
    pub max_sequence_drift: u32,
}

impl Clone for MatchConfig {
    fn clone(&self) -> (r: MatchConfig)
        ensures
            r == *self,
    {
        MatchConfig {
            http: self.http,
            grpc: self.grpc,
            postgres: self.postgres,
            redis: self.redis,
            function: self.function,
            max_sequence_drift: self.max_sequence_drift,
        }
    }
}

/// The configuration that holds without further settings.
pub open spec fn default_config() -> MatchConfig {
    MatchConfig {
        http: MissStrategy::Error,
        grpc: MissStrategy::Error,
        postgres: MissStrategy::Error,
        redis: MissStrategy::Empty,
        function: MissStrategy::Passthrough,
        max_sequence_drift: 5,
    }
}

impl Default for MatchConfig {
    fn default() -> (r: MatchConfig)
        ensures
            r == default_config(),
            r == (MatchConfig {
                http: MissStrategy::Error,
                grpc: MissStrategy::Error,
                postgres: MissStrategy::Error,
                redis: MissStrategy::Empty,
                function: MissStrategy::Passthrough,
                max_sequence_drift: 5,
            }),
    {
        MatchConfig {
            http: MissStrategy::Error,
            grpc: MissStrategy::Error,
            postgres: MissStrategy::Error,
            redis: MissStrategy::Empty,
            function: MissStrategy::Passthrough,
            max_sequence_drift: 5,
        }
    }
}

/// The outcome of a resolution.
#[derive(Debug, PartialEq)]
pub enum MatchOutcome {
    /// The call was recorded at this place.
    Exact(Interaction),
    /// The call was recorded at a near place.
    Fuzzy {
        interaction: Interaction,
        /// The distance of the sequence numbers.
        drift: u32,
    },
    /// The call was not recorded.
    Miss,
}

/// What a [`MatchOutcome`] is.
pub enum OutcomeView {
    Exact(InteractionView),
    Fuzzy(InteractionView, nat),
    Miss,
}

impl View for MatchOutcome {
    type V = OutcomeView;

    open spec fn view(&self) -> OutcomeView {
        match *self {
            MatchOutcome::Exact(i) => OutcomeView::Exact(i@),
            MatchOutcome::Fuzzy { interaction, drift } => OutcomeView::Fuzzy(
                interaction@,
                drift as nat,
            ),
            MatchOutcome::Miss => OutcomeView::Miss,
        }
    }
}

/// The strategy of a configuration for a kind of call.
pub open spec fn strategy_for(config: MatchConfig, call_type: CallType) -> MissStrategy {
    match call_type {
        CallType::Http => config.http,
        CallType::Grpc => config.grpc,
        CallType::Postgres => config.postgres,
        CallType::Redis => config.redis,
        CallType::Function => config.function,
    }
}

/// The outcome, given what a store finds at the exact place and nearest to it.
pub open spec fn outcome(
    max_drift: u32,
    exact: Option<InteractionView>,
    near: Option<InteractionView>,
    sequence: u32,
) -> OutcomeView {
    match exact {
        Some(i) => OutcomeView::Exact(i),
        None => match near {
            Some(i) => if store::distance(i.sequence, sequence) <= max_drift {
                OutcomeView::Fuzzy(i, store::distance(i.sequence, sequence))
            } else {
                OutcomeView::Miss
            },
            None => OutcomeView::Miss,
        },
    }
}

/// Resolves calls against a store. `S` is the store or a handle of it.
#[derive(Debug)]
pub struct MatchingEngine<S> {
    pub store: S,
    pub config: MatchConfig,
}

impl<S: Clone> Clone for MatchingEngine<S> {
    fn clone(&self) -> (r: MatchingEngine<S>)
        ensures
            cloned(self.store, r.store),
            r.config == self.config,
    {
        MatchingEngine { store: self.store.clone(), config: self.config.clone() }
    }
}

impl<S> MatchingEngine<S> {
    /// An engine with the default configuration.
    pub fn new(store: S) -> (r: MatchingEngine<S>)
        ensures
            r.store == store,
            r.config == default_config(),
            r.config == (MatchConfig {
                http: MissStrategy::Error,
                grpc: MissStrategy::Error,
                postgres: MissStrategy::Error,
                redis: MissStrategy::Empty,
                function: MissStrategy::Passthrough,
                max_sequence_drift: 5,
            }),
    {
        MatchingEngine { store, config: MatchConfig::default() }
    }

    /// An engine with the given configuration.
    pub fn with_config(store: S, config: MatchConfig) -> (r: MatchingEngine<S>)
        ensures
            r.store == store,
            r.config == config,
    {
        MatchingEngine { store, config }
    }

    /// What to do about a call of this kind that was not recorded.
    pub fn miss_strategy_for(&self, call_type: CallType) -> (r: &MissStrategy)
        ensures
            *r == strategy_for(self.config, call_type),
    {
        match call_type {
            CallType::Http => &self.config.http,
            CallType::Grpc => &self.config.grpc,
            CallType::Postgres => &self.config.postgres,
            CallType::Redis => &self.config.redis,
            CallType::Function => &self.config.function,
        }
    }

    /// The outcome, given what the store found at the exact place and nearest
    /// to it. Where the store failed, it found nothing.
    pub fn outcome_of(
        &self,
        exact: Option<Interaction>,
        near: Option<Interaction>,
        sequence: u32,
    ) -> (r: MatchOutcome)
        ensures
            r@ == outcome(
                self.config.max_sequence_drift,
                memory::found(exact),
                memory::found(near),
                sequence,
            ),
    {
        match exact {
            Some(i) => MatchOutcome::Exact(i),
            None => match near {
                Some(i) => {
                    let drift: u32 = if i.sequence >= sequence {
                        i.sequence - sequence
                    } else {
                        sequence - i.sequence
                    };
                    if drift <= self.config.max_sequence_drift {
                        MatchOutcome::Fuzzy { interaction: i, drift }
                    } else {
                        MatchOutcome::Miss
                    }
                },
                None => MatchOutcome::Miss,
            },
        }
    }
}

/// The outcome for a call, over a store in memory.
pub open spec fn resolution(
    max_drift: u32,
    log: Log,
    record_id: RecordId,
    call_type: CallType,
    fingerprint: Seq<char>,
    sequence: u32,
) -> OutcomeView {
    outcome(
        max_drift,
        store::find_first(log, store::exactly(record_id, call_type, fingerprint, sequence)),
        store::nearest(log, record_id, fingerprint, sequence),
        sequence,
    )
}

impl MatchingEngine<InMemoryStore> {
    /// Resolves a call: by exact place, or else by nearest sequence within the
    /// permitted drift, or not at all.
    pub fn resolve(
        &self,
        record_id: RecordId,
        call_type: CallType,
        fingerprint: &str,
        sequence: u32,
    ) -> (r: MatchOutcome)
        ensures
            r@ == resolution(
                self.config.max_sequence_drift,
                self.store@,
                record_id,
                call_type,
                fingerprint@,
                sequence,
            ),
    {
        let exact = self.store.find_match(record_id, call_type, fingerprint, sequence);
        let near = self.store.find_nearest(record_id, fingerprint, sequence);
        self.outcome_of(exact, near, sequence)
    }
}

/// A miss means that nothing with the fingerprint was recorded within the
/// permitted drift.
pub proof fn lemma_miss(
    max_drift: u32,
    log: Log,
    record_id: RecordId,
    call_type: CallType,
    fingerprint: Seq<char>,
    sequence: u32,
)
    ensures
        resolution(max_drift, log, record_id, call_type, fingerprint, sequence) is Miss
            <==> forall|k: int|
            0 <= k < log.len() && (#[trigger] log[k]).record_id == record_id && log[k].fingerprint
                == fingerprint ==> store::distance(log[k].sequence, sequence) > max_drift,
{
    let p = store::exactly(record_id, call_type, fingerprint, sequence);
    store::lemma_find_first(log, p);
    store::lemma_nearest(log, record_id, fingerprint, sequence);
    match store::nearest(log, record_id, fingerprint, sequence) {
        Some(i) => {
            let k = choose|k: int| 0 <= k < log.len() && log[k] == i;
            assert(log[k].record_id == record_id);
        },
        None => {},
    }
}

/// A call that was recorded at the very place is an exact match.
pub proof fn lemma_exact_match(
    max_drift: u32,
    log: Log,
    record_id: RecordId,
    call_type: CallType,
    fingerprint: Seq<char>,
    sequence: u32,
)
    ensures
        resolution(max_drift, log, record_id, call_type, fingerprint, sequence) is Exact
            <==> exists|k: int|
            0 <= k < log.len() && (#[trigger] log[k]).record_id == record_id && log[k].call_type
                == call_type && log[k].fingerprint == fingerprint && log[k].sequence == sequence,
        resolution(max_drift, log, record_id, call_type, fingerprint, sequence) matches
            OutcomeView::Exact(i) ==> i.record_id == record_id && i.call_type == call_type
            && i.fingerprint == fingerprint && i.sequence == sequence && log.contains(i),
{
    let p = store::exactly(record_id, call_type, fingerprint, sequence);
    store::lemma_find_first(log, p);
    if exists|k: int|
        0 <= k < log.len() && (#[trigger] log[k]).record_id == record_id && log[k].call_type
            == call_type && log[k].fingerprint == fingerprint && log[k].sequence == sequence {
        let k = choose|k: int|
            0 <= k < log.len() && (#[trigger] log[k]).record_id == record_id && log[k].call_type
                == call_type && log[k].fingerprint == fingerprint && log[k].sequence == sequence;
        assert(p(log[k]));
    }
}

/// A fuzzy match has the fingerprint, its drift is the distance of the two
/// sequence numbers and within the limit, and no call with the fingerprint is
/// nearer.
pub proof fn lemma_fuzzy_match(
    max_drift: u32,
    log: Log,
    record_id: RecordId,
    call_type: CallType,
    fingerprint: Seq<char>,
    sequence: u32,
    k: int,
)
    ensures
        resolution(max_drift, log, record_id, call_type, fingerprint, sequence) matches
            OutcomeView::Fuzzy(i, drift) ==> {
            &&& i.record_id == record_id && i.fingerprint == fingerprint && log.contains(i)
            &&& i.sequence == sequence + drift || sequence == i.sequence + drift
            &&& drift <= max_drift
            &&& 0 <= k < log.len() && log[k].record_id == record_id && log[k].fingerprint
                == fingerprint ==> log[k].sequence >= sequence + drift || sequence
                >= log[k].sequence + drift
        },
{
    store::lemma_nearest(log, record_id, fingerprint, sequence);
}

/// Each kind of call has a strategy of its own: changing one leaves the
/// others.
pub proof fn lemma_one_strategy_for_each_kind(
    config: MatchConfig,
    s: MissStrategy,
    call_type: CallType,
)
    ensures
        strategy_for(MatchConfig { http: s, ..config }, call_type) == (if call_type
            == CallType::Http {
            s
        } else {
            strategy_for(config, call_type)
        }),
        strategy_for(MatchConfig { grpc: s, ..config }, call_type) == (if call_type
            == CallType::Grpc {
            s
        } else {
            strategy_for(config, call_type)
        }),
        strategy_for(MatchConfig { postgres: s, ..config }, call_type) == (if call_type
            == CallType::Postgres {
            s
        } else {
            strategy_for(config, call_type)
        }),
        strategy_for(MatchConfig { redis: s, ..config }, call_type) == (if call_type
            == CallType::Redis {
            s
        } else {
            strategy_for(config, call_type)
        }),
        strategy_for(MatchConfig { function: s, ..config }, call_type) == (if call_type
            == CallType::Function {
            s
        } else {
            strategy_for(config, call_type)
        }),
{
}

/// By default a call to another service or to the database fails if it was not
/// recorded, a Redis command is answered with nothing, and a function is run.
pub proof fn lemma_default_strategies(call_type: CallType)
    ensures
        strategy_for(default_config(), call_type) == MissStrategy::Error <==> call_type
            == CallType::Http || call_type == CallType::Grpc || call_type == CallType::Postgres,
        strategy_for(default_config(), call_type) == MissStrategy::Empty <==> call_type
            == CallType::Redis,
        strategy_for(default_config(), call_type) == MissStrategy::Passthrough <==> call_type
            == CallType::Function,
{
}

/// By default a call is found five places away, and not six.
pub proof fn lemma_default_drift(near: InteractionView, sequence: u32)
    ensures
        outcome(default_config().max_sequence_drift, None, Some(near), sequence) is Fuzzy
            <==> near.sequence <= sequence + 5 && sequence <= near.sequence + 5,
        outcome(default_config().max_sequence_drift, None, Some(near), sequence) is Miss
            <==> near.sequence > sequence + 5 || sequence > near.sequence + 5,
{
}

} // verus!
