//! Contexts for requests through a portable layer of middleware.
use crate::http_server;
use crate::http_server::{id_from_header, record_for};
use crate::ids;
use crate::ids::{fresh_id, RecordId};
use crate::types::ReplayMode;
use vstd::prelude::*;

verus! {

/// What to do with a request that passes a layer.
#[derive(Debug, Clone, Copy, PartialEq, Eq, Structural)]
pub struct LayerPlan {
    pub record_id: RecordId,
    pub mode: ReplayMode,
    /// Whether the entry point takes the first sequence number and is
    /// recorded, if it is answered.
    pub record_entry: bool,
}

/// The plan of a layer for a request: none when recording is off. Only a layer
/// with a store records entry points, and only in `Record` mode.
pub open spec fn layer_plan(
    mode: ReplayMode,
    has_store: bool,
    header: Option<RecordId>,
    fresh: RecordId,
) -> Option<LayerPlan> {
    if mode == ReplayMode::Off {
        None
    } else {
        Some(
            LayerPlan {
                record_id: http_server::request_record(mode, header, fresh),
                mode,
                record_entry: has_store && mode == ReplayMode::Record,
            },
        )
    }
}

/// The plan of a layer for a request, with a fresh identifier at hand.
pub fn plan_layer(
    mode: ReplayMode,
    has_store: bool,
    header: Option<RecordId>,
    fresh: RecordId,
) -> (r: Option<LayerPlan>)
    ensures
        r == layer_plan(mode, has_store, header, fresh),
{
    if mode == ReplayMode::Off {
        None
    } else {
        Some(
            LayerPlan {
                record_id: record_for(mode, header, fresh),
                mode,
                record_entry: has_store && mode == ReplayMode::Record,
            },
        )
    }
}

/// The plan of a layer for a request, from its header. A replay that names its
/// recording in the hyphenated notation gets that one.
pub fn plan_layer_request(mode: ReplayMode, has_store: bool, header: Option<&str>) -> (r: Option<
    LayerPlan,
>)
    ensures
        exists|fresh: RecordId|
            ids::random_id(fresh) && r == #[trigger] layer_plan(
                mode,
                has_store,
                http_server::header_id(http_server::optional_str(header)),
                fresh,
            ),
        forall|id: RecordId|
            mode == ReplayMode::Replay && http_server::optional_str(header) == Some(
                #[trigger] ids::hyphenated(id),
            ) ==> r is Some && r->0.record_id == id,
{
    plan_layer(mode, has_store, id_from_header(header), fresh_id())
}

/// A layer records entry points in `Record` mode alone, and only with a store;
/// it does nothing at all when recording is off, and only a replay takes its
/// recording from a header.
pub proof fn lemma_what_a_layer_does(
    mode: ReplayMode,
    has_store: bool,
    named: RecordId,
    fresh: RecordId,
)
    ensures
        layer_plan(mode, has_store, Some(named), fresh) is None <==> mode == ReplayMode::Off,
        layer_plan(mode, has_store, Some(named), fresh) matches Some(p) ==> {
            &&& p.mode == mode
            &&& p.record_entry <==> has_store && mode == ReplayMode::Record
            &&& p.record_id == named <==> mode == ReplayMode::Replay || named == fresh
            &&& p.record_id == named || p.record_id == fresh
        },
        layer_plan(mode, has_store, None, fresh) matches Some(p) ==> p.record_id == fresh,
{
}

} // verus!
