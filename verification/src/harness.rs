//! Replay of recorded entry points against a running service.
//!
//! A recording is loaded, its entry point is sent to the service, and the
//! answer is compared with the recorded one. Loading and sending are up to
//! whoever drives the replay; what to send and what to conclude is said here.
use crate::diff;
use crate::difference;
use crate::http_server;
use crate::http_server::entry_response_json;
use crate::ids;
use crate::ids::{id_to_text, RecordId};
use crate::interaction;
use crate::interaction::{Interaction, InteractionView};
use crate::json;
use crate::json::{JsonTree, JsonValue};
use crate::manifest;
use crate::manifest::{ChangeManifest, ManifestView};
use crate::report;
use crate::report::InteractionDiffReport;
use crate::store;
use crate::store::StoreError;
use crate::text;
use crate::text::{concat, cut, same_text, split, trim, trim_end_char, trim_prefixes};
use crate::types::CallType;
use vstd::prelude::*;

verus! {

broadcast use json::lemma_value_view;

// ---------------------------------------------------------------------------
// Tokens
// ---------------------------------------------------------------------------

/// Pairs of a recorded token and the token to send in its place.
pub open spec fn pair_views(v: Seq<(String, String)>) -> Seq<(Seq<char>, Seq<char>)> {
    Seq::new(v.len(), |i: int| (v[i].0@, v[i].1@))
}

/// A text without surrounding whitespace.
pub open spec fn trimmed(s: Seq<char>) -> Seq<char> {
    text::trimmed_end(text::trimmed_start(s))
}

/// A pair `key:value`, if there is a colon; the first one counts.
pub open spec fn pair_of(s: Seq<char>) -> Option<(Seq<char>, Seq<char>)> {
    match text::cut_at(s, ':') {
        Some((a, b)) => Some((trimmed(a), trimmed(b))),
        None => None,
    }
}

/// The pairs among a list of texts.
pub open spec fn pairs_of(v: Seq<Seq<char>>) -> Seq<(Seq<char>, Seq<char>)>
    decreases v.len(),
{
    if v.len() == 0 {
        Seq::empty()
    } else {
        let before = pairs_of(v.drop_last());
        match pair_of(v.last()) {
            Some(p) => before.push(p),
            None => before,
        }
    }
}

/// What a token maps to: the value of the last pair with that key.
pub open spec fn mapped(pairs: Seq<(Seq<char>, Seq<char>)>, key: Seq<char>) -> Option<Seq<char>>
    decreases pairs.len(),
{
    if pairs.len() == 0 {
        None
    } else if pairs.last().0 == key {
        Some(pairs.last().1)
    } else {
        mapped(pairs.drop_last(), key)
    }
}

/// The token to send for a recorded one.
pub open spec fn translated(
    pairs: Seq<(Seq<char>, Seq<char>)>,
    token: Seq<char>,
) -> Seq<char> {
    match mapped(pairs, trimmed(text::without_prefixes(token, "Bearer "@))) {
        Some(t) => "Bearer "@ + t,
        None => token,
    }
}

/// Reads `recorded:test,other:value` into pairs.
pub fn parse_token_map(s: &str) -> (r: Vec<(String, String)>)
    ensures
        pair_views(r@) == pairs_of(text::split_on(s@, ',')),
{
    let pieces = split(s, ',');
    let ghost all = text::texts(pieces@);
    let mut out: Vec<(String, String)> = Vec::new();
    let mut i: usize = 0;
    proof {
        assert(all.take(0) =~= Seq::<Seq<char>>::empty());
        assert(pair_views(out@) =~= Seq::<(Seq<char>, Seq<char>)>::empty());
    }
    while i < pieces.len()
        invariant
            all == text::texts(pieces@),
            i <= pieces@.len(),
            pair_views(out@) == pairs_of(all.take(i as int)),
        decreases pieces.len() - i,
    {
        let ghost done = pair_views(out@);
        proof {
            assert(all.take(i + 1).drop_last() =~= all.take(i as int));
            assert(all.take(i + 1).last() == pieces@[i as int]@);
        }
        if let Some((a, b)) = cut(pieces[i].as_str(), ':') {
            let key = trim(a.as_str());
            let value = trim(b.as_str());
            let ghost p = (key@, value@);
            out.push((key, value));
            proof {
                assert(pair_views(out@) =~= done.push(p));
            }
        }
        i = i + 1;
    }
    proof {
        assert(all.take(i as int) =~= all);
    }
    out
}

/// What a token maps to.
fn find_token(pairs: &Vec<(String, String)>, key: &str) -> (r: Option<String>)
    ensures
        match mapped(pair_views(pairs@), key@) {
            Some(t) => r is Some && r->0@ == t,
            None => r is None,
        },
{
    let ghost all = pair_views(pairs@);
    let mut n: usize = pairs.len();
    proof {
        assert(all.take(n as int) =~= all);
    }
    while n > 0
        invariant
            all == pair_views(pairs@),
            n <= pairs@.len(),
            mapped(all.take(n as int), key@) == mapped(all, key@),
        decreases n,
    {
        proof {
            assert(all.take(n as int).last() == (pairs@[n - 1].0@, pairs@[n - 1].1@));
            assert(all.take(n as int).drop_last() =~= all.take(n - 1));
        }
        if same_text(pairs[n - 1].0.as_str(), key) {
            return Some(pairs[n - 1].1.clone());
        }
        n = n - 1;
    }
    None
}

/// The token to send for a recorded one.
pub fn translate_token(pairs: &Vec<(String, String)>, token: &str) -> (r: String)
    ensures
        r@ == translated(pair_views(pairs@), token@),
{
    let bare = trim(trim_prefixes(token, "Bearer ").as_str());
    match find_token(pairs, bare.as_str()) {
        Some(t) => concat("Bearer ", t.as_str()),
        None => token.to_owned(),
    }
}

// ---------------------------------------------------------------------------
// Replays
// ---------------------------------------------------------------------------

/// How a replay ended.
#[derive(Debug, Clone, PartialEq, Eq)]
pub enum HarnessStatus {
    /// The service answered as recorded.
    Passed,
    /// The answer regressed.
    Failed,
    /// The replay itself failed.
    Error(String),
}

/// What a [`HarnessStatus`] is.
pub enum HarnessView {
    Passed,
    Failed,
    Error(Seq<char>),
}

impl View for HarnessStatus {
    type V = HarnessView;

    open spec fn view(&self) -> HarnessView {
        match *self {
            HarnessStatus::Passed => HarnessView::Passed,
            HarnessStatus::Failed => HarnessView::Failed,
            HarnessStatus::Error(s) => HarnessView::Error(s@),
        }
    }
}

/// The outcome of replaying one recording.
#[derive(Debug)]
pub struct ReplayResult {
    pub record_id: RecordId,
    pub status: HarnessStatus,
    pub report: InteractionDiffReport,
    pub duration_ms: u64,
}

/// Configuration of a harness.
#[derive(Debug)]
pub struct HarnessConfig {
    /// Recorded tokens and the tokens to send in their place.
    pub token_map: Vec<(String, String)>,
    /// Declared intentional changes.
    pub manifest: ChangeManifest,
    /// Timeout of a request in seconds.
    pub timeout_secs: u64,
}

impl Clone for HarnessConfig {
    fn clone(&self) -> (r: HarnessConfig)
        ensures
            pair_views(r.token_map@) == pair_views(self.token_map@),
            r.manifest@ == self.manifest@,
            r.timeout_secs == self.timeout_secs,
    {
        let mut token_map: Vec<(String, String)> = Vec::new();
        let mut i: usize = 0;
        while i < self.token_map.len()
            invariant
                i <= self.token_map@.len(),
                token_map@.len() == i,
                forall|j: int|
                    0 <= j < i ==> (#[trigger] token_map@[j]).0@ == self.token_map@[j].0@
                        && token_map@[j].1@ == self.token_map@[j].1@,
            decreases self.token_map.len() - i,
        {
            token_map.push((self.token_map[i].0.clone(), self.token_map[i].1.clone()));
            i = i + 1;
        }
        proof {
            assert(pair_views(token_map@) =~= pair_views(self.token_map@));
        }
        HarnessConfig {
            token_map,
            manifest: self.manifest.clone(),
            timeout_secs: self.timeout_secs,
        }
    }
}

impl Default for HarnessConfig {
    fn default() -> (r: HarnessConfig)
        ensures
            r.token_map@.len() == 0,
            r.manifest@ == manifest::empty_manifest(),
            r.timeout_secs == 30,
    {
        HarnessConfig {
            token_map: Vec::new(),
            manifest: ChangeManifest::default(),
            timeout_secs: 30,
        }
    }
}

/// The report of a replay that failed itself.
pub open spec fn failed_report(record_id: RecordId, r: InteractionDiffReport) -> bool {
    &&& r.record_id == record_id
    &&& r.is_regression
    &&& r.matched == 0
    &&& r.missing_replays@.len() == 0
    &&& r.extra_replays@.len() == 0
    &&& r.mismatches@.len() == 0
}

/// The outcome of a replay that failed itself.
pub open spec fn failed_with(record_id: RecordId, message: Seq<char>, r: ReplayResult) -> bool {
    &&& r.record_id == record_id
    &&& r.status@ == HarnessView::Error(message)
    &&& failed_report(record_id, r.report)
    &&& r.duration_ms == 0
}

/// The outcome of a replay that failed itself.
pub fn error_result(record_id: RecordId, message: String) -> (r: ReplayResult)
    ensures
        failed_with(record_id, message@, r),
{
    ReplayResult {
        record_id,
        status: HarnessStatus::Error(message),
        report: InteractionDiffReport {
            record_id,
            is_regression: true,
            matched: 0,
            missing_replays: Vec::new(),
            extra_replays: Vec::new(),
            mismatches: Vec::new(),
        },
        duration_ms: 0,
    }
}

/// Takes over a recording that was loaded: a store that failed, and a
/// recording without interactions, end the replay.
pub fn after_load(record_id: RecordId, loaded: Result<Vec<Interaction>, StoreError>) -> (r: Result<
    Vec<Interaction>,
    ReplayResult,
>)
    ensures
        match (loaded, r) {
            (Ok(v), Ok(w)) => v@.len() > 0 && w == v,
            (Ok(v), Err(e)) => v@.len() == 0 && failed_with(
                record_id,
                "no recorded interactions"@,
                e,
            ),
            (Err(x), Err(e)) => failed_with(
                record_id,
                "store read: "@ + store::store_error_text(x),
                e,
            ),
            (Err(_), Ok(_)) => false,
        },
{
    match loaded {
        Ok(v) => if v.len() == 0 {
            Err(error_result(record_id, "no recorded interactions".to_owned()))
        } else {
            Ok(v)
        },
        Err(e) => Err(error_result(record_id, concat("store read: ", e.message().as_str()))),
    }
}

/// A request to send to the service.
#[derive(Debug, PartialEq)]
pub struct ReplayRequest {
    pub method: String,
    pub url: String,
    /// The value of the header that names the recording.
    pub record_id: String,
    /// The value of the authorization header, if it is sent.
    pub authorization: Option<String>,
}

/// A text in the recorded request, or a default.
pub open spec fn request_text(request: JsonTree, key: Seq<char>, default: Seq<char>) -> Seq<char> {
    match json::member(request, key) {
        Some(JsonTree::Text(s)) => s,
        _ => default,
    }
}

/// The authorization header of the recorded request, if it was recorded.
pub open spec fn recorded_authorization(request: JsonTree) -> Option<Seq<char>> {
    match json::member(request, "headers"@) {
        Some(h) => match json::member(h, "authorization"@) {
            Some(JsonTree::Text(s)) => Some(s),
            _ => None,
        },
        None => None,
    }
}

/// The request for an entry point: its method, the address of the service with
/// its path, and its token translated.
pub open spec fn request_for(
    record_id: RecordId,
    entry: InteractionView,
    target_url: Seq<char>,
    tokens: Seq<(Seq<char>, Seq<char>)>,
    r: ReplayRequest,
) -> bool {
    &&& r.method@ == request_text(entry.request, "method"@, "GET"@)
    &&& r.url@ == text::without_trailing(target_url, '/') + request_text(
        entry.request,
        "path"@,
        "/"@,
    )
    &&& r.record_id@ == ids::hyphenated(record_id)
    &&& match recorded_authorization(entry.request) {
        Some(t) => r.authorization is Some && r.authorization->0@ == translated(tokens, t),
        None => r.authorization is None,
    }
}

/// A text in the recorded request, or a default.
fn text_or(request: &JsonValue, key: &str, default: &str) -> (r: String)
    ensures
        r@ == request_text(request@, key@, default@),
{
    match request.get(key) {
        Some(v) => match v.as_str() {
            Some(s) => s.to_owned(),
            None => default.to_owned(),
        },
        None => default.to_owned(),
    }
}

/// The request for an entry point.
pub fn build_request(
    record_id: RecordId,
    entry: &Interaction,
    target_url: &str,
    tokens: &Vec<(String, String)>,
) -> (r: ReplayRequest)
    ensures
        request_for(record_id, entry@, target_url@, pair_views(tokens@), r),
{
    let method = text_or(&entry.request, "method", "GET");
    let path = text_or(&entry.request, "path", "/");
    let base = trim_end_char(target_url, '/');
    let authorization = match entry.request.get("headers") {
        Some(h) => match h.get("authorization") {
            Some(JsonValue::Text(t)) => Some(translate_token(tokens, t.as_str())),
            _ => None,
        },
        None => None,
    };
    ReplayRequest {
        method,
        url: concat(base.as_str(), path.as_str()),
        record_id: id_to_text(record_id),
        authorization,
    }
}

/// Takes over the entry point of a recording: without one the replay ends,
/// with one there is a request to send.
pub fn after_entry(
    record_id: RecordId,
    entry: Result<Option<Interaction>, StoreError>,
    target_url: &str,
    tokens: &Vec<(String, String)>,
) -> (r: Result<ReplayRequest, ReplayResult>)
    ensures
        match (entry, r) {
            (Ok(Some(e)), Ok(q)) => request_for(
                record_id,
                e@,
                target_url@,
                pair_views(tokens@),
                q,
            ),
            (Ok(None), Err(e)) => failed_with(
                record_id,
                "no entry-point (sequence=0) found"@,
                e,
            ),
            (Err(x), Err(e)) => failed_with(
                record_id,
                "entry-point load: "@ + store::store_error_text(x),
                e,
            ),
            _ => false,
        },
{
    match entry {
        Ok(Some(e)) => Ok(build_request(record_id, &e, target_url, tokens)),
        Ok(None) => Err(error_result(record_id, "no entry-point (sequence=0) found".to_owned())),
        Err(e) => Err(error_result(record_id, concat("entry-point load: ", e.message().as_str()))),
    }
}

/// The outcome of a request that could not be sent.
pub fn after_failed_request(record_id: RecordId, error: &str) -> (r: ReplayResult)
    ensures
        failed_with(record_id, "HTTP request failed: "@ + error@, r),
{
    error_result(record_id, concat("HTTP request failed: ", error))
}

/// The position of the entry point of a recording among its interactions, or
/// their number if there is none.
pub open spec fn entry_index(record_id: RecordId, calls: Seq<InteractionView>) -> int
    decreases calls.len(),
{
    if calls.len() == 0 {
        0
    } else if store::entry_point_of(record_id)(calls[0]) {
        0
    } else {
        1 + entry_index(record_id, calls.skip(1))
    }
}

/// The interactions of a replay: those of the recording, with the answer of
/// the service in place of that of the recorded entry point.
pub open spec fn replayed(
    record_id: RecordId,
    recorded: Seq<InteractionView>,
    status: u16,
    body: JsonTree,
) -> Seq<InteractionView> {
    let k = entry_index(record_id, recorded);
    if k < recorded.len() {
        recorded.update(
            k,
            InteractionView {
                response: http_server::entry_response(status, body),
                ..recorded[k]
            },
        )
    } else {
        recorded
    }
}

/// The interactions of a replay.
pub fn replayed_interactions(
    record_id: RecordId,
    recorded: &Vec<Interaction>,
    status: u16,
    body: &JsonValue,
) -> (r: Vec<Interaction>)
    ensures
        interaction::interaction_views(r@) == replayed(
            record_id,
            interaction::interaction_views(recorded@),
            status,
            body@,
        ),
{
    let ghost all = interaction::interaction_views(recorded@);
    let mut out: Vec<Interaction> = Vec::new();
    let mut seen = false;
    let mut i: usize = 0;
    proof {
        lemma_entry_index(record_id, all);
    }
    while i < recorded.len()
        invariant
            all == interaction::interaction_views(recorded@),
            i <= recorded@.len(),
            out@.len() == i,
            0 <= entry_index(record_id, all) <= all.len(),
            entry_index(record_id, all) < all.len() ==> store::entry_point_of(record_id)(
                all[entry_index(record_id, all)],
            ),
            forall|j: int|
                0 <= j < entry_index(record_id, all) ==> !store::entry_point_of(record_id)(
                    #[trigger] all[j],
                ),
            seen == (entry_index(record_id, all) < i),
            forall|j: int|
                0 <= j < i ==> (#[trigger] out@[j])@ == replayed(record_id, all, status, body@)[j],
        decreases recorded.len() - i,
    {
        let mut copy = recorded[i].duplicate();
        proof {
            assert(all[i as int] == recorded@[i as int]@);
        }
        if !seen && recorded[i].record_id == record_id && recorded[i].sequence == 0
            && recorded[i].call_type == CallType::Http {
            copy.response = entry_response_json(status, body);
            seen = true;
        }
        out.push(copy);
        i = i + 1;
    }
    proof {
        assert(interaction::interaction_views(out@) =~= replayed(record_id, all, status, body@));
    }
    out
}

proof fn lemma_entry_index(record_id: RecordId, calls: Seq<InteractionView>)
    ensures
        0 <= entry_index(record_id, calls) <= calls.len(),
        entry_index(record_id, calls) < calls.len() ==> store::entry_point_of(record_id)(
            calls[entry_index(record_id, calls)],
        ),
        forall|j: int|
            0 <= j < entry_index(record_id, calls) ==> !store::entry_point_of(record_id)(
                #[trigger] calls[j],
            ),
    decreases calls.len(),
{
    if calls.len() > 0 && !store::entry_point_of(record_id)(calls[0]) {
        lemma_entry_index(record_id, calls.skip(1));
        assert forall|j: int| 0 <= j < entry_index(record_id, calls) implies !store::entry_point_of(
            record_id,
        )(#[trigger] calls[j]) by {
            if j > 0 {
                assert(calls.skip(1)[j - 1] == calls[j]);
            }
        }
    }
}

/// The outcome of a replay that the service answered: the recording is
/// compared with itself but for the answer of its entry point.
pub fn after_response(
    record_id: RecordId,
    recorded: &Vec<Interaction>,
    status: u16,
    body: &JsonValue,
    manifest: &ChangeManifest,
    duration_ms: u64,
) -> (r: ReplayResult)
    ensures
        r.record_id == record_id,
        report::reports(
            r.report,
            record_id,
            interaction::interaction_views(recorded@),
            replayed(record_id, interaction::interaction_views(recorded@), status, body@),
            manifest@,
        ),
        r.status@ == (if r.report.is_regression {
            HarnessView::Failed
        } else {
            HarnessView::Passed
        }),
        r.duration_ms == duration_ms,
{
    let other = replayed_interactions(record_id, recorded, status, body);
    let report = InteractionDiffReport::compare_with_manifest(
        record_id,
        recorded.as_slice(),
        other.as_slice(),
        manifest,
    );
    let status = if report.is_regression {
        HarnessStatus::Failed
    } else {
        HarnessStatus::Passed
    };
    ReplayResult { record_id, status, report, duration_ms }
}

// ---------------------------------------------------------------------------
// Laws
// ---------------------------------------------------------------------------

/// A service that answers as recorded passes: with the recorded status and
/// body nothing differs.
pub proof fn lemma_same_answer_passes(
    m: ManifestView,
    record_id: RecordId,
    recorded: Seq<InteractionView>,
    status: u16,
    body: JsonTree,
)
    requires
        forall|i: int, j: int|
            0 <= i < j < recorded.len() ==> (#[trigger] recorded[i]).sequence != (
            #[trigger] recorded[j]).sequence,
        forall|i: int|
            0 <= i < recorded.len() ==> json::well_formed((#[trigger] recorded[i]).response),
        entry_index(record_id, recorded) < recorded.len() ==> recorded[entry_index(
            record_id,
            recorded,
        )].response == http_server::entry_response(status, body),
    ensures
        replayed(record_id, recorded, status, body) == recorded,
        report::pair_mismatches(m, recorded, replayed(record_id, recorded, status, body)).len()
            == 0,
        report::unmatched(recorded, replayed(record_id, recorded, status, body)).len() == 0,
        !report::regresses(m, recorded, replayed(record_id, recorded, status, body)),
{
    lemma_entry_index(record_id, recorded);
    assert(replayed(record_id, recorded, status, body) =~= recorded);
    report::lemma_identical_recordings_pass(m, recorded);
}

/// The answer of the service lands in the very call that the store names as
/// the entry point.
pub proof fn lemma_answer_lands_in_entry_point(
    record_id: RecordId,
    recorded: Seq<InteractionView>,
    status: u16,
    body: JsonTree,
)
    ensures
        match store::find_first(recorded, store::entry_point_of(record_id)) {
            Some(e) => entry_index(record_id, recorded) < recorded.len()
                && recorded[entry_index(record_id, recorded)] == e && replayed(
                record_id,
                recorded,
                status,
                body,
            )[entry_index(record_id, recorded)] == (InteractionView {
                response: http_server::entry_response(status, body),
                ..e
            }),
            None => replayed(record_id, recorded, status, body) == recorded,
        },
{
    let p = store::entry_point_of(record_id);
    let at = entry_index(record_id, recorded);
    lemma_entry_index(record_id, recorded);
    store::lemma_find_first(recorded, p);
    if let Some(e) = store::find_first(recorded, p) {
        let k = choose|k: int|
            0 <= k < recorded.len() && #[trigger] recorded[k] == e && p(e) && forall|j: int|
                0 <= j < k ==> !p(#[trigger] recorded[j]);
        if at < k {
            assert(!p(recorded[at]));
        }
        if k < at {
            assert(!p(recorded[k]));
        }
    } else if at < recorded.len() {
        assert(!p(recorded[at]));
    }
}

/// A replay never misses a recorded call: only the answer of the entry point
/// can make it fail.
pub proof fn lemma_replay_misses_nothing(
    record_id: RecordId,
    recorded: Seq<InteractionView>,
    status: u16,
    body: JsonTree,
    s: u32,
)
    ensures
        report::has_sequence(recorded, s) <==> report::has_sequence(
            replayed(record_id, recorded, status, body),
            s,
        ),
{
    let other = replayed(record_id, recorded, status, body);
    lemma_entry_index(record_id, recorded);
    if report::has_sequence(recorded, s) {
        let i = choose|i: int|
            0 <= i < recorded.len() && (#[trigger] recorded[i]).sequence == s;
        assert(other[i].sequence == s);
    }
    if report::has_sequence(other, s) {
        let i = choose|i: int| 0 <= i < other.len() && (#[trigger] other[i]).sequence == s;
        assert(recorded[i].sequence == s);
    }
}

/// A recorded entry point is sent again: the method that was recorded, and the
/// path that was recorded at the address of the service. How many slashes the
/// address ends in does not matter.
pub proof fn lemma_recorded_entry_is_sent_again(
    record_id: RecordId,
    entry: InteractionView,
    method: Seq<char>,
    path: Seq<char>,
    body: JsonTree,
    base: Seq<char>,
    target_url: Seq<char>,
    tokens: Seq<(Seq<char>, Seq<char>)>,
    r: ReplayRequest,
)
    requires
        entry.request == http_server::entry_request(method, path, body),
        base.len() == 0 || base.last() != '/',
        base.len() <= target_url.len(),
        base == target_url.take(base.len() as int),
        forall|i: int| base.len() <= i < target_url.len() ==> #[trigger] target_url[i] == '/',
        request_for(record_id, entry, target_url, tokens, r),
    ensures
        r.method@ == method,
        r.url@ == text::without_trailing(target_url, '/') + path,
        r.url@ == base + path,
        r.record_id@ == ids::hyphenated(record_id),
        r.authorization is None,
{
    http_server::lemma_entry_request_fields(method, path, body);
    text::lemma_without_trailing(target_url, '/');
    let w = text::without_trailing(target_url, '/');
    if w.len() < base.len() {
        assert(target_url[base.len() - 1] == '/');
        assert(base.last() == target_url[base.len() - 1]);
    }
    if w.len() > base.len() {
        assert(target_url[w.len() - 1] == '/');
        assert(w.last() == target_url[w.len() - 1]);
    }
    assert(w =~= base);
}

/// A request is read off the recorded one: what was recorded is sent, and what
/// was not, or is no text, is a `GET` of `/` without authorization.
pub proof fn lemma_request_says_what_was_recorded(
    record_id: RecordId,
    entry: InteractionView,
    target_url: Seq<char>,
    tokens: Seq<(Seq<char>, Seq<char>)>,
    r: ReplayRequest,
    s: Seq<char>,
    headers: JsonTree,
)
    requires
        request_for(record_id, entry, target_url, tokens, r),
    ensures
        json::member(entry.request, "method"@) == Some(JsonTree::Text(s)) ==> r.method@ == s,
        json::member(entry.request, "method"@) is None ==> r.method@ == "GET"@,
        json::member(entry.request, "path"@) == Some(JsonTree::Text(s))
            ==> text::has_suffix(r.url@, s),
        json::member(entry.request, "path"@) is None ==> text::has_suffix(r.url@, "/"@),
        json::member(entry.request, "headers"@) is None ==> r.authorization is None,
        json::member(entry.request, "headers"@) == Some(headers) && json::member(
            headers,
            "authorization"@,
        ) is None ==> r.authorization is None,
        json::member(entry.request, "headers"@) == Some(headers) && json::member(
            headers,
            "authorization"@,
        ) == Some(JsonTree::Text(s)) ==> r.authorization is Some && r.authorization->0@
            == translated(tokens, s),
{
    let base = text::without_trailing(target_url, '/');
    let path = request_text(entry.request, "path"@, "/"@);
    let url = base + path;
    assert(url.subrange(url.len() - path.len(), url.len() as int) =~= path);
}

/// A recorded token with an entry in the map is sent as that entry, with or
/// without `Bearer` in front of it; of two entries for one token the later
/// counts, and entries for other tokens do not matter.
pub proof fn lemma_token_is_translated(
    pairs: Seq<(Seq<char>, Seq<char>)>,
    later: Seq<(Seq<char>, Seq<char>)>,
    token: Seq<char>,
    sent: Seq<char>,
)
    requires
        token.len() > 0 ==> !text::whitespace(token[0]) && !text::whitespace(token.last()),
        !text::has_prefix(token, "Bearer "@),
        forall|i: int| 0 <= i < later.len() ==> (#[trigger] later[i]).0 != token,
    ensures
        translated(pairs.push((token, sent)) + later, "Bearer "@ + token) == "Bearer "@ + sent,
        translated(pairs.push((token, sent)) + later, token) == "Bearer "@ + sent,
{
    reveal_strlit("Bearer ");
    text::lemma_without_prefixes("Bearer "@, token);
    text::lemma_trimmed_already(token);
    lemma_mapped(pairs.push((token, sent)), later, token);
    assert(pairs.push((token, sent)).last() == (token, sent));
}

/// A recorded token without an entry in the map is sent as it is.
pub proof fn lemma_unmapped_token_is_kept(pairs: Seq<(Seq<char>, Seq<char>)>, token: Seq<char>)
    requires
        token.len() > 0 ==> !text::whitespace(token[0]) && !text::whitespace(token.last()),
        !text::has_prefix(token, "Bearer "@),
        forall|i: int| 0 <= i < pairs.len() ==> (#[trigger] pairs[i]).0 != token,
    ensures
        translated(pairs, "Bearer "@ + token) == "Bearer "@ + token,
        translated(pairs, token) == token,
{
    reveal_strlit("Bearer ");
    text::lemma_without_prefixes("Bearer "@, token);
    text::lemma_trimmed_already(token);
    let none = Seq::<(Seq<char>, Seq<char>)>::empty();
    lemma_mapped(none, pairs, token);
    assert(none + pairs =~= pairs);
}

proof fn lemma_mapped(
    pairs: Seq<(Seq<char>, Seq<char>)>,
    later: Seq<(Seq<char>, Seq<char>)>,
    key: Seq<char>,
)
    requires
        forall|i: int| 0 <= i < later.len() ==> (#[trigger] later[i]).0 != key,
    ensures
        mapped(pairs + later, key) == mapped(pairs, key),
    decreases later.len(),
{
    if later.len() == 0 {
        assert(pairs + later =~= pairs);
    } else {
        let front = later.drop_last();
        assert((pairs + later).drop_last() =~= pairs + front);
        assert(later[later.len() - 1].0 != key);
        assert forall|i: int| 0 <= i < front.len() implies (#[trigger] front[i]).0 != key by {
            assert(front[i] == later[i]);
        }
        lemma_mapped(pairs, front, key);
    }
}

/// A token map is read entry by entry: `key:value` in front of a comma is one
/// entry, without the whitespace around its two parts, and what follows the
/// comma is read in the same way. Only the first colon separates. An entry
/// without a colon is none.
pub proof fn lemma_token_map_by_entries(key: Seq<char>, value: Seq<char>, rest: Seq<char>)
    requires
        forall|i: int| 0 <= i < key.len() ==> #[trigger] key[i] != ':' && key[i] != ',',
        forall|i: int| 0 <= i < value.len() ==> #[trigger] value[i] != ',',
    ensures
        pairs_of(text::split_on(key + seq![':'] + value + seq![','] + rest, ',')) == seq![
            (trimmed(key), trimmed(value)),
        ] + pairs_of(text::split_on(rest, ',')),
        pairs_of(text::split_on(key + seq![','] + rest, ',')) == pairs_of(
            text::split_on(rest, ','),
        ),
{
    let entry = key + seq![':'] + value;
    text::lemma_cut_at(key, ':', value);
    text::lemma_split_after(entry, ',', rest);
    lemma_pairs_concat(seq![entry], text::split_on(rest, ','));
    assert(seq![entry].drop_last() =~= Seq::<Seq<char>>::empty());
    assert(pairs_of(seq![entry].drop_last()).len() == 0);
    assert(seq![entry].last() == entry);
    assert(pair_of(entry) == Some((trimmed(key), trimmed(value))));
    assert(pairs_of(seq![entry]) =~= seq![(trimmed(key), trimmed(value))]);
    text::lemma_split_after(key, ',', rest);
    lemma_pairs_concat(seq![key], text::split_on(rest, ','));
    assert(seq![key].drop_last() =~= Seq::<Seq<char>>::empty());
    let none = Seq::<(Seq<char>, Seq<char>)>::empty();
    assert(pairs_of(seq![key]) =~= none);
    let others = pairs_of(text::split_on(rest, ','));
    assert(none + others =~= others);
}

proof fn lemma_pairs_concat(a: Seq<Seq<char>>, b: Seq<Seq<char>>)
    ensures
        pairs_of(a + b) == pairs_of(a) + pairs_of(b),
    decreases b.len(),
{
    if b.len() == 0 {
        assert(a + b =~= a);
        assert(pairs_of(a) + pairs_of(b) =~= pairs_of(a));
    } else {
        lemma_pairs_concat(a, b.drop_last());
        assert((a + b).drop_last() =~= a + b.drop_last());
        assert(pairs_of(a + b) =~= pairs_of(a) + pairs_of(b));
    }
}

/// A service that answers with another status than the recorded one fails,
/// whatever its body, unless a manifest declares the status.
pub proof fn lemma_other_status_fails(
    m: ManifestView,
    record_id: RecordId,
    recorded: Seq<InteractionView>,
    k: int,
    status: u16,
    body: JsonTree,
    answer: u16,
    other: JsonTree,
)
    requires
        0 <= k < recorded.len(),
        recorded[k].record_id == record_id,
        recorded[k].sequence == 0,
        recorded[k].call_type == CallType::Http,
        recorded[k].response == http_server::entry_response(status, body),
        forall|i: int| 0 <= i < recorded.len() && i != k ==> (#[trigger] recorded[i]).sequence != 0,
        answer != status,
        forall|c: int|
            0 <= c < m.changes.len() ==> !difference::ends_in(
                "status"@,
                (#[trigger] m.changes[c]).pattern,
            ),
    ensures
        report::regresses(m, recorded, replayed(record_id, recorded, answer, other)),
{
    let again = replayed(record_id, recorded, answer, other);
    lemma_entry_index(record_id, recorded);
    let at = entry_index(record_id, recorded);
    if at < k {
        assert(recorded[at].sequence != 0);
    }
    if at > k {
        assert(!store::entry_point_of(record_id)(recorded[k]));
    }
    assert(again[k].response == http_server::entry_response(answer, other));
    assert forall|j: int| k < j < again.len() implies (#[trigger] again[j]).sequence
        != recorded[k].sequence by {
        assert(recorded[j].sequence != 0);
    }
    http_server::lemma_entry_status(status, body);
    http_server::lemma_entry_status(answer, other);
    let old = JsonTree::Number(json::NumberView::Int(status as int));
    let new = JsonTree::Number(json::NumberView::Int(answer as int));
    let names = difference::default_names();
    let top = Seq::<char>::empty();
    match (recorded[k].response, again[k].response) {
        (JsonTree::Object(o), JsonTree::Object(n)) => {
            let nodes = diff::diff_nodes(names, JsonTree::Object(o), JsonTree::Object(n), top);
            assert forall|i: int| 0 <= i < names.len() implies !difference::ends_in(
                "status"@,
                #[trigger] names[i],
            ) by {
                difference::lemma_status_is_not_ruled(i);
            }
            difference::lemma_unnamed_change_is_a_regression(names, "status"@, old, new);
            let node = diff::NodeView {
                path: "status"@,
                old_value: old,
                new_value: new,
                category: diff::DiffCategory::Regression,
            };
            let one = diff::diff_nodes(names, old, new, "status"@);
            assert(one[0] == node);
            difference::lemma_differences_of_a_field(
                names,
                o,
                n,
                top,
                "status"@,
                old,
                new,
                node,
            );
            let j = choose|j: int| 0 <= j < nodes.len() && nodes[j] == node;
            difference::lemma_manifest_on_a_node(m, nodes, j, 0);
            let left = diff::with_manifest(m, nodes);
            assert(left[j].category == diff::DiffCategory::Regression);
            assert(nodes == report::default_diff(recorded[k].response, again[k].response));
        },
        _ => {},
    }
    report::lemma_regressing_pair_fails(m, recorded, again, k, k);
}

} // verus!
