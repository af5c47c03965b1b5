//! Comparison of a recording with its replay.
//!
//! Interactions are matched by sequence number and the responses of each pair
//! are compared. A recorded call without a replayed one is missing, and a
//! regression; a replayed call without a recorded one is extra, and none.
use crate::diff;
use crate::diff::{DiffCategory, DiffEngine, DiffNode, DiffReport, NodeView};
use crate::ids;
use crate::ids::{id_to_text, RecordId};
use crate::interaction;
use crate::interaction::{Interaction, InteractionView};
use crate::json;
use crate::json::{JsonTree, JsonValue, NumberView};
use crate::json_codec;
use crate::manifest;
use crate::manifest::{ChangeManifest, ManifestView};
use crate::text;
use crate::text::{decimal_text, replace};
use std::collections::{HashMap, HashSet};
use vstd::prelude::*;
use vstd::string::*;

verus! {

broadcast use {json::lemma_value_view, vstd::std_specs::hash::group_hash_axioms};

// ---------------------------------------------------------------------------
// The report
// ---------------------------------------------------------------------------

/// The differences of one matched pair.
#[derive(Debug, PartialEq)]
pub struct InteractionMismatch {
    /// Sequence number in the recording.
    pub sequence: u32,
    /// Fingerprint of the recorded call.
    pub fingerprint: String,
    /// The differences between the responses.
    pub diff: DiffReport,
}

/// The comparison of one recording with one replay.
#[derive(Debug, PartialEq)]
pub struct InteractionDiffReport {
    pub record_id: RecordId,
    /// Whether some pair regressed or some recorded call was not replayed.
    pub is_regression: bool,
    /// Number of recorded calls that have a replayed counterpart.
    pub matched: usize,
    /// Sequence numbers of recorded calls without a replayed counterpart.
    pub missing_replays: Vec<u32>,
    /// Sequence numbers of replayed calls without a recorded counterpart.
    pub extra_replays: Vec<u32>,
    /// The differences of the matched pairs that differ.
    pub mismatches: Vec<InteractionMismatch>,
}

/// What an [`InteractionMismatch`] is.
pub struct MismatchView {
    pub sequence: u32,
    pub fingerprint: Seq<char>,
    pub nodes: Seq<NodeView>,
    pub is_regression: bool,
}

impl View for InteractionMismatch {
    type V = MismatchView;

    open spec fn view(&self) -> MismatchView {
        MismatchView {
            sequence: self.sequence,
            fingerprint: self.fingerprint@,
            nodes: diff::node_views(self.diff.nodes@),
            is_regression: self.diff.is_regression,
        }
    }
}

/// The views of a list of mismatches.
pub open spec fn mismatch_views(v: Seq<InteractionMismatch>) -> Seq<MismatchView> {
    Seq::new(v.len(), |i: int| v[i]@)
}

impl Clone for InteractionMismatch {
    fn clone(&self) -> (r: InteractionMismatch)
        ensures
            r@ == self@,
    {
        InteractionMismatch {
            sequence: self.sequence,
            fingerprint: self.fingerprint.clone(),
            diff: self.diff.clone(),
        }
    }
}

/// The position of the last interaction with a sequence number, or -1.
pub open spec fn last_with(calls: Seq<InteractionView>, sequence: u32) -> int
    decreases calls.len(),
{
    if calls.len() == 0 {
        -1
    } else if calls.last().sequence == sequence {
        calls.len() - 1
    } else {
        last_with(calls.drop_last(), sequence)
    }
}

/// Some interaction has the sequence number.
pub open spec fn has_sequence(calls: Seq<InteractionView>, sequence: u32) -> bool {
    exists|i: int| 0 <= i < calls.len() && (#[trigger] calls[i]).sequence == sequence
}

/// The differences between two responses under the default rules.
pub open spec fn default_diff(recorded: JsonTree, replayed: JsonTree) -> Seq<NodeView> {
    diff::diff_nodes(
        Seq::new(diff::default_rules().len(), |i: int| diff::default_rules()[i].0),
        recorded,
        replayed,
        Seq::empty(),
    )
}

/// The differences between two responses under the default rules, after a
/// manifest was applied.
pub open spec fn response_diff(
    m: ManifestView,
    recorded: JsonTree,
    replayed: JsonTree,
) -> Seq<NodeView> {
    diff::with_manifest(m, default_diff(recorded, replayed))
}

/// The sequence numbers of the interactions in `a` that have none in `b`.
pub open spec fn unmatched(a: Seq<InteractionView>, b: Seq<InteractionView>) -> Seq<u32>
    decreases a.len(),
{
    if a.len() == 0 {
        Seq::empty()
    } else {
        let before = unmatched(a.drop_last(), b);
        if has_sequence(b, a.last().sequence) {
            before
        } else {
            before.push(a.last().sequence)
        }
    }
}

/// The number of interactions in `a` that have one in `b`.
pub open spec fn matched_count(a: Seq<InteractionView>, b: Seq<InteractionView>) -> nat
    decreases a.len(),
{
    if a.len() == 0 {
        0
    } else {
        matched_count(a.drop_last(), b) + (if has_sequence(b, a.last().sequence) {
            1nat
        } else {
            0nat
        })
    }
}

/// The mismatches of the matched pairs, in the order of the recording. Where
/// several replayed calls share a sequence number, the last one counts.
pub open spec fn pair_mismatches(
    m: ManifestView,
    recorded: Seq<InteractionView>,
    replayed: Seq<InteractionView>,
) -> Seq<MismatchView>
    decreases recorded.len(),
{
    if recorded.len() == 0 {
        Seq::empty()
    } else {
        let before = pair_mismatches(m, recorded.drop_last(), replayed);
        let rec = recorded.last();
        let k = last_with(replayed, rec.sequence);
        if k < 0 {
            before
        } else {
            let nodes = response_diff(m, rec.response, replayed[k].response);
            if nodes.len() == 0 {
                before
            } else {
                before.push(
                    MismatchView {
                        sequence: rec.sequence,
                        fingerprint: rec.fingerprint,
                        nodes,
                        is_regression: diff::has_regression(nodes),
                    },
                )
            }
        }
    }
}

/// Some mismatch is a regression.
pub open spec fn any_mismatch_regresses(v: Seq<MismatchView>) -> bool {
    exists|i: int| 0 <= i < v.len() && (#[trigger] v[i]).is_regression
}

/// The verdict on a replay: some pair regressed, or some recorded call was not
/// replayed.
pub open spec fn regresses(
    m: ManifestView,
    recorded: Seq<InteractionView>,
    replayed: Seq<InteractionView>,
) -> bool {
    any_mismatch_regresses(pair_mismatches(m, recorded, replayed)) || unmatched(
        recorded,
        replayed,
    ).len() > 0
}

/// What an [`InteractionDiffReport`] says of a recording and its replay.
pub open spec fn reports(
    r: InteractionDiffReport,
    record_id: RecordId,
    recorded: Seq<InteractionView>,
    replayed: Seq<InteractionView>,
    m: ManifestView,
) -> bool {
    &&& r.record_id == record_id
    &&& r.matched == matched_count(recorded, replayed)
    &&& r.missing_replays@ == unmatched(recorded, replayed)
    &&& r.extra_replays@ == unmatched(replayed, recorded)
    &&& mismatch_views(r.mismatches@) == pair_mismatches(m, recorded, replayed)
    &&& r.is_regression == regresses(m, recorded, replayed)
}

proof fn lemma_last_with(calls: Seq<InteractionView>, sequence: u32)
    ensures
        -1 <= last_with(calls, sequence) < calls.len(),
        last_with(calls, sequence) >= 0 <==> has_sequence(calls, sequence),
        last_with(calls, sequence) >= 0 ==> calls[last_with(calls, sequence)].sequence == sequence,
        forall|i: int|
            last_with(calls, sequence) < i < calls.len() ==> (#[trigger] calls[i]).sequence
                != sequence,
    decreases calls.len(),
{
    if calls.len() > 0 && calls.last().sequence != sequence {
        let front = calls.drop_last();
        lemma_last_with(front, sequence);
        if has_sequence(calls, sequence) {
            let i = choose|i: int|
                0 <= i < calls.len() && (#[trigger] calls[i]).sequence == sequence;
            assert(front[i].sequence == sequence);
        }
        if has_sequence(front, sequence) {
            let i = choose|i: int|
                0 <= i < front.len() && (#[trigger] front[i]).sequence == sequence;
            assert(calls[i].sequence == sequence);
        }
        assert forall|i: int| last_with(calls, sequence) < i < calls.len() implies (
        #[trigger] calls[i]).sequence != sequence by {
            if i < front.len() {
                assert(front[i] == calls[i]);
            }
        }
    } else if calls.len() > 0 {
        assert(calls[calls.len() - 1].sequence == sequence);
    }
}

/// The last position of each sequence number.
fn index_by_sequence(calls: &[Interaction]) -> (r: HashMap<u32, usize>)
    ensures
        forall|s: u32| #[trigger]
            r@.contains_key(s) <==> last_with(interaction::interaction_views(calls@), s) >= 0,
        forall|s: u32| #[trigger]
            r@.contains_key(s) ==> r@[s] == last_with(
                interaction::interaction_views(calls@),
                s,
            ),
{
    let ghost views = interaction::interaction_views(calls@);
    let mut index: HashMap<u32, usize> = HashMap::new();
    let mut i: usize = 0;
    proof {
        assert(views.take(0) =~= Seq::<InteractionView>::empty());
    }
    while i < calls.len()
        invariant
            views == interaction::interaction_views(calls@),
            i <= calls@.len(),
            forall|s: u32| #[trigger]
                index@.contains_key(s) <==> last_with(views.take(i as int), s) >= 0,
            forall|s: u32| #[trigger]
                index@.contains_key(s) ==> index@[s] == last_with(views.take(i as int), s),
        decreases calls.len() - i,
    {
        proof {
            assert(views.take(i + 1).drop_last() =~= views.take(i as int));
            assert(views.take(i + 1).last() == calls@[i as int]@);
        }
        index.insert(calls[i].sequence, i);
        i = i + 1;
    }
    proof {
        assert(views.take(i as int) =~= views);
    }
    index
}

/// The sequence numbers that occur.
fn sequences(calls: &[Interaction]) -> (r: HashSet<u32>)
    ensures
        forall|s: u32| #[trigger]
            r@.contains(s) <==> has_sequence(interaction::interaction_views(calls@), s),
{
    let ghost views = interaction::interaction_views(calls@);
    let mut set: HashSet<u32> = HashSet::new();
    let mut i: usize = 0;
    while i < calls.len()
        invariant
            views == interaction::interaction_views(calls@),
            i <= calls@.len(),
            forall|s: u32| #[trigger] set@.contains(s) <==> has_sequence(views.take(i as int), s),
        decreases calls.len() - i,
    {
        let ghost set0 = set@;
        set.insert(calls[i].sequence);
        proof {
            assert forall|s: u32| #[trigger] set@.contains(s) <==> has_sequence(
                views.take(i + 1),
                s,
            ) by {
                lemma_last_with(views.take(i as int), s);
                lemma_last_with(views.take(i + 1), s);
                assert(views.take(i + 1).drop_last() =~= views.take(i as int));
                assert(views.take(i + 1).last() == calls@[i as int]@);
                assert(set0.contains(s) <==> has_sequence(views.take(i as int), s));
            }
        }
        i = i + 1;
    }
    proof {
        assert(views.take(i as int) =~= views);
    }
    set
}

impl InteractionDiffReport {
    /// Compares a recording with its replay.
    pub fn compare(record_id: RecordId, recorded: &[Interaction], replayed: &[Interaction]) -> (r:
        InteractionDiffReport)
        ensures
            reports(
                r,
                record_id,
                interaction::interaction_views(recorded@),
                interaction::interaction_views(replayed@),
                manifest::empty_manifest(),
            ),
    {
        InteractionDiffReport::compare_with_manifest(
            record_id,
            recorded,
            replayed,
            &ChangeManifest::default(),
        )
    }

    /// Compares a recording with its replay, with the declared changes taken
    /// as intentional.
    pub fn compare_with_manifest(
        record_id: RecordId,
        recorded: &[Interaction],
        replayed: &[Interaction],
        manifest: &ChangeManifest,
    ) -> (r: InteractionDiffReport)
        ensures
            reports(
                r,
                record_id,
                interaction::interaction_views(recorded@),
                interaction::interaction_views(replayed@),
                manifest@,
            ),
    {
        let engine = DiffEngine::new();
        let ghost rec_views = interaction::interaction_views(recorded@);
        let ghost rep_views = interaction::interaction_views(replayed@);
        let ghost names = Seq::new(
            diff::default_rules().len(),
            |i: int| diff::default_rules()[i].0,
        );
        proof {
            assert(diff::rule_names(engine.rules()) =~= names) by {
                assert(diff::rule_views(engine.rules()) == diff::default_rules());
                assert forall|i: int| 0 <= i < names.len() implies #[trigger] diff::rule_names(
                    engine.rules(),
                )[i] == names[i] by {
                    assert(diff::rule_views(engine.rules())[i] == diff::default_rules()[i]);
                }
            }
            assert(rec_views.take(0) =~= Seq::<InteractionView>::empty());
            assert(rep_views.take(0) =~= Seq::<InteractionView>::empty());
        }
        let by_sequence = index_by_sequence(replayed);
        let mut mismatches: Vec<InteractionMismatch> = Vec::new();
        let mut missing: Vec<u32> = Vec::new();
        let mut matched: usize = 0;
        let mut regresses = false;
        let mut i: usize = 0;
        proof {
            assert(mismatch_views(mismatches@) =~= Seq::<MismatchView>::empty());
        }
        while i < recorded.len()
            invariant
                rec_views == interaction::interaction_views(recorded@),
                rep_views == interaction::interaction_views(replayed@),
                names == Seq::new(
                    diff::default_rules().len(),
                    |i: int| diff::default_rules()[i].0,
                ),
                diff::rule_names(engine.rules()) == names,
                forall|s: u32| #[trigger]
                    by_sequence@.contains_key(s) <==> last_with(rep_views, s) >= 0,
                forall|s: u32| #[trigger]
                    by_sequence@.contains_key(s) ==> by_sequence@[s] == last_with(rep_views, s),
                i <= recorded@.len(),
                matched <= i,
                matched == matched_count(rec_views.take(i as int), rep_views),
                missing@ == unmatched(rec_views.take(i as int), rep_views),
                mismatch_views(mismatches@) == pair_mismatches(
                    manifest@,
                    rec_views.take(i as int),
                    rep_views,
                ),
                regresses == any_mismatch_regresses(mismatch_views(mismatches@)),
            decreases recorded.len() - i,
        {
            let sequence: u32 = recorded[i].sequence;
            let ghost so_far = mismatch_views(mismatches@);
            proof {
                assert(rec_views.take(i + 1).drop_last() =~= rec_views.take(i as int));
                assert(rec_views.take(i + 1).last() == recorded@[i as int]@);
                lemma_last_with(rep_views, sequence);
            }
            match by_sequence.get(&sequence) {
                Some(k) => {
                    let k: usize = *k;
                    matched = matched + 1;
                    let mut found = engine.compare(&recorded[i].response, &replayed[k].response);
                    found.apply_manifest(manifest);
                    proof {
                        assert(rep_views[k as int] == replayed@[k as int]@);
                        assert(diff::node_views(found.nodes@) == response_diff(
                            manifest@,
                            recorded@[i as int].response@,
                            replayed@[k as int].response@,
                        ));
                    }
                    if found.nodes.len() > 0 {
                        let ghost was = mismatches@;
                        regresses = regresses || found.is_regression;
                        mismatches.push(
                            InteractionMismatch {
                                sequence,
                                fingerprint: recorded[i].fingerprint.clone(),
                                diff: found,
                            },
                        );
                        proof {
                            let now = mismatch_views(mismatches@);
                            assert(now =~= so_far.push(mismatches@.last()@));
                            if any_mismatch_regresses(so_far) {
                                let j = choose|j: int|
                                    0 <= j < so_far.len() && (#[trigger] so_far[j]).is_regression;
                                assert(now[j].is_regression);
                            }
                            if any_mismatch_regresses(now) {
                                let j = choose|j: int|
                                    0 <= j < now.len() && (#[trigger] now[j]).is_regression;
                                if j < so_far.len() {
                                    assert(so_far[j].is_regression);
                                }
                            }
                            assert(now[so_far.len() as int] == mismatches@.last()@);
                        }
                    }
                },
                None => {
                    missing.push(sequence);
                },
            }
            i = i + 1;
        }
        let recorded_sequences = sequences(recorded);
        let mut extra: Vec<u32> = Vec::new();
        let mut j: usize = 0;
        while j < replayed.len()
            invariant
                rec_views == interaction::interaction_views(recorded@),
                rep_views == interaction::interaction_views(replayed@),
                forall|s: u32| #[trigger]
                    recorded_sequences@.contains(s) <==> has_sequence(rec_views, s),
                j <= replayed@.len(),
                extra@ == unmatched(rep_views.take(j as int), rec_views),
            decreases replayed.len() - j,
        {
            proof {
                assert(rep_views.take(j + 1).drop_last() =~= rep_views.take(j as int));
                assert(rep_views.take(j + 1).last() == replayed@[j as int]@);
            }
            if !recorded_sequences.contains(&replayed[j].sequence) {
                extra.push(replayed[j].sequence);
            }
            j = j + 1;
        }
        proof {
            assert(rec_views.take(i as int) =~= rec_views);
            assert(rep_views.take(j as int) =~= rep_views);
        }
        let is_regression = regresses || missing.len() > 0;
        InteractionDiffReport {
            record_id,
            is_regression,
            matched,
            missing_replays: missing,
            extra_replays: extra,
            mismatches,
        }
    }

    /// The exit code for a build: 0 for a pass, 1 for a regression.
    pub fn exit_code(&self) -> (r: i32)
        ensures
            r == if self.is_regression {
                1i32
            } else {
                0i32
            },
    {
        if self.is_regression {
            1
        } else {
            0
        }
    }
}

// ---------------------------------------------------------------------------
// Output
// ---------------------------------------------------------------------------

/// What an [`InteractionDiffReport`] is.
pub struct ReportView {
    pub record_id: RecordId,
    pub is_regression: bool,
    pub matched: nat,
    pub missing_replays: Seq<u32>,
    pub extra_replays: Seq<u32>,
    pub mismatches: Seq<MismatchView>,
}

impl View for InteractionDiffReport {
    type V = ReportView;

    open spec fn view(&self) -> ReportView {
        ReportView {
            record_id: self.record_id,
            is_regression: self.is_regression,
            matched: self.matched as nat,
            missing_replays: self.missing_replays@,
            extra_replays: self.extra_replays@,
            mismatches: mismatch_views(self.mismatches@),
        }
    }
}

/// A copy of a list of numbers.
fn copy_numbers(v: &Vec<u32>) -> (r: Vec<u32>)
    ensures
        r@ == v@,
{
    let mut out: Vec<u32> = Vec::new();
    let mut i: usize = 0;
    while i < v.len()
        invariant
            i <= v@.len(),
            out@ == v@.take(i as int),
        decreases v.len() - i,
    {
        out.push(v[i]);
        proof {
            assert(v@.take(i + 1) =~= v@.take(i as int).push(v@[i as int]));
        }
        i = i + 1;
    }
    proof {
        assert(v@.take(i as int) =~= v@);
    }
    out
}

impl Clone for InteractionDiffReport {
    fn clone(&self) -> (r: InteractionDiffReport)
        ensures
            r@ == self@,
    {
        let mut mismatches: Vec<InteractionMismatch> = Vec::new();
        let mut i: usize = 0;
        while i < self.mismatches.len()
            invariant
                i <= self.mismatches@.len(),
                mismatches@.len() == i,
                forall|j: int|
                    0 <= j < i ==> (#[trigger] mismatches@[j])@ == self.mismatches@[j]@,
            decreases self.mismatches.len() - i,
        {
            mismatches.push(self.mismatches[i].clone());
            i = i + 1;
        }
        proof {
            assert(mismatch_views(mismatches@) =~= mismatch_views(self.mismatches@));
        }
        InteractionDiffReport {
            record_id: self.record_id,
            is_regression: self.is_regression,
            matched: self.matched,
            missing_replays: copy_numbers(&self.missing_replays),
            extra_replays: copy_numbers(&self.extra_replays),
            mismatches,
        }
    }
}

/// The name of a category in JSON.
pub open spec fn category_name(c: DiffCategory) -> Seq<char> {
    match c {
        DiffCategory::Noise => "noise"@,
        DiffCategory::Intentional => "intentional"@,
        DiffCategory::Regression => "regression"@,
        DiffCategory::Added => "added"@,
        DiffCategory::Removed => "removed"@,
    }
}

/// A natural number in JSON.
pub open spec fn number_tree(n: nat) -> JsonTree {
    JsonTree::Number(NumberView::Int(n as int))
}

/// A list of numbers in JSON.
pub open spec fn numbers_tree(v: Seq<u32>) -> JsonTree {
    JsonTree::Array(Seq::new(v.len(), |i: int| number_tree(v[i] as nat)))
}

/// A node in JSON.
pub open spec fn node_tree(n: NodeView) -> JsonTree {
    json::object_of(
        seq![
            ("path"@, JsonTree::Text(n.path)),
            ("old"@, n.old_value),
            ("new"@, n.new_value),
            ("category"@, JsonTree::Text(category_name(n.category))),
        ],
    )
}

/// A mismatch in JSON.
pub open spec fn mismatch_tree(m: MismatchView) -> JsonTree {
    json::object_of(
        seq![
            ("sequence"@, number_tree(m.sequence as nat)),
            ("fingerprint"@, JsonTree::Text(m.fingerprint)),
            ("regression"@, JsonTree::Bool(m.is_regression)),
            ("summary"@, JsonTree::Text(diff::summary_text(m.nodes, m.is_regression))),
            (
                "nodes"@,
                JsonTree::Array(Seq::new(m.nodes.len(), |i: int| node_tree(m.nodes[i]))),
            ),
        ],
    )
}

/// A report in JSON.
pub open spec fn report_tree(r: ReportView) -> JsonTree {
    json::object_of(
        seq![
            ("record_id"@, JsonTree::Text(ids::hyphenated(r.record_id))),
            ("is_regression"@, JsonTree::Bool(r.is_regression)),
            ("matched"@, number_tree(r.matched)),
            ("missing_replays"@, numbers_tree(r.missing_replays)),
            ("extra_replays"@, numbers_tree(r.extra_replays)),
            (
                "mismatches"@,
                JsonTree::Array(
                    Seq::new(r.mismatches.len(), |i: int| mismatch_tree(r.mismatches[i])),
                ),
            ),
        ],
    )
}

/// The number of mismatches that are regressions.
pub open spec fn regression_count(v: Seq<MismatchView>) -> nat
    decreases v.len(),
{
    if v.len() == 0 {
        0
    } else {
        regression_count(v.drop_last()) + (if v.last().is_regression {
            1nat
        } else {
            0nat
        })
    }
}

/// The paragraphs of the mismatches that are regressions: the call, and its
/// own summary, indented.
pub open spec fn regression_paragraphs(v: Seq<MismatchView>) -> Seq<char>
    decreases v.len(),
{
    if v.len() == 0 {
        Seq::empty()
    } else {
        let before = regression_paragraphs(v.drop_last());
        let m = v.last();
        if m.is_regression {
            before + "  seq="@ + text::decimal(m.sequence as nat) + " ["@ + m.fingerprint + "]\n"@
                + "    "@ + text::replaced(
                diff::summary_text(m.nodes, m.is_regression),
                "\n"@,
                "\n    "@,
            ) + "\n"@
        } else {
            before
        }
    }
}

/// The summary of a report.
pub open spec fn report_summary(r: ReportView) -> Seq<char> {
    if r.is_regression {
        "FAIL  record_id="@ + ids::hyphenated(r.record_id) + "  regressions="@ + text::decimal(
            regression_count(r.mismatches),
        ) + "  missing="@ + text::decimal(r.missing_replays.len()) + "\n"@ + regression_paragraphs(
            r.mismatches,
        )
    } else {
        "PASS  record_id="@ + ids::hyphenated(r.record_id) + "  matched="@ + text::decimal(
            r.matched,
        ) + "  extra="@ + text::decimal(r.extra_replays.len()) + " missing="@ + text::decimal(
            r.missing_replays.len(),
        )
    }
}

/// The name of a category in JSON.
fn category_text(c: DiffCategory) -> (r: &'static str)
    ensures
        r@ == category_name(c),
{
    match c {
        DiffCategory::Noise => "noise",
        DiffCategory::Intentional => "intentional",
        DiffCategory::Regression => "regression",
        DiffCategory::Added => "added",
        DiffCategory::Removed => "removed",
    }
}

/// A list of numbers in JSON.
fn numbers_json(v: &Vec<u32>) -> (r: JsonValue)
    ensures
        r@ == numbers_tree(v@),
{
    let mut out: Vec<JsonValue> = Vec::new();
    let mut i: usize = 0;
    while i < v.len()
        invariant
            i <= v@.len(),
            out@.len() == i,
            forall|j: int| 0 <= j < i ==> (#[trigger] out@[j])@ == number_tree(v@[j] as nat),
        decreases v.len() - i,
    {
        out.push(JsonValue::unsigned(v[i] as u64));
        i = i + 1;
    }
    let r = JsonValue::Array(out);
    proof {
        assert(r@->Array_0 =~= numbers_tree(v@)->Array_0);
    }
    r
}

/// A node in JSON.
fn node_json(n: &DiffNode) -> (r: JsonValue)
    ensures
        r@ == node_tree(n@),
{
    let fields: Vec<(&str, JsonValue)> = vec![
        ("path", JsonValue::text(n.path.as_str())),
        ("old", n.old_value.duplicate()),
        ("new", n.new_value.duplicate()),
        ("category", JsonValue::text(category_text(n.category))),
    ];
    proof {
        assert(json::field_views(fields@) =~= seq![
            ("path"@, JsonTree::Text(n@.path)),
            ("old"@, n@.old_value),
            ("new"@, n@.new_value),
            ("category"@, JsonTree::Text(category_name(n@.category))),
        ]);
    }
    json::object(fields)
}

/// A mismatch in JSON.
fn mismatch_json(m: &InteractionMismatch) -> (r: JsonValue)
    ensures
        r@ == mismatch_tree(m@),
{
    let mut nodes: Vec<JsonValue> = Vec::new();
    let mut i: usize = 0;
    while i < m.diff.nodes.len()
        invariant
            i <= m.diff.nodes@.len(),
            nodes@.len() == i,
            forall|j: int| 0 <= j < i ==> (#[trigger] nodes@[j])@ == node_tree(m@.nodes[j]),
        decreases m.diff.nodes.len() - i,
    {
        nodes.push(node_json(&m.diff.nodes[i]));
        i = i + 1;
    }
    let nodes = JsonValue::Array(nodes);
    proof {
        assert(nodes@->Array_0 =~= Seq::new(m@.nodes.len(), |i: int| node_tree(m@.nodes[i])));
    }
    let fields: Vec<(&str, JsonValue)> = vec![
        ("sequence", JsonValue::unsigned(m.sequence as u64)),
        ("fingerprint", JsonValue::text(m.fingerprint.as_str())),
        ("regression", JsonValue::Bool(m.diff.is_regression)),
        ("summary", JsonValue::Text(m.diff.summary())),
        ("nodes", nodes),
    ];
    proof {
        assert(json::field_views(fields@) =~= seq![
            ("sequence"@, number_tree(m@.sequence as nat)),
            ("fingerprint"@, JsonTree::Text(m@.fingerprint)),
            ("regression"@, JsonTree::Bool(m@.is_regression)),
            ("summary"@, JsonTree::Text(diff::summary_text(m@.nodes, m@.is_regression))),
            (
                "nodes"@,
                JsonTree::Array(Seq::new(m@.nodes.len(), |i: int| node_tree(m@.nodes[i]))),
            ),
        ]);
    }
    json::object(fields)
}

impl InteractionDiffReport {
    /// The report as a JSON value.
    pub fn to_json_value(&self) -> (r: JsonValue)
        ensures
            r@ == report_tree(self@),
    {
        let mut mismatches: Vec<JsonValue> = Vec::new();
        let mut i: usize = 0;
        while i < self.mismatches.len()
            invariant
                i <= self.mismatches@.len(),
                mismatches@.len() == i,
                forall|j: int|
                    0 <= j < i ==> (#[trigger] mismatches@[j])@ == mismatch_tree(
                        self@.mismatches[j],
                    ),
            decreases self.mismatches.len() - i,
        {
            mismatches.push(mismatch_json(&self.mismatches[i]));
            i = i + 1;
        }
        let mismatches = JsonValue::Array(mismatches);
        proof {
            assert(mismatches@->Array_0 =~= Seq::new(
                self@.mismatches.len(),
                |i: int| mismatch_tree(self@.mismatches[i]),
            ));
        }
        let fields: Vec<(&str, JsonValue)> = vec![
            ("record_id", JsonValue::Text(id_to_text(self.record_id))),
            ("is_regression", JsonValue::Bool(self.is_regression)),
            ("matched", JsonValue::unsigned(self.matched as u64)),
            ("missing_replays", numbers_json(&self.missing_replays)),
            ("extra_replays", numbers_json(&self.extra_replays)),
            ("mismatches", mismatches),
        ];
        proof {
            assert(json::field_views(fields@) =~= seq![
                ("record_id"@, JsonTree::Text(ids::hyphenated(self@.record_id))),
                ("is_regression"@, JsonTree::Bool(self@.is_regression)),
                ("matched"@, number_tree(self@.matched)),
                ("missing_replays"@, numbers_tree(self@.missing_replays)),
                ("extra_replays"@, numbers_tree(self@.extra_replays)),
                (
                    "mismatches"@,
                    JsonTree::Array(
                        Seq::new(
                            self@.mismatches.len(),
                            |i: int| mismatch_tree(self@.mismatches[i]),
                        ),
                    ),
                ),
            ]);
        }
        json::object(fields)
    }

    /// The report as indented JSON text, from which it can be read back.
    pub fn to_json(&self) -> (r: String)
        ensures
            r@ == json_codec::pretty(report_tree(self@)),
            json_codec::reads_back(report_tree(self@)) ==> json_codec::parsed(r@) == Some(
                report_tree(self@),
            ),
    {
        self.to_json_value().to_pretty()
    }

    /// A summary for people.
    pub fn summary(&self) -> (r: String)
        ensures
            r@ == report_summary(self@),
    {
        if !self.is_regression {
            let mut s = "PASS  record_id=".to_owned();
            s.append(id_to_text(self.record_id).as_str());
            s.append("  matched=");
            s.append(decimal_text(self.matched as u64).as_str());
            s.append("  extra=");
            s.append(decimal_text(self.extra_replays.len() as u64).as_str());
            s.append(" missing=");
            s.append(decimal_text(self.missing_replays.len() as u64).as_str());
            s
        } else {
            let mut s = "FAIL  record_id=".to_owned();
            s.append(id_to_text(self.record_id).as_str());
            s.append("  regressions=");
            s.append(decimal_text(self.count_regressions() as u64).as_str());
            s.append("  missing=");
            s.append(decimal_text(self.missing_replays.len() as u64).as_str());
            s.append("\n");
            let ghost head = s@;
            let ghost all = self@.mismatches;
            let mut i: usize = 0;
            proof {
                assert(all.take(0) =~= Seq::<MismatchView>::empty());
                assert(head + Seq::<char>::empty() =~= head);
            }
            while i < self.mismatches.len()
                invariant
                    all == self@.mismatches,
                    i <= self.mismatches@.len(),
                    s@ == head + regression_paragraphs(all.take(i as int)),
                decreases self.mismatches.len() - i,
            {
                proof {
                    assert(all.take(i + 1).drop_last() =~= all.take(i as int));
                    assert(all.take(i + 1).last() == self.mismatches@[i as int]@);
                }
                let m = &self.mismatches[i];
                if m.diff.is_regression {
                    s.append("  seq=");
                    s.append(decimal_text(m.sequence as u64).as_str());
                    s.append(" [");
                    s.append(m.fingerprint.as_str());
                    s.append("]\n");
                    s.append("    ");
                    s.append(replace(m.diff.summary().as_str(), "\n", "\n    ").as_str());
                    s.append("\n");
                    proof {
                        assert(s@ =~= head + regression_paragraphs(all.take(i + 1)));
                    }
                }
                i = i + 1;
            }
            proof {
                assert(all.take(i as int) =~= all);
            }
            s
        }
    }

    /// The number of mismatches that are regressions.
    fn count_regressions(&self) -> (r: usize)
        ensures
            r == regression_count(self@.mismatches),
    {
        let ghost all = self@.mismatches;
        let mut n: usize = 0;
        let mut i: usize = 0;
        proof {
            assert(all.take(0) =~= Seq::<MismatchView>::empty());
        }
        while i < self.mismatches.len()
            invariant
                all == self@.mismatches,
                i <= self.mismatches@.len(),
                n <= i,
                n == regression_count(all.take(i as int)),
            decreases self.mismatches.len() - i,
        {
            proof {
                assert(all.take(i + 1).drop_last() =~= all.take(i as int));
                assert(all.take(i + 1).last() == self.mismatches@[i as int]@);
            }
            if self.mismatches[i].diff.is_regression {
                n = n + 1;
            }
            i = i + 1;
        }
        proof {
            assert(all.take(i as int) =~= all);
        }
        n
    }
}

// ---------------------------------------------------------------------------
// Laws
// ---------------------------------------------------------------------------

/// Every recorded call is either matched or missing.
pub proof fn lemma_matched_and_missing(a: Seq<InteractionView>, b: Seq<InteractionView>)
    ensures
        matched_count(a, b) + unmatched(a, b).len() == a.len(),
    decreases a.len(),
{
    if a.len() > 0 {
        lemma_matched_and_missing(a.drop_last(), b);
    }
}

/// A sequence number is missing exactly if it was recorded and not replayed.
pub proof fn lemma_missing_iff(a: Seq<InteractionView>, b: Seq<InteractionView>, s: u32)
    ensures
        unmatched(a, b).contains(s) <==> has_sequence(a, s) && !has_sequence(b, s),
    decreases a.len(),
{
    if a.len() == 0 {
    } else {
        let front = a.drop_last();
        lemma_missing_iff(front, b, s);
        lemma_last_with(a, s);
        lemma_last_with(front, s);
        let before = unmatched(front, b);
        let all = unmatched(a, b);
        if before.contains(s) {
            let i = choose|i: int| 0 <= i < before.len() && before[i] == s;
            assert(all[i] == s);
        }
        if all.contains(s) {
            let i = choose|i: int| 0 <= i < all.len() && all[i] == s;
            if i < before.len() {
                assert(before[i] == s);
            }
        }
        if a.last().sequence == s && !has_sequence(b, s) {
            assert(all[before.len() as int] == s);
        }
    }
}

/// A recorded call that was not replayed is a regression.
pub proof fn lemma_missing_call_is_regression(
    m: ManifestView,
    recorded: Seq<InteractionView>,
    replayed: Seq<InteractionView>,
    s: u32,
)
    requires
        has_sequence(recorded, s),
        !has_sequence(replayed, s),
    ensures
        regresses(m, recorded, replayed),
{
    lemma_missing_iff(recorded, replayed, s);
}

/// A manifest declares every regression of a recorded call, if it is matched.
pub open spec fn pair_declared(
    m: ManifestView,
    rec: InteractionView,
    replayed: Seq<InteractionView>,
) -> bool {
    let k = last_with(replayed, rec.sequence);
    let nodes = default_diff(rec.response, replayed[k].response);
    k >= 0 ==> forall|i: int|
        0 <= i < nodes.len() && (#[trigger] nodes[i]).category == DiffCategory::Regression
            ==> manifest::declared(m, nodes[i].path)
}

/// A manifest that declares every regression lets the replay pass, as long as
/// no call is missing.
pub proof fn lemma_declared_changes_pass(
    m: ManifestView,
    recorded: Seq<InteractionView>,
    replayed: Seq<InteractionView>,
)
    requires
        unmatched(recorded, replayed).len() == 0,
        forall|i: int|
            0 <= i < recorded.len() ==> pair_declared(m, #[trigger] recorded[i], replayed),
    ensures
        !regresses(m, recorded, replayed),
{
    lemma_no_mismatch_regresses(m, recorded, replayed);
}

proof fn lemma_no_mismatch_regresses(
    m: ManifestView,
    recorded: Seq<InteractionView>,
    replayed: Seq<InteractionView>,
)
    requires
        forall|i: int|
            0 <= i < recorded.len() ==> pair_declared(m, #[trigger] recorded[i], replayed),
    ensures
        !any_mismatch_regresses(pair_mismatches(m, recorded, replayed)),
    decreases recorded.len(),
{
    if recorded.len() > 0 {
        let front = recorded.drop_last();
        assert forall|i: int| 0 <= i < front.len() implies pair_declared(
            m,
            #[trigger] front[i],
            replayed,
        ) by {
            assert(front[i] == recorded[i]);
        }
        lemma_no_mismatch_regresses(m, front, replayed);
        let rec = recorded[recorded.len() - 1];
        assert(pair_declared(m, rec, replayed));
        diff::lemma_manifest_leaves_undeclared(
            m,
            default_diff(rec.response, replayed[last_with(replayed, rec.sequence)].response),
        );
        let before = pair_mismatches(m, front, replayed);
        let all = pair_mismatches(m, recorded, replayed);
        if any_mismatch_regresses(all) {
            let j = choose|j: int| 0 <= j < all.len() && (#[trigger] all[j]).is_regression;
            if j < before.len() {
                assert(before[j].is_regression);
            }
        }
    }
}

/// A replayed call that was not recorded is reported as extra and changes
/// neither the mismatches nor the missing calls, hence never the verdict.
pub proof fn lemma_extra_call_is_no_regression(
    m: ManifestView,
    recorded: Seq<InteractionView>,
    replayed: Seq<InteractionView>,
    extra: InteractionView,
)
    requires
        !has_sequence(recorded, extra.sequence),
    ensures
        pair_mismatches(m, recorded, replayed.push(extra)) == pair_mismatches(
            m,
            recorded,
            replayed,
        ),
        unmatched(recorded, replayed.push(extra)) == unmatched(recorded, replayed),
        unmatched(replayed.push(extra), recorded) == unmatched(replayed, recorded).push(
            extra.sequence,
        ),
        regresses(m, recorded, replayed.push(extra)) == regresses(m, recorded, replayed),
    decreases recorded.len(),
{
    let more = replayed.push(extra);
    assert(more.drop_last() =~= replayed);
    if recorded.len() > 0 {
        let front = recorded.drop_last();
        let rec = recorded.last();
        assert(rec.sequence != extra.sequence) by {
            assert(recorded[recorded.len() - 1].sequence == rec.sequence);
        }
        assert(!has_sequence(front, extra.sequence)) by {
            if has_sequence(front, extra.sequence) {
                let i = choose|i: int|
                    0 <= i < front.len() && (#[trigger] front[i]).sequence == extra.sequence;
                assert(recorded[i].sequence == extra.sequence);
            }
        }
        lemma_extra_call_is_no_regression(m, front, replayed, extra);
        lemma_last_with(replayed, rec.sequence);
        lemma_last_with(more, rec.sequence);
        assert(last_with(more, rec.sequence) == last_with(replayed, rec.sequence));
    }
}

/// A recording compared with itself passes, with every call matched, as long
/// as no two calls share a sequence number.
pub proof fn lemma_identical_recordings_pass(m: ManifestView, calls: Seq<InteractionView>)
    requires
        forall|i: int, j: int|
            0 <= i < j < calls.len() ==> (#[trigger] calls[i]).sequence != (
            #[trigger] calls[j]).sequence,
        forall|i: int| 0 <= i < calls.len() ==> json::well_formed((#[trigger] calls[i]).response),
    ensures
        pair_mismatches(m, calls, calls).len() == 0,
        unmatched(calls, calls).len() == 0,
        matched_count(calls, calls) == calls.len(),
        !regresses(m, calls, calls),
{
    assert(calls.take(calls.len() as int) =~= calls);
    lemma_prefix_passes(m, calls, calls.len() as int);
}

proof fn lemma_prefix_passes(m: ManifestView, calls: Seq<InteractionView>, n: int)
    requires
        0 <= n <= calls.len(),
        forall|i: int, j: int|
            0 <= i < j < calls.len() ==> (#[trigger] calls[i]).sequence != (
            #[trigger] calls[j]).sequence,
        forall|i: int| 0 <= i < calls.len() ==> json::well_formed((#[trigger] calls[i]).response),
    ensures
        pair_mismatches(m, calls.take(n), calls).len() == 0,
        unmatched(calls.take(n), calls).len() == 0,
        matched_count(calls.take(n), calls) == n,
    decreases n,
{
    if n > 0 {
        lemma_prefix_passes(m, calls, n - 1);
        let front = calls.take(n);
        assert(front.drop_last() =~= calls.take(n - 1));
        let rec = front.last();
        assert(rec == calls[n - 1]);
        assert(has_sequence(calls, rec.sequence));
        lemma_last_with(calls, rec.sequence);
        let k = last_with(calls, rec.sequence);
        assert(k == n - 1) by {
            if k < n - 1 {
                assert(calls[k].sequence != calls[n - 1].sequence);
            } else if k > n - 1 {
                assert(calls[n - 1].sequence != calls[k].sequence);
            }
        }
        let names = Seq::new(diff::default_rules().len(), |i: int| diff::default_rules()[i].0);
        diff::lemma_identical_values_have_no_diff(names, rec.response, Seq::empty());
    }
}

/// A pair whose responses regress makes the replay fail; where several
/// replayed calls share a sequence number, the last one counts.
pub proof fn lemma_regressing_pair_fails(
    m: ManifestView,
    recorded: Seq<InteractionView>,
    replayed: Seq<InteractionView>,
    i: int,
    k: int,
)
    requires
        0 <= i < recorded.len(),
        0 <= k < replayed.len(),
        replayed[k].sequence == recorded[i].sequence,
        forall|j: int| k < j < replayed.len() ==> (#[trigger] replayed[j]).sequence
            != recorded[i].sequence,
        diff::has_regression(response_diff(m, recorded[i].response, replayed[k].response)),
    ensures
        regresses(m, recorded, replayed),
        exists|j: int|
            0 <= j < pair_mismatches(m, recorded, replayed).len() && (#[trigger] pair_mismatches(
                m,
                recorded,
                replayed,
            )[j]).sequence == recorded[i].sequence && pair_mismatches(
                m,
                recorded,
                replayed,
            )[j].fingerprint == recorded[i].fingerprint && pair_mismatches(
                m,
                recorded,
                replayed,
            )[j].is_regression,
    decreases recorded.len(),
{
    let front = recorded.drop_last();
    let before = pair_mismatches(m, front, replayed);
    let all = pair_mismatches(m, recorded, replayed);
    if i == recorded.len() - 1 {
        lemma_last_with(replayed, recorded[i].sequence);
        let l = last_with(replayed, recorded[i].sequence);
        assert(l == k) by {
            assert(has_sequence(replayed, recorded[i].sequence));
            if l > k {
                assert(replayed[l].sequence != recorded[i].sequence);
            }
            if l < k {
                assert(replayed[k].sequence != recorded[i].sequence);
            }
        }
        assert(all[before.len() as int].is_regression);
        assert(all[before.len() as int].sequence == recorded[i].sequence);
    } else {
        assert(front[i] == recorded[i]);
        lemma_regressing_pair_fails(m, front, replayed, i, k);
        let j = choose|j: int|
            0 <= j < before.len() && (#[trigger] before[j]).sequence == recorded[i].sequence
                && before[j].fingerprint == recorded[i].fingerprint && before[j].is_regression;
        assert(all[j] == before[j]);
        assert(all[j].is_regression);
    }
}

/// The word for each category in JSON.
pub proof fn lemma_words_of_categories()
    ensures
        category_name(DiffCategory::Noise) == "noise"@,
        category_name(DiffCategory::Intentional) == "intentional"@,
        category_name(DiffCategory::Regression) == "regression"@,
        category_name(DiffCategory::Added) == "added"@,
        category_name(DiffCategory::Removed) == "removed"@,
{
}

/// A report in JSON holds its recording, its verdict, its number of matched
/// calls, and the sequence numbers of those that are missing or extra.
pub proof fn lemma_report_in_json(r: ReportView)
    ensures
        json::member(report_tree(r), "record_id"@) == Some(
            JsonTree::Text(ids::hyphenated(r.record_id)),
        ),
        json::member(report_tree(r), "is_regression"@) == Some(JsonTree::Bool(r.is_regression)),
        json::member(report_tree(r), "matched"@) == Some(
            JsonTree::Number(NumberView::Int(r.matched as int)),
        ),
        json::member(report_tree(r), "missing_replays"@) matches Some(JsonTree::Array(v))
            && v.len() == r.missing_replays.len() && forall|i: int|
            0 <= i < v.len() ==> #[trigger] v[i] == JsonTree::Number(
                NumberView::Int(r.missing_replays[i] as int),
            ),
        json::member(report_tree(r), "extra_replays"@) matches Some(JsonTree::Array(v)) && v.len()
            == r.extra_replays.len() && forall|i: int|
            0 <= i < v.len() ==> #[trigger] v[i] == JsonTree::Number(
                NumberView::Int(r.extra_replays[i] as int),
            ),
        json::member(report_tree(r), "mismatches"@) matches Some(JsonTree::Array(v)) && v.len()
            == r.mismatches.len(),
{
    let all = seq![
        ("record_id"@, JsonTree::Text(ids::hyphenated(r.record_id))),
        ("is_regression"@, JsonTree::Bool(r.is_regression)),
        ("matched"@, number_tree(r.matched)),
        ("missing_replays"@, numbers_tree(r.missing_replays)),
        ("extra_replays"@, numbers_tree(r.extra_replays)),
        (
            "mismatches"@,
            JsonTree::Array(Seq::new(r.mismatches.len(), |i: int| mismatch_tree(r.mismatches[i]))),
        ),
    ];
    reveal_strlit("record_id");
    reveal_strlit("is_regression");
    reveal_strlit("matched");
    reveal_strlit("missing_replays");
    reveal_strlit("extra_replays");
    reveal_strlit("mismatches");
    reveal_strlit("");
    assert("record_id"@.len() == 9 && "is_regression"@.len() == 13 && "matched"@.len() == 7);
    assert("missing_replays"@.len() == 15 && "extra_replays"@.len() == 13);
    assert("mismatches"@.len() == 10);
    assert("is_regression"@[0] == 'i' && "extra_replays"@[0] == 'e');
    json::lemma_fields_are_found(all, 0, ""@);
    json::lemma_fields_are_found(all, 1, ""@);
    json::lemma_fields_are_found(all, 2, ""@);
    json::lemma_fields_are_found(all, 3, ""@);
    json::lemma_fields_are_found(all, 4, ""@);
    json::lemma_fields_are_found(all, 5, ""@);
}

/// A node in JSON holds its path, its two values and the word of its category.
pub proof fn lemma_node_in_json(n: NodeView)
    ensures
        json::member(node_tree(n), "path"@) == Some(JsonTree::Text(n.path)),
        json::member(node_tree(n), "old"@) == Some(n.old_value),
        json::member(node_tree(n), "new"@) == Some(n.new_value),
        json::member(node_tree(n), "category"@) matches Some(JsonTree::Text(s)) && (
        n.category == DiffCategory::Regression ==> s == "regression"@) && (n.category
            == DiffCategory::Noise ==> s == "noise"@) && (n.category == DiffCategory::Intentional
            ==> s == "intentional"@) && (n.category == DiffCategory::Added ==> s == "added"@) && (
        n.category == DiffCategory::Removed ==> s == "removed"@),
{
    let all = seq![
        ("path"@, JsonTree::Text(n.path)),
        ("old"@, n.old_value),
        ("new"@, n.new_value),
        ("category"@, JsonTree::Text(category_name(n.category))),
    ];
    reveal_strlit("path");
    reveal_strlit("old");
    reveal_strlit("new");
    reveal_strlit("category");
    reveal_strlit("");
    assert("path"@.len() == 4 && "old"@.len() == 3 && "new"@.len() == 3 && "category"@.len() == 8);
    assert("old"@[0] == 'o' && "new"@[0] == 'n');
    json::lemma_fields_are_found(all, 0, ""@);
    json::lemma_fields_are_found(all, 1, ""@);
    json::lemma_fields_are_found(all, 2, ""@);
    json::lemma_fields_are_found(all, 3, ""@);
}

/// A mismatch in JSON holds its place, its fingerprint and its verdict, and
/// its nodes in their order.
pub proof fn lemma_mismatch_in_json(m: MismatchView)
    ensures
        json::member(mismatch_tree(m), "sequence"@) == Some(
            JsonTree::Number(NumberView::Int(m.sequence as int)),
        ),
        json::member(mismatch_tree(m), "fingerprint"@) == Some(JsonTree::Text(m.fingerprint)),
        json::member(mismatch_tree(m), "regression"@) == Some(JsonTree::Bool(m.is_regression)),
        json::member(mismatch_tree(m), "nodes"@) matches Some(JsonTree::Array(v)) && v.len()
            == m.nodes.len() && forall|i: int|
            0 <= i < v.len() ==> #[trigger] v[i] == node_tree(m.nodes[i]),
{
    let all = seq![
        ("sequence"@, number_tree(m.sequence as nat)),
        ("fingerprint"@, JsonTree::Text(m.fingerprint)),
        ("regression"@, JsonTree::Bool(m.is_regression)),
        ("summary"@, JsonTree::Text(diff::summary_text(m.nodes, m.is_regression))),
        ("nodes"@, JsonTree::Array(Seq::new(m.nodes.len(), |i: int| node_tree(m.nodes[i])))),
    ];
    reveal_strlit("sequence");
    reveal_strlit("fingerprint");
    reveal_strlit("regression");
    reveal_strlit("summary");
    reveal_strlit("nodes");
    reveal_strlit("");
    assert("sequence"@.len() == 8 && "fingerprint"@.len() == 11 && "regression"@.len() == 10);
    assert("summary"@.len() == 7 && "nodes"@.len() == 5);
    json::lemma_fields_are_found(all, 0, ""@);
    json::lemma_fields_are_found(all, 1, ""@);
    json::lemma_fields_are_found(all, 2, ""@);
    json::lemma_fields_are_found(all, 3, ""@);
    json::lemma_fields_are_found(all, 4, ""@);
}

/// The summary of a report begins with the verdict and names the recording; a
/// passed one counts the matched, extra and missing calls, a failed one the
/// regressions and the missing calls.
pub proof fn lemma_report_summary(r: ReportView)
    ensures
        r.is_regression ==> text::has_prefix(
            report_summary(r),
            "FAIL  record_id="@ + ids::hyphenated(r.record_id) + "  regressions="@ + text::decimal(
                regression_count(r.mismatches),
            ) + "  missing="@ + text::decimal(r.missing_replays.len()) + "\n"@,
        ),
        !r.is_regression ==> report_summary(r) == "PASS  record_id="@ + ids::hyphenated(r.record_id)
            + "  matched="@ + text::decimal(r.matched) + "  extra="@ + text::decimal(
            r.extra_replays.len(),
        ) + " missing="@ + text::decimal(r.missing_replays.len()),
{
    let head = "FAIL  record_id="@ + ids::hyphenated(r.record_id) + "  regressions="@
        + text::decimal(regression_count(r.mismatches)) + "  missing="@ + text::decimal(
        r.missing_replays.len(),
    ) + "\n"@;
    let s = report_summary(r);
    if r.is_regression {
        assert(s.subrange(0, head.len() as int) =~= head);
    }
}

/// Regressions are counted one by one.
pub proof fn lemma_regression_count(v: Seq<MismatchView>, m: MismatchView)
    ensures
        regression_count(v.push(m)) == regression_count(v) + (if m.is_regression {
            1int
        } else {
            0int
        }),
        regression_count(v) <= v.len(),
        regression_count(v) > 0 <==> any_mismatch_regresses(v),
    decreases v.len(),
{
    assert(v.push(m).drop_last() =~= v);
    if v.len() > 0 {
        let front = v.drop_last();
        lemma_regression_count(front, m);
        assert(v[v.len() - 1] == v.last());
        if any_mismatch_regresses(v) {
            let i = choose|i: int| 0 <= i < v.len() && (#[trigger] v[i]).is_regression;
            if i < front.len() {
                assert(front[i].is_regression);
            }
        }
        if any_mismatch_regresses(front) {
            let i = choose|i: int| 0 <= i < front.len() && (#[trigger] front[i]).is_regression;
            assert(v[i].is_regression);
        }
    }
}

/// The summary of a failed report has a paragraph for each mismatch that
/// regressed: its place and its fingerprint, and below them its own summary,
/// indented.
pub proof fn lemma_regression_has_a_paragraph(r: ReportView, i: int)
    requires
        r.is_regression,
        0 <= i < r.mismatches.len(),
        r.mismatches[i].is_regression,
    ensures
        ({
            let m = r.mismatches[i];
            text::has_text(
                report_summary(r),
                "  seq="@ + text::decimal(m.sequence as nat) + " ["@ + m.fingerprint + "]\n"@
                    + "    "@ + text::replaced(
                    diff::summary_text(m.nodes, true),
                    "\n"@,
                    "\n    "@,
                ) + "\n"@,
            )
        }),
{
    let m = r.mismatches[i];
    let p = "  seq="@ + text::decimal(m.sequence as nat) + " ["@ + m.fingerprint + "]\n"@ + "    "@
        + text::replaced(diff::summary_text(m.nodes, true), "\n"@, "\n    "@) + "\n"@;
    lemma_paragraph(r.mismatches, i);
    let paragraphs = regression_paragraphs(r.mismatches);
    let s = report_summary(r);
    let head = s.take(s.len() - paragraphs.len());
    text::lemma_has_text_around(head, paragraphs, Seq::empty(), p);
    assert(head + paragraphs + Seq::<char>::empty() =~= s);
}

proof fn lemma_paragraph(v: Seq<MismatchView>, i: int)
    requires
        0 <= i < v.len(),
        v[i].is_regression,
    ensures
        text::has_text(
            regression_paragraphs(v),
            "  seq="@ + text::decimal(v[i].sequence as nat) + " ["@ + v[i].fingerprint + "]\n"@
                + "    "@ + text::replaced(
                diff::summary_text(v[i].nodes, true),
                "\n"@,
                "\n    "@,
            ) + "\n"@,
        ),
    decreases v.len(),
{
    let p = "  seq="@ + text::decimal(v[i].sequence as nat) + " ["@ + v[i].fingerprint + "]\n"@
        + "    "@ + text::replaced(diff::summary_text(v[i].nodes, true), "\n"@, "\n    "@)
        + "\n"@;
    let front = v.drop_last();
    let before = regression_paragraphs(front);
    let all = regression_paragraphs(v);
    if i == v.len() - 1 {
        let t1 = "  seq="@;
        let t2 = text::decimal(v[i].sequence as nat);
        let t3 = " ["@;
        let t4 = v[i].fingerprint;
        let t5 = "]\n"@;
        let t6 = "    "@;
        let t7 = text::replaced(diff::summary_text(v[i].nodes, true), "\n"@, "\n    "@);
        let t8 = "\n"@;
        text::lemma_grouped(before, t1, t2);
        text::lemma_grouped(before, t1 + t2, t3);
        text::lemma_grouped(before, t1 + t2 + t3, t4);
        text::lemma_grouped(before, t1 + t2 + t3 + t4, t5);
        text::lemma_grouped(before, t1 + t2 + t3 + t4 + t5, t6);
        text::lemma_grouped(before, t1 + t2 + t3 + t4 + t5 + t6, t7);
        text::lemma_grouped(before, t1 + t2 + t3 + t4 + t5 + t6 + t7, t8);
        assert(all == before + p);
        text::lemma_has_text_between(before, p, Seq::empty());
        assert(before + p + Seq::<char>::empty() =~= before + p);
    } else {
        assert(front[i] == v[i]);
        lemma_paragraph(front, i);
        let rest = all.skip(before.len() as int);
        text::lemma_has_text_around(Seq::empty(), before, rest, p);
        assert(Seq::<char>::empty() + before + rest =~= all);
    }
}

} // verus!
