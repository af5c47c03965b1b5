//! The command that replays recordings in a build: its configuration, its
//! tally and its report.
use crate::diff;
use crate::diff::DiffCategory;
use crate::harness;
use crate::harness::{parse_token_map, HarnessStatus, HarnessView, ReplayResult};
use crate::ids;
use crate::ids::{id_from_text, id_to_text, RecordId};
use crate::json;
use crate::json::{object, JsonTree, JsonValue};
use crate::json_codec;
use crate::manifest;
use crate::manifest::ChangeManifest;
use crate::report;
use crate::report::{MismatchView, ReportView};
use crate::text;
use crate::text::{decimal_text, parse_usize};
use vstd::prelude::*;
use vstd::string::*;

verus! {

broadcast use json::lemma_value_view;

// ---------------------------------------------------------------------------
// Configuration
// ---------------------------------------------------------------------------

/// The settings of the environment, each absent or a text. The manifest is
/// given by the content of its file.
pub struct Settings {
    pub db_url: Option<String>,
    pub target_url: Option<String>,
    pub sample_size: Option<String>,
    pub record_id: Option<String>,
    pub report_path: Option<String>,
    pub manifest: Option<String>,
    pub token_map: Option<String>,
}

/// The configuration of the command.
pub struct Config {
    pub db_url: String,
    pub target_url: String,
    /// Number of recent recordings to replay.
    pub sample_size: usize,
    /// The only recording to replay, if one is named.
    pub single_record_id: Option<RecordId>,
    pub report_path: Option<String>,
    pub manifest: ChangeManifest,
    pub token_map: Vec<(String, String)>,
}

/// The sample size of a setting: 50 unless it is a number.
pub open spec fn sample_size_of(setting: Option<String>) -> usize {
    match setting {
        Some(s) => match text::parsed_usize(s@) {
            Some(n) => n,
            None => 50,
        },
        None => 50,
    }
}

/// What the settings say.
pub open spec fn configured(s: Settings, c: Config) -> bool {
    &&& s.db_url == Some(c.db_url)
    &&& s.target_url == Some(c.target_url)
    &&& c.sample_size == sample_size_of(s.sample_size)
    &&& c.single_record_id == (match s.record_id {
        Some(t) => ids::parsed_id(t@),
        None => None,
    })
    &&& c.report_path == s.report_path
    &&& c.manifest@ == (match s.manifest {
        Some(t) => manifest::manifest_in(t@),
        None => manifest::empty_manifest(),
    })
    &&& harness::pair_views(c.token_map@) == (match s.token_map {
        Some(t) => harness::pairs_of(text::split_on(t@, ',')),
        None => Seq::empty(),
    })
}

impl Config {
    /// Reads the settings. Two of them are required.
    pub fn from_settings(s: Settings) -> (r: Result<Config, String>)
        ensures
            match r {
                Ok(c) => configured(s, c),
                Err(e) => {
                    ||| s.db_url is None && e@ == "REPLAY_DB_URL is required"@
                    ||| s.db_url is Some && s.target_url is None && e@
                        == "REPLAY_TARGET_URL is required"@
                },
            },
    {
        let db_url = match s.db_url {
            Some(v) => v,
            None => {
                return Err("REPLAY_DB_URL is required".to_owned());
            },
        };
        let target_url = match s.target_url {
            Some(v) => v,
            None => {
                return Err("REPLAY_TARGET_URL is required".to_owned());
            },
        };
        let sample_size: usize = match s.sample_size {
            Some(v) => match parse_usize(v.as_str()) {
                Some(n) => n,
                None => 50,
            },
            None => 50,
        };
        let single_record_id = match s.record_id {
            Some(v) => id_from_text(v.as_str()),
            None => None,
        };
        let manifest = match s.manifest {
            Some(v) => ChangeManifest::from_toml(v.as_str()),
            None => ChangeManifest::default(),
        };
        let token_map: Vec<(String, String)> = match s.token_map {
            Some(v) => parse_token_map(v.as_str()),
            None => Vec::new(),
        };
        proof {
            if s.token_map is None {
                assert(harness::pair_views(token_map@) =~= Seq::<(Seq<char>, Seq<char>)>::empty());
            }
        }
        Ok(
            Config {
                db_url,
                target_url,
                sample_size,
                single_record_id,
                report_path: s.report_path,
                manifest,
                token_map,
            },
        )
    }
}

// ---------------------------------------------------------------------------
// Tally
// ---------------------------------------------------------------------------

/// How many replays ended in each way.
#[derive(Debug, Clone, Copy, PartialEq, Eq, Structural)]
pub struct Tally {
    pub total: usize,
    pub passed: usize,
    pub failed: usize,
    pub errored: usize,
}

/// The number of results that passed.
pub open spec fn passed_count(v: Seq<ReplayResult>) -> nat
    decreases v.len(),
{
    if v.len() == 0 {
        0
    } else {
        passed_count(v.drop_last()) + (if v.last().status@ is Passed {
            1nat
        } else {
            0nat
        })
    }
}

/// The number of results that failed.
pub open spec fn failed_count(v: Seq<ReplayResult>) -> nat
    decreases v.len(),
{
    if v.len() == 0 {
        0
    } else {
        failed_count(v.drop_last()) + (if v.last().status@ is Failed {
            1nat
        } else {
            0nat
        })
    }
}

/// The number of results that are errors.
pub open spec fn errored_count(v: Seq<ReplayResult>) -> nat
    decreases v.len(),
{
    if v.len() == 0 {
        0
    } else {
        errored_count(v.drop_last()) + (if v.last().status@ is Error {
            1nat
        } else {
            0nat
        })
    }
}

/// Counts the results.
pub fn tally(results: &Vec<ReplayResult>) -> (r: Tally)
    ensures
        r.total == results@.len(),
        r.passed == passed_count(results@),
        r.failed == failed_count(results@),
        r.errored == errored_count(results@),
        r.passed + r.failed + r.errored == r.total,
{
    let mut t = Tally { total: results.len(), passed: 0, failed: 0, errored: 0 };
    let mut i: usize = 0;
    proof {
        assert(results@.take(0) =~= Seq::<ReplayResult>::empty());
    }
    while i < results.len()
        invariant
            i <= results@.len(),
            t.total == results@.len(),
            t.passed == passed_count(results@.take(i as int)),
            t.failed == failed_count(results@.take(i as int)),
            t.errored == errored_count(results@.take(i as int)),
            t.passed + t.failed + t.errored == i,
        decreases results.len() - i,
    {
        proof {
            assert(results@.take(i + 1).drop_last() =~= results@.take(i as int));
            assert(results@.take(i + 1).last() == results@[i as int]);
        }
        match &results[i].status {
            HarnessStatus::Passed => {
                t.passed = t.passed + 1;
            },
            HarnessStatus::Failed => {
                t.failed = t.failed + 1;
            },
            HarnessStatus::Error(_) => {
                t.errored = t.errored + 1;
            },
        }
        i = i + 1;
    }
    proof {
        assert(results@.take(i as int) =~= results@);
    }
    t
}

/// The exit code: 1 if something regressed, 2 if a replay itself failed, 0 if
/// all passed.
pub open spec fn code_for(failed: nat, errored: nat) -> i32 {
    if failed > 0 {
        1
    } else if errored > 0 {
        2
    } else {
        0
    }
}

impl Tally {
    /// The exit code: 1 if something regressed, 2 if a replay itself failed, 0
    /// if all passed.
    pub fn exit_code(&self) -> (r: i32)
        ensures
            r == code_for(self.failed as nat, self.errored as nat),
    {
        if self.failed > 0 {
            1
        } else if self.errored > 0 {
            2
        } else {
            0
        }
    }

    /// The tally for people.
    pub fn line(&self) -> (r: String)
        ensures
            r@ == "[ditto] "@ + text::decimal(self.passed as nat) + "/"@ + text::decimal(
                self.total as nat,
            ) + " passed  ("@ + text::decimal(self.failed as nat) + " failed, "@ + text::decimal(
                self.errored as nat,
            ) + " errors)"@,
    {
        let mut s = "[ditto] ".to_owned();
        s.append(decimal_text(self.passed as u64).as_str());
        s.append("/");
        s.append(decimal_text(self.total as u64).as_str());
        s.append(" passed  (");
        s.append(decimal_text(self.failed as u64).as_str());
        s.append(" failed, ");
        s.append(decimal_text(self.errored as u64).as_str());
        s.append(" errors)");
        s
    }
}

/// The exit code is zero exactly if every replay passed.
pub proof fn lemma_exit_code_zero(results: Seq<ReplayResult>)
    ensures
        code_for(failed_count(results), errored_count(results)) == 0 <==> passed_count(results)
            == results.len(),
        passed_count(results) + failed_count(results) + errored_count(results) == results.len(),
    decreases results.len(),
{
    if results.len() > 0 {
        lemma_exit_code_zero(results.drop_last());
    }
}

// ---------------------------------------------------------------------------
// Output
// ---------------------------------------------------------------------------

/// The first line about a result: none for one that passed.
pub open spec fn headline(record_id: RecordId, status: HarnessView) -> Seq<char> {
    match status {
        HarnessView::Passed => Seq::empty(),
        HarnessView::Failed => "  FAIL "@ + ids::hyphenated(record_id) + "\n"@,
        HarnessView::Error(e) => "  ERR  "@ + ids::hyphenated(record_id) + " — "@ + e + "\n"@,
    }
}

/// A line for each regression among the first `k` nodes.
pub open spec fn node_lines(nodes: Seq<diff::NodeView>, k: int) -> Seq<char>
    decreases k,
{
    if k <= 0 {
        Seq::empty()
    } else {
        let before = node_lines(nodes, k - 1);
        let n = nodes[k - 1];
        if n.category == DiffCategory::Regression {
            before + "         "@ + n.path + ": "@ + json_codec::compact(n.old_value) + " → "@
                + json_codec::compact(n.new_value) + "\n"@
        } else {
            before
        }
    }
}

/// The lines for the regressions among the first `k` mismatches.
pub open spec fn mismatch_lines(v: Seq<MismatchView>, k: int) -> Seq<char>
    decreases k,
{
    if k <= 0 {
        Seq::empty()
    } else {
        let before = mismatch_lines(v, k - 1);
        let m = v[k - 1];
        if m.is_regression {
            before + "       seq="@ + text::decimal(m.sequence as nat) + " ["@ + m.fingerprint
                + "]\n"@ + node_lines(m.nodes, m.nodes.len() as int)
        } else {
            before
        }
    }
}

/// The lines about a result.
pub open spec fn result_text(record_id: RecordId, status: HarnessView, r: ReportView) -> Seq<char> {
    headline(record_id, status) + (if r.is_regression {
        mismatch_lines(r.mismatches, r.mismatches.len() as int)
    } else {
        Seq::empty()
    })
}

/// Appends a line for each regression among nodes.
fn append_nodes(s: &mut String, m: &report::InteractionMismatch)
    ensures
        final(s)@ == old(s)@ + node_lines(m@.nodes, m@.nodes.len() as int),
{
    let ghost before = s@;
    let mut i: usize = 0;
    proof {
        assert(before + Seq::<char>::empty() =~= before);
    }
    while i < m.diff.nodes.len()
        invariant
            i <= m.diff.nodes@.len(),
            s@ == before + node_lines(m@.nodes, i as int),
        decreases m.diff.nodes.len() - i,
    {
        let n = &m.diff.nodes[i];
        proof {
            assert(m@.nodes[i as int] == n@);
        }
        if n.category == DiffCategory::Regression {
            s.append("         ");
            s.append(n.path.as_str());
            s.append(": ");
            s.append(n.old_value.to_compact().as_str());
            s.append(" → ");
            s.append(n.new_value.to_compact().as_str());
            s.append("\n");
            proof {
                assert(s@ =~= before + node_lines(m@.nodes, i + 1));
            }
        }
        i = i + 1;
    }
}

/// The lines about a result.
pub fn result_lines(result: &ReplayResult) -> (r: String)
    ensures
        r@ == result_text(result.record_id, result.status@, result.report@),
{
    let mut s = String::new();
    match &result.status {
        HarnessStatus::Passed => {},
        HarnessStatus::Failed => {
            s.append("  FAIL ");
            s.append(id_to_text(result.record_id).as_str());
            s.append("\n");
        },
        HarnessStatus::Error(e) => {
            s.append("  ERR  ");
            s.append(id_to_text(result.record_id).as_str());
            s.append(" — ");
            s.append(e.as_str());
            s.append("\n");
        },
    }
    proof {
        assert(s@ =~= headline(result.record_id, result.status@));
    }
    let ghost head = s@;
    let ghost all = result.report@.mismatches;
    if result.report.is_regression {
        let mut i: usize = 0;
        proof {
            assert(head + Seq::<char>::empty() =~= head);
        }
        while i < result.report.mismatches.len()
            invariant
                all == result.report@.mismatches,
                i <= result.report.mismatches@.len(),
                s@ == head + mismatch_lines(all, i as int),
            decreases result.report.mismatches.len() - i,
        {
            let m = &result.report.mismatches[i];
            proof {
                assert(all[i as int] == m@);
            }
            if m.diff.is_regression {
                s.append("       seq=");
                s.append(decimal_text(m.sequence as u64).as_str());
                s.append(" [");
                s.append(m.fingerprint.as_str());
                s.append("]\n");
                append_nodes(&mut s, m);
                proof {
                    assert(s@ =~= head + mismatch_lines(all, i + 1));
                }
            }
            i = i + 1;
        }
    } else {
        proof {
            assert(head + Seq::<char>::empty() =~= head);
        }
    }
    s
}

/// The report of a whole run in JSON.
pub open spec fn run_tree(t: Tally, results: Seq<ReplayResult>) -> JsonTree {
    json::object_of(
        seq![
            ("total"@, report::number_tree(t.total as nat)),
            ("passed"@, report::number_tree(t.passed as nat)),
            ("failed"@, report::number_tree(t.failed as nat)),
            ("errored"@, report::number_tree(t.errored as nat)),
            (
                "results"@,
                JsonTree::Array(
                    Seq::new(results.len(), |i: int| report::report_tree(results[i].report@)),
                ),
            ),
        ],
    )
}

/// The report of a whole run, as indented JSON text.
pub fn run_report(t: Tally, results: &Vec<ReplayResult>) -> (r: String)
    ensures
        r@ == json_codec::pretty(run_tree(t, results@)),
{
    let mut reports: Vec<JsonValue> = Vec::new();
    let mut i: usize = 0;
    while i < results.len()
        invariant
            i <= results@.len(),
            reports@.len() == i,
            forall|j: int|
                0 <= j < i ==> (#[trigger] reports@[j])@ == report::report_tree(
                    results@[j].report@,
                ),
        decreases results.len() - i,
    {
        reports.push(results[i].report.to_json_value());
        i = i + 1;
    }
    let reports = JsonValue::Array(reports);
    proof {
        assert(reports@->Array_0 =~= Seq::new(
            results@.len(),
            |i: int| report::report_tree(results@[i].report@),
        ));
    }
    let fields: Vec<(&str, JsonValue)> = vec![
        ("total", JsonValue::unsigned(t.total as u64)),
        ("passed", JsonValue::unsigned(t.passed as u64)),
        ("failed", JsonValue::unsigned(t.failed as u64)),
        ("errored", JsonValue::unsigned(t.errored as u64)),
        ("results", reports),
    ];
    proof {
        assert(json::field_views(fields@) =~= seq![
            ("total"@, report::number_tree(t.total as nat)),
            ("passed"@, report::number_tree(t.passed as nat)),
            ("failed"@, report::number_tree(t.failed as nat)),
            ("errored"@, report::number_tree(t.errored as nat)),
            (
                "results"@,
                JsonTree::Array(
                    Seq::new(results@.len(), |i: int| report::report_tree(results@[i].report@)),
                ),
            ),
        ]);
    }
    object(fields).to_pretty()
}

// ---------------------------------------------------------------------------
// Laws
// ---------------------------------------------------------------------------

/// A sample size is read from its decimal notation, with or without a plus
/// sign; without the setting, and with one that has another character, it is
/// 50.
pub proof fn lemma_sample_size(s: String, n: usize, i: int)
    ensures
        s@ == text::decimal(n as nat) || s@ == seq!['+'] + text::decimal(n as nat)
            ==> sample_size_of(Some(s)) == n,
        sample_size_of(None) == 50,
        1 <= i < s@.len() && !('0' <= s@[i] && s@[i] <= '9') ==> sample_size_of(Some(s)) == 50,
        s@.len() == 0 || s@ == seq!['+'] ==> sample_size_of(Some(s)) == 50,
        s@.len() > 0 && s@[0] != '+' && !('0' <= s@[0] && s@[0] <= '9') ==> sample_size_of(Some(s))
            == 50,
{
    let d = text::decimal(n as nat);
    text::lemma_decimal_reads_back(n as nat);
    assert(text::ascii_digit(d[0]));
    assert((seq!['+'] + d).skip(1) =~= d);
    let digits = text::unsigned_part(s@);
    if s@.len() > 0 && s@[0] != '+' && !('0' <= s@[0] && s@[0] <= '9') {
        assert(digits[0] == s@[0]);
    }
    if 1 <= i < s@.len() && !('0' <= s@[i] && s@[i] <= '9') {
        if s@[0] == '+' {
            assert(digits[i - 1] == s@[i]);
        } else {
            assert(digits[i] == s@[i]);
        }
    }
}

/// The exit code is 1 as soon as one replay regressed, 2 if none did but one
/// failed itself, and 0 if there is neither.
pub proof fn lemma_exit_code(results: Seq<ReplayResult>, i: int)
    ensures
        0 <= i < results.len() && results[i].status@ is Failed ==> code_for(
            failed_count(results),
            errored_count(results),
        ) == 1,
        (forall|j: int| 0 <= j < results.len() ==> !((#[trigger] results[j]).status@ is Failed))
            && 0 <= i < results.len() && results[i].status@ is Error ==> code_for(
            failed_count(results),
            errored_count(results),
        ) == 2,
        (forall|j: int| 0 <= j < results.len() ==> (#[trigger] results[j]).status@ is Passed)
            ==> code_for(failed_count(results), errored_count(results)) == 0,
{
    lemma_counts(results);
}

proof fn lemma_counts(results: Seq<ReplayResult>)
    ensures
        failed_count(results) > 0 <==> exists|j: int|
            0 <= j < results.len() && (#[trigger] results[j]).status@ is Failed,
        errored_count(results) > 0 <==> exists|j: int|
            0 <= j < results.len() && (#[trigger] results[j]).status@ is Error,
    decreases results.len(),
{
    if results.len() > 0 {
        let front = results.drop_last();
        lemma_counts(front);
        assert forall|j: int| 0 <= j < front.len() implies #[trigger] front[j] == results[j] by {}
        assert(results[results.len() - 1] == results.last());
        if exists|j: int| 0 <= j < results.len() && (#[trigger] results[j]).status@ is Failed {
            let j = choose|j: int|
                0 <= j < results.len() && (#[trigger] results[j]).status@ is Failed;
            if j < front.len() {
                assert(front[j].status@ is Failed);
            }
        }
        if exists|j: int| 0 <= j < front.len() && (#[trigger] front[j]).status@ is Failed {
            let j = choose|j: int| 0 <= j < front.len() && (#[trigger] front[j]).status@ is Failed;
            assert(results[j].status@ is Failed);
        }
        if exists|j: int| 0 <= j < results.len() && (#[trigger] results[j]).status@ is Error {
            let j = choose|j: int|
                0 <= j < results.len() && (#[trigger] results[j]).status@ is Error;
            if j < front.len() {
                assert(front[j].status@ is Error);
            }
        }
        if exists|j: int| 0 <= j < front.len() && (#[trigger] front[j]).status@ is Error {
            let j = choose|j: int| 0 <= j < front.len() && (#[trigger] front[j]).status@ is Error;
            assert(results[j].status@ is Error);
        }
    }
}

/// Nothing is printed about a replay that passed; of any other its recording
/// is named, and of one that failed itself the reason.
pub proof fn lemma_what_is_printed(record_id: RecordId, reason: Seq<char>, r: ReportView)
    ensures
        !r.is_regression ==> result_text(record_id, HarnessView::Passed, r).len() == 0,
        text::has_text(
            result_text(record_id, HarnessView::Failed, r),
            "  FAIL "@ + ids::hyphenated(record_id),
        ),
        text::has_text(
            result_text(record_id, HarnessView::Error(reason), r),
            "  ERR  "@ + ids::hyphenated(record_id) + " — "@ + reason,
        ),
{
    let none = Seq::<char>::empty();
    let more = if r.is_regression {
        mismatch_lines(r.mismatches, r.mismatches.len() as int)
    } else {
        none
    };
    let f = "  FAIL "@ + ids::hyphenated(record_id);
    text::lemma_has_text_between(none, f, "\n"@ + more);
    assert(none + f + ("\n"@ + more) =~= result_text(record_id, HarnessView::Failed, r));
    let e = "  ERR  "@ + ids::hyphenated(record_id) + " — "@ + reason;
    text::lemma_has_text_between(none, e, "\n"@ + more);
    assert(none + e + ("\n"@ + more) =~= result_text(record_id, HarnessView::Error(reason), r));
}

/// A regression of a mismatch that regressed is printed with its path and its
/// two values.
pub proof fn lemma_regression_is_printed(
    record_id: RecordId,
    status: HarnessView,
    r: ReportView,
    i: int,
    j: int,
)
    requires
        r.is_regression,
        0 <= i < r.mismatches.len(),
        r.mismatches[i].is_regression,
        0 <= j < r.mismatches[i].nodes.len(),
        r.mismatches[i].nodes[j].category == DiffCategory::Regression,
    ensures
        ({
            let n = r.mismatches[i].nodes[j];
            text::has_text(
                result_text(record_id, status, r),
                n.path + ": "@ + json_codec::compact(n.old_value) + " → "@ + json_codec::compact(
                    n.new_value,
                ),
            )
        }),
{
    let n = r.mismatches[i].nodes[j];
    let p = n.path + ": "@ + json_codec::compact(n.old_value) + " → "@ + json_codec::compact(
        n.new_value,
    );
    lemma_node_line(r.mismatches[i].nodes, r.mismatches[i].nodes.len() as int, j);
    lemma_mismatch_line(r.mismatches, r.mismatches.len() as int, i, p);
    let head = headline(record_id, status);
    let lines = mismatch_lines(r.mismatches, r.mismatches.len() as int);
    text::lemma_has_text_around(head, lines, Seq::empty(), p);
    assert(head + lines + Seq::<char>::empty() =~= result_text(record_id, status, r));
}

proof fn lemma_node_line(nodes: Seq<diff::NodeView>, k: int, j: int)
    requires
        0 <= j < k <= nodes.len(),
        nodes[j].category == DiffCategory::Regression,
    ensures
        text::has_text(
            node_lines(nodes, k),
            nodes[j].path + ": "@ + json_codec::compact(nodes[j].old_value) + " → "@
                + json_codec::compact(nodes[j].new_value),
        ),
    decreases k,
{
    let before = node_lines(nodes, k - 1);
    let all = node_lines(nodes, k);
    let p = nodes[j].path + ": "@ + json_codec::compact(nodes[j].old_value) + " → "@
        + json_codec::compact(nodes[j].new_value);
    if j == k - 1 {
        text::lemma_has_text_between(before + "         "@, p, "\n"@);
        assert(before + "         "@ + p + "\n"@ =~= all);
    } else {
        lemma_node_line(nodes, k - 1, j);
        let rest = all.skip(before.len() as int);
        text::lemma_has_text_around(Seq::empty(), before, rest, p);
        assert(Seq::<char>::empty() + before + rest =~= all);
    }
}

proof fn lemma_mismatch_line(v: Seq<MismatchView>, k: int, i: int, p: Seq<char>)
    requires
        0 <= i < k <= v.len(),
        v[i].is_regression,
        text::has_text(node_lines(v[i].nodes, v[i].nodes.len() as int), p),
    ensures
        text::has_text(mismatch_lines(v, k), p),
    decreases k,
{
    let before = mismatch_lines(v, k - 1);
    let all = mismatch_lines(v, k);
    if i == k - 1 {
        let lines = node_lines(v[i].nodes, v[i].nodes.len() as int);
        let head = all.take(all.len() - lines.len());
        text::lemma_has_text_around(head, lines, Seq::empty(), p);
        assert(head + lines + Seq::<char>::empty() =~= all);
    } else {
        lemma_mismatch_line(v, k - 1, i, p);
        let rest = all.skip(before.len() as int);
        text::lemma_has_text_around(Seq::empty(), before, rest, p);
        assert(Seq::<char>::empty() + before + rest =~= all);
    }
}

/// Settings that are absent mean their defaults: 50 recordings, none in
/// particular, no report, no declared change and no token to translate.
pub proof fn lemma_absent_settings(s: Settings, c: Config)
    requires
        configured(s, c),
        s.sample_size is None,
        s.record_id is None,
        s.report_path is None,
        s.manifest is None,
        s.token_map is None,
    ensures
        s.db_url == Some(c.db_url),
        s.target_url == Some(c.target_url),
        c.sample_size == 50,
        c.single_record_id is None,
        c.report_path is None,
        c.manifest@.changes.len() == 0,
        c.token_map@.len() == 0,
{
    assert(harness::pair_views(c.token_map@).len() == c.token_map@.len());
}

/// The report of a run holds the counts of its tally, and the report of each
/// replay in its order.
pub proof fn lemma_run_in_json(t: Tally, results: Seq<ReplayResult>)
    ensures
        json::member(run_tree(t, results), "total"@) == Some(
            JsonTree::Number(json::NumberView::Int(t.total as int)),
        ),
        json::member(run_tree(t, results), "passed"@) == Some(
            JsonTree::Number(json::NumberView::Int(t.passed as int)),
        ),
        json::member(run_tree(t, results), "failed"@) == Some(
            JsonTree::Number(json::NumberView::Int(t.failed as int)),
        ),
        json::member(run_tree(t, results), "errored"@) == Some(
            JsonTree::Number(json::NumberView::Int(t.errored as int)),
        ),
        json::member(run_tree(t, results), "results"@) matches Some(JsonTree::Array(v)) && v.len()
            == results.len() && forall|i: int|
            0 <= i < v.len() ==> #[trigger] v[i] == report::report_tree(results[i].report@),
{
    let all = seq![
        ("total"@, report::number_tree(t.total as nat)),
        ("passed"@, report::number_tree(t.passed as nat)),
        ("failed"@, report::number_tree(t.failed as nat)),
        ("errored"@, report::number_tree(t.errored as nat)),
        (
            "results"@,
            JsonTree::Array(
                Seq::new(results.len(), |i: int| report::report_tree(results[i].report@)),
            ),
        ),
    ];
    reveal_strlit("total");
    reveal_strlit("passed");
    reveal_strlit("failed");
    reveal_strlit("errored");
    reveal_strlit("results");
    reveal_strlit("");
    assert("total"@.len() == 5 && "passed"@.len() == 6 && "failed"@.len() == 6);
    assert("errored"@.len() == 7 && "results"@.len() == 7);
    assert("passed"@[0] == 'p' && "failed"@[0] == 'f');
    assert("errored"@[0] == 'e' && "results"@[0] == 'r');
    json::lemma_fields_are_found(all, 0, ""@);
    json::lemma_fields_are_found(all, 1, ""@);
    json::lemma_fields_are_found(all, 2, ""@);
    json::lemma_fields_are_found(all, 3, ""@);
    json::lemma_fields_are_found(all, 4, ""@);
}

/// A mismatch without a regression is not printed.
pub proof fn lemma_only_regressions_are_printed(v: Seq<MismatchView>, k: int)
    requires
        0 <= k <= v.len(),
        forall|i: int| 0 <= i < k ==> !(#[trigger] v[i]).is_regression,
    ensures
        mismatch_lines(v, k).len() == 0,
    decreases k,
{
    if k > 0 {
        lemma_only_regressions_are_printed(v, k - 1);
        assert(!v[k - 1].is_regression);
    }
}

} // verus!
