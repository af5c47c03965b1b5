//! A scan of source text for calls that bypass record and replay, and their
//! rewriting.
use crate::text;
use crate::text::{contains, lines, replace, same_text, starts_with, trim};
use vstd::prelude::*;

verus! {

/// A call that should go through the compatible clients.
#[derive(Debug, PartialEq)]
pub struct Finding {
    pub file: String,
    /// The line, counted from one.
    pub line: usize,
    /// The call.
    pub kind: String,
    /// The line without surrounding whitespace.
    pub snippet: String,
    /// What to do about it.
    pub fix: String,
}

/// What a [`Finding`] is.
pub struct FindingView {
    pub file: Seq<char>,
    pub line: nat,
    pub kind: Seq<char>,
    pub snippet: Seq<char>,
    pub fix: Seq<char>,
}

impl View for Finding {
    type V = FindingView;

    open spec fn view(&self) -> FindingView {
        FindingView {
            file: self.file@,
            line: self.line as nat,
            kind: self.kind@,
            snippet: self.snippet@,
            fix: self.fix@,
        }
    }
}

/// The views of a list of findings.
pub open spec fn finding_views(v: Seq<Finding>) -> Seq<FindingView> {
    Seq::new(v.len(), |i: int| v[i]@)
}

/// The calls to look for, each with its hint. Of several in one line the first
/// counts.
pub open spec fn patterns() -> Seq<(Seq<char>, Seq<char>)> {
    seq![
        ("reqwest::Client::new()"@, "use replay_compat::http::Client::new() instead"@),
        ("reqwest::Client::builder()"@, "use replay_compat::http::Client::new() instead"@),
        (
            "tokio::task::spawn("@,
            "use replay_compat::tokio::task::spawn(...) or annotate with #[instrument_spawns]"@,
        ),
        (
            "tokio::spawn("@,
            "use replay_compat::tokio::task::spawn(...) or annotate with #[instrument_spawns]"@,
        ),
        ("redis::Client::open("@, "use replay_compat::redis::open(...) instead"@),
        ("sqlx::PgPool::connect("@, "use replay_compat::sql::connect(...) instead"@),
        ("sqlx::Pool::connect("@, "use replay_compat::sql::connect(...) instead"@),
        ("sqlx::MySqlPool::connect("@, "use replay_compat::sql::connect(...) instead"@),
    ]
}

/// The first of the patterns from `k` on that stands in a line, or their
/// number.
pub open spec fn first_pattern(line: Seq<char>, k: int) -> int
    decreases patterns().len() - k,
{
    if k >= patterns().len() {
        patterns().len() as int
    } else if text::has_text(line, patterns()[k].0) {
        k
    } else {
        first_pattern(line, k + 1)
    }
}

/// A line without surrounding whitespace.
pub open spec fn snippet_of(line: Seq<char>) -> Seq<char> {
    text::trimmed_end(text::trimmed_start(line))
}

/// A line that is a comment.
pub open spec fn comment(line: Seq<char>) -> bool {
    text::has_prefix(snippet_of(line), "//"@) || text::has_prefix(snippet_of(line), "*"@)
}

/// What is found in a line: nothing in a comment, and nothing where the
/// compatible clients are used already.
pub open spec fn found_in(file: Seq<char>, line: Seq<char>, number: nat) -> Option<FindingView> {
    let k = first_pattern(line, 0);
    if comment(line) || k >= patterns().len() || text::has_text(line, "replay_compat"@) {
        None
    } else {
        Some(
            FindingView {
                file,
                line: number,
                kind: patterns()[k].0,
                snippet: snippet_of(line),
                fix: patterns()[k].1,
            },
        )
    }
}

/// What is found in the first `n` lines.
pub open spec fn found_in_lines(file: Seq<char>, lines: Seq<Seq<char>>, n: int) -> Seq<FindingView>
    decreases n,
{
    if n <= 0 {
        Seq::empty()
    } else {
        let before = found_in_lines(file, lines, n - 1);
        match found_in(file, lines[n - 1], n as nat) {
            Some(f) => before.push(f),
            None => before,
        }
    }
}

/// A text that says of itself that it was generated.
pub open spec fn generated(source: Seq<char>) -> bool {
    text::has_prefix(source, "// @generated"@) || text::has_prefix(source, "/* @generated"@)
}

/// What is found in a source text.
pub open spec fn findings(file: Seq<char>, source: Seq<char>) -> Seq<FindingView> {
    if generated(source) {
        Seq::empty()
    } else {
        found_in_lines(file, text::lines_of(source), text::lines_of(source).len() as int)
    }
}

/// The calls to look for, each with its hint.
fn pattern_list() -> (r: Vec<(&'static str, &'static str)>)
    ensures
        r@.len() == patterns().len(),
        forall|i: int|
            0 <= i < r@.len() ==> (#[trigger] r@[i]).0@ == patterns()[i].0 && r@[i].1@
                == patterns()[i].1,
{
    vec![
        ("reqwest::Client::new()", "use replay_compat::http::Client::new() instead"),
        ("reqwest::Client::builder()", "use replay_compat::http::Client::new() instead"),
        (
            "tokio::task::spawn(",
            "use replay_compat::tokio::task::spawn(...) or annotate with #[instrument_spawns]",
        ),
        (
            "tokio::spawn(",
            "use replay_compat::tokio::task::spawn(...) or annotate with #[instrument_spawns]",
        ),
        ("redis::Client::open(", "use replay_compat::redis::open(...) instead"),
        ("sqlx::PgPool::connect(", "use replay_compat::sql::connect(...) instead"),
        ("sqlx::Pool::connect(", "use replay_compat::sql::connect(...) instead"),
        ("sqlx::MySqlPool::connect(", "use replay_compat::sql::connect(...) instead"),
    ]
}

/// What is found in a line.
fn scan_line(
    list: &Vec<(&'static str, &'static str)>,
    file: &str,
    line: &str,
    number: usize,
) -> (r: Option<Finding>)
    requires
        list@.len() == patterns().len(),
        forall|i: int|
            0 <= i < list@.len() ==> (#[trigger] list@[i]).0@ == patterns()[i].0 && list@[i].1@
                == patterns()[i].1,
    ensures
        match found_in(file@, line@, number as nat) {
            Some(f) => r is Some && r->0@ == f,
            None => r is None,
        },
{
    let snippet = trim(line);
    if starts_with(snippet.as_str(), "//") || starts_with(snippet.as_str(), "*") {
        return None;
    }
    if contains(line, "replay_compat") {
        return None;
    }
    let mut k: usize = 0;
    while k < list.len()
        invariant
            list@.len() == patterns().len(),
            forall|i: int|
                0 <= i < list@.len() ==> (#[trigger] list@[i]).0@ == patterns()[i].0 && list@[i].1@
                    == patterns()[i].1,
            k <= list@.len(),
            first_pattern(line@, k as int) == first_pattern(line@, 0),
            snippet@ == snippet_of(line@),
            !comment(line@),
            !text::has_text(line@, "replay_compat"@),
        decreases list.len() - k,
    {
        if contains(line, list[k].0) {
            return Some(
                Finding {
                    file: file.to_owned(),
                    line: number,
                    kind: list[k].0.to_owned(),
                    snippet,
                    fix: list[k].1.to_owned(),
                },
            );
        }
        k = k + 1;
    }
    None
}

/// Finds the calls in a source text that bypass record and replay.
pub fn scan_source(file: &str, source: &str) -> (r: Vec<Finding>)
    ensures
        finding_views(r@) == findings(file@, source@),
{
    let mut out: Vec<Finding> = Vec::new();
    proof {
        assert(finding_views(out@) =~= Seq::<FindingView>::empty());
    }
    if starts_with(source, "// @generated") || starts_with(source, "/* @generated") {
        return out;
    }
    let list = pattern_list();
    let all = lines(source);
    let mut i: usize = 0;
    while i < all.len()
        invariant
            list@.len() == patterns().len(),
            forall|j: int|
                0 <= j < list@.len() ==> (#[trigger] list@[j]).0@ == patterns()[j].0 && list@[j].1@
                    == patterns()[j].1,
            text::texts(all@) == text::lines_of(source@),
            i <= all@.len(),
            finding_views(out@) == found_in_lines(file@, text::lines_of(source@), i as int),
        decreases all.len() - i,
    {
        let ghost done = finding_views(out@);
        proof {
            assert(text::lines_of(source@)[i as int] == all@[i as int]@);
        }
        if let Some(f) = scan_line(&list, file, all[i].as_str(), i + 1) {
            let ghost v = f@;
            out.push(f);
            proof {
                assert(finding_views(out@) =~= done.push(v));
            }
        }
        i = i + 1;
    }
    out
}

/// Some pattern stands in the path.
pub open spec fn ignored(path: Seq<char>, patterns: Seq<Seq<char>>) -> bool {
    exists|i: int| 0 <= i < patterns.len() && text::has_text(path, #[trigger] patterns[i])
}

/// Whether a path is left out of the scan.
pub fn should_ignore(path: &str, patterns: &Vec<String>) -> (r: bool)
    ensures
        r == ignored(path@, text::texts(patterns@)),
{
    let ghost all = text::texts(patterns@);
    let mut i: usize = 0;
    while i < patterns.len()
        invariant
            all == text::texts(patterns@),
            i <= patterns@.len(),
            forall|j: int| 0 <= j < i ==> !text::has_text(path@, #[trigger] all[j]),
        decreases patterns.len() - i,
    {
        if contains(path, patterns[i].as_str()) {
            proof {
                assert(text::has_text(path@, all[i as int]));
            }
            return true;
        }
        i = i + 1;
    }
    false
}

/// The replacements of a rewrite, in their order.
pub open spec fn rewrites() -> Seq<(Seq<char>, Seq<char>)> {
    seq![
        ("reqwest::Client::new()"@, "replay_compat::http::Client::new()"@),
        ("reqwest::Client::builder()"@, "replay_compat::http::Client::new()"@),
        ("redis::Client::open("@, "replay_compat::redis::open("@),
        ("sqlx::PgPool::connect("@, "replay_compat::sql::connect("@),
        ("sqlx::MySqlPool::connect("@, "replay_compat::sql::connect("@),
        ("sqlx::Pool::connect("@, "replay_compat::sql::connect("@),
        ("tokio::task::spawn("@, "replay_compat::tokio::task::spawn("@),
        ("tokio::spawn("@, "replay_compat::tokio::task::spawn("@),
    ]
}

/// A source text after the first `k` replacements.
pub open spec fn rewritten(source: Seq<char>, k: int) -> Seq<char>
    decreases k,
{
    if k <= 0 {
        source
    } else {
        text::replaced(rewritten(source, k - 1), rewrites()[k - 1].0, rewrites()[k - 1].1)
    }
}

/// A source text with its calls rewritten to the compatible clients; `None` if
/// there is nothing to rewrite.
pub fn fix_source(source: &str) -> (r: Option<String>)
    ensures
        match r {
            Some(s) => s@ == rewritten(source@, rewrites().len() as int) && s@ != source@,
            None => rewritten(source@, rewrites().len() as int) == source@,
        },
{
    let mut s = replace(source, "reqwest::Client::new()", "replay_compat::http::Client::new()");
    proof {
        reveal_with_fuel(rewritten, 9);
    }
    s = replace(
        s.as_str(),
        "reqwest::Client::builder()",
        "replay_compat::http::Client::new()",
    );
    s = replace(s.as_str(), "redis::Client::open(", "replay_compat::redis::open(");
    s = replace(s.as_str(), "sqlx::PgPool::connect(", "replay_compat::sql::connect(");
    s = replace(s.as_str(), "sqlx::MySqlPool::connect(", "replay_compat::sql::connect(");
    s = replace(s.as_str(), "sqlx::Pool::connect(", "replay_compat::sql::connect(");
    s = replace(s.as_str(), "tokio::task::spawn(", "replay_compat::tokio::task::spawn(");
    s = replace(s.as_str(), "tokio::spawn(", "replay_compat::tokio::task::spawn(");
    if same_text(s.as_str(), source) {
        None
    } else {
        Some(s)
    }
}

// ---------------------------------------------------------------------------
// Laws
// ---------------------------------------------------------------------------

/// Every finding names a line that is no comment, that holds the call which it
/// names, and that does not use the compatible clients already.
pub proof fn lemma_findings_sound(file: Seq<char>, lines: Seq<Seq<char>>, n: int, i: int)
    requires
        0 <= n <= lines.len(),
        0 <= i < found_in_lines(file, lines, n).len(),
    ensures
        ({
            let f = found_in_lines(file, lines, n)[i];
            &&& 1 <= f.line <= n
            &&& text::has_text(lines[f.line - 1], f.kind)
            &&& !comment(lines[f.line - 1])
            &&& !text::has_text(lines[f.line - 1], "replay_compat"@)
        }),
    decreases n,
{
    if n > 0 {
        let before = found_in_lines(file, lines, n - 1);
        if i < before.len() {
            lemma_findings_sound(file, lines, n - 1, i);
        } else {
            lemma_first_pattern(lines[n - 1], 0);
        }
    }
}

/// No call is overlooked: a line that holds one of the calls, is no comment and
/// does not use the compatible clients already has a finding of its own.
pub proof fn lemma_findings_complete(
    file: Seq<char>,
    lines: Seq<Seq<char>>,
    n: int,
    line: int,
    k: int,
)
    requires
        1 <= line <= n <= lines.len(),
        0 <= k < patterns().len(),
        text::has_text(lines[line - 1], patterns()[k].0),
        !comment(lines[line - 1]),
        !text::has_text(lines[line - 1], "replay_compat"@),
    ensures
        exists|i: int|
            0 <= i < found_in_lines(file, lines, n).len() && (#[trigger] found_in_lines(
                file,
                lines,
                n,
            )[i]).line == line,
    decreases n,
{
    let all = found_in_lines(file, lines, n);
    let before = found_in_lines(file, lines, n - 1);
    if line < n {
        lemma_findings_complete(file, lines, n - 1, line, k);
        let i = choose|i: int| 0 <= i < before.len() && (#[trigger] before[i]).line == line;
        assert(all[i] == before[i]);
    } else {
        lemma_pattern_found(lines[n - 1], 0, k);
        assert(all[before.len() as int].line == line);
    }
}

proof fn lemma_pattern_found(line: Seq<char>, from: int, k: int)
    requires
        0 <= from <= k < patterns().len(),
        text::has_text(line, patterns()[k].0),
    ensures
        first_pattern(line, from) <= k,
    decreases k - from,
{
    if from < k && !text::has_text(line, patterns()[from].0) {
        lemma_pattern_found(line, from + 1, k);
    }
}

proof fn lemma_first_pattern(line: Seq<char>, k: int)
    requires
        0 <= k,
    ensures
        k <= first_pattern(line, k) || first_pattern(line, k) == patterns().len(),
        0 <= first_pattern(line, k) < patterns().len() ==> text::has_text(
            line,
            patterns()[first_pattern(line, k)].0,
        ),
    decreases patterns().len() - k,
{
    if k < patterns().len() && !text::has_text(line, patterns()[k].0) {
        lemma_first_pattern(line, k + 1);
    }
}

/// A text that was generated has no findings.
pub proof fn lemma_generated_is_skipped(file: Seq<char>, source: Seq<char>)
    requires
        generated(source),
    ensures
        findings(file, source).len() == 0,
{
}

/// A line that holds one of the calls and does not name the compatible clients
/// is found, unless its first characters besides whitespace are `*` or two
/// slashes. The finding says where it is and shows the line.
pub proof fn lemma_call_is_found(
    file: Seq<char>,
    source: Seq<char>,
    line: int,
    call: Seq<char>,
    k: int,
)
    requires
        !text::has_prefix(source, "// @generated"@),
        !text::has_prefix(source, "/* @generated"@),
        0 <= line < text::lines_of(source).len(),
        call == "reqwest::Client::new()"@
            || call == "reqwest::Client::builder()"@
            || call == "tokio::task::spawn("@
            || call == "tokio::spawn("@
            || call == "redis::Client::open("@
            || call == "sqlx::PgPool::connect("@
            || call == "sqlx::Pool::connect("@
            || call == "sqlx::MySqlPool::connect("@,
        text::has_text(text::lines_of(source)[line], call),
        !text::has_text(text::lines_of(source)[line], "replay_compat"@),
        0 <= k < text::lines_of(source)[line].len(),
        forall|i: int|
            0 <= i < k ==> text::whitespace(#[trigger] text::lines_of(source)[line][i]),
        !text::whitespace(text::lines_of(source)[line][k]),
        text::lines_of(source)[line][k] != '*',
        text::lines_of(source)[line][k] != '/' || k + 1 == text::lines_of(source)[line].len()
            || text::lines_of(source)[line][k + 1] != '/',
    ensures
        exists|i: int|
            0 <= i < findings(file, source).len() && (#[trigger] findings(file, source)[i]).line
                == line + 1 && findings(file, source)[i].file == file && text::has_text(
                text::lines_of(source)[line],
                findings(file, source)[i].kind,
            ) && findings(file, source)[i].snippet == text::trimmed_end(
                text::lines_of(source)[line].skip(k),
            ),
{
    let lines = text::lines_of(source);
    let l = lines[line];
    let n = lines.len() as int;
    text::lemma_trimmed_begins(l, k);
    let rest = l.skip(k);
    text::lemma_trimmed_end(rest);
    reveal_strlit("//");
    reveal_strlit("*");
    let snippet = snippet_of(l);
    if text::has_prefix(snippet, "//"@) {
        assert(snippet.subrange(0, 2)[0] == '/' && snippet.subrange(0, 2)[1] == '/');
        assert(snippet[1] == rest[1]);
    }
    if text::has_prefix(snippet, "*"@) {
        assert(snippet.subrange(0, 1)[0] == '*');
    }
    lemma_is_a_pattern(call);
    let p = choose|p: int| 0 <= p < 8 && (#[trigger] patterns()[p]).0 == call;
    lemma_findings_complete(file, lines, n, line + 1, p);
    let all = findings(file, source);
    assert(all == found_in_lines(file, lines, n));
    let i = choose|i: int| 0 <= i < all.len() && (#[trigger] all[i]).line == line + 1;
    lemma_findings_sound(file, lines, n, i);
    lemma_finding_shows_its_line(file, lines, n, i);
    assert(lines[all[i].line - 1] == l);
    assert(all[i].snippet == text::trimmed_end(rest));
}

proof fn lemma_is_a_pattern(call: Seq<char>)
    requires
        call == "reqwest::Client::new()"@
            || call == "reqwest::Client::builder()"@
            || call == "tokio::task::spawn("@
            || call == "tokio::spawn("@
            || call == "redis::Client::open("@
            || call == "sqlx::PgPool::connect("@
            || call == "sqlx::Pool::connect("@
            || call == "sqlx::MySqlPool::connect("@,
    ensures
        patterns().len() == 8,
        exists|p: int| 0 <= p < 8 && (#[trigger] patterns()[p]).0 == call,
{
    if call == "reqwest::Client::new()"@ {
        assert(patterns()[0].0 == call);
    }
    if call == "reqwest::Client::builder()"@ {
        assert(patterns()[1].0 == call);
    }
    if call == "tokio::task::spawn("@ {
        assert(patterns()[2].0 == call);
    }
    if call == "tokio::spawn("@ {
        assert(patterns()[3].0 == call);
    }
    if call == "redis::Client::open("@ {
        assert(patterns()[4].0 == call);
    }
    if call == "sqlx::PgPool::connect("@ {
        assert(patterns()[5].0 == call);
    }
    if call == "sqlx::Pool::connect("@ {
        assert(patterns()[6].0 == call);
    }
    if call == "sqlx::MySqlPool::connect("@ {
        assert(patterns()[7].0 == call);
    }
}

proof fn lemma_finding_shows_its_line(file: Seq<char>, lines: Seq<Seq<char>>, n: int, i: int)
    requires
        0 <= n <= lines.len(),
        0 <= i < found_in_lines(file, lines, n).len(),
    ensures
        ({
            let f = found_in_lines(file, lines, n)[i];
            &&& f.file == file
            &&& 1 <= f.line <= n
            &&& f.snippet == text::trimmed_end(text::trimmed_start(lines[f.line - 1]))
            &&& exists|p: int|
                0 <= p < 8 && (#[trigger] patterns()[p]).0 == f.kind && patterns()[p].1 == f.fix
        }),
    decreases n,
{
    if n > 0 {
        let before = found_in_lines(file, lines, n - 1);
        if i < before.len() {
            lemma_finding_shows_its_line(file, lines, n - 1, i);
        } else {
            lemma_first_pattern(lines[n - 1], 0);
            let p = first_pattern(lines[n - 1], 0);
            assert(patterns()[p].0 == found_in_lines(file, lines, n)[i].kind);
        }
    }
}

/// A line whose first characters besides whitespace are `*` or two slashes has
/// no finding, nor has a line that names the compatible clients, nor one that
/// holds none of the calls.
pub proof fn lemma_nothing_found_in_line(
    file: Seq<char>,
    source: Seq<char>,
    line: int,
    k: int,
    i: int,
)
    requires
        0 <= line < text::lines_of(source).len(),
        ({
            let l = text::lines_of(source)[line];
            ||| {
                &&& 0 <= k < l.len()
                &&& forall|j: int| 0 <= j < k ==> text::whitespace(#[trigger] l[j])
                &&& l[k] == '*' || (l[k] == '/' && k + 1 < l.len() && l[k + 1] == '/')
            }
            ||| text::has_text(l, "replay_compat"@)
            ||| {
                &&& !text::has_text(l, "reqwest::Client::new()"@)
                &&& !text::has_text(l, "reqwest::Client::builder()"@)
                &&& !text::has_text(l, "tokio::task::spawn("@)
                &&& !text::has_text(l, "tokio::spawn("@)
                &&& !text::has_text(l, "redis::Client::open("@)
                &&& !text::has_text(l, "sqlx::PgPool::connect("@)
                &&& !text::has_text(l, "sqlx::Pool::connect("@)
                &&& !text::has_text(l, "sqlx::MySqlPool::connect("@)
            }
        }),
        0 <= i < findings(file, source).len(),
    ensures
        findings(file, source)[i].line != line + 1,
{
    let lines = text::lines_of(source);
    let l = lines[line];
    let n = lines.len() as int;
    lemma_findings_sound(file, lines, n, i);
    lemma_finding_shows_its_line(file, lines, n, i);
    let f = findings(file, source)[i];
    if f.line == line + 1 {
        if 0 <= k < l.len() && (forall|j: int| 0 <= j < k ==> text::whitespace(#[trigger] l[j])) && (
        l[k] == '*' || (l[k] == '/' && k + 1 < l.len() && l[k + 1] == '/')) {
            text::lemma_trimmed_begins(l, k);
            let rest = l.skip(k);
            text::lemma_trimmed_end(rest);
            reveal_strlit("//");
            reveal_strlit("*");
            let snippet = snippet_of(l);
            if l[k] == '*' {
                assert(snippet.subrange(0, 1) =~= "*"@);
            } else {
                if snippet.len() < 2 {
                    assert(text::whitespace(rest[1]));
                }
                assert(snippet.subrange(0, 2) =~= "//"@);
            }
        } else {
            let p = choose|p: int| 0 <= p < 8 && (#[trigger] patterns()[p]).0 == f.kind;
            assert(text::has_text(l, patterns()[p].0));
        }
    }
}

/// Each call has its hint.
pub proof fn lemma_hint_of_each_call(file: Seq<char>, source: Seq<char>, i: int)
    requires
        0 <= i < findings(file, source).len(),
    ensures
        ({
            let f = findings(file, source)[i];
            &&& f.kind == "reqwest::Client::new()"@ ==> f.fix
                == "use replay_compat::http::Client::new() instead"@
            &&& f.kind == "reqwest::Client::builder()"@ ==> f.fix
                == "use replay_compat::http::Client::new() instead"@
            &&& f.kind == "tokio::task::spawn("@ ==> f.fix
                == "use replay_compat::tokio::task::spawn(...) or annotate with #[instrument_spawns]"@
            &&& f.kind == "tokio::spawn("@ ==> f.fix
                == "use replay_compat::tokio::task::spawn(...) or annotate with #[instrument_spawns]"@
            &&& f.kind == "redis::Client::open("@ ==> f.fix
                == "use replay_compat::redis::open(...) instead"@
            &&& f.kind == "sqlx::PgPool::connect("@ ==> f.fix
                == "use replay_compat::sql::connect(...) instead"@
            &&& f.kind == "sqlx::Pool::connect("@ ==> f.fix
                == "use replay_compat::sql::connect(...) instead"@
            &&& f.kind == "sqlx::MySqlPool::connect("@ ==> f.fix
                == "use replay_compat::sql::connect(...) instead"@
        }),
{
    let lines = text::lines_of(source);
    lemma_finding_shows_its_line(file, lines, lines.len() as int, i);
    let f = findings(file, source)[i];
    let p = choose|p: int|
        0 <= p < 8 && (#[trigger] patterns()[p]).0 == f.kind && patterns()[p].1 == f.fix;
    reveal_strlit("reqwest::Client::new()");
    reveal_strlit("reqwest::Client::builder()");
    reveal_strlit("tokio::task::spawn(");
    reveal_strlit("tokio::spawn(");
    reveal_strlit("redis::Client::open(");
    reveal_strlit("sqlx::PgPool::connect(");
    reveal_strlit("sqlx::Pool::connect(");
    reveal_strlit("sqlx::MySqlPool::connect(");
    assert("reqwest::Client::new()"@.len() == 22);
    assert("reqwest::Client::builder()"@.len() == 26);
    assert("tokio::task::spawn("@.len() == 19);
    assert("tokio::spawn("@.len() == 13);
    assert("redis::Client::open("@.len() == 20);
    assert("sqlx::PgPool::connect("@.len() == 22);
    assert("sqlx::Pool::connect("@.len() == 20);
    assert("sqlx::MySqlPool::connect("@.len() == 25);
    assert("reqwest::Client::new()"@[0] == 'r');
    assert("reqwest::Client::builder()"@[0] == 'r');
    assert("tokio::task::spawn("@[0] == 't');
    assert("tokio::spawn("@[0] == 't');
    assert("redis::Client::open("@[0] == 'r');
    assert("sqlx::PgPool::connect("@[0] == 's');
    assert("sqlx::Pool::connect("@[0] == 's');
    assert("sqlx::MySqlPool::connect("@[0] == 's');
}

/// Findings come in the order of the lines, at most one for each line.
pub proof fn lemma_findings_in_order(file: Seq<char>, source: Seq<char>, i: int, j: int)
    requires
        0 <= i < j < findings(file, source).len(),
    ensures
        findings(file, source)[i].line < findings(file, source)[j].line,
{
    let lines = text::lines_of(source);
    lemma_lines_ascend(file, lines, lines.len() as int, i, j);
}

proof fn lemma_lines_ascend(file: Seq<char>, lines: Seq<Seq<char>>, n: int, i: int, j: int)
    requires
        0 <= n <= lines.len(),
        0 <= i < j < found_in_lines(file, lines, n).len(),
    ensures
        found_in_lines(file, lines, n)[i].line < found_in_lines(file, lines, n)[j].line,
    decreases n,
{
    if n > 0 {
        let before = found_in_lines(file, lines, n - 1);
        if j < before.len() {
            lemma_lines_ascend(file, lines, n - 1, i, j);
        } else {
            lemma_findings_sound(file, lines, n - 1, i);
        }
    }
}

/// A path is left out as soon as one of the patterns stands in it, and only
/// then.
pub proof fn lemma_what_is_left_out(
    a: Seq<char>,
    p: Seq<char>,
    b: Seq<char>,
    patterns: Seq<Seq<char>>,
    k: int,
)
    ensures
        0 <= k < patterns.len() && patterns[k] == p ==> ignored(a + p + b, patterns),
        patterns.len() == 0 ==> !ignored(a, patterns),
        ignored(a, patterns) ==> exists|j: int|
            0 <= j < patterns.len() && text::has_text(a, #[trigger] patterns[j]),
{
    text::lemma_has_text_between(a, p, b);
}

/// A source text that holds none of the calls is not rewritten.
pub proof fn lemma_nothing_to_rewrite(source: Seq<char>)
    requires
        !text::has_text(source, "reqwest::Client::new()"@),
        !text::has_text(source, "reqwest::Client::builder()"@),
        !text::has_text(source, "redis::Client::open("@),
        !text::has_text(source, "sqlx::PgPool::connect("@),
        !text::has_text(source, "sqlx::MySqlPool::connect("@),
        !text::has_text(source, "sqlx::Pool::connect("@),
        !text::has_text(source, "tokio::task::spawn("@),
        !text::has_text(source, "tokio::spawn("@),
    ensures
        rewritten(source, rewrites().len() as int) == source,
{
    assert forall|k: int| 0 <= k < 8 implies !text::has_text(
        source,
        (#[trigger] rewrites()[k]).0,
    ) by {}
    lemma_kept_by_rewrites(source, 0, 8);
}

/// Rewrites of calls that a text does not hold leave it as it is.
proof fn lemma_kept_by_rewrites(source: Seq<char>, from: int, k: int)
    requires
        0 <= from <= k <= 8,
        forall|j: int|
            from <= j < k ==> !text::has_text(
                rewritten(source, from),
                (#[trigger] rewrites()[j]).0,
            ),
    ensures
        rewritten(source, k) == rewritten(source, from),
    decreases k,
{
    if k > from {
        lemma_kept_by_rewrites(source, from, k - 1);
        assert(!text::has_text(rewritten(source, from), rewrites()[k - 1].0));
        text::lemma_replaced_absent(
            rewritten(source, from),
            rewrites()[k - 1].0,
            rewrites()[k - 1].1,
        );
    }
}

/// A single call is rewritten where it stands, and what is around it is kept:
/// each call becomes the one of the compatible clients that does the same.
pub proof fn lemma_single_call_is_rewritten(
    a: Seq<char>,
    call: Seq<char>,
    b: Seq<char>,
    with: Seq<char>,
)
    requires
        (call == "reqwest::Client::new()"@ && with == "replay_compat::http::Client::new()"@)
            || (call == "reqwest::Client::builder()"@ && with == "replay_compat::http::Client::new()"@)
            || (call == "redis::Client::open("@ && with == "replay_compat::redis::open("@)
            || (call == "sqlx::PgPool::connect("@ && with == "replay_compat::sql::connect("@)
            || (call == "sqlx::MySqlPool::connect("@ && with == "replay_compat::sql::connect("@)
            || (call == "sqlx::Pool::connect("@ && with == "replay_compat::sql::connect("@)
            || (call == "tokio::task::spawn("@ && with == "replay_compat::tokio::task::spawn("@)
            || (call == "tokio::spawn("@ && with == "replay_compat::tokio::task::spawn("@),
        forall|i: int| 0 <= i < a.len() ==> !#[trigger] text::occurs_at(a + call + b, call, i),
        !text::has_text(b, call),
        forall|j: int|
            0 <= j < rewrites().len() && (#[trigger] rewrites()[j]).0 != call ==> !text::has_text(
                a + call + b,
                rewrites()[j].0,
            ) && !text::has_text(a + with + b, rewrites()[j].0),
    ensures
        rewritten(a + call + b, rewrites().len() as int) == a + with + b,
{
    reveal_strlit("reqwest::Client::new()");
    reveal_strlit("reqwest::Client::builder()");
    reveal_strlit("tokio::task::spawn(");
    reveal_strlit("tokio::spawn(");
    reveal_strlit("redis::Client::open(");
    reveal_strlit("sqlx::PgPool::connect(");
    reveal_strlit("sqlx::Pool::connect(");
    reveal_strlit("sqlx::MySqlPool::connect(");
    assert("reqwest::Client::new()"@.len() == 22);
    assert("reqwest::Client::builder()"@.len() == 26);
    assert("tokio::task::spawn("@.len() == 19);
    assert("tokio::spawn("@.len() == 13);
    assert("redis::Client::open("@.len() == 20);
    assert("sqlx::PgPool::connect("@.len() == 22);
    assert("sqlx::Pool::connect("@.len() == 20);
    assert("sqlx::MySqlPool::connect("@.len() == 25);
    assert("reqwest::Client::new()"@[0] == 'r');
    assert("reqwest::Client::builder()"@[0] == 'r');
    assert("tokio::task::spawn("@[0] == 't');
    assert("tokio::spawn("@[0] == 't');
    assert("redis::Client::open("@[0] == 'r');
    assert("sqlx::PgPool::connect("@[0] == 's');
    assert("sqlx::Pool::connect("@[0] == 's');
    assert("sqlx::MySqlPool::connect("@[0] == 's');
    let k: int = if call == "reqwest::Client::new()"@ {
        0
    } else if call == "reqwest::Client::builder()"@ {
        1
    } else if call == "redis::Client::open("@ {
        2
    } else if call == "sqlx::PgPool::connect("@ {
        3
    } else if call == "sqlx::MySqlPool::connect("@ {
        4
    } else if call == "sqlx::Pool::connect("@ {
        5
    } else if call == "tokio::task::spawn("@ {
        6
    } else {
        7
    };
    let source = a + call + b;
    assert(rewrites()[k] == (call, with));
    assert forall|j: int| 0 <= j < 8 && j != k implies (#[trigger] rewrites()[j]).0 != call by {}
    lemma_kept_by_rewrites(source, 0, k);
    text::lemma_replaced_first(a, call, b, with);
    text::lemma_replaced_absent(b, call, with);
    assert(rewritten(source, k) == source);
    assert(rewritten(source, k + 1) == text::replaced(rewritten(source, k), call, with));
    assert(rewritten(source, k + 1) == a + with + b);
    lemma_kept_by_rewrites(source, k + 1, 8);
}

/// A text that begins with the mark of generated code has no findings; it is
/// skipped for that mark alone.
pub proof fn lemma_mark_of_generated_code(file: Seq<char>, rest: Seq<char>)
    ensures
        findings(file, "// @generated"@ + rest).len() == 0,
        findings(file, "/* @generated"@ + rest).len() == 0,
{
    let a = "// @generated"@;
    let b = "/* @generated"@;
    assert((a + rest).subrange(0, a.len() as int) =~= a);
    assert((b + rest).subrange(0, b.len() as int) =~= b);
}

} // verus!
