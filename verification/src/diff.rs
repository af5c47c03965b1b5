//! Recursive JSON diff with noise classification.
//!
//! Two JSON values are walked together and every difference becomes a
//! [`DiffNode`]: [`DiffCategory::Noise`] for expected volatility,
//! [`DiffCategory::Regression`] for an unexpected change, and
//! [`DiffCategory::Added`] or [`DiffCategory::Removed`] for structure.
//!
//! A change is noise if the terminal field of its path is named by a
//! [`NoiseRule`], if both values are UUIDs, or if both are timestamps.
use crate::json;
use crate::json::{Entries, JsonTree, JsonValue};
use crate::json_codec;
use crate::manifest;
use crate::manifest::{ChangeManifest, ManifestView};
use crate::patterns;
use crate::patterns::Patterns;
use crate::text;
use crate::text::{concat, concat3, decimal_text, ends_with, same_text};
use vstd::prelude::*;
use vstd::string::*;

verus! {

broadcast use json::lemma_value_view;

// ---------------------------------------------------------------------------
// Noise rules
// ---------------------------------------------------------------------------

/// What to do when a field name matches a noise rule.
#[derive(Debug, Clone, Copy, PartialEq, Eq, Structural)]
pub enum NoiseStrategy {
    /// The field is always volatile.
    Ignore,
    /// The field holds a UUID.
    UuidNormalize,
    /// The field holds a timestamp.
    TimestampIgnore,
}

/// A rule that suppresses diff noise for a named field.
#[derive(Debug)]
pub struct NoiseRule {
    /// Terminal field name, such as `id` or `created_at`.
    pub field_name: String,
    pub strategy: NoiseStrategy,
}

impl NoiseRule {
    /// The rule for a field.
    pub fn new(field_name: &str, strategy: NoiseStrategy) -> (r: NoiseRule)
        ensures
            r.field_name@ == field_name@,
            r.strategy == strategy,
    {
        NoiseRule { field_name: field_name.to_owned(), strategy }
    }
}

/// Configuration of the diff engine.
#[derive(Debug)]
pub struct DiffConfig {
    pub noise_rules: Vec<NoiseRule>,
}

impl Clone for NoiseRule {
    fn clone(&self) -> (r: NoiseRule)
        ensures
            r.field_name@ == self.field_name@,
            r.strategy == self.strategy,
    {
        NoiseRule { field_name: self.field_name.clone(), strategy: self.strategy }
    }
}

impl Clone for DiffConfig {
    fn clone(&self) -> (r: DiffConfig)
        ensures
            rule_views(r.noise_rules@) == rule_views(self.noise_rules@),
    {
        let mut noise_rules: Vec<NoiseRule> = Vec::new();
        let mut i: usize = 0;
        while i < self.noise_rules.len()
            invariant
                i <= self.noise_rules@.len(),
                noise_rules@.len() == i,
                forall|j: int|
                    0 <= j < i ==> (#[trigger] noise_rules@[j]).field_name@
                        == self.noise_rules@[j].field_name@ && noise_rules@[j].strategy
                        == self.noise_rules@[j].strategy,
            decreases self.noise_rules.len() - i,
        {
            noise_rules.push(self.noise_rules[i].clone());
            i = i + 1;
        }
        proof {
            assert(rule_views(noise_rules@) =~= rule_views(self.noise_rules@));
        }
        DiffConfig { noise_rules }
    }
}

/// The names and strategies of a list of rules.
pub open spec fn rule_views(rules: Seq<NoiseRule>) -> Seq<(Seq<char>, NoiseStrategy)> {
    Seq::new(rules.len(), |i: int| (rules[i].field_name@, rules[i].strategy))
}

/// The field names of a list of rules.
pub open spec fn rule_names(rules: Seq<NoiseRule>) -> Seq<Seq<char>> {
    Seq::new(rules.len(), |i: int| rules[i].field_name@)
}

/// The rules that hold without further configuration.
pub open spec fn default_rules() -> Seq<(Seq<char>, NoiseStrategy)> {
    seq![
        ("id"@, NoiseStrategy::UuidNormalize),
        ("request_id"@, NoiseStrategy::Ignore),
        ("trace_id"@, NoiseStrategy::Ignore),
        ("span_id"@, NoiseStrategy::Ignore),
        ("attempt_id"@, NoiseStrategy::UuidNormalize),
        ("idempotency_key"@, NoiseStrategy::Ignore),
        ("created_at"@, NoiseStrategy::TimestampIgnore),
        ("updated_at"@, NoiseStrategy::TimestampIgnore),
        ("recorded_at"@, NoiseStrategy::TimestampIgnore),
        ("expires_at"@, NoiseStrategy::TimestampIgnore),
        ("timestamp"@, NoiseStrategy::TimestampIgnore),
        ("x-request-id"@, NoiseStrategy::Ignore),
        ("x-trace-id"@, NoiseStrategy::Ignore),
        ("date"@, NoiseStrategy::TimestampIgnore),
    ]
}

impl Default for DiffConfig {
    fn default() -> (r: DiffConfig)
        ensures
            rule_views(r.noise_rules@) == default_rules(),
    {
        let r = DiffConfig {
            noise_rules: vec![
                NoiseRule::new("id", NoiseStrategy::UuidNormalize),
                NoiseRule::new("request_id", NoiseStrategy::Ignore),
                NoiseRule::new("trace_id", NoiseStrategy::Ignore),
                NoiseRule::new("span_id", NoiseStrategy::Ignore),
                NoiseRule::new("attempt_id", NoiseStrategy::UuidNormalize),
                NoiseRule::new("idempotency_key", NoiseStrategy::Ignore),
                NoiseRule::new("created_at", NoiseStrategy::TimestampIgnore),
                NoiseRule::new("updated_at", NoiseStrategy::TimestampIgnore),
                NoiseRule::new("recorded_at", NoiseStrategy::TimestampIgnore),
                NoiseRule::new("expires_at", NoiseStrategy::TimestampIgnore),
                NoiseRule::new("timestamp", NoiseStrategy::TimestampIgnore),
                NoiseRule::new("x-request-id", NoiseStrategy::Ignore),
                NoiseRule::new("x-trace-id", NoiseStrategy::Ignore),
                NoiseRule::new("date", NoiseStrategy::TimestampIgnore),
            ],
        };
        proof {
            assert(rule_views(r.noise_rules@) =~= default_rules());
        }
        r
    }
}

// ---------------------------------------------------------------------------
// Nodes
// ---------------------------------------------------------------------------

/// What a difference means.
#[derive(Debug, Clone, Copy, PartialEq, Eq, Structural)]
pub enum DiffCategory {
    /// A volatile field: not counted as a regression.
    Noise,
    /// Declared in a change manifest: reported, not failing.
    Intentional,
    /// An unexpected change of value.
    Regression,
    /// Present in the actual value only.
    Added,
    /// Present in the recorded value only.
    Removed,
}

/// One difference.
#[derive(Debug, PartialEq)]
pub struct DiffNode {
    /// The path of the field, such as `response.body.status`.
    pub path: String,
    pub old_value: JsonValue,
    pub new_value: JsonValue,
    pub category: DiffCategory,
}

/// What a [`DiffNode`] is.
pub struct NodeView {
    pub path: Seq<char>,
    pub old_value: JsonTree,
    pub new_value: JsonTree,
    pub category: DiffCategory,
}

impl View for DiffNode {
    type V = NodeView;

    open spec fn view(&self) -> NodeView {
        NodeView {
            path: self.path@,
            old_value: self.old_value@,
            new_value: self.new_value@,
            category: self.category,
        }
    }
}

impl DiffNode {
    /// A copy of the node.
    pub fn duplicate(&self) -> (r: DiffNode)
        ensures
            r@ == self@,
    {
        DiffNode {
            path: self.path.clone(),
            old_value: self.old_value.duplicate(),
            new_value: self.new_value.duplicate(),
            category: self.category,
        }
    }
}

impl Clone for DiffNode {
    fn clone(&self) -> (r: DiffNode)
        ensures
            r@ == self@,
    {
        self.duplicate()
    }
}

/// The views of a list of nodes.
pub open spec fn node_views(nodes: Seq<DiffNode>) -> Seq<NodeView> {
    Seq::new(nodes.len(), |i: int| nodes[i]@)
}

// ---------------------------------------------------------------------------
// The diff of two values
// ---------------------------------------------------------------------------

/// The path of a field of the value at `parent`.
pub open spec fn child(parent: Seq<char>, key: Seq<char>) -> Seq<char> {
    if parent.len() == 0 {
        key
    } else {
        parent + "."@ + key
    }
}

/// The path of an element of the array at `parent`.
pub open spec fn element(parent: Seq<char>, i: nat) -> Seq<char> {
    parent + "["@ + text::decimal(i) + "]"@
}

/// The path is the field, or ends in a dot and the field.
pub open spec fn field_match(path: Seq<char>, field: Seq<char>) -> bool {
    path == field || text::has_suffix(path, "."@ + field)
}

/// Some rule names the terminal field of the path.
pub open spec fn ruled(names: Seq<Seq<char>>, path: Seq<char>) -> bool {
    exists|i: int| 0 <= i < names.len() && field_match(path, #[trigger] names[i])
}

/// A text value that is a UUID.
pub open spec fn uuid_value(t: JsonTree) -> bool {
    t matches JsonTree::Text(s) && patterns::uuid_shaped(s)
}

/// A text value that looks like a timestamp.
pub open spec fn timestamp_value(t: JsonTree) -> bool {
    t matches JsonTree::Text(s) && patterns::timestamp_like(s)
}

/// What a change of value at `path` means.
pub open spec fn classification(
    names: Seq<Seq<char>>,
    path: Seq<char>,
    old: JsonTree,
    new: JsonTree,
) -> DiffCategory {
    if ruled(names, path) || (uuid_value(old) && uuid_value(new)) || (timestamp_value(old)
        && timestamp_value(new)) {
        DiffCategory::Noise
    } else {
        DiffCategory::Regression
    }
}

/// The differences between two values at `path`. Objects are compared field
/// by field, in the order of the old keys and then of the added ones; arrays
/// position by position; all else by equality.
pub open spec fn diff_nodes(
    names: Seq<Seq<char>>,
    old: JsonTree,
    new: JsonTree,
    path: Seq<char>,
) -> Seq<NodeView>
    decreases old, 1int, 0int,
{
    match (old, new) {
        (JsonTree::Object(o), JsonTree::Object(n)) => old_fields(names, o, n, path, o.len() as int)
            + added_fields(o, n, path, n.len() as int),
        (JsonTree::Array(o), JsonTree::Array(n)) => elements(
            names,
            o,
            n,
            path,
            if o.len() >= n.len() {
                o.len() as int
            } else {
                n.len() as int
            },
        ),
        _ => if json::same_json(old, new) {
            Seq::empty()
        } else {
            seq![
                NodeView {
                    path,
                    old_value: old,
                    new_value: new,
                    category: classification(names, path, old, new),
                },
            ]
        },
    }
}

/// The differences at one field of the old object.
pub open spec fn old_field(
    names: Seq<Seq<char>>,
    o: Entries,
    n: Entries,
    path: Seq<char>,
    i: int,
) -> Seq<NodeView>
    decreases JsonTree::Object(o), 0int, 0int,
{
    let at = child(path, o[i].0);
    match json::value_at(n, o[i].0) {
        Some(v) => if 0 <= i < o.len() {
            proof {
                json::lemma_entry_decreases(o, i);
            }
            diff_nodes(names, o[i].1, v, at)
        } else {
            Seq::empty()
        },
        None => seq![
            NodeView {
                path: at,
                old_value: o[i].1,
                new_value: JsonTree::Null,
                category: DiffCategory::Removed,
            },
        ],
    }
}

/// The differences at the first `k` fields of the old object.
pub open spec fn old_fields(
    names: Seq<Seq<char>>,
    o: Entries,
    n: Entries,
    path: Seq<char>,
    k: int,
) -> Seq<NodeView>
    decreases JsonTree::Object(o), 0int, k,
{
    if k <= 0 {
        Seq::empty()
    } else {
        old_fields(names, o, n, path, k - 1) + old_field(names, o, n, path, k - 1)
    }
}

/// The fields among the first `k` of the new object that the old one lacks.
pub open spec fn added_fields(o: Entries, n: Entries, path: Seq<char>, k: int) -> Seq<NodeView>
    decreases k,
{
    if k <= 0 {
        Seq::empty()
    } else {
        let before = added_fields(o, n, path, k - 1);
        if json::value_at(o, n[k - 1].0) is Some {
            before
        } else {
            before.push(
                NodeView {
                    path: child(path, n[k - 1].0),
                    old_value: JsonTree::Null,
                    new_value: n[k - 1].1,
                    category: DiffCategory::Added,
                },
            )
        }
    }
}

/// The differences at one position of two arrays.
pub open spec fn element_diff(
    names: Seq<Seq<char>>,
    o: Seq<JsonTree>,
    n: Seq<JsonTree>,
    path: Seq<char>,
    i: int,
) -> Seq<NodeView>
    decreases JsonTree::Array(o), 0int, 0int,
{
    let at = element(path, i as nat);
    if 0 <= i < o.len() && i < n.len() {
        proof {
            json::lemma_element_decreases(o, i);
        }
        diff_nodes(names, o[i], n[i], at)
    } else if 0 <= i < o.len() {
        seq![
            NodeView {
                path: at,
                old_value: o[i],
                new_value: JsonTree::Null,
                category: DiffCategory::Removed,
            },
        ]
    } else {
        seq![
            NodeView {
                path: at,
                old_value: JsonTree::Null,
                new_value: n[i],
                category: DiffCategory::Added,
            },
        ]
    }
}

/// The differences at the first `k` positions of two arrays.
pub open spec fn elements(
    names: Seq<Seq<char>>,
    o: Seq<JsonTree>,
    n: Seq<JsonTree>,
    path: Seq<char>,
    k: int,
) -> Seq<NodeView>
    decreases JsonTree::Array(o), 0int, k,
{
    if k <= 0 {
        Seq::empty()
    } else {
        elements(names, o, n, path, k - 1) + element_diff(names, o, n, path, k - 1)
    }
}

// ---------------------------------------------------------------------------
// Paths
// ---------------------------------------------------------------------------

/// The path of a field of the value at `parent`.
pub fn child_path(parent: &str, key: &str) -> (r: String)
    ensures
        r@ == child(parent@, key@),
{
    if parent.unicode_len() == 0 {
        key.to_owned()
    } else {
        concat3(parent, ".", key)
    }
}

/// Whether the terminal segment of `path` is `field_name`.
pub fn path_matches_field(path: &str, field_name: &str) -> (r: bool)
    ensures
        r == field_match(path@, field_name@),
{
    same_text(path, field_name) || ends_with(path, concat(".", field_name).as_str())
}

/// The path of an element of the array at `parent`.
fn element_path(parent: &str, i: usize) -> (r: String)
    ensures
        r@ == element(parent@, i as nat),
{
    let mut out = concat3(parent, "[", decimal_text(i as u64).as_str());
    out.append("]");
    out
}

// ---------------------------------------------------------------------------
// The engine
// ---------------------------------------------------------------------------

/// The diff engine: made once, used for many comparisons.
#[derive(Debug)]
pub struct DiffEngine {
    config: DiffConfig,
    patterns: Patterns,
}

impl DiffEngine {
    /// The rules of the engine.
    pub closed spec fn rules(self) -> Seq<NoiseRule> {
        self.config.noise_rules@
    }

    /// An engine with the default noise rules.
    pub fn new() -> (r: DiffEngine)
        ensures
            rule_views(r.rules()) == default_rules(),
    {
        DiffEngine { config: DiffConfig::default(), patterns: Patterns::new() }
    }

    /// An engine with the given configuration.
    pub fn with_config(config: DiffConfig) -> (r: DiffEngine)
        ensures
            r.rules() == config.noise_rules@,
    {
        DiffEngine { config, patterns: Patterns::new() }
    }

    /// Compares a recorded value with an actual one. There is no node exactly
    /// if the values are equal.
    pub fn compare(&self, recorded: &JsonValue, actual: &JsonValue) -> (r: DiffReport)
        ensures
            node_views(r.nodes@) == diff_nodes(
                rule_names(self.rules()),
                recorded@,
                actual@,
                Seq::empty(),
            ),
            r.is_regression == has_regression(node_views(r.nodes@)),
            json::well_formed(recorded@),
            json::well_formed(actual@),
            r.nodes@.len() == 0 <==> json::same_json(recorded@, actual@),
    {
        let mut nodes: Vec<DiffNode> = Vec::new();
        proof {
            assert(node_views(nodes@) =~= Seq::<NodeView>::empty());
            reveal_strlit("");
            assert(""@ =~= Seq::<char>::empty());
        }
        self.diff_recursive(recorded, actual, "", &mut nodes);
        proof {
            let d = diff_nodes(rule_names(self.rules()), recorded@, actual@, ""@);
            assert(Seq::<NodeView>::empty() + d =~= d);
            lemma_no_difference_iff_equal(
                rule_names(self.rules()),
                recorded@,
                actual@,
                Seq::empty(),
            );
        }
        let is_regression = any_regression(&nodes);
        DiffReport { nodes, is_regression }
    }

    /// Appends the differences between two values at `path`.
    fn diff_recursive(
        &self,
        recorded: &JsonValue,
        actual: &JsonValue,
        path: &str,
        out: &mut Vec<DiffNode>,
    )
        ensures
            node_views(final(out)@) == node_views(old(out)@) + diff_nodes(
                rule_names(self.rules()),
                recorded@,
                actual@,
                path@,
            ),
            json::well_formed(recorded@),
            json::well_formed(actual@),
        decreases recorded@,
    {
        let ghost names = rule_names(self.rules());
        let ghost before = node_views(out@);
        match (recorded, actual) {
            (JsonValue::Object(o), JsonValue::Object(n)) => {
                let mut i: usize = 0;
                proof {
                    use_type_invariant(o);
                    use_type_invariant(n);
                    assert(before + Seq::<NodeView>::empty() =~= before);
                }
                while i < o.len()
                    invariant
                        forall|k: int| 0 <= k < i ==> json::well_formed((#[trigger] o@[k]).1),
                        forall|k: int|
                            0 <= k < i ==> match json::value_at(n@, (#[trigger] o@[k]).0) {
                                Some(v) => json::well_formed(v),
                                None => true,
                            },
                        recorded@ == JsonTree::Object(o@),
                        actual@ == JsonTree::Object(n@),
                        names == rule_names(self.rules()),
                        i <= o@.len(),
                        node_views(out@) == before + old_fields(names, o@, n@, path@, i as int),
                    decreases o@.len() - i,
                {
                    let ghost so_far = out@;
                    let at = child_path(path, o.key_at(i).as_str());
                    proof {
                        json::lemma_entry_decreases(o@, i as int);
                    }
                    match n.get(o.key_at(i).as_str()) {
                        Some(nv) => {
                            self.diff_recursive(o.value_at(i), nv, at.as_str(), out);
                        },
                        None => {
                            out.push(
                                DiffNode {
                                    path: at,
                                    old_value: o.value_at(i).duplicate(),
                                    new_value: JsonValue::Null,
                                    category: DiffCategory::Removed,
                                },
                            );
                            proof {
                                lemma_pushed(so_far, out@.last());
                            }
                        },
                    }
                    proof {
                        assert(node_views(out@) =~= node_views(so_far) + old_field(
                            names,
                            o@,
                            n@,
                            path@,
                            i as int,
                        ));
                        assert(before + (old_fields(names, o@, n@, path@, i as int) + old_field(
                            names,
                            o@,
                            n@,
                            path@,
                            i as int,
                        )) =~= (before + old_fields(names, o@, n@, path@, i as int)) + old_field(
                            names,
                            o@,
                            n@,
                            path@,
                            i as int,
                        ));
                    }
                    i = i + 1;
                }
                let ghost both = node_views(out@);
                let mut j: usize = 0;
                proof {
                    assert(both + Seq::<NodeView>::empty() =~= both);
                }
                while j < n.len()
                    invariant
                        json::ascending(n@),
                        forall|k: int|
                            0 <= k < o@.len() ==> match json::value_at(n@, (#[trigger] o@[k]).0) {
                                Some(v) => json::well_formed(v),
                                None => true,
                            },
                        forall|k: int| 0 <= k < j ==> json::well_formed((#[trigger] n@[k]).1),
                        j <= n@.len(),
                        node_views(out@) == both + added_fields(o@, n@, path@, j as int),
                    decreases n@.len() - j,
                {
                    let ghost so_far = out@;
                    proof {
                        let key = n@[j as int].0;
                        if json::value_at(o@, key) is Some {
                            json::lemma_key_index(o@, key);
                            json::lemma_ascending_index(n@, j as int);
                            assert(o@[json::key_index(o@, key)].0 == key);
                        }
                    }
                    if !o.contains_key(n.key_at(j).as_str()) {
                        out.push(
                            DiffNode {
                                path: child_path(path, n.key_at(j).as_str()),
                                old_value: JsonValue::Null,
                                new_value: n.value_at(j).duplicate(),
                                category: DiffCategory::Added,
                            },
                        );
                        proof {
                            lemma_pushed(so_far, out@.last());
                            assert(node_views(out@) =~= both + added_fields(
                                o@,
                                n@,
                                path@,
                                j + 1,
                            ));
                        }
                    }
                    j = j + 1;
                }
                proof {
                    assert(before + (old_fields(names, o@, n@, path@, o@.len() as int)
                        + added_fields(o@, n@, path@, n@.len() as int)) =~= (before + old_fields(
                        names,
                        o@,
                        n@,
                        path@,
                        o@.len() as int,
                    )) + added_fields(o@, n@, path@, n@.len() as int));
                }
            },
            (JsonValue::Array(o), JsonValue::Array(n)) => {
                let max: usize = if o.len() >= n.len() {
                    o.len()
                } else {
                    n.len()
                };
                let ghost ot = json::trees(o@);
                let ghost nt = json::trees(n@);
                let mut i: usize = 0;
                proof {
                    assert(before + Seq::<NodeView>::empty() =~= before);
                }
                while i < max
                    invariant
                        recorded@ == JsonTree::Array(ot),
                        actual@ == JsonTree::Array(nt),
                        ot == json::trees(o@),
                        nt == json::trees(n@),
                        names == rule_names(self.rules()),
                        forall|k: int|
                            0 <= k < i && k < ot.len() ==> json::well_formed(#[trigger] ot[k]),
                        forall|k: int|
                            0 <= k < i && k < nt.len() ==> json::well_formed(#[trigger] nt[k]),
                        max == if o@.len() >= n@.len() {
                            o@.len()
                        } else {
                            n@.len()
                        },
                        i <= max,
                        node_views(out@) == before + elements(names, ot, nt, path@, i as int),
                    decreases max - i,
                {
                    let ghost so_far = out@;
                    let at = element_path(path, i);
                    if i < o.len() && i < n.len() {
                        proof {
                            json::lemma_element_decreases(ot, i as int);
                        }
                        self.diff_recursive(&o[i], &n[i], at.as_str(), out);
                    } else if i < o.len() {
                        out.push(
                            DiffNode {
                                path: at,
                                old_value: o[i].duplicate(),
                                new_value: JsonValue::Null,
                                category: DiffCategory::Removed,
                            },
                        );
                        proof {
                            lemma_pushed(so_far, out@.last());
                        }
                    } else {
                        out.push(
                            DiffNode {
                                path: at,
                                old_value: JsonValue::Null,
                                new_value: n[i].duplicate(),
                                category: DiffCategory::Added,
                            },
                        );
                        proof {
                            lemma_pushed(so_far, out@.last());
                        }
                    }
                    proof {
                        assert(node_views(out@) =~= node_views(so_far) + element_diff(
                            names,
                            ot,
                            nt,
                            path@,
                            i as int,
                        ));
                        assert(before + (elements(names, ot, nt, path@, i as int) + element_diff(
                            names,
                            ot,
                            nt,
                            path@,
                            i as int,
                        )) =~= (before + elements(names, ot, nt, path@, i as int)) + element_diff(
                            names,
                            ot,
                            nt,
                            path@,
                            i as int,
                        ));
                    }
                    i = i + 1;
                }
            },
            _ => {
                let ghost so_far = out@;
                if !recorded.same(actual) {
                    let category = self.classify(path, recorded, actual);
                    out.push(
                        DiffNode {
                            path: path.to_owned(),
                            old_value: recorded.duplicate(),
                            new_value: actual.duplicate(),
                            category,
                        },
                    );
                    proof {
                        lemma_pushed(so_far, out@.last());
                    }
                }
                proof {
                    assert(node_views(out@) =~= before + diff_nodes(names, recorded@, actual@, path@));
                }
            },
        }
    }

    /// What a change of value at `path` means.
    fn classify(&self, path: &str, old: &JsonValue, new: &JsonValue) -> (r: DiffCategory)
        ensures
            r == classification(rule_names(self.rules()), path@, old@, new@),
    {
        let ghost names = rule_names(self.rules());
        let mut i: usize = 0;
        while i < self.config.noise_rules.len()
            invariant
                names == rule_names(self.config.noise_rules@),
                i <= names.len(),
                forall|j: int| 0 <= j < i ==> !field_match(path@, #[trigger] names[j]),
            decreases names.len() - i,
        {
            if path_matches_field(path, self.config.noise_rules[i].field_name.as_str()) {
                proof {
                    assert(field_match(path@, names[i as int]));
                }
                return DiffCategory::Noise;
            }
            i = i + 1;
        }
        if self.is_uuid_value(old) && self.is_uuid_value(new) {
            return DiffCategory::Noise;
        }
        if self.is_timestamp_value(old) && self.is_timestamp_value(new) {
            return DiffCategory::Noise;
        }
        DiffCategory::Regression
    }

    /// Whether a value is a UUID in text.
    fn is_uuid_value(&self, v: &JsonValue) -> (r: bool)
        ensures
            r == uuid_value(v@),
    {
        match v.as_str() {
            Some(s) => self.patterns.is_uuid(s),
            None => false,
        }
    }

    /// Whether a value is a timestamp in text.
    fn is_timestamp_value(&self, v: &JsonValue) -> (r: bool)
        ensures
            r == timestamp_value(v@),
    {
        match v.as_str() {
            Some(s) => self.patterns.is_timestamp(s),
            None => false,
        }
    }
}

impl Clone for DiffEngine {
    fn clone(&self) -> (r: DiffEngine)
        ensures
            rule_views(r.rules()) == rule_views(self.rules()),
    {
        DiffEngine { config: self.config.clone(), patterns: Patterns::new() }
    }
}

impl Default for DiffEngine {
    fn default() -> (r: DiffEngine)
        ensures
            rule_views(r.rules()) == default_rules(),
    {
        DiffEngine::new()
    }
}

/// Appending a node appends its view.
proof fn lemma_pushed(nodes: Seq<DiffNode>, node: DiffNode)
    ensures
        node_views(nodes.push(node)) == node_views(nodes).push(node@),
{
    assert(node_views(nodes.push(node)) =~= node_views(nodes).push(node@));
}

// ---------------------------------------------------------------------------
// Reports
// ---------------------------------------------------------------------------

/// Some node is a regression.
pub open spec fn has_regression(nodes: Seq<NodeView>) -> bool {
    exists|i: int|
        0 <= i < nodes.len() && (#[trigger] nodes[i]).category == DiffCategory::Regression
}

/// The outcome of a comparison.
#[derive(Debug, PartialEq)]
pub struct DiffReport {
    pub nodes: Vec<DiffNode>,
    /// Whether some node is a regression.
    pub is_regression: bool,
}

impl Clone for DiffReport {
    fn clone(&self) -> (r: DiffReport)
        ensures
            node_views(r.nodes@) == node_views(self.nodes@),
            r.is_regression == self.is_regression,
    {
        let mut nodes: Vec<DiffNode> = Vec::new();
        let mut i: usize = 0;
        while i < self.nodes.len()
            invariant
                i <= self.nodes@.len(),
                nodes@.len() == i,
                forall|j: int| 0 <= j < i ==> (#[trigger] nodes@[j])@ == self.nodes@[j]@,
            decreases self.nodes.len() - i,
        {
            nodes.push(self.nodes[i].duplicate());
            i = i + 1;
        }
        proof {
            assert(node_views(nodes@) =~= node_views(self.nodes@));
        }
        DiffReport { nodes, is_regression: self.is_regression }
    }
}

/// Whether some node is a regression.
fn any_regression(nodes: &Vec<DiffNode>) -> (r: bool)
    ensures
        r == has_regression(node_views(nodes@)),
{
    let mut i: usize = 0;
    while i < nodes.len()
        invariant
            i <= nodes@.len(),
            forall|j: int|
                0 <= j < i ==> (#[trigger] node_views(nodes@)[j]).category
                    != DiffCategory::Regression,
        decreases nodes.len() - i,
    {
        if nodes[i].category == DiffCategory::Regression {
            proof {
                assert(node_views(nodes@)[i as int].category == DiffCategory::Regression);
            }
            return true;
        }
        i = i + 1;
    }
    false
}

/// The node with its regression declared intentional, where the manifest
/// covers it.
pub open spec fn reclassified(m: ManifestView, node: NodeView) -> NodeView {
    if node.category == DiffCategory::Regression && manifest::declared(m, node.path) {
        NodeView { category: DiffCategory::Intentional, ..node }
    } else {
        node
    }
}

/// The nodes after a manifest was applied.
pub open spec fn with_manifest(m: ManifestView, nodes: Seq<NodeView>) -> Seq<NodeView> {
    Seq::new(nodes.len(), |i: int| reclassified(m, nodes[i]))
}

/// The number of nodes of a category.
pub open spec fn count_of(nodes: Seq<NodeView>, category: DiffCategory) -> nat
    decreases nodes.len(),
{
    if nodes.len() == 0 {
        0
    } else {
        count_of(nodes.drop_last(), category) + (if nodes.last().category == category {
            1nat
        } else {
            0nat
        })
    }
}

/// One line for each regression: its path, its old value and its new value.
pub open spec fn regression_lines(nodes: Seq<NodeView>) -> Seq<char>
    decreases nodes.len(),
{
    if nodes.len() == 0 {
        Seq::empty()
    } else {
        let before = regression_lines(nodes.drop_last());
        let node = nodes.last();
        if node.category == DiffCategory::Regression {
            before + "  "@ + node.path + ": "@ + json_codec::compact(node.old_value) + " → "@
                + json_codec::compact(node.new_value) + "\n"@
        } else {
            before
        }
    }
}

/// The summary of a report.
pub open spec fn summary_text(nodes: Seq<NodeView>, is_regression: bool) -> Seq<char> {
    if is_regression {
        "FAIL — "@ + text::decimal(count_of(nodes, DiffCategory::Regression))
            + " regression(s):\n"@ + regression_lines(nodes)
    } else {
        "PASS — "@ + text::decimal(count_of(nodes, DiffCategory::Noise)) + " noise, "@
            + text::decimal(count_of(nodes, DiffCategory::Intentional)) + " intentional, "@
            + text::decimal(count_of(nodes, DiffCategory::Added)) + " added, "@ + text::decimal(
            count_of(nodes, DiffCategory::Removed),
        ) + " removed"@
    }
}

/// The number of nodes of a category.
fn count_nodes(nodes: &Vec<DiffNode>, category: DiffCategory) -> (r: usize)
    ensures
        r == count_of(node_views(nodes@), category),
        r <= nodes@.len(),
{
    let mut n: usize = 0;
    let mut i: usize = 0;
    proof {
        assert(node_views(nodes@).take(0) =~= Seq::<NodeView>::empty());
    }
    while i < nodes.len()
        invariant
            i <= nodes@.len(),
            n <= i,
            n == count_of(node_views(nodes@).take(i as int), category),
        decreases nodes.len() - i,
    {
        proof {
            assert(node_views(nodes@).take(i + 1).drop_last() =~= node_views(nodes@).take(
                i as int,
            ));
        }
        if nodes[i].category == category {
            n = n + 1;
        }
        i = i + 1;
    }
    proof {
        assert(node_views(nodes@).take(i as int) =~= node_views(nodes@));
    }
    n
}

/// Appends a number and a text.
fn append_count(s: &mut String, n: usize, after: &str)
    ensures
        final(s)@ == old(s)@ + text::decimal(n as nat) + after@,
{
    s.append(decimal_text(n as u64).as_str());
    s.append(after);
}

impl DiffReport {
    /// Reclassifies the regressions that a manifest declares as intentional.
    pub fn apply_manifest(&mut self, manifest: &ChangeManifest)
        ensures
            node_views(final(self).nodes@) == with_manifest(manifest@, node_views(old(self).nodes@)),
            final(self).is_regression == has_regression(node_views(final(self).nodes@)),
    {
        let ghost before = node_views(self.nodes@);
        let mut i: usize = 0;
        while i < self.nodes.len()
            invariant
                i <= self.nodes@.len() == before.len(),
                forall|j: int|
                    0 <= j < i ==> (#[trigger] self.nodes@[j])@ == reclassified(
                        manifest@,
                        before[j],
                    ),
                forall|j: int| i <= j < before.len() ==> (#[trigger] self.nodes@[j])@ == before[j],
            decreases self.nodes.len() - i,
        {
            if self.nodes[i].category == DiffCategory::Regression && manifest.matches(
                self.nodes[i].path.as_str(),
            ) {
                self.nodes[i].category = DiffCategory::Intentional;
            }
            i = i + 1;
        }
        proof {
            assert(node_views(self.nodes@) =~= with_manifest(manifest@, before));
        }
        self.is_regression = any_regression(&self.nodes);
    }

    /// A summary for people.
    pub fn summary(&self) -> (r: String)
        ensures
            r@ == summary_text(node_views(self.nodes@), self.is_regression),
    {
        if !self.is_regression {
            let mut s = "PASS — ".to_owned();
            append_count(&mut s, count_nodes(&self.nodes, DiffCategory::Noise), " noise, ");
            append_count(
                &mut s,
                count_nodes(&self.nodes, DiffCategory::Intentional),
                " intentional, ",
            );
            append_count(&mut s, count_nodes(&self.nodes, DiffCategory::Added), " added, ");
            append_count(&mut s, count_nodes(&self.nodes, DiffCategory::Removed), " removed");
            s
        } else {
            let mut s = "FAIL — ".to_owned();
            append_count(
                &mut s,
                count_nodes(&self.nodes, DiffCategory::Regression),
                " regression(s):\n",
            );
            let ghost head = s@;
            let ghost nodes = node_views(self.nodes@);
            let mut i: usize = 0;
            proof {
                assert(nodes.take(0) =~= Seq::<NodeView>::empty());
                assert(head + Seq::<char>::empty() =~= head);
            }
            while i < self.nodes.len()
                invariant
                    nodes == node_views(self.nodes@),
                    i <= self.nodes@.len(),
                    s@ == head + regression_lines(nodes.take(i as int)),
                decreases self.nodes.len() - i,
            {
                proof {
                    assert(nodes.take(i + 1).drop_last() =~= nodes.take(i as int));
                }
                let ghost before = s@;
                if self.nodes[i].category == DiffCategory::Regression {
                    s.append("  ");
                    s.append(self.nodes[i].path.as_str());
                    s.append(": ");
                    s.append(self.nodes[i].old_value.to_compact().as_str());
                    s.append(" → ");
                    s.append(self.nodes[i].new_value.to_compact().as_str());
                    s.append("\n");
                    proof {
                        assert(s@ =~= head + regression_lines(nodes.take(i + 1)));
                    }
                }
                i = i + 1;
            }
            proof {
                assert(nodes.take(i as int) =~= nodes);
            }
            s
        }
    }
}

// ---------------------------------------------------------------------------
// Laws
// ---------------------------------------------------------------------------

/// Two ascending key lists with the same keys are the same list.
proof fn lemma_same_keys(o: Entries, n: Entries)
    requires
        json::ascending(o),
        json::ascending(n),
        forall|i: int| 0 <= i < o.len() ==> json::value_at(n, (#[trigger] o[i]).0) is Some,
        forall|j: int| 0 <= j < n.len() ==> json::value_at(o, (#[trigger] n[j]).0) is Some,
    ensures
        o.len() == n.len(),
        forall|i: int| 0 <= i < o.len() ==> (#[trigger] o[i]).0 == n[i].0,
    decreases o.len(),
{
    if o.len() == 0 {
        if n.len() > 0 {
            assert(json::value_at(o, n[0].0) is Some);
        }
    } else {
        assert(json::value_at(n, o[0].0) is Some);
        json::lemma_key_index(n, o[0].0);
        let j = json::key_index(n, o[0].0);
        assert(json::value_at(o, n[0].0) is Some);
        json::lemma_key_index(o, n[0].0);
        let k = json::key_index(o, n[0].0);
        if j > 0 {
            assert(json::key_less(n[0].0, n[j].0));
            json::lemma_key_less_irreflexive(n[0].0);
            if k > 0 {
                assert(json::key_less(o[0].0, o[k].0));
                json::lemma_key_less_transitive(n[0].0, n[j].0, o[k].0);
            }
            assert(false);
        }
        let o1 = o.skip(1);
        let n1 = n.skip(1);
        lemma_tail_keys(o, n);
        lemma_tail_keys(n, o);
        lemma_same_keys(o1, n1);
        assert forall|i: int| 0 <= i < o.len() implies (#[trigger] o[i]).0 == n[i].0 by {
            if i > 0 {
                assert(o1[i - 1] == o[i] && n1[i - 1] == n[i]);
            }
        }
    }
}

/// Without their common first key, two lists still share the keys of the first.
proof fn lemma_tail_keys(o: Entries, n: Entries)
    requires
        json::ascending(o),
        json::ascending(n),
        o.len() > 0,
        n.len() > 0,
        o[0].0 == n[0].0,
        forall|i: int| 0 <= i < o.len() ==> json::value_at(n, (#[trigger] o[i]).0) is Some,
    ensures
        json::ascending(o.skip(1)),
        forall|i: int|
            0 <= i < o.skip(1).len() ==> json::value_at(n.skip(1), (#[trigger] o.skip(1)[i]).0)
                is Some,
{
    let o1 = o.skip(1);
    let n1 = n.skip(1);
    assert forall|i: int, j: int| 0 <= i < j < o1.len() implies json::key_less(
        (#[trigger] o1[i]).0,
        (#[trigger] o1[j]).0,
    ) by {
        assert(o1[i] == o[i + 1] && o1[j] == o[j + 1]);
    }
    assert forall|i: int| 0 <= i < o1.len() implies json::value_at(n1, (#[trigger] o1[i]).0)
        is Some by {
        assert(o1[i] == o[i + 1]);
        assert(json::value_at(n, o[i + 1].0) is Some);
        assert(json::key_less(o[0].0, o[i + 1].0));
        json::lemma_key_less_irreflexive(o[0].0);
        json::lemma_key_index(n, o1[i].0);
        json::lemma_key_index(n1, o1[i].0);
    }
}

/// No differences at the first fields means none at each of them, and the
/// other way round.
proof fn lemma_old_fields_empty(
    names: Seq<Seq<char>>,
    o: Entries,
    n: Entries,
    path: Seq<char>,
    k: int,
)
    requires
        0 <= k <= o.len(),
    ensures
        old_fields(names, o, n, path, k).len() == 0 <==> forall|i: int|
            0 <= i < k ==> (#[trigger] old_field(names, o, n, path, i)).len() == 0,
    decreases k,
{
    if k > 0 {
        lemma_old_fields_empty(names, o, n, path, k - 1);
        if forall|i: int| 0 <= i < k ==> (#[trigger] old_field(names, o, n, path, i)).len() == 0 {
            assert(old_field(names, o, n, path, k - 1).len() == 0);
        }
    }
}

/// Nothing was added among the first fields exactly if the old object has
/// each of them.
proof fn lemma_added_fields_empty(o: Entries, n: Entries, path: Seq<char>, k: int)
    requires
        0 <= k <= n.len(),
    ensures
        added_fields(o, n, path, k).len() == 0 <==> forall|j: int|
            0 <= j < k ==> json::value_at(o, (#[trigger] n[j]).0) is Some,
    decreases k,
{
    if k > 0 {
        lemma_added_fields_empty(o, n, path, k - 1);
        if forall|j: int| 0 <= j < k ==> json::value_at(o, (#[trigger] n[j]).0) is Some {
            assert(json::value_at(o, n[k - 1].0) is Some);
        }
    }
}

/// No differences at the first positions means none at each of them, and the
/// other way round.
proof fn lemma_elements_empty(
    names: Seq<Seq<char>>,
    o: Seq<JsonTree>,
    n: Seq<JsonTree>,
    path: Seq<char>,
    k: int,
)
    requires
        0 <= k,
    ensures
        elements(names, o, n, path, k).len() == 0 <==> forall|i: int|
            0 <= i < k ==> (#[trigger] element_diff(names, o, n, path, i)).len() == 0,
    decreases k,
{
    if k > 0 {
        lemma_elements_empty(names, o, n, path, k - 1);
        if forall|i: int|
            0 <= i < k ==> (#[trigger] element_diff(names, o, n, path, i)).len() == 0 {
            assert(element_diff(names, o, n, path, k - 1).len() == 0);
        }
    }
}

/// A comparison finds no difference exactly if the values are equal.
pub proof fn lemma_no_difference_iff_equal(
    names: Seq<Seq<char>>,
    old: JsonTree,
    new: JsonTree,
    path: Seq<char>,
)
    requires
        json::well_formed(old),
        json::well_formed(new),
    ensures
        diff_nodes(names, old, new, path).len() == 0 <==> json::same_json(old, new),
    decreases old,
{
    match (old, new) {
        (JsonTree::Object(o), JsonTree::Object(n)) => {
            lemma_old_fields_empty(names, o, n, path, o.len() as int);
            lemma_added_fields_empty(o, n, path, n.len() as int);
            if diff_nodes(names, old, new, path).len() == 0 {
                assert forall|i: int| 0 <= i < o.len() implies json::value_at(
                    n,
                    (#[trigger] o[i]).0,
                ) is Some by {
                    assert(old_field(names, o, n, path, i).len() == 0);
                }
                lemma_same_keys(o, n);
                assert forall|i: int| 0 <= i < o.len() implies (#[trigger] o[i]).0 == n[i].0
                    && json::same_json(o[i].1, n[i].1) by {
                    assert(old_field(names, o, n, path, i).len() == 0);
                    json::lemma_ascending_index(n, i);
                    json::lemma_entry_decreases(o, i);
                    lemma_no_difference_iff_equal(names, o[i].1, n[i].1, child(path, o[i].0));
                }
            }
            if json::same_json(old, new) {
                assert forall|i: int| 0 <= i < o.len() implies (#[trigger] old_field(
                    names,
                    o,
                    n,
                    path,
                    i,
                )).len() == 0 by {
                    assert(o[i].0 == n[i].0);
                    json::lemma_ascending_index(n, i);
                    json::lemma_entry_decreases(o, i);
                    lemma_no_difference_iff_equal(names, o[i].1, n[i].1, child(path, o[i].0));
                }
                assert forall|j: int| 0 <= j < n.len() implies json::value_at(
                    o,
                    (#[trigger] n[j]).0,
                ) is Some by {
                    assert(o[j].0 == n[j].0);
                    json::lemma_ascending_index(o, j);
                }
            }
        },
        (JsonTree::Array(o), JsonTree::Array(n)) => {
            let k = if o.len() >= n.len() {
                o.len() as int
            } else {
                n.len() as int
            };
            lemma_elements_empty(names, o, n, path, k);
            if diff_nodes(names, old, new, path).len() == 0 {
                if o.len() != n.len() {
                    assert(element_diff(names, o, n, path, k - 1).len() == 0);
                }
                assert forall|i: int| 0 <= i < o.len() implies json::same_json(
                    #[trigger] o[i],
                    n[i],
                ) by {
                    assert(element_diff(names, o, n, path, i).len() == 0);
                    json::lemma_element_decreases(o, i);
                    lemma_no_difference_iff_equal(names, o[i], n[i], element(path, i as nat));
                }
            }
            if json::same_json(old, new) {
                assert forall|i: int| 0 <= i < k implies (#[trigger] element_diff(
                    names,
                    o,
                    n,
                    path,
                    i,
                )).len() == 0 by {
                    assert(json::same_json(o[i], n[i]));
                    json::lemma_element_decreases(o, i);
                    lemma_no_difference_iff_equal(names, o[i], n[i], element(path, i as nat));
                }
            }
        },
        _ => {},
    }
}

/// A value compared with itself shows no difference.
pub proof fn lemma_identical_values_have_no_diff(
    names: Seq<Seq<char>>,
    value: JsonTree,
    path: Seq<char>,
)
    requires
        json::well_formed(value),
    ensures
        diff_nodes(names, value, value, path).len() == 0,
        !has_regression(diff_nodes(names, value, value, path)),
{
    json::lemma_same_json_reflexive(value);
    lemma_no_difference_iff_equal(names, value, value, path);
}

/// What holds of each node of a comparison. A changed value is a regression
/// exactly if no rule names its field and its two values are neither both
/// UUIDs nor both timestamps; added and removed fields are neither noise nor
/// regressions; nothing is intentional before a manifest says so.
pub open spec fn node_sound(names: Seq<Seq<char>>, node: NodeView) -> bool {
    match node.category {
        DiffCategory::Added => node.old_value is Null,
        DiffCategory::Removed => node.new_value is Null,
        DiffCategory::Intentional => false,
        c => {
            &&& !json::same_json(node.old_value, node.new_value)
            &&& c == classification(names, node.path, node.old_value, node.new_value)
        },
    }
}

/// Every node is classified as [`node_sound`] says.
pub open spec fn all_sound(names: Seq<Seq<char>>, nodes: Seq<NodeView>) -> bool {
    forall|i: int| 0 <= i < nodes.len() ==> node_sound(names, #[trigger] nodes[i])
}

proof fn lemma_sound_concat(names: Seq<Seq<char>>, a: Seq<NodeView>, b: Seq<NodeView>)
    requires
        all_sound(names, a),
        all_sound(names, b),
    ensures
        all_sound(names, a + b),
{
    assert forall|i: int| 0 <= i < (a + b).len() implies node_sound(
        names,
        #[trigger] (a + b)[i],
    ) by {
        if i < a.len() {
            assert((a + b)[i] == a[i]);
        } else {
            assert((a + b)[i] == b[i - a.len()]);
        }
    }
}

/// Every node of a comparison is classified as [`node_sound`] says.
pub proof fn lemma_nodes_sound(
    names: Seq<Seq<char>>,
    old: JsonTree,
    new: JsonTree,
    path: Seq<char>,
)
    ensures
        all_sound(names, diff_nodes(names, old, new, path)),
    decreases old, 1int, 0int,
{
    match (old, new) {
        (JsonTree::Object(o), JsonTree::Object(n)) => {
            lemma_old_fields_sound(names, o, n, path, o.len() as int);
            lemma_added_fields_sound(names, o, n, path, n.len() as int);
            lemma_sound_concat(
                names,
                old_fields(names, o, n, path, o.len() as int),
                added_fields(o, n, path, n.len() as int),
            );
        },
        (JsonTree::Array(o), JsonTree::Array(n)) => {
            lemma_elements_sound(
                names,
                o,
                n,
                path,
                if o.len() >= n.len() {
                    o.len() as int
                } else {
                    n.len() as int
                },
            );
        },
        _ => {
            let d = diff_nodes(names, old, new, path);
            assert(d.len() == 0 || d =~= seq![d[0]]);
            assert(d.len() == 1 ==> node_sound(names, d[0]));
        },
    }
}

proof fn lemma_old_fields_sound(
    names: Seq<Seq<char>>,
    o: Entries,
    n: Entries,
    path: Seq<char>,
    k: int,
)
    requires
        0 <= k <= o.len(),
    ensures
        all_sound(names, old_fields(names, o, n, path, k)),
    decreases JsonTree::Object(o), 0int, k,
{
    if k > 0 {
        lemma_old_fields_sound(names, o, n, path, k - 1);
        let b = old_field(names, o, n, path, k - 1);
        match json::value_at(n, o[k - 1].0) {
            Some(v) => {
                json::lemma_entry_decreases(o, k - 1);
                lemma_nodes_sound(names, o[k - 1].1, v, child(path, o[k - 1].0));
            },
            None => {
                assert(b.len() == 1 && node_sound(names, b[0]));
            },
        }
        lemma_sound_concat(names, old_fields(names, o, n, path, k - 1), b);
    }
}

proof fn lemma_added_fields_sound(
    names: Seq<Seq<char>>,
    o: Entries,
    n: Entries,
    path: Seq<char>,
    k: int,
)
    requires
        0 <= k <= n.len(),
    ensures
        all_sound(names, added_fields(o, n, path, k)),
    decreases k,
{
    if k > 0 {
        lemma_added_fields_sound(names, o, n, path, k - 1);
    }
}

proof fn lemma_elements_sound(
    names: Seq<Seq<char>>,
    o: Seq<JsonTree>,
    n: Seq<JsonTree>,
    path: Seq<char>,
    k: int,
)
    requires
        0 <= k,
    ensures
        all_sound(names, elements(names, o, n, path, k)),
    decreases JsonTree::Array(o), 0int, k,
{
    if k > 0 {
        lemma_elements_sound(names, o, n, path, k - 1);
        let b = element_diff(names, o, n, path, k - 1);
        if k - 1 < o.len() && k - 1 < n.len() {
            json::lemma_element_decreases(o, k - 1);
            lemma_nodes_sound(names, o[k - 1], n[k - 1], element(path, (k - 1) as nat));
        } else {
            assert(b.len() == 1 && node_sound(names, b[0]));
        }
        lemma_sound_concat(names, elements(names, o, n, path, k - 1), b);
    }
}

/// The empty manifest changes nothing.
pub proof fn lemma_empty_manifest_changes_nothing(nodes: Seq<NodeView>)
    ensures
        with_manifest(manifest::empty_manifest(), nodes) == nodes,
{
    assert(with_manifest(manifest::empty_manifest(), nodes) =~= nodes);
}

/// Applying a manifest twice is applying it once.
pub proof fn lemma_manifest_idempotent(m: ManifestView, nodes: Seq<NodeView>)
    ensures
        with_manifest(m, with_manifest(m, nodes)) == with_manifest(m, nodes),
{
    assert(with_manifest(m, with_manifest(m, nodes)) =~= with_manifest(m, nodes));
}

/// After a manifest was applied, the regressions that are left are exactly
/// those that it does not declare.
pub proof fn lemma_manifest_leaves_undeclared(m: ManifestView, nodes: Seq<NodeView>)
    ensures
        has_regression(with_manifest(m, nodes)) <==> exists|i: int|
            0 <= i < nodes.len() && (#[trigger] nodes[i]).category == DiffCategory::Regression
                && !manifest::declared(m, nodes[i].path),
{
    let after = with_manifest(m, nodes);
    if has_regression(after) {
        let i = choose|i: int|
            0 <= i < after.len() && (#[trigger] after[i]).category == DiffCategory::Regression;
        assert(nodes[i].category == DiffCategory::Regression);
    }
    if exists|i: int|
        0 <= i < nodes.len() && (#[trigger] nodes[i]).category == DiffCategory::Regression
            && !manifest::declared(m, nodes[i].path) {
        let i = choose|i: int|
            0 <= i < nodes.len() && (#[trigger] nodes[i]).category == DiffCategory::Regression
                && !manifest::declared(m, nodes[i].path);
        assert(after[i].category == DiffCategory::Regression);
    }
}

} // verus!
