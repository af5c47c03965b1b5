//! What a comparison says, read off the two values and the path: which nodes
//! there are, and which of them fail a replay.
use crate::diff;
use crate::diff::{DiffCategory, NodeView};
use crate::json;
use crate::json::{Entries, JsonTree, NumberView};
use crate::json_codec;
use crate::manifest::ManifestView;
use crate::patterns;
use crate::text;
use vstd::prelude::*;

verus! {

// ---------------------------------------------------------------------------
// Which field a path names
// ---------------------------------------------------------------------------

/// The path is the field, or something followed by a dot and the field.
pub open spec fn ends_in(path: Seq<char>, field: Seq<char>) -> bool {
    path == field || exists|pre: Seq<char>| path == #[trigger] (pre + "."@ + field)
}

/// A field name matches the path that it is, and every path that ends in a
/// dot and the name.
pub proof fn lemma_path_ends_in_field(pre: Seq<char>, field: Seq<char>)
    ensures
        diff::field_match(field, field),
        diff::field_match(pre + "."@ + field, field),
{
    let path = pre + "."@ + field;
    reveal_strlit(".");
    assert(path.subrange(pre.len() as int, path.len() as int) =~= "."@ + field);
}

/// A field name matches nothing else.
pub proof fn lemma_only_paths_that_end_in_field(path: Seq<char>, field: Seq<char>)
    requires
        !ends_in(path, field),
    ensures
        !diff::field_match(path, field),
{
    reveal_strlit(".");
    if diff::field_match(path, field) {
        let pre = path.take(path.len() - field.len() - 1);
        let tail = path.subrange(path.len() - field.len() - 1, path.len() as int);
        assert(tail == "."@ + field);
        assert(path =~= pre + tail);
        assert(path =~= pre + "."@ + field);
    }
}

proof fn lemma_named(names: Seq<Seq<char>>, k: int, pre: Seq<char>)
    requires
        0 <= k < names.len(),
    ensures
        diff::ruled(names, names[k]),
        diff::ruled(names, pre + "."@ + names[k]),
{
    lemma_path_ends_in_field(pre, names[k]);
}

proof fn lemma_unnamed(names: Seq<Seq<char>>, path: Seq<char>)
    requires
        forall|k: int| 0 <= k < names.len() ==> !ends_in(path, #[trigger] names[k]),
    ensures
        !diff::ruled(names, path),
{
    if diff::ruled(names, path) {
        let k = choose|k: int|
            0 <= k < names.len() && diff::field_match(path, #[trigger] names[k]);
        assert(!ends_in(path, names[k]));
        lemma_only_paths_that_end_in_field(path, names[k]);
    }
}

// ---------------------------------------------------------------------------
// A changed value
// ---------------------------------------------------------------------------

/// A value that changed at a path which no rule names is a regression, unless
/// both values are texts.
pub proof fn lemma_unnamed_change_is_a_regression(
    names: Seq<Seq<char>>,
    path: Seq<char>,
    old: JsonTree,
    new: JsonTree,
)
    requires
        forall|k: int| 0 <= k < names.len() ==> !ends_in(path, #[trigger] names[k]),
        !(old is Text && new is Text),
        !(old is Object && new is Object),
        !(old is Array && new is Array),
        !json::same_json(old, new),
    ensures
        diff::diff_nodes(names, old, new, path) == seq![
            NodeView {
                path,
                old_value: old,
                new_value: new,
                category: DiffCategory::Regression,
            },
        ],
{
    lemma_unnamed(names, path);
}

/// A truth value that changed at a path which no rule names is a regression.
pub proof fn lemma_flipped_flag_is_a_regression(names: Seq<Seq<char>>, path: Seq<char>, flag: bool)
    requires
        forall|k: int| 0 <= k < names.len() ==> !ends_in(path, #[trigger] names[k]),
    ensures
        diff::diff_nodes(names, JsonTree::Bool(flag), JsonTree::Bool(!flag), path) == seq![
            NodeView {
                path,
                old_value: JsonTree::Bool(flag),
                new_value: JsonTree::Bool(!flag),
                category: DiffCategory::Regression,
            },
        ],
{
    lemma_unnamed(names, path);
}

/// An integer that changed at a path which no rule names is a regression.
pub proof fn lemma_other_number_is_a_regression(
    names: Seq<Seq<char>>,
    path: Seq<char>,
    old: int,
    new: int,
)
    requires
        forall|k: int| 0 <= k < names.len() ==> !ends_in(path, #[trigger] names[k]),
        old != new,
    ensures
        diff::diff_nodes(
            names,
            JsonTree::Number(NumberView::Int(old)),
            JsonTree::Number(NumberView::Int(new)),
            path,
        ) == seq![
            NodeView {
                path,
                old_value: JsonTree::Number(NumberView::Int(old)),
                new_value: JsonTree::Number(NumberView::Int(new)),
                category: DiffCategory::Regression,
            },
        ],
{
    lemma_unnamed(names, path);
}

/// A text that changed at a path which no rule names is noise exactly if both
/// texts are UUIDs or both look like timestamps, and a regression otherwise.
pub proof fn lemma_unnamed_text(
    names: Seq<Seq<char>>,
    path: Seq<char>,
    old: Seq<char>,
    new: Seq<char>,
)
    requires
        forall|k: int| 0 <= k < names.len() ==> !ends_in(path, #[trigger] names[k]),
        old != new,
    ensures
        ({
            let nodes = diff::diff_nodes(names, JsonTree::Text(old), JsonTree::Text(new), path);
            let both = (patterns::uuid_shaped(old) && patterns::uuid_shaped(new)) || (
            patterns::timestamp_like(old) && patterns::timestamp_like(new));
            nodes == seq![
                NodeView {
                    path,
                    old_value: JsonTree::Text(old),
                    new_value: JsonTree::Text(new),
                    category: if both {
                        DiffCategory::Noise
                    } else {
                        DiffCategory::Regression
                    },
                },
            ]
        }),
{
    lemma_unnamed(names, path);
}

/// A value that changed at a path which ends in the name of a rule, or is that
/// name, is noise, whatever the values.
pub proof fn lemma_named_change_is_noise(
    names: Seq<Seq<char>>,
    k: int,
    pre: Seq<char>,
    old: JsonTree,
    new: JsonTree,
)
    requires
        0 <= k < names.len(),
        !(old is Object && new is Object),
        !(old is Array && new is Array),
        !json::same_json(old, new),
    ensures
        diff::diff_nodes(names, old, new, names[k]) == seq![
            NodeView {
                path: names[k],
                old_value: old,
                new_value: new,
                category: DiffCategory::Noise,
            },
        ],
        diff::diff_nodes(names, old, new, pre + "."@ + names[k]) == seq![
            NodeView {
                path: pre + "."@ + names[k],
                old_value: old,
                new_value: new,
                category: DiffCategory::Noise,
            },
        ],
{
    lemma_named(names, k, pre);
}

/// Wherever a node stands in a comparison: at a path that no rule names it is
/// noise only if both of its values are texts, both UUIDs or both timestamps;
/// and it is a regression only if they are not.
pub proof fn lemma_unnamed_node(
    names: Seq<Seq<char>>,
    old: JsonTree,
    new: JsonTree,
    path: Seq<char>,
    i: int,
)
    requires
        0 <= i < diff::diff_nodes(names, old, new, path).len(),
        forall|k: int|
            0 <= k < names.len() ==> !ends_in(
                diff::diff_nodes(names, old, new, path)[i].path,
                #[trigger] names[k],
            ),
    ensures
        ({
            let node = diff::diff_nodes(names, old, new, path)[i];
            let both = match (node.old_value, node.new_value) {
                (JsonTree::Text(a), JsonTree::Text(b)) => (patterns::uuid_shaped(a)
                    && patterns::uuid_shaped(b)) || (patterns::timestamp_like(a)
                    && patterns::timestamp_like(b)),
                _ => false,
            };
            &&& node.category == DiffCategory::Noise ==> both
            &&& node.category == DiffCategory::Regression ==> !both
            &&& node.category != DiffCategory::Intentional
        }),
{
    diff::lemma_nodes_sound(names, old, new, path);
    let node = diff::diff_nodes(names, old, new, path)[i];
    assert(diff::node_sound(names, node));
    lemma_unnamed(names, node.path);
}

/// Wherever a node stands in a comparison: at a path that ends in the name of
/// a rule it is no regression.
pub proof fn lemma_named_node(
    names: Seq<Seq<char>>,
    old: JsonTree,
    new: JsonTree,
    path: Seq<char>,
    i: int,
    k: int,
    pre: Seq<char>,
)
    requires
        0 <= i < diff::diff_nodes(names, old, new, path).len(),
        0 <= k < names.len(),
        diff::diff_nodes(names, old, new, path)[i].path == names[k] || diff::diff_nodes(
            names,
            old,
            new,
            path,
        )[i].path == pre + "."@ + names[k],
    ensures
        diff::diff_nodes(names, old, new, path)[i].category != DiffCategory::Regression,
{
    diff::lemma_nodes_sound(names, old, new, path);
    let node = diff::diff_nodes(names, old, new, path)[i];
    assert(diff::node_sound(names, node));
    lemma_named(names, k, pre);
}

/// Values of different kinds differ, and scalars are equal only if they are
/// the same.
pub proof fn lemma_equal_scalars(a: JsonTree, b: JsonTree)
    ensures
        json::same_json(a, b) ==> (a is Null == b is Null) && (a is Bool == b is Bool) && (
        a is Number == b is Number) && (a is Text == b is Text) && (a is Array == b is Array) && (
        a is Object == b is Object),
        a is Null || a is Bool || a is Text ==> (json::same_json(a, b) <==> a == b),
        a matches JsonTree::Number(NumberView::Int(x)) ==> (json::same_json(a, b) <==> a == b),
{
}

// ---------------------------------------------------------------------------
// Objects
// ---------------------------------------------------------------------------

/// Where the field `key` of the value at `path` is reported.
pub open spec fn field_path(path: Seq<char>, key: Seq<char>) -> Seq<char> {
    if path =~= Seq::empty() {
        key
    } else {
        path + "."@ + key
    }
}

proof fn lemma_old_field_reported(
    names: Seq<Seq<char>>,
    o: Entries,
    n: Entries,
    path: Seq<char>,
    k: int,
    i: int,
    node: NodeView,
)
    requires
        0 <= i < k <= o.len(),
        diff::old_field(names, o, n, path, i).contains(node),
    ensures
        diff::old_fields(names, o, n, path, k).contains(node),
    decreases k,
{
    let before = diff::old_fields(names, o, n, path, k - 1);
    let last = diff::old_field(names, o, n, path, k - 1);
    if i == k - 1 {
        let j = choose|j: int| 0 <= j < last.len() && last[j] == node;
        assert((before + last)[before.len() + j] == node);
    } else {
        lemma_old_field_reported(names, o, n, path, k - 1, i, node);
        let j = choose|j: int| 0 <= j < before.len() && before[j] == node;
        assert((before + last)[j] == node);
    }
}

proof fn lemma_added_field_reported(o: Entries, n: Entries, path: Seq<char>, k: int, i: int)
    requires
        0 <= i < k <= n.len(),
        json::value_at(o, n[i].0) is None,
    ensures
        diff::added_fields(o, n, path, k).contains(
            NodeView {
                path: diff::child(path, n[i].0),
                old_value: JsonTree::Null,
                new_value: n[i].1,
                category: DiffCategory::Added,
            },
        ),
    decreases k,
{
    let node = NodeView {
        path: diff::child(path, n[i].0),
        old_value: JsonTree::Null,
        new_value: n[i].1,
        category: DiffCategory::Added,
    };
    let before = diff::added_fields(o, n, path, k - 1);
    let all = diff::added_fields(o, n, path, k);
    if i == k - 1 {
        assert(all[before.len() as int] == node);
    } else {
        lemma_added_field_reported(o, n, path, k - 1, i);
        let j = choose|j: int| 0 <= j < before.len() && before[j] == node;
        assert(all[j] == node);
    }
}

/// A field that only the recorded object has is reported as removed, with the
/// value it had.
pub proof fn lemma_missing_field_is_removed(
    names: Seq<Seq<char>>,
    o: Entries,
    n: Entries,
    path: Seq<char>,
    key: Seq<char>,
    value: JsonTree,
)
    requires
        json::value_at(o, key) == Some(value),
        json::value_at(n, key) is None,
    ensures
        diff::diff_nodes(names, JsonTree::Object(o), JsonTree::Object(n), path).contains(
            NodeView {
                path: field_path(path, key),
                old_value: value,
                new_value: JsonTree::Null,
                category: DiffCategory::Removed,
            },
        ),
{
    json::lemma_key_index(o, key);
    let i = json::key_index(o, key);
    let node = NodeView {
        path: field_path(path, key),
        old_value: value,
        new_value: JsonTree::Null,
        category: DiffCategory::Removed,
    };
    assert(diff::old_field(names, o, n, path, i)[0] == node);
    lemma_old_field_reported(names, o, n, path, o.len() as int, i, node);
    let old = diff::old_fields(names, o, n, path, o.len() as int);
    let added = diff::added_fields(o, n, path, n.len() as int);
    let j = choose|j: int| 0 <= j < old.len() && old[j] == node;
    assert((old + added)[j] == node);
}

/// A field that only the actual object has is reported as added, with the
/// value it has.
pub proof fn lemma_new_field_is_added(
    names: Seq<Seq<char>>,
    o: Entries,
    n: Entries,
    path: Seq<char>,
    key: Seq<char>,
    value: JsonTree,
)
    requires
        json::value_at(o, key) is None,
        json::value_at(n, key) == Some(value),
    ensures
        diff::diff_nodes(names, JsonTree::Object(o), JsonTree::Object(n), path).contains(
            NodeView {
                path: field_path(path, key),
                old_value: JsonTree::Null,
                new_value: value,
                category: DiffCategory::Added,
            },
        ),
{
    json::lemma_key_index(n, key);
    let i = json::key_index(n, key);
    let node = NodeView {
        path: field_path(path, key),
        old_value: JsonTree::Null,
        new_value: value,
        category: DiffCategory::Added,
    };
    lemma_added_field_reported(o, n, path, n.len() as int, i);
    let old = diff::old_fields(names, o, n, path, o.len() as int);
    let added = diff::added_fields(o, n, path, n.len() as int);
    let j = choose|j: int| 0 <= j < added.len() && added[j] == node;
    assert((old + added)[old.len() + j] == node);
}

/// Whatever differs inside a field that both objects have is reported, at the
/// path of the field.
pub proof fn lemma_differences_of_a_field(
    names: Seq<Seq<char>>,
    o: Entries,
    n: Entries,
    path: Seq<char>,
    key: Seq<char>,
    old: JsonTree,
    new: JsonTree,
    node: NodeView,
)
    requires
        json::value_at(o, key) == Some(old),
        json::value_at(n, key) == Some(new),
        diff::diff_nodes(names, old, new, field_path(path, key)).contains(node),
    ensures
        diff::diff_nodes(names, JsonTree::Object(o), JsonTree::Object(n), path).contains(node),
{
    json::lemma_key_index(o, key);
    let i = json::key_index(o, key);
    assert(diff::old_field(names, o, n, path, i) == diff::diff_nodes(
        names,
        old,
        new,
        field_path(path, key),
    ));
    lemma_old_field_reported(names, o, n, path, o.len() as int, i, node);
    let before = diff::old_fields(names, o, n, path, o.len() as int);
    let added = diff::added_fields(o, n, path, n.len() as int);
    let j = choose|j: int| 0 <= j < before.len() && before[j] == node;
    assert((before + added)[j] == node);
}

/// A value that changed in a field of an object fails the comparison, where no
/// rule names the field and the values are not both texts.
pub proof fn lemma_changed_field_fails(
    names: Seq<Seq<char>>,
    o: Entries,
    n: Entries,
    path: Seq<char>,
    key: Seq<char>,
    old: JsonTree,
    new: JsonTree,
)
    requires
        json::value_at(o, key) == Some(old),
        json::value_at(n, key) == Some(new),
        forall|k: int|
            0 <= k < names.len() ==> !ends_in(field_path(path, key), #[trigger] names[k]),
        !(old is Text && new is Text),
        !(old is Object && new is Object),
        !(old is Array && new is Array),
        !json::same_json(old, new),
    ensures
        diff::has_regression(
            diff::diff_nodes(names, JsonTree::Object(o), JsonTree::Object(n), path),
        ),
{
    let at = field_path(path, key);
    let all = diff::diff_nodes(names, JsonTree::Object(o), JsonTree::Object(n), path);
    lemma_unnamed_change_is_a_regression(names, at, old, new);
    let node = diff::diff_nodes(names, old, new, at)[0];
    assert(diff::diff_nodes(names, old, new, at).contains(node));
    lemma_differences_of_a_field(names, o, n, path, key, old, new, node);
    let j = choose|j: int| 0 <= j < all.len() && all[j] == node;
    assert(all[j].category == DiffCategory::Regression);
}

proof fn lemma_one_field(
    names: Seq<Seq<char>>,
    o: Entries,
    n: Entries,
    path: Seq<char>,
    i: int,
    k: int,
)
    requires
        json::well_formed(JsonTree::Object(o)),
        0 <= i < o.len(),
        n == o.update(i, (o[i].0, n[i].1)),
        0 <= k <= o.len(),
    ensures
        diff::old_fields(names, o, n, path, k) == (if k <= i {
            Seq::empty()
        } else {
            diff::diff_nodes(names, o[i].1, n[i].1, diff::child(path, o[i].0))
        }),
        diff::added_fields(o, n, path, k) == Seq::<NodeView>::empty(),
    decreases k,
{
    if k > 0 {
        let j = k - 1;
        lemma_one_field(names, o, n, path, i, j);
        assert(json::ascending(n)) by {
            assert forall|a: int, b: int| 0 <= a < b < n.len() implies json::key_less(
                (#[trigger] n[a]).0,
                (#[trigger] n[b]).0,
            ) by {
                assert(n[a].0 == o[a].0 && n[b].0 == o[b].0);
            }
        }
        assert(n[j].0 == o[j].0);
        json::lemma_ascending_index(n, j);
        json::lemma_ascending_index(o, j);
        if j != i {
            assert(json::well_formed(o[j].1));
            diff::lemma_identical_values_have_no_diff(names, o[j].1, diff::child(path, o[j].0));
            assert(diff::old_field(names, o, n, path, j) =~= Seq::empty());
        }
        let before = diff::old_fields(names, o, n, path, j);
        let last = diff::old_field(names, o, n, path, j);
        if j == i {
            assert(before + last =~= last);
        } else {
            assert(before + last =~= before);
        }
    }
}

/// Where one field of an object changed, the differences are exactly those of
/// that field: nothing else is reported, and nothing twice.
pub proof fn lemma_one_field_changed(
    names: Seq<Seq<char>>,
    es: Entries,
    i: int,
    new: JsonTree,
    path: Seq<char>,
)
    requires
        json::well_formed(JsonTree::Object(es)),
        0 <= i < es.len(),
    ensures
        diff::diff_nodes(
            names,
            JsonTree::Object(es),
            JsonTree::Object(es.update(i, (es[i].0, new))),
            path,
        ) == diff::diff_nodes(names, es[i].1, new, field_path(path, es[i].0)),
{
    let n = es.update(i, (es[i].0, new));
    lemma_one_field(names, es, n, path, i, es.len() as int);
    let d = diff::diff_nodes(names, es[i].1, new, field_path(path, es[i].0));
    assert(d + Seq::empty() =~= d);
}

// ---------------------------------------------------------------------------
// Arrays
// ---------------------------------------------------------------------------

/// Where the element `i` of the array at `path` is reported.
pub open spec fn element_path(path: Seq<char>, i: nat) -> Seq<char> {
    path + seq!['['] + text::decimal(i) + seq![']']
}

proof fn lemma_element_path(path: Seq<char>, i: nat)
    ensures
        diff::element(path, i) == element_path(path, i),
{
    reveal_strlit("[");
    reveal_strlit("]");
    assert("["@ =~= seq!['[']);
    assert("]"@ =~= seq![']']);
}

proof fn lemma_one_element(
    names: Seq<Seq<char>>,
    o: Seq<JsonTree>,
    n: Seq<JsonTree>,
    path: Seq<char>,
    i: int,
    k: int,
)
    requires
        forall|j: int| 0 <= j < o.len() ==> json::well_formed(#[trigger] o[j]),
        0 <= i,
        0 <= k,
        k <= o.len() || (k - 1 == i && i <= o.len()),
        k <= n.len() || (k - 1 == i && i <= n.len()),
        forall|j: int| 0 <= j < k && j != i ==> #[trigger] o[j] == n[j],
    ensures
        diff::elements(names, o, n, path, k) == (if k <= i {
            Seq::empty()
        } else {
            diff::element_diff(names, o, n, path, i)
        }),
    decreases k,
{
    if k > 0 {
        let j = k - 1;
        lemma_one_element(names, o, n, path, i, j);
        if j != i {
            assert(o[j] == n[j]);
            assert(json::well_formed(o[j]));
            diff::lemma_identical_values_have_no_diff(names, o[j], diff::element(path, j as nat));
            assert(diff::element_diff(names, o, n, path, j) =~= Seq::empty());
        }
        let before = diff::elements(names, o, n, path, j);
        let last = diff::element_diff(names, o, n, path, j);
        if j == i {
            assert(before + last =~= last);
        } else {
            assert(before + last =~= before);
        }
    }
}

/// Where one element of an array changed, the differences are exactly those of
/// that element.
pub proof fn lemma_one_element_changed(
    names: Seq<Seq<char>>,
    v: Seq<JsonTree>,
    i: int,
    new: JsonTree,
    path: Seq<char>,
)
    requires
        forall|j: int| 0 <= j < v.len() ==> json::well_formed(#[trigger] v[j]),
        0 <= i < v.len(),
    ensures
        diff::diff_nodes(names, JsonTree::Array(v), JsonTree::Array(v.update(i, new)), path)
            == diff::diff_nodes(names, v[i], new, element_path(path, i as nat)),
{
    lemma_one_element(names, v, v.update(i, new), path, i, v.len() as int);
    lemma_element_path(path, i as nat);
}

/// An array that lost its last element shows that element as removed, and one
/// that gained an element shows it as added; nothing else.
pub proof fn lemma_array_grows_or_shrinks(
    names: Seq<Seq<char>>,
    v: Seq<JsonTree>,
    last: JsonTree,
    path: Seq<char>,
)
    requires
        forall|j: int| 0 <= j < v.len() ==> json::well_formed(#[trigger] v[j]),
        json::well_formed(last),
    ensures
        diff::diff_nodes(names, JsonTree::Array(v.push(last)), JsonTree::Array(v), path) == seq![
            NodeView {
                path: element_path(path, v.len()),
                old_value: last,
                new_value: JsonTree::Null,
                category: DiffCategory::Removed,
            },
        ],
        diff::diff_nodes(names, JsonTree::Array(v), JsonTree::Array(v.push(last)), path) == seq![
            NodeView {
                path: element_path(path, v.len()),
                old_value: JsonTree::Null,
                new_value: last,
                category: DiffCategory::Added,
            },
        ],
{
    let w = v.push(last);
    assert forall|i: int| 0 <= i < w.len() implies json::well_formed(#[trigger] w[i]) by {
        if i < v.len() {
            assert(w[i] == v[i]);
        }
    }
    lemma_one_element(names, w, v, path, v.len() as int, w.len() as int);
    lemma_one_element(names, v, w, path, v.len() as int, w.len() as int);
    lemma_element_path(path, v.len());
}

// ---------------------------------------------------------------------------
// Verdicts and manifests
// ---------------------------------------------------------------------------

/// What was only added or removed fails no comparison, nor does noise, nor
/// what was declared: a single regression does.
pub proof fn lemma_only_regressions_fail(nodes: Seq<NodeView>, i: int)
    ensures
        (forall|j: int|
            0 <= j < nodes.len() ==> (#[trigger] nodes[j]).category == DiffCategory::Added
                || nodes[j].category == DiffCategory::Removed || nodes[j].category
                == DiffCategory::Noise || nodes[j].category == DiffCategory::Intentional)
            ==> !diff::has_regression(nodes),
        0 <= i < nodes.len() && nodes[i].category == DiffCategory::Regression
            ==> diff::has_regression(nodes),
{
}

/// A manifest turns a regression into an intentional change where the path
/// ends in a declared pattern, changes nothing else of the node, and leaves
/// every other node alone.
pub proof fn lemma_manifest_on_a_node(m: ManifestView, nodes: Seq<NodeView>, i: int, c: int)
    requires
        0 <= i < nodes.len(),
    ensures
        diff::with_manifest(m, nodes).len() == nodes.len(),
        0 <= c < m.changes.len() && ends_in(nodes[i].path, m.changes[c].pattern)
            && nodes[i].category == DiffCategory::Regression ==> diff::with_manifest(m, nodes)[i]
            == (NodeView { category: DiffCategory::Intentional, ..nodes[i] }),
        (forall|d: int|
            0 <= d < m.changes.len() ==> !ends_in(nodes[i].path, (#[trigger] m.changes[d]).pattern))
            ==> diff::with_manifest(m, nodes)[i] == nodes[i],
        nodes[i].category != DiffCategory::Regression ==> diff::with_manifest(m, nodes)[i]
            == nodes[i],
{
    let path = nodes[i].path;
    if 0 <= c < m.changes.len() && ends_in(path, m.changes[c].pattern) {
        let field = m.changes[c].pattern;
        if path != field {
            let pre = choose|pre: Seq<char>| path == #[trigger] (pre + "."@ + field);
            lemma_path_ends_in_field(pre, field);
        }
        assert(diff::field_match(path, m.changes[c].pattern));
    }
    if forall|d: int|
        0 <= d < m.changes.len() ==> !ends_in(path, (#[trigger] m.changes[d]).pattern) {
        assert forall|d: int| 0 <= d < m.changes.len() implies !diff::field_match(
            path,
            (#[trigger] m.changes[d]).pattern,
        ) by {
            lemma_only_paths_that_end_in_field(path, m.changes[d].pattern);
        }
    }
}

/// Every node falls under one of the five categories, and each is counted
/// once.
pub proof fn lemma_every_node_is_counted_once(nodes: Seq<NodeView>)
    ensures
        diff::count_of(nodes, DiffCategory::Regression) + diff::count_of(nodes, DiffCategory::Noise)
            + diff::count_of(nodes, DiffCategory::Intentional) + diff::count_of(
            nodes,
            DiffCategory::Added,
        ) + diff::count_of(nodes, DiffCategory::Removed) == nodes.len(),
        diff::count_of(nodes, DiffCategory::Regression) > 0 <==> diff::has_regression(nodes),
    decreases nodes.len(),
{
    if nodes.len() > 0 {
        let init = nodes.drop_last();
        lemma_every_node_is_counted_once(init);
        if diff::has_regression(nodes) {
            let i = choose|i: int|
                0 <= i < nodes.len() && (#[trigger] nodes[i]).category == DiffCategory::Regression;
            if i < init.len() {
                assert(init[i].category == DiffCategory::Regression);
            }
        }
        if diff::has_regression(init) {
            let i = choose|i: int|
                0 <= i < init.len() && (#[trigger] init[i]).category == DiffCategory::Regression;
            assert(nodes[i].category == DiffCategory::Regression);
        }
    }
}

// ---------------------------------------------------------------------------
// The default rules
// ---------------------------------------------------------------------------

/// The field names of the default rules.
pub open spec fn default_names() -> Seq<Seq<char>> {
    Seq::new(diff::default_rules().len(), |i: int| diff::default_rules()[i].0)
}

/// The default rules name identifiers and times, and nothing else.
pub proof fn lemma_default_names(name: Seq<char>)
    ensures
        default_names().contains(name) <==> name == "id"@
            || name == "request_id"@
            || name == "trace_id"@
            || name == "span_id"@
            || name == "attempt_id"@
            || name == "idempotency_key"@
            || name == "created_at"@
            || name == "updated_at"@
            || name == "recorded_at"@
            || name == "expires_at"@
            || name == "timestamp"@
            || name == "x-request-id"@
            || name == "x-trace-id"@
            || name == "date"@,
{
    let all = default_names();
    assert(all.len() == 14);
    assert(all[0] == "id"@);
    assert(all[1] == "request_id"@);
    assert(all[2] == "trace_id"@);
    assert(all[3] == "span_id"@);
    assert(all[4] == "attempt_id"@);
    assert(all[5] == "idempotency_key"@);
    assert(all[6] == "created_at"@);
    assert(all[7] == "updated_at"@);
    assert(all[8] == "recorded_at"@);
    assert(all[9] == "expires_at"@);
    assert(all[10] == "timestamp"@);
    assert(all[11] == "x-request-id"@);
    assert(all[12] == "x-trace-id"@);
    assert(all[13] == "date"@);
    if all.contains(name) {
        let k = choose|k: int| 0 <= k < all.len() && all[k] == name;
        assert(all[k] == name);
    }
}

/// Under the default rules an identifier or a time that changed is noise,
/// whatever its values, at the top and below any path.
pub proof fn lemma_default_noise(
    name: Seq<char>,
    pre: Seq<char>,
    old: JsonTree,
    new: JsonTree,
)
    requires
        name == "id"@
            || name == "request_id"@
            || name == "trace_id"@
            || name == "span_id"@
            || name == "attempt_id"@
            || name == "idempotency_key"@
            || name == "created_at"@
            || name == "updated_at"@
            || name == "recorded_at"@
            || name == "expires_at"@
            || name == "timestamp"@
            || name == "x-request-id"@
            || name == "x-trace-id"@
            || name == "date"@,
        !(old is Object && new is Object),
        !(old is Array && new is Array),
        !json::same_json(old, new),
    ensures
        diff::diff_nodes(default_names(), old, new, name) == seq![
            NodeView { path: name, old_value: old, new_value: new, category: DiffCategory::Noise },
        ],
        diff::diff_nodes(default_names(), old, new, pre + "."@ + name) == seq![
            NodeView {
                path: pre + "."@ + name,
                old_value: old,
                new_value: new,
                category: DiffCategory::Noise,
            },
        ],
{
    lemma_default_names(name);
    let k = choose|k: int| 0 <= k < default_names().len() && default_names()[k] == name;
    lemma_named_change_is_noise(default_names(), k, pre, old, new);
}

/// The default rules do not touch the status of a response.
pub proof fn lemma_status_is_not_ruled(k: int)
    requires
        0 <= k < default_names().len(),
    ensures
        !ends_in("status"@, default_names()[k]),
{
    let all = default_names();
    let field = all[k];
    reveal_strlit("status");
    reveal_strlit(".");
    assert("status"@.len() == 6);
    lemma_default_names(field);
    assert(all.contains(field));
    reveal_strlit("id");
    reveal_strlit("request_id");
    reveal_strlit("trace_id");
    reveal_strlit("span_id");
    reveal_strlit("attempt_id");
    reveal_strlit("idempotency_key");
    reveal_strlit("created_at");
    reveal_strlit("updated_at");
    reveal_strlit("recorded_at");
    reveal_strlit("expires_at");
    reveal_strlit("timestamp");
    reveal_strlit("x-request-id");
    reveal_strlit("x-trace-id");
    reveal_strlit("date");
    assert("id"@.len() == 2);
    assert("request_id"@.len() == 10);
    assert("trace_id"@.len() == 8);
    assert("span_id"@.len() == 7);
    assert("attempt_id"@.len() == 10);
    assert("idempotency_key"@.len() == 15);
    assert("created_at"@.len() == 10);
    assert("updated_at"@.len() == 10);
    assert("recorded_at"@.len() == 11);
    assert("expires_at"@.len() == 10);
    assert("timestamp"@.len() == 9);
    assert("x-request-id"@.len() == 12);
    assert("x-trace-id"@.len() == 10);
    assert("date"@.len() == 4);
    assert(field.len() != 6);
    if exists|pre: Seq<char>| "status"@ == #[trigger] (pre + "."@ + field) {
        let pre = choose|pre: Seq<char>| "status"@ == #[trigger] (pre + "."@ + field);
        assert((pre + "."@ + field)[pre.len() as int] == '.');
        assert("status"@[pre.len() as int] == '.');
    }
}

// ---------------------------------------------------------------------------
// Summaries
// ---------------------------------------------------------------------------

/// A summary begins with the verdict, and a failed one counts its regressions.
pub proof fn lemma_summary_begins(nodes: Seq<NodeView>)
    ensures
        text::has_prefix(
            diff::summary_text(nodes, true),
            "FAIL — "@ + text::decimal(diff::count_of(nodes, DiffCategory::Regression))
                + " regression(s):\n"@,
        ),
        text::has_prefix(
            diff::summary_text(nodes, false),
            "PASS — "@ + text::decimal(diff::count_of(nodes, DiffCategory::Noise)) + " noise, "@
                + text::decimal(diff::count_of(nodes, DiffCategory::Intentional))
                + " intentional, "@ + text::decimal(diff::count_of(nodes, DiffCategory::Added))
                + " added, "@ + text::decimal(diff::count_of(nodes, DiffCategory::Removed))
                + " removed"@,
        ),
{
    let a = "FAIL — "@ + text::decimal(diff::count_of(nodes, DiffCategory::Regression))
        + " regression(s):\n"@;
    let s = diff::summary_text(nodes, true);
    assert(s.subrange(0, a.len() as int) =~= a);
    let t = diff::summary_text(nodes, false);
    assert(t.subrange(0, t.len() as int) =~= t);
}

/// A failed summary shows each regression, by its path and its two values.
pub proof fn lemma_summary_shows_regressions(nodes: Seq<NodeView>, i: int)
    requires
        0 <= i < nodes.len(),
        nodes[i].category == DiffCategory::Regression,
    ensures
        text::has_text(
            diff::summary_text(nodes, true),
            nodes[i].path + ": "@ + json_codec::compact(nodes[i].old_value) + " → "@
                + json_codec::compact(nodes[i].new_value),
        ),
{
    let p = nodes[i].path + ": "@ + json_codec::compact(nodes[i].old_value) + " → "@
        + json_codec::compact(nodes[i].new_value);
    lemma_regression_line(nodes, i);
    let lines = diff::regression_lines(nodes);
    let head = "FAIL — "@ + text::decimal(diff::count_of(nodes, DiffCategory::Regression))
        + " regression(s):\n"@;
    text::lemma_has_text_around(head, lines, Seq::empty(), p);
    assert(head + lines + Seq::<char>::empty() =~= diff::summary_text(nodes, true));
}

proof fn lemma_regression_line(nodes: Seq<NodeView>, i: int)
    requires
        0 <= i < nodes.len(),
        nodes[i].category == DiffCategory::Regression,
    ensures
        text::has_text(
            diff::regression_lines(nodes),
            nodes[i].path + ": "@ + json_codec::compact(nodes[i].old_value) + " → "@
                + json_codec::compact(nodes[i].new_value),
        ),
    decreases nodes.len(),
{
    let front = nodes.drop_last();
    let before = diff::regression_lines(front);
    let all = diff::regression_lines(nodes);
    let p = nodes[i].path + ": "@ + json_codec::compact(nodes[i].old_value) + " → "@
        + json_codec::compact(nodes[i].new_value);
    if i == nodes.len() - 1 {
        text::lemma_has_text_between(before + "  "@, p, "\n"@);
        assert(before + "  "@ + p + "\n"@ =~= all);
    } else {
        assert(front[i] == nodes[i]);
        lemma_regression_line(front, i);
        let rest = all.skip(before.len() as int);
        text::lemma_has_text_around(Seq::empty(), before, rest, p);
        assert(Seq::<char>::empty() + before + rest =~= all);
    }
}

/// No difference other than a regression is listed in a summary.
pub proof fn lemma_only_regressions_are_listed(nodes: Seq<NodeView>)
    requires
        forall|i: int| 0 <= i < nodes.len() ==> (#[trigger] nodes[i]).category
            != DiffCategory::Regression,
    ensures
        diff::regression_lines(nodes).len() == 0,
        diff::count_of(nodes, DiffCategory::Regression) == 0,
    decreases nodes.len(),
{
    if nodes.len() > 0 {
        let front = nodes.drop_last();
        assert forall|i: int| 0 <= i < front.len() implies (#[trigger] front[i]).category
            != DiffCategory::Regression by {
            assert(front[i] == nodes[i]);
        }
        assert(nodes[nodes.len() - 1].category != DiffCategory::Regression);
        lemma_only_regressions_are_listed(front);
    }
}

/// Where the recorded object holds no arrays and no objects, what was added
/// comes after all that was there.
pub proof fn lemma_added_comes_last(
    names: Seq<Seq<char>>,
    o: Entries,
    n: Entries,
    path: Seq<char>,
    i: int,
    j: int,
)
    requires
        forall|k: int| 0 <= k < o.len() ==> !((#[trigger] o[k]).1 is Array) && !(o[k].1 is Object),
        0 <= i < j < diff::diff_nodes(names, JsonTree::Object(o), JsonTree::Object(n), path).len(),
        diff::diff_nodes(names, JsonTree::Object(o), JsonTree::Object(n), path)[i].category
            == DiffCategory::Added,
    ensures
        diff::diff_nodes(names, JsonTree::Object(o), JsonTree::Object(n), path)[j].category
            == DiffCategory::Added,
{
    let old = diff::old_fields(names, o, n, path, o.len() as int);
    let added = diff::added_fields(o, n, path, n.len() as int);
    let all = old + added;
    lemma_flat_fields_are_old(names, o, n, path, o.len() as int);
    lemma_added_are_added(o, n, path, n.len() as int);
    if i < old.len() {
        assert(all[i] == old[i]);
    }
    assert(all[j] == added[j - old.len()]);
}

proof fn lemma_flat_fields_are_old(
    names: Seq<Seq<char>>,
    o: Entries,
    n: Entries,
    path: Seq<char>,
    k: int,
)
    requires
        forall|k: int| 0 <= k < o.len() ==> !((#[trigger] o[k]).1 is Array) && !(o[k].1 is Object),
        0 <= k <= o.len(),
    ensures
        forall|i: int|
            0 <= i < diff::old_fields(names, o, n, path, k).len() ==> (#[trigger] diff::old_fields(
                names,
                o,
                n,
                path,
                k,
            )[i]).category != DiffCategory::Added,
        diff::old_fields(names, o, n, path, k).len() <= k,
    decreases k,
{
    if k > 0 {
        lemma_flat_fields_are_old(names, o, n, path, k - 1);
        let before = diff::old_fields(names, o, n, path, k - 1);
        let last = diff::old_field(names, o, n, path, k - 1);
        assert(!(o[k - 1].1 is Array) && !(o[k - 1].1 is Object));
        assert(last.len() <= 1);
        assert forall|i: int| 0 <= i < (before + last).len() implies (#[trigger] (before
            + last)[i]).category != DiffCategory::Added by {
            if i < before.len() {
                assert((before + last)[i] == before[i]);
            } else {
                assert((before + last)[i] == last[0]);
            }
        }
    }
}

proof fn lemma_added_are_added(o: Entries, n: Entries, path: Seq<char>, k: int)
    requires
        0 <= k <= n.len(),
    ensures
        forall|i: int|
            0 <= i < diff::added_fields(o, n, path, k).len() ==> (#[trigger] diff::added_fields(
                o,
                n,
                path,
                k,
            )[i]).category == DiffCategory::Added,
    decreases k,
{
    if k > 0 {
        lemma_added_are_added(o, n, path, k - 1);
    }
}

} // verus!
