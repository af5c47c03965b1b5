//! What becomes of a comparison when its two sides are exchanged.
use crate::diff;
use crate::diff::{DiffCategory, NodeView};
use crate::json;
use crate::json::{Entries, JsonTree};
use vstd::multiset::Multiset;
use vstd::prelude::*;

verus! {

/// A node seen from the other side: old and new are exchanged, and what was
/// added was removed.
pub open spec fn exchanged(node: NodeView) -> NodeView {
    NodeView {
        path: node.path,
        old_value: node.new_value,
        new_value: node.old_value,
        category: match node.category {
            DiffCategory::Added => DiffCategory::Removed,
            DiffCategory::Removed => DiffCategory::Added,
            c => c,
        },
    }
}

/// Nodes seen from the other side.
pub open spec fn all_exchanged(nodes: Seq<NodeView>) -> Seq<NodeView> {
    Seq::new(nodes.len(), |i: int| exchanged(nodes[i]))
}

/// Nodes without their order, as they are or seen from the other side.
spec fn bag(nodes: Seq<NodeView>, other_side: bool) -> Multiset<NodeView> {
    if other_side {
        all_exchanged(nodes).to_multiset()
    } else {
        nodes.to_multiset()
    }
}

proof fn lemma_bag_concat(a: Seq<NodeView>, b: Seq<NodeView>, other_side: bool)
    ensures
        bag(a + b, other_side) == bag(a, other_side).add(bag(b, other_side)),
{
    assert(all_exchanged(a + b) =~= all_exchanged(a) + all_exchanged(b));
    vstd::seq_lib::lemma_multiset_commutative(all_exchanged(a), all_exchanged(b));
    vstd::seq_lib::lemma_multiset_commutative(a, b);
}

proof fn lemma_bag_empty(other_side: bool)
    ensures
        bag(Seq::empty(), other_side) == Multiset::<NodeView>::empty(),
{
    assert(all_exchanged(Seq::empty()) =~= Seq::<NodeView>::empty());
    Seq::<NodeView>::empty().to_multiset_ensures();
}

/// The differences under a key that both objects have.
spec fn field_nodes(
    names: Seq<Seq<char>>,
    o: Entries,
    n: Entries,
    path: Seq<char>,
    key: Seq<char>,
) -> Seq<NodeView> {
    match (json::value_at(o, key), json::value_at(n, key)) {
        (Some(x), Some(y)) => diff::diff_nodes(names, x, y, diff::child(path, key)),
        _ => Seq::empty(),
    }
}

/// The differences under the first `k` keys of `es` that both objects have.
spec fn common(
    es: Entries,
    names: Seq<Seq<char>>,
    o: Entries,
    n: Entries,
    path: Seq<char>,
    other_side: bool,
    k: int,
) -> Multiset<NodeView>
    decreases k,
{
    if k <= 0 {
        Multiset::empty()
    } else {
        common(es, names, o, n, path, other_side, k - 1).add(
            bag(field_nodes(names, o, n, path, es[k - 1].0), other_side),
        )
    }
}

/// The fields among the first `k` of the old object that the new one lacks.
spec fn removed_fields(o: Entries, n: Entries, path: Seq<char>, k: int) -> Seq<NodeView>
    decreases k,
{
    if k <= 0 {
        Seq::empty()
    } else {
        let before = removed_fields(o, n, path, k - 1);
        if json::value_at(n, o[k - 1].0) is Some {
            before
        } else {
            before.push(
                NodeView {
                    path: diff::child(path, o[k - 1].0),
                    old_value: o[k - 1].1,
                    new_value: JsonTree::Null,
                    category: DiffCategory::Removed,
                },
            )
        }
    }
}

/// The differences at the old fields are those at common fields and those at
/// removed ones.
proof fn lemma_old_fields_split(
    names: Seq<Seq<char>>,
    o: Entries,
    n: Entries,
    path: Seq<char>,
    other_side: bool,
    k: int,
)
    requires
        json::ascending(o),
        0 <= k <= o.len(),
    ensures
        bag(diff::old_fields(names, o, n, path, k), other_side) == common(
            o,
            names,
            o,
            n,
            path,
            other_side,
            k,
        ).add(bag(removed_fields(o, n, path, k), other_side)),
    decreases k,
{
    if k <= 0 {
        lemma_bag_empty(other_side);
    } else {
        lemma_old_fields_split(names, o, n, path, other_side, k - 1);
        let here = diff::old_field(names, o, n, path, k - 1);
        let removed = removed_fields(o, n, path, k - 1);
        lemma_bag_concat(diff::old_fields(names, o, n, path, k - 1), here, other_side);
        json::lemma_ascending_index(o, k - 1);
        if json::value_at(n, o[k - 1].0) is None {
            lemma_bag_empty(other_side);
            lemma_bag_concat(removed, here, other_side);
            assert(removed_fields(o, n, path, k) =~= removed + here);
        }
        assert(bag(diff::old_fields(names, o, n, path, k), other_side) =~= common(
            o,
            names,
            o,
            n,
            path,
            other_side,
            k,
        ).add(bag(removed_fields(o, n, path, k), other_side)));
    }
}

/// What was removed on one side was added on the other, in the same order.
proof fn lemma_removed_is_added(o: Entries, n: Entries, path: Seq<char>, k: int)
    ensures
        all_exchanged(removed_fields(o, n, path, k)) == diff::added_fields(n, o, path, k),
        all_exchanged(diff::added_fields(n, o, path, k)) == removed_fields(o, n, path, k),
    decreases k,
{
    if k > 0 {
        lemma_removed_is_added(o, n, path, k - 1);
    }
    assert(all_exchanged(removed_fields(o, n, path, k)) =~= diff::added_fields(n, o, path, k));
    assert(all_exchanged(diff::added_fields(n, o, path, k)) =~= removed_fields(o, n, path, k));
}

/// Going through the keys of either object meets the same common keys.
proof fn lemma_common_from_either(
    names: Seq<Seq<char>>,
    o: Entries,
    n: Entries,
    path: Seq<char>,
    other_side: bool,
    a: int,
    b: int,
)
    requires
        json::ascending(o),
        json::ascending(n),
        0 <= a <= o.len(),
        0 <= b <= n.len(),
        forall|i: int, j: int|
            0 <= i < o.len() && 0 <= j < n.len() && (#[trigger] o[i]).0 == (#[trigger] n[j]).0
                ==> (i < a <==> j < b),
    ensures
        common(o, names, o, n, path, other_side, a) == common(
            n,
            names,
            o,
            n,
            path,
            other_side,
            b,
        ),
    decreases a + b,
{
    lemma_bag_empty(other_side);
    if a > 0 {
        json::lemma_key_index(n, o[a - 1].0);
    }
    if b > 0 {
        json::lemma_key_index(o, n[b - 1].0);
    }
    if a > 0 && json::value_at(n, o[a - 1].0) is None {
        assert forall|i: int, j: int|
            0 <= i < o.len() && 0 <= j < n.len() && (#[trigger] o[i]).0 == (#[trigger] n[j]).0
            implies (i < a - 1 <==> j < b) by {
            assert(i != a - 1);
        }
        lemma_common_from_either(names, o, n, path, other_side, a - 1, b);
        assert(common(o, names, o, n, path, other_side, a) =~= common(
            o,
            names,
            o,
            n,
            path,
            other_side,
            a - 1,
        ));
    } else if b > 0 && json::value_at(o, n[b - 1].0) is None {
        assert forall|i: int, j: int|
            0 <= i < o.len() && 0 <= j < n.len() && (#[trigger] o[i]).0 == (#[trigger] n[j]).0
            implies (i < a <==> j < b - 1) by {
            assert(j != b - 1);
        }
        lemma_common_from_either(names, o, n, path, other_side, a, b - 1);
        assert(common(n, names, o, n, path, other_side, b) =~= common(
            n,
            names,
            o,
            n,
            path,
            other_side,
            b - 1,
        ));
    } else if a > 0 || b > 0 {
        if a > 0 {
            let j = json::key_index(n, o[a - 1].0);
            assert(o[a - 1].0 == n[j].0);
            assert(b > 0);
        }
        let i = json::key_index(o, n[b - 1].0);
        assert(o[i].0 == n[b - 1].0);
        assert(a > 0);
        let j = json::key_index(n, o[a - 1].0);
        assert(o[a - 1].0 == n[j].0);
        if j < b - 1 {
            assert(json::key_less(n[j].0, n[b - 1].0));
            json::lemma_key_less_irreflexive(n[j].0);
            if i < a - 1 {
                assert(json::key_less(o[i].0, o[a - 1].0));
                json::lemma_key_less_transitive(n[j].0, n[b - 1].0, n[j].0);
            }
        }
        assert(j == b - 1);
        assert forall|x: int, y: int|
            0 <= x < o.len() && 0 <= y < n.len() && (#[trigger] o[x]).0 == (#[trigger] n[y]).0
            implies (x < a - 1 <==> y < b - 1) by {
            json::lemma_ascending_index(o, x);
            json::lemma_ascending_index(o, a - 1);
            json::lemma_ascending_index(n, y);
            json::lemma_ascending_index(n, b - 1);
        }
        lemma_common_from_either(names, o, n, path, other_side, a - 1, b - 1);
    }
}

/// If every common field exchanges, so do all of them.
proof fn lemma_common_exchanges(
    es: Entries,
    names: Seq<Seq<char>>,
    o: Entries,
    n: Entries,
    path: Seq<char>,
    k: int,
)
    requires
        forall|key: Seq<char>| #[trigger]
            bag(field_nodes(names, o, n, path, key), true) == bag(
                field_nodes(names, n, o, path, key),
                false,
            ),
    ensures
        common(es, names, o, n, path, true, k) == common(es, names, n, o, path, false, k),
    decreases k,
{
    if k > 0 {
        lemma_common_exchanges(es, names, o, n, path, k - 1);
        assert(bag(field_nodes(names, o, n, path, es[k - 1].0), true) == bag(
            field_nodes(names, n, o, path, es[k - 1].0),
            false,
        ));
    }
}

/// Comparing the other way round shows every difference from the other side:
/// old and new values are exchanged, added and removed fields are exchanged,
/// and paths, noise and regressions are the same. Only the order of the nodes
/// may differ.
pub proof fn lemma_compare_the_other_way(
    names: Seq<Seq<char>>,
    old: JsonTree,
    new: JsonTree,
    path: Seq<char>,
)
    requires
        json::well_formed(old),
        json::well_formed(new),
    ensures
        all_exchanged(diff::diff_nodes(names, old, new, path)).to_multiset() == diff::diff_nodes(
            names,
            new,
            old,
            path,
        ).to_multiset(),
    decreases old, 1int, 0int,
{
    match (old, new) {
        (JsonTree::Object(o), JsonTree::Object(n)) => {
            let (a, b) = (o.len() as int, n.len() as int);
            assert forall|key: Seq<char>| #[trigger]
                bag(field_nodes(names, o, n, path, key), true) == bag(
                    field_nodes(names, n, o, path, key),
                    false,
                ) by {
                json::lemma_key_index(o, key);
                json::lemma_key_index(n, key);
                let (i, j) = (json::key_index(o, key), json::key_index(n, key));
                if i < o.len() && j < n.len() {
                    json::lemma_entry_decreases(o, i);
                    lemma_compare_the_other_way(
                        names,
                        o[i].1,
                        n[j].1,
                        diff::child(path, key),
                    );
                } else {
                    lemma_bag_empty(true);
                    lemma_bag_empty(false);
                }
            }
            lemma_old_fields_split(names, o, n, path, true, a);
            lemma_old_fields_split(names, n, o, path, false, b);
            lemma_removed_is_added(o, n, path, a);
            lemma_removed_is_added(n, o, path, b);
            lemma_common_from_either(names, o, n, path, true, a, b);
            lemma_common_exchanges(n, names, o, n, path, b);
            lemma_bag_concat(
                diff::old_fields(names, o, n, path, a),
                diff::added_fields(o, n, path, b),
                true,
            );
            lemma_bag_concat(
                diff::old_fields(names, n, o, path, b),
                diff::added_fields(n, o, path, a),
                false,
            );
            assert(bag(diff::diff_nodes(names, old, new, path), true) =~= bag(
                diff::diff_nodes(names, new, old, path),
                false,
            ));
        },
        (JsonTree::Array(o), JsonTree::Array(n)) => {
            let k = if o.len() >= n.len() {
                o.len() as int
            } else {
                n.len() as int
            };
            lemma_elements_exchange(names, o, n, path, k);
        },
        _ => {
            json::lemma_same_json_symmetric(old, new);
            assert(all_exchanged(diff::diff_nodes(names, old, new, path)) =~= diff::diff_nodes(
                names,
                new,
                old,
                path,
            ));
        },
    }
}

proof fn lemma_elements_exchange(
    names: Seq<Seq<char>>,
    o: Seq<JsonTree>,
    n: Seq<JsonTree>,
    path: Seq<char>,
    k: int,
)
    requires
        forall|i: int| 0 <= i < o.len() ==> json::well_formed(#[trigger] o[i]),
        forall|i: int| 0 <= i < n.len() ==> json::well_formed(#[trigger] n[i]),
        k <= o.len() || k <= n.len(),
    ensures
        bag(diff::elements(names, o, n, path, k), true) == bag(
            diff::elements(names, n, o, path, k),
            false,
        ),
    decreases JsonTree::Array(o), 0int, k,
{
    if k <= 0 {
        lemma_bag_empty(true);
        lemma_bag_empty(false);
    } else {
        lemma_elements_exchange(names, o, n, path, k - 1);
        let there = diff::element_diff(names, o, n, path, k - 1);
        let back = diff::element_diff(names, n, o, path, k - 1);
        if k <= o.len() && k <= n.len() {
            json::lemma_element_decreases(o, k - 1);
            lemma_compare_the_other_way(
                names,
                o[k - 1],
                n[k - 1],
                diff::element(path, (k - 1) as nat),
            );
        } else {
            assert(all_exchanged(there) =~= back);
        }
        lemma_bag_concat(diff::elements(names, o, n, path, k - 1), there, true);
        lemma_bag_concat(diff::elements(names, n, o, path, k - 1), back, false);
    }
}

/// Comparing the other way round gives the same verdict.
pub proof fn lemma_same_verdict_the_other_way(
    names: Seq<Seq<char>>,
    old: JsonTree,
    new: JsonTree,
    path: Seq<char>,
)
    requires
        json::well_formed(old),
        json::well_formed(new),
    ensures
        diff::has_regression(diff::diff_nodes(names, old, new, path)) == diff::has_regression(
            diff::diff_nodes(names, new, old, path),
        ),
{
    let there = diff::diff_nodes(names, old, new, path);
    let back = diff::diff_nodes(names, new, old, path);
    let seen = all_exchanged(there);
    lemma_compare_the_other_way(names, old, new, path);
    seen.to_multiset_ensures();
    back.to_multiset_ensures();
    if diff::has_regression(there) {
        let i = choose|i: int|
            0 <= i < there.len() && (#[trigger] there[i]).category == DiffCategory::Regression;
        assert(seen[i].category == DiffCategory::Regression);
        assert(seen.contains(seen[i]));
        assert(back.to_multiset().count(seen[i]) > 0);
        assert(back.contains(seen[i]));
    }
    if diff::has_regression(back) {
        let i = choose|i: int|
            0 <= i < back.len() && (#[trigger] back[i]).category == DiffCategory::Regression;
        assert(back.contains(back[i]));
        assert(seen.to_multiset().count(back[i]) > 0);
        assert(seen.contains(back[i]));
        let j = choose|j: int| 0 <= j < seen.len() && seen[j] == back[i];
        assert(there[j].category == DiffCategory::Regression);
    }
}

} // verus!
