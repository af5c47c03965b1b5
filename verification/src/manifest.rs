//! Change manifests: intentional differences declared in TOML.
//!
//! ```toml
//! version = 1
//!
//! [[intentional_changes]]
//! description = "error codes changed from numeric to string"
//! pattern     = "error.code"
//! ```
use crate::diff;
use crate::diff::path_matches_field;
use crate::difference;
use crate::json;
use crate::json::{JsonTree, JsonValue};
use crate::toml_text;
use crate::toml_text::parse_document;
use vstd::prelude::*;

verus! {

broadcast use json::lemma_value_view;

/// A loaded manifest.
#[derive(Debug)]
pub struct ChangeManifest {
    pub version: u32,
    pub intentional_changes: Vec<IntentionalChange>,
}

/// One declared intentional change.
#[derive(Debug)]
pub struct IntentionalChange {
    /// Description for the reader.
    pub description: String,
    /// A field path such as `response.error.code`. Matches that path and every
    /// path that ends in a dot and it.
    pub pattern: String,
}

/// What an [`IntentionalChange`] is.
pub struct ChangeView {
    pub description: Seq<char>,
    pub pattern: Seq<char>,
}

/// What a [`ChangeManifest`] is.
pub struct ManifestView {
    pub version: u32,
    pub changes: Seq<ChangeView>,
}

impl View for IntentionalChange {
    type V = ChangeView;

    open spec fn view(&self) -> ChangeView {
        ChangeView { description: self.description@, pattern: self.pattern@ }
    }
}

impl View for ChangeManifest {
    type V = ManifestView;

    open spec fn view(&self) -> ManifestView {
        ManifestView {
            version: self.version,
            changes: Seq::new(
                self.intentional_changes@.len(),
                |i: int| self.intentional_changes@[i]@,
            ),
        }
    }
}

impl Clone for IntentionalChange {
    fn clone(&self) -> (r: IntentionalChange)
        ensures
            r@ == self@,
    {
        IntentionalChange { description: self.description.clone(), pattern: self.pattern.clone() }
    }
}

impl Clone for ChangeManifest {
    fn clone(&self) -> (r: ChangeManifest)
        ensures
            r@ == self@,
    {
        let mut intentional_changes: Vec<IntentionalChange> = Vec::new();
        let mut i: usize = 0;
        while i < self.intentional_changes.len()
            invariant
                i <= self.intentional_changes@.len(),
                intentional_changes@.len() == i,
                forall|j: int|
                    0 <= j < i ==> (#[trigger] intentional_changes@[j])@
                        == self.intentional_changes@[j]@,
            decreases self.intentional_changes.len() - i,
        {
            intentional_changes.push(self.intentional_changes[i].clone());
            i = i + 1;
        }
        let r = ChangeManifest { version: self.version, intentional_changes };
        proof {
            assert(r@.changes =~= self@.changes);
        }
        r
    }
}

/// The manifest that declares nothing.
pub open spec fn empty_manifest() -> ManifestView {
    ManifestView { version: 0, changes: Seq::empty() }
}

/// Some declared pattern matches the path.
pub open spec fn declared(m: ManifestView, path: Seq<char>) -> bool {
    exists|i: int|
        0 <= i < m.changes.len() && diff::field_match(path, (#[trigger] m.changes[i]).pattern)
}

/// The text of a text value.
pub open spec fn text_of(t: Option<JsonTree>) -> Option<Seq<char>> {
    match t {
        Some(JsonTree::Text(s)) => Some(s),
        _ => None,
    }
}

/// A declaration: a table with the two texts, or an array that starts with
/// them.
pub open spec fn change_of(t: JsonTree) -> Option<ChangeView> {
    let pair = match t {
        JsonTree::Object(es) => (
            text_of(json::value_at(es, "description"@)),
            text_of(json::value_at(es, "pattern"@)),
        ),
        JsonTree::Array(v) => if v.len() >= 2 {
            (text_of(Some(v[0])), text_of(Some(v[1])))
        } else {
            (None, None)
        },
        _ => (None, None),
    };
    match pair {
        (Some(description), Some(pattern)) => Some(ChangeView { description, pattern }),
        _ => None,
    }
}

/// The version: zero if absent, and an integer of 32 bits if present.
pub open spec fn version_of(t: Option<JsonTree>) -> Option<u32> {
    match t {
        None => Some(0u32),
        Some(v) => match json::tree_u64(v) {
            Some(n) if n <= u32::MAX => Some(n as u32),
            _ => None,
        },
    }
}

/// The declarations: none if absent, and a list of declarations if present.
pub open spec fn changes_of(t: Option<JsonTree>) -> Option<Seq<ChangeView>> {
    match t {
        None => Some(Seq::empty()),
        Some(JsonTree::Array(v)) => if forall|i: int|
            0 <= i < v.len() ==> change_of(#[trigger] v[i]) is Some {
            Some(Seq::new(v.len(), |i: int| change_of(v[i])->0))
        } else {
            None
        },
        _ => None,
    }
}

/// The manifest that a document describes, if it describes one.
pub open spec fn manifest_of(t: JsonTree) -> Option<ManifestView> {
    match (version_of(json::member(t, "version"@)), changes_of(
        json::member(t, "intentional_changes"@),
    )) {
        (Some(version), Some(changes)) if t is Object => Some(ManifestView { version, changes }),
        _ => None,
    }
}

/// The manifest in a TOML text: the empty one if the text describes none.
pub open spec fn manifest_in(content: Seq<char>) -> ManifestView {
    match toml_text::document(content) {
        Some(t) => match manifest_of(t) {
            Some(m) => m,
            None => empty_manifest(),
        },
        None => empty_manifest(),
    }
}

impl Default for ChangeManifest {
    fn default() -> (r: ChangeManifest)
        ensures
            r@ == empty_manifest(),
    {
        let r = ChangeManifest { version: 0, intentional_changes: Vec::new() };
        proof {
            assert(r@.changes =~= Seq::<ChangeView>::empty());
        }
        r
    }
}

impl IntentionalChange {
    /// Reads a declaration.
    pub fn from_json(t: &JsonValue) -> (r: Option<IntentionalChange>)
        ensures
            match change_of(t@) {
                Some(c) => r is Some && r->0@ == c,
                None => r is None,
            },
    {
        let pair: (Option<&str>, Option<&str>) = match t {
            JsonValue::Object(m) => (
                match m.get("description") {
                    Some(v) => v.as_str(),
                    None => None,
                },
                match m.get("pattern") {
                    Some(v) => v.as_str(),
                    None => None,
                },
            ),
            JsonValue::Array(v) => if v.len() >= 2 {
                (v[0].as_str(), v[1].as_str())
            } else {
                (None, None)
            },
            _ => (None, None),
        };
        match pair {
            (Some(d), Some(p)) => Some(
                IntentionalChange { description: d.to_owned(), pattern: p.to_owned() },
            ),
            _ => None,
        }
    }
}

impl ChangeManifest {
    /// Reads a manifest from a document; `None` if it describes none.
    pub fn from_json(t: &JsonValue) -> (r: Option<ChangeManifest>)
        ensures
            match manifest_of(t@) {
                Some(m) => r is Some && r->0@ == m,
                None => r is None,
            },
    {
        if !matches!(t, JsonValue::Object(_)) {
            return None;
        }
        let version: u32 = match t.get("version") {
            None => 0,
            Some(v) => match v.as_u64() {
                Some(n) => if n <= u32::MAX as u64 {
                    n as u32
                } else {
                    return None;
                },
                None => {
                    return None;
                },
            },
        };
        let mut changes: Vec<IntentionalChange> = Vec::new();
        match t.get("intentional_changes") {
            None => {},
            Some(JsonValue::Array(v)) => {
                let ghost all = json::trees(v@);
                let mut i: usize = 0;
                while i < v.len()
                    invariant
                        all == json::trees(v@),
                        json::member(t@, "intentional_changes"@) == Some(JsonTree::Array(all)),
                        i <= v@.len(),
                        changes@.len() == i,
                        forall|j: int|
                            0 <= j < i ==> change_of(#[trigger] all[j]) == Some(changes@[j]@),
                    decreases v.len() - i,
                {
                    match IntentionalChange::from_json(&v[i]) {
                        Some(c) => {
                            changes.push(c);
                        },
                        None => {
                            proof {
                                assert(change_of(all[i as int]) is None);
                            }
                            return None;
                        },
                    }
                    i = i + 1;
                }
            },
            Some(_) => {
                return None;
            },
        }
        let r = ChangeManifest { version, intentional_changes: changes };
        proof {
            if let Some(JsonTree::Array(v)) = json::member(t@, "intentional_changes"@) {
                assert(r@.changes =~= Seq::new(v.len(), |i: int| change_of(v[i])->0));
            } else {
                assert(r@.changes =~= Seq::<ChangeView>::empty());
            }
        }
        Some(r)
    }

    /// Reads a manifest from TOML. A text that is not TOML, or describes no
    /// manifest, gives the empty manifest: it must not block a build.
    pub fn from_toml(content: &str) -> (r: ChangeManifest)
        ensures
            r@ == manifest_in(content@),
    {
        match parse_document(content) {
            Some(t) => match ChangeManifest::from_json(&t) {
                Some(m) => m,
                None => ChangeManifest::default(),
            },
            None => ChangeManifest::default(),
        }
    }

    /// Whether `field_path` matches a declared change.
    pub fn matches(&self, field_path: &str) -> (r: bool)
        ensures
            r == declared(self@, field_path@),
    {
        let mut i: usize = 0;
        while i < self.intentional_changes.len()
            invariant
                i <= self.intentional_changes@.len(),
                forall|j: int|
                    0 <= j < i ==> !diff::field_match(
                        field_path@,
                        (#[trigger] self@.changes[j]).pattern,
                    ),
            decreases self.intentional_changes.len() - i,
        {
            if path_matches_field(field_path, self.intentional_changes[i].pattern.as_str()) {
                proof {
                    assert(diff::field_match(field_path@, self@.changes[i as int].pattern));
                }
                return true;
            }
            i = i + 1;
        }
        false
    }
}

// ---------------------------------------------------------------------------
// Laws
// ---------------------------------------------------------------------------

/// A pattern declares the path that it is, and every path that ends in a dot
/// and the pattern.
pub proof fn lemma_pattern_declares(m: ManifestView, c: int, pre: Seq<char>)
    requires
        0 <= c < m.changes.len(),
    ensures
        declared(m, m.changes[c].pattern),
        declared(m, pre + "."@ + m.changes[c].pattern),
{
    difference::lemma_path_ends_in_field(pre, m.changes[c].pattern);
}

/// No other path is declared: neither one that only ends in the letters of a
/// pattern, nor one that begins with it.
pub proof fn lemma_nothing_else_is_declared(m: ManifestView, path: Seq<char>)
    requires
        forall|c: int|
            0 <= c < m.changes.len() ==> !difference::ends_in(
                path,
                (#[trigger] m.changes[c]).pattern,
            ),
    ensures
        !declared(m, path),
{
    assert forall|c: int| 0 <= c < m.changes.len() implies !diff::field_match(
        path,
        (#[trigger] m.changes[c]).pattern,
    ) by {
        difference::lemma_only_paths_that_end_in_field(path, m.changes[c].pattern);
    }
}

/// A document with a version and a list of tables is a manifest with that
/// version and, for each table and in their order, its description and its
/// pattern.
pub proof fn lemma_manifest_of_tables(
    t: JsonTree,
    version: u32,
    tables: Seq<JsonTree>,
    changes: Seq<ChangeView>,
)
    requires
        t is Object,
        json::member(t, "version"@) == Some(JsonTree::Number(json::NumberView::Int(version as int))),
        json::member(t, "intentional_changes"@) == Some(JsonTree::Array(tables)),
        tables.len() == changes.len(),
        forall|i: int|
            0 <= i < tables.len() ==> (#[trigger] tables[i]) is Object && json::member(
                tables[i],
                "description"@,
            ) == Some(JsonTree::Text(changes[i].description)) && json::member(
                tables[i],
                "pattern"@,
            ) == Some(JsonTree::Text(changes[i].pattern)),
    ensures
        manifest_of(t) == Some(ManifestView { version, changes }),
{
    assert forall|i: int| 0 <= i < tables.len() implies change_of(#[trigger] tables[i]) == Some(
        changes[i],
    ) by {}
    let read = Seq::new(tables.len(), |i: int| change_of(tables[i])->0);
    assert(read =~= changes);
}

/// An empty document is a manifest that declares nothing; a table without a
/// description or without a pattern makes the whole document none.
pub proof fn lemma_incomplete_table_spoils_all(t: JsonTree, tables: Seq<JsonTree>, i: int)
    ensures
        t is Object && json::member(t, "version"@) is None && json::member(
            t,
            "intentional_changes"@,
        ) is None ==> manifest_of(t) == Some(
            ManifestView { version: 0, changes: Seq::<ChangeView>::empty() },
        ),
        json::member(t, "intentional_changes"@) == Some(JsonTree::Array(tables)) && 0 <= i
            < tables.len() && tables[i] is Object && (json::member(tables[i], "description"@) is None
            || json::member(tables[i], "pattern"@) is None) ==> manifest_of(t) is None,
{
    if 0 <= i < tables.len() && tables[i] is Object && (json::member(tables[i], "description"@)
        is None || json::member(tables[i], "pattern"@) is None) {
        assert(change_of(tables[i]) is None);
    }
}

/// A version beyond 32 bits, or one that is no integer, makes the document no
/// manifest; a declaration may also be a list that starts with its description
/// and its pattern.
pub proof fn lemma_versions_and_lists(
    t: JsonTree,
    n: int,
    description: Seq<char>,
    pattern: Seq<char>,
    rest: Seq<JsonTree>,
)
    ensures
        json::member(t, "version"@) == Some(JsonTree::Number(json::NumberView::Int(n))) && (n < 0
            || n > u32::MAX) ==> manifest_of(t) is None,
        json::member(t, "version"@) == Some(JsonTree::Text(pattern)) ==> manifest_of(t) is None,
        change_of(
            JsonTree::Array(seq![JsonTree::Text(description), JsonTree::Text(pattern)] + rest),
        ) == Some(ChangeView { description, pattern }),
        !(t is Object) ==> manifest_of(t) is None,
{
    let v = seq![JsonTree::Text(description), JsonTree::Text(pattern)] + rest;
    assert(v[0] == JsonTree::Text(description) && v[1] == JsonTree::Text(pattern));
}

} // verus!
