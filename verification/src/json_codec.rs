//! JSON text: values are read from it and written to it by `serde_json`.
use crate::json;
use crate::json::{JsonMap, JsonNumber, JsonTree, JsonValue};
use vstd::prelude::*;

verus! {

/// `serde_json::Value`, the form in which text is read and written.
#[verifier::external_type_specification]
#[verifier::external_body]
pub struct ExValue(serde_json::Value);

/// What a `serde_json::Value` holds.
pub uninterp spec fn value_tree(v: serde_json::Value) -> JsonTree;

/// The value that `serde_json` reads from a text, if the text is JSON.
pub uninterp spec fn parsed(s: Seq<char>) -> Option<JsonTree>;

/// The value that `serde_json` reads from bytes, if they are JSON in UTF-8.
pub uninterp spec fn parsed_bytes(b: Seq<u8>) -> Option<JsonTree>;

/// The text that `serde_json` writes for a value, without whitespace.
pub uninterp spec fn compact(t: JsonTree) -> Seq<char>;

/// The text that `serde_json` writes for a value, indented.
pub uninterp spec fn pretty(t: JsonTree) -> Seq<char>;

/// A key that `serde_json` takes for a mark of its own when it reads an object.
pub open spec fn reserved_key(key: Seq<char>) -> bool {
    key == "$serde_json::private::RawValue"@ || key == "$serde_json::private::Number"@
}

/// A value without doubles and reserved keys, and with at most `levels` arrays
/// and objects inside each other.
pub open spec fn reads_back_within(t: JsonTree, levels: int) -> bool
    decreases t,
{
    match t {
        JsonTree::Number(n) => n is Int,
        JsonTree::Array(x) => levels > 0 && forall|i: int|
            0 <= i < x.len() ==> reads_back_within(#[trigger] x[i], levels - 1),
        JsonTree::Object(x) => levels > 0 && forall|i: int|
            0 <= i < x.len() ==> !reserved_key((#[trigger] x[i]).0) && reads_back_within(
                x[i].1,
                levels - 1,
            ),
        _ => true,
    }
}

/// A value that is read back from its own text as it was. `serde_json` may
/// round a double when it reads it, and reads no more than 127 levels.
pub open spec fn reads_back(t: JsonTree) -> bool {
    reads_back_within(t, 127)
}

/// The outermost layer of a `serde_json::Value`.
pub enum ValueParts {
    Null,
    Bool(bool),
    Number(serde_json::Number),
    Text(String),
    Array(Vec<serde_json::Value>),
    Object(Vec<(String, serde_json::Value)>),
}

/// What a layer stands for.
pub open spec fn parts_tree(p: ValueParts) -> JsonTree {
    match p {
        ValueParts::Null => JsonTree::Null,
        ValueParts::Bool(b) => JsonTree::Bool(b),
        ValueParts::Number(n) => JsonTree::Number(json::number_view(n)),
        ValueParts::Text(s) => JsonTree::Text(s@),
        ValueParts::Array(v) => JsonTree::Array(Seq::new(v@.len(), |i: int| value_tree(v@[i]))),
        ValueParts::Object(m) => JsonTree::Object(
            Seq::new(m@.len(), |i: int| (m@[i].0@, value_tree(m@[i].1))),
        ),
    }
}

/// Takes a `serde_json::Value` apart. Its maps are ordered by key, so the
/// objects in it have ascending keys.
#[verifier::external_body]
fn value_parts(v: serde_json::Value) -> (r: ValueParts)
    ensures
        parts_tree(r) == value_tree(v),
        json::well_formed(parts_tree(r)),
{
    match v {
        serde_json::Value::Null => ValueParts::Null,
        serde_json::Value::Bool(b) => ValueParts::Bool(b),
        serde_json::Value::Number(n) => ValueParts::Number(n),
        serde_json::Value::String(s) => ValueParts::Text(s),
        serde_json::Value::Array(v) => ValueParts::Array(v),
        serde_json::Value::Object(m) => ValueParts::Object(m.into_iter().collect()),
    }
}

/// Puts a `serde_json::Value` together. A map holds the entries that it is
/// collected from, in the order of their keys.
#[verifier::external_body]
fn value_of_parts(p: ValueParts) -> (r: serde_json::Value)
    requires
        parts_tree(p) matches JsonTree::Object(es) ==> json::ascending(es),
    ensures
        value_tree(r) == parts_tree(p),
{
    match p {
        ValueParts::Null => serde_json::Value::Null,
        ValueParts::Bool(b) => serde_json::Value::Bool(b),
        ValueParts::Number(n) => serde_json::Value::Number(n),
        ValueParts::Text(s) => serde_json::Value::String(s),
        ValueParts::Array(v) => serde_json::Value::Array(v),
        ValueParts::Object(m) => serde_json::Value::Object(m.into_iter().collect()),
    }
}

/// `serde_json::from_str`, read into a `Value`.
#[verifier::external_body]
fn read_text(s: &str) -> (r: Option<serde_json::Value>)
    ensures
        match parsed(s@) {
            Some(t) => r is Some && value_tree(r->0) == t,
            None => r is None,
        },
{
    serde_json::from_str::<serde_json::Value>(s).ok()
}

/// `serde_json::from_slice`, read into a `Value`.
#[verifier::external_body]
fn read_bytes(b: &[u8]) -> (r: Option<serde_json::Value>)
    ensures
        match parsed_bytes(b@) {
            Some(t) => r is Some && value_tree(r->0) == t,
            None => r is None,
        },
{
    serde_json::from_slice::<serde_json::Value>(b).ok()
}

/// `Value::to_string`, which writes compact JSON and cannot fail. Reading the
/// text, or its bytes, gives the value back, if it has no doubles, no reserved
/// keys and no more levels than the reader takes. Nothing is said of how a
/// double is read back.
#[verifier::external_body]
fn write_compact(v: &serde_json::Value) -> (r: String)
    ensures
        r@ == compact(value_tree(*v)),
        reads_back(value_tree(*v)) ==> parsed(r@) == Some(value_tree(*v)) && parsed_bytes(
            vstd::utf8::encode_utf8(r@),
        ) == Some(value_tree(*v)),
{
    v.to_string()
}

/// `serde_json::to_string_pretty`. Writing a `Value` never fails: its map keys
/// are strings and a `String` takes every text. Reading the text gives the value
/// back, under the same conditions as for compact text.
#[verifier::external_body]
fn write_pretty(v: &serde_json::Value) -> (r: String)
    ensures
        r@ == pretty(value_tree(*v)),
        reads_back(value_tree(*v)) ==> parsed(r@) == Some(value_tree(*v)),
{
    serde_json::to_string_pretty(v).unwrap_or_default()
}

impl JsonValue {
    /// Takes a value over from `serde_json`.
    pub fn from_value(v: serde_json::Value) -> (r: JsonValue)
        ensures
            r@ == value_tree(v),
            json::well_formed(r@),
        decreases value_tree(v),
    {
        broadcast use json::lemma_value_view;

        let ghost whole = value_tree(v);
        match value_parts(v) {
            ValueParts::Null => JsonValue::Null,
            ValueParts::Bool(b) => JsonValue::Bool(b),
            ValueParts::Number(n) => JsonValue::Number(JsonNumber::from_number(n)),
            ValueParts::Text(s) => JsonValue::Text(s),
            ValueParts::Array(items) => {
                let ghost all = whole->Array_0;
                let mut rest = items;
                let mut out: Vec<JsonValue> = Vec::new();
                while rest.len() > 0
                    invariant
                        value_tree(v) == whole,
                        whole == JsonTree::Array(all),
                        json::well_formed(whole),
                        rest@.len() <= all.len(),
                        out@.len() == all.len() - rest@.len(),
                        forall|j: int|
                            0 <= j < rest@.len() ==> value_tree(#[trigger] rest@[j]) == all[j],
                        forall|j: int|
                            0 <= j < out@.len() ==> (#[trigger] out@[j])@ == all[all.len() - 1 - j],
                    decreases rest.len(),
                {
                    let ghost before = rest@;
                    if let Some(item) = rest.pop() {
                        proof {
                            let k = before.len() - 1;
                            assert(value_tree(before[k]) == all[k]);
                            assert(decreases_to!(whole => whole->Array_0));
                            assert(decreases_to!(all => all[k]));
                        }
                        out.push(JsonValue::from_value(item));
                    }
                }
                let items = reversed(out);
                proof {
                    assert(json::trees(items@) =~= all);
                }
                JsonValue::Array(items)
            },
            ValueParts::Object(entries) => {
                let ghost all = whole->Object_0;
                let mut rest = entries;
                let mut out = JsonMap::new();
                while rest.len() > 0
                    invariant
                        value_tree(v) == whole,
                        whole == JsonTree::Object(all),
                        json::well_formed(whole),
                        rest@.len() <= all.len(),
                        out@ == all.skip(rest@.len() as int),
                        forall|j: int|
                            0 <= j < rest@.len() ==> (#[trigger] rest@[j]).0@ == all[j].0
                                && value_tree(rest@[j].1) == all[j].1,
                    decreases rest.len(),
                {
                    let ghost before = rest@;
                    if let Some((key, value)) = rest.pop() {
                        let ghost k = before.len() - 1;
                        proof {
                            assert(value_tree(before[k].1) == all[k].1);
                            assert(decreases_to!(whole => whole->Object_0));
                            assert(decreases_to!(all => all[k]));
                            assert(decreases_to!(all[k] => all[k].1));
                            let es = out@;
                            if es.len() > 0 {
                                assert(es[0] == all[k + 1]);
                                assert(json::key_less(all[k].0, all[k + 1].0));
                                json::lemma_key_less_irreflexive(all[k].0);
                            }
                        }
                        out.insert(key, JsonValue::from_value(value));
                        proof {
                            assert(out@ =~= all.skip(k));
                        }
                    }
                }
                proof {
                    assert(out@ =~= all);
                }
                JsonValue::Object(out)
            },
        }
    }
}

impl JsonValue {
    /// Hands a value over to `serde_json`.
    pub fn to_value(&self) -> (r: serde_json::Value)
        ensures
            value_tree(r) == self@,
            json::well_formed(self@),
        decreases self@,
    {
        broadcast use json::lemma_value_view;

        match self {
            JsonValue::Null => value_of_parts(ValueParts::Null),
            JsonValue::Bool(b) => value_of_parts(ValueParts::Bool(*b)),
            JsonValue::Number(n) => value_of_parts(ValueParts::Number(n.to_number())),
            JsonValue::Text(s) => value_of_parts(ValueParts::Text(s.clone())),
            JsonValue::Array(v) => {
                let ghost all = self@->Array_0;
                let mut out: Vec<serde_json::Value> = Vec::new();
                let mut i: usize = 0;
                while i < v.len()
                    invariant
                        self@ == JsonTree::Array(all),
                        all == json::trees(v@),
                        i <= v@.len(),
                        out@.len() == i,
                        forall|j: int|
                            0 <= j < i ==> value_tree(#[trigger] out@[j]) == all[j]
                                && json::well_formed(all[j]),
                    decreases v.len() - i,
                {
                    proof {
                        assert(all[i as int] == v@[i as int]@);
                        assert(decreases_to!(self@ => self@->Array_0));
                        assert(decreases_to!(all => all[i as int]));
                    }
                    out.push(v[i].to_value());
                    i = i + 1;
                }
                proof {
                    assert(parts_tree(ValueParts::Array(out))->Array_0 =~= all);
                    assert forall|j: int| 0 <= j < all.len() implies json::well_formed(
                        #[trigger] all[j],
                    ) by {
                        assert(value_tree(out@[j]) == all[j]);
                    }
                }
                value_of_parts(ValueParts::Array(out))
            },
            JsonValue::Object(m) => {
                let ghost all = self@->Object_0;
                proof {
                    use_type_invariant(m);
                }
                let mut out: Vec<(String, serde_json::Value)> = Vec::new();
                let mut i: usize = 0;
                while i < m.len()
                    invariant
                        self@ == JsonTree::Object(all),
                        all == m@,
                        i <= all.len(),
                        out@.len() == i,
                        forall|j: int|
                            0 <= j < i ==> (#[trigger] out@[j]).0@ == all[j].0 && value_tree(
                                out@[j].1,
                            ) == all[j].1 && json::well_formed(all[j].1),
                    decreases all.len() - i,
                {
                    proof {
                        assert(decreases_to!(self@ => self@->Object_0));
                        assert(decreases_to!(all => all[i as int]));
                        assert(decreases_to!(all[i as int] => all[i as int].1));
                    }
                    let value = m.value_at(i).to_value();
                    out.push((m.key_at(i).clone(), value));
                    i = i + 1;
                }
                proof {
                    assert(parts_tree(ValueParts::Object(out))->Object_0 =~= all);
                    assert forall|j: int| 0 <= j < all.len() implies json::well_formed(
                        (#[trigger] all[j]).1,
                    ) by {
                        assert(out@[j].0@ == all[j].0);
                    }
                }
                value_of_parts(ValueParts::Object(out))
            },
        }
    }

    /// Reads a value from JSON text; `None` if the text is not JSON.
    pub fn parse(s: &str) -> (r: Option<JsonValue>)
        ensures
            match parsed(s@) {
                Some(t) => r is Some && r->0@ == t && json::well_formed(t),
                None => r is None,
            },
    {
        match read_text(s) {
            Some(v) => Some(JsonValue::from_value(v)),
            None => None,
        }
    }

    /// Reads a value from JSON bytes; `None` if they are not JSON.
    pub fn parse_bytes(b: &[u8]) -> (r: Option<JsonValue>)
        ensures
            match parsed_bytes(b@) {
                Some(t) => r is Some && r->0@ == t && json::well_formed(t),
                None => r is None,
            },
    {
        match read_bytes(b) {
            Some(v) => Some(JsonValue::from_value(v)),
            None => None,
        }
    }

    /// The value as JSON text without whitespace, from which it can be read
    /// back.
    pub fn to_compact(&self) -> (r: String)
        ensures
            r@ == compact(self@),
            reads_back(self@) ==> parsed(r@) == Some(self@) && parsed_bytes(
                vstd::utf8::encode_utf8(r@),
            ) == Some(self@),
    {
        write_compact(&self.to_value())
    }

    /// The value as indented JSON text, from which it can be read back.
    pub fn to_pretty(&self) -> (r: String)
        ensures
            r@ == pretty(self@),
            reads_back(self@) ==> parsed(r@) == Some(self@),
    {
        write_pretty(&self.to_value())
    }
}

/// The values in the opposite order.
fn reversed(v: Vec<JsonValue>) -> (r: Vec<JsonValue>)
    ensures
        r@ == v@.reverse(),
{
    let ghost all = v@;
    let mut rest = v;
    let mut out: Vec<JsonValue> = Vec::new();
    while rest.len() > 0
        invariant
            rest@.len() + out@.len() == all.len(),
            rest@ == all.take(rest@.len() as int),
            forall|j: int| 0 <= j < out@.len() ==> #[trigger] out@[j] == all[all.len() - 1 - j],
        decreases rest.len(),
    {
        if let Some(item) = rest.pop() {
            out.push(item);
        }
    }
    proof {
        assert(out@ =~= all.reverse());
    }
    out
}

} // verus!
