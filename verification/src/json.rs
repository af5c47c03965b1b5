//! JSON values: a type of the library's own, its mathematical model
//! [`JsonTree`], and the exchange with `serde_json`.
use crate::text;
use crate::text::{chars_of, same_text};
use vstd::prelude::*;

verus! {

// ---------------------------------------------------------------------------
// The model
// ---------------------------------------------------------------------------

/// What a JSON number is: an integer of the range `i64::MIN ..= u64::MAX`, or
/// a finite double, given by the bits of its IEEE 754 encoding.
pub enum NumberView {
    Int(int),
    Double(u64),
}

/// What a JSON value is. The entries of an object stand in the order of their
/// keys.
pub enum JsonTree {
    Null,
    Bool(bool),
    Number(NumberView),
    Text(Seq<char>),
    Array(Seq<JsonTree>),
    Object(Seq<(Seq<char>, JsonTree)>),
}

/// The entries of an object.
pub type Entries = Seq<(Seq<char>, JsonTree)>;

/// The two encodings of zero.
pub open spec fn zero_bits(bits: u64) -> bool {
    bits == 0 || bits == 0x8000_0000_0000_0000
}

/// Equality of numbers: integers by value, doubles by value (so the two zeros
/// are equal), an integer never equal to a double.
pub open spec fn same_number(a: NumberView, b: NumberView) -> bool {
    match (a, b) {
        (NumberView::Int(x), NumberView::Int(y)) => x == y,
        (NumberView::Double(x), NumberView::Double(y)) => x == y || (zero_bits(x) && zero_bits(y)),
        _ => false,
    }
}

/// Equality of JSON values.
pub open spec fn same_json(a: JsonTree, b: JsonTree) -> bool
    decreases a,
{
    match (a, b) {
        (JsonTree::Null, JsonTree::Null) => true,
        (JsonTree::Bool(x), JsonTree::Bool(y)) => x == y,
        (JsonTree::Number(x), JsonTree::Number(y)) => same_number(x, y),
        (JsonTree::Text(x), JsonTree::Text(y)) => x == y,
        (JsonTree::Array(x), JsonTree::Array(y)) => {
            &&& x.len() == y.len()
            &&& forall|i: int| 0 <= i < x.len() ==> same_json(#[trigger] x[i], y[i])
        },
        (JsonTree::Object(x), JsonTree::Object(y)) => {
            &&& x.len() == y.len()
            &&& forall|i: int|
                0 <= i < x.len() ==> (#[trigger] x[i]).0 == y[i].0 && same_json(x[i].1, y[i].1)
        },
        _ => false,
    }
}

/// Every JSON value equals itself.
pub proof fn lemma_same_json_reflexive(a: JsonTree)
    ensures
        same_json(a, a),
    decreases a,
{
    match a {
        JsonTree::Array(x) => {
            assert forall|i: int| 0 <= i < x.len() implies same_json(#[trigger] x[i], x[i]) by {
                lemma_same_json_reflexive(x[i]);
            }
        },
        JsonTree::Object(x) => {
            assert forall|i: int| 0 <= i < x.len() implies same_json(
                (#[trigger] x[i]).1,
                x[i].1,
            ) by {
                lemma_same_json_reflexive(x[i].1);
            }
        },
        _ => {},
    }
}

/// Equality of JSON values goes both ways.
pub proof fn lemma_same_json_symmetric(a: JsonTree, b: JsonTree)
    ensures
        same_json(a, b) == same_json(b, a),
    decreases a,
{
    match (a, b) {
        (JsonTree::Array(x), JsonTree::Array(y)) => {
            if x.len() == y.len() {
                assert forall|i: int| 0 <= i < x.len() implies same_json(#[trigger] x[i], y[i])
                    == same_json(y[i], x[i]) by {
                    lemma_same_json_symmetric(x[i], y[i]);
                }
            }
            if same_json(a, b) {
                assert forall|i: int| 0 <= i < y.len() implies same_json(
                    #[trigger] y[i],
                    x[i],
                ) by {
                    assert(same_json(x[i], y[i]));
                }
            }
            if same_json(b, a) {
                assert forall|i: int| 0 <= i < x.len() implies same_json(
                    #[trigger] x[i],
                    y[i],
                ) by {
                    assert(same_json(y[i], x[i]));
                }
            }
        },
        (JsonTree::Object(x), JsonTree::Object(y)) => {
            if x.len() == y.len() {
                assert forall|i: int| 0 <= i < x.len() implies same_json(
                    (#[trigger] x[i]).1,
                    y[i].1,
                ) == same_json(y[i].1, x[i].1) by {
                    lemma_same_json_symmetric(x[i].1, y[i].1);
                }
            }
            if same_json(a, b) {
                assert forall|i: int| 0 <= i < y.len() implies (#[trigger] y[i]).0 == x[i].0
                    && same_json(y[i].1, x[i].1) by {
                    assert(x[i].0 == y[i].0);
                }
            }
            if same_json(b, a) {
                assert forall|i: int| 0 <= i < x.len() implies (#[trigger] x[i]).0 == y[i].0
                    && same_json(x[i].1, y[i].1) by {
                    assert(y[i].0 == x[i].0);
                }
            }
        },
        _ => {},
    }
}

/// The order of object keys: by code points, the shorter first.
pub open spec fn key_less(a: Seq<char>, b: Seq<char>) -> bool
    decreases a.len(),
{
    if b.len() == 0 {
        false
    } else if a.len() == 0 {
        true
    } else if a[0] != b[0] {
        a[0] < b[0]
    } else {
        key_less(a.skip(1), b.skip(1))
    }
}

/// Keys in strictly ascending order, hence pairwise different.
pub open spec fn ascending(es: Entries) -> bool {
    forall|i: int, j: int| 0 <= i < j < es.len() ==> key_less((#[trigger] es[i]).0, (#[trigger] es[j]).0)
}

/// A value whose objects all have ascending keys.
pub open spec fn well_formed(t: JsonTree) -> bool
    decreases t,
{
    match t {
        JsonTree::Array(x) => forall|i: int| 0 <= i < x.len() ==> well_formed(#[trigger] x[i]),
        JsonTree::Object(x) => {
            &&& ascending(x)
            &&& forall|i: int| 0 <= i < x.len() ==> well_formed((#[trigger] x[i]).1)
        },
        _ => true,
    }
}

/// The position of `key` among the entries, or their number if it is absent.
pub open spec fn key_index(es: Entries, key: Seq<char>) -> int
    decreases es.len(),
{
    if es.len() == 0 {
        0
    } else if es[0].0 == key {
        0
    } else {
        1 + key_index(es.skip(1), key)
    }
}

/// The value under `key`.
pub open spec fn value_at(es: Entries, key: Seq<char>) -> Option<JsonTree> {
    if key_index(es, key) < es.len() {
        Some(es[key_index(es, key)].1)
    } else {
        None
    }
}

/// The value under `key`, for objects; nothing for all else.
pub open spec fn member(t: JsonTree, key: Seq<char>) -> Option<JsonTree> {
    match t {
        JsonTree::Object(es) => value_at(es, key),
        _ => None,
    }
}

/// The entries with `value` put under `key`.
pub open spec fn entries_with(es: Entries, key: Seq<char>, value: JsonTree) -> Entries
    decreases es.len(),
{
    if es.len() == 0 {
        seq![(key, value)]
    } else if es[0].0 == key {
        es.update(0, (key, value))
    } else if key_less(key, es[0].0) {
        seq![(key, value)] + es
    } else {
        seq![es[0]] + entries_with(es.skip(1), key, value)
    }
}

/// What `key_index` says: the first position with that key.
pub proof fn lemma_key_index(es: Entries, key: Seq<char>)
    ensures
        0 <= key_index(es, key) <= es.len(),
        key_index(es, key) < es.len() ==> es[key_index(es, key)].0 == key,
        forall|i: int| 0 <= i < key_index(es, key) ==> (#[trigger] es[i]).0 != key,
    decreases es.len(),
{
    if es.len() > 0 && es[0].0 != key {
        lemma_key_index(es.skip(1), key);
        assert forall|i: int| 0 <= i < key_index(es, key) implies (#[trigger] es[i]).0 != key by {
            if i > 0 {
                assert(es.skip(1)[i - 1] == es[i]);
            }
        }
    }
}

/// No key comes before itself.
pub proof fn lemma_key_less_irreflexive(a: Seq<char>)
    ensures
        !key_less(a, a),
    decreases a.len(),
{
    if a.len() > 0 {
        lemma_key_less_irreflexive(a.skip(1));
    }
}

/// The order of keys is transitive.
pub proof fn lemma_key_less_transitive(a: Seq<char>, b: Seq<char>, c: Seq<char>)
    requires
        key_less(a, b),
        key_less(b, c),
    ensures
        key_less(a, c),
    decreases a.len(),
{
    if a.len() > 0 && a[0] == b[0] && b[0] == c[0] {
        lemma_key_less_transitive(a.skip(1), b.skip(1), c.skip(1));
    }
}

/// Of two different keys one comes first.
pub proof fn lemma_key_less_total(a: Seq<char>, b: Seq<char>)
    requires
        a != b,
    ensures
        key_less(a, b) || key_less(b, a),
    decreases a.len(),
{
    if a.len() > 0 && b.len() > 0 && a[0] == b[0] {
        if a.skip(1) == b.skip(1) {
            assert(a =~= seq![a[0]] + a.skip(1));
            assert(b =~= seq![b[0]] + b.skip(1));
        } else {
            lemma_key_less_total(a.skip(1), b.skip(1));
        }
    } else if a.len() == 0 && b.len() == 0 {
        assert(a =~= b);
    }
}

/// Ascending keys are pairwise different, so a key stands where it is found.
pub proof fn lemma_ascending_index(es: Entries, i: int)
    requires
        ascending(es),
        0 <= i < es.len(),
    ensures
        key_index(es, es[i].0) == i,
{
    let k = key_index(es, es[i].0);
    lemma_key_index(es, es[i].0);
    lemma_key_less_irreflexive(es[i].0);
    if k < i {
        assert(key_less(es[k].0, es[i].0));
    }
}

/// Putting a value under a key: it is found there, everything else is as
/// before, and the order of the keys is kept.
pub proof fn lemma_entries_with(es: Entries, key: Seq<char>, value: JsonTree)
    requires
        ascending(es),
    ensures
        ascending(entries_with(es, key, value)),
        value_at(entries_with(es, key, value), key) == Some(value),
        forall|other: Seq<char>|
            other != key ==> #[trigger] value_at(entries_with(es, key, value), other) == value_at(
                es,
                other,
            ),
        forall|i: int|
            0 <= i < entries_with(es, key, value).len() ==> (#[trigger] entries_with(
                es,
                key,
                value,
            )[i]).1 == value || es.contains(entries_with(es, key, value)[i]),
        forall|low: Seq<char>|
            (key_less(low, key) && forall|i: int|
                0 <= i < es.len() ==> key_less(low, (#[trigger] es[i]).0)) ==> forall|i: int|
                0 <= i < entries_with(es, key, value).len() ==> #[trigger] key_less(
                    low,
                    entries_with(es, key, value)[i].0,
                ),
    decreases es.len(),
{
    let out = entries_with(es, key, value);
    if es.len() == 0 {
        assert forall|other: Seq<char>| other != key implies #[trigger] value_at(out, other)
            == value_at(es, other) by {
            assert(out.skip(1) =~= es);
            assert(key_index(out.skip(1), other) == 0);
        }
    } else if es[0].0 == key {
        assert forall|other: Seq<char>| other != key implies #[trigger] value_at(out, other)
            == value_at(es, other) by {
            assert(out.skip(1) =~= es.skip(1));
            lemma_key_index(es, other);
            lemma_key_index(out, other);
        }
        assert forall|i: int, j: int| 0 <= i < j < out.len() implies key_less(
            (#[trigger] out[i]).0,
            (#[trigger] out[j]).0,
        ) by {
            assert(out[i].0 == es[i].0 && out[j].0 == es[j].0);
        }
        assert forall|i: int| 0 <= i < out.len() implies (#[trigger] out[i]).1 == value
            || es.contains(out[i]) by {
            if i > 0 {
                assert(out[i] == es[i]);
            }
        }
        assert forall|low: Seq<char>|
            (key_less(low, key) && forall|i: int|
                0 <= i < es.len() ==> key_less(low, (#[trigger] es[i]).0)) implies forall|i: int|
            0 <= i < out.len() ==> #[trigger] key_less(low, out[i].0) by {
            assert forall|i: int| 0 <= i < out.len() implies #[trigger] key_less(
                low,
                out[i].0,
            ) by {
                assert(out[i].0 == es[i].0);
            }
        }
    } else if key_less(key, es[0].0) {
        assert(out.skip(1) =~= es);
        assert forall|other: Seq<char>| other != key implies #[trigger] value_at(out, other)
            == value_at(es, other) by {
            lemma_key_index(es, other);
        }
        assert forall|i: int, j: int| 0 <= i < j < out.len() implies key_less(
            (#[trigger] out[i]).0,
            (#[trigger] out[j]).0,
        ) by {
            assert(out[j] == es[j - 1]);
            if i > 0 {
                assert(out[i] == es[i - 1]);
            } else if j > 1 {
                assert(key_less(es[0].0, es[j - 1].0));
                lemma_key_less_transitive(key, es[0].0, es[j - 1].0);
            }
        }
        assert forall|i: int| 0 <= i < out.len() implies (#[trigger] out[i]).1 == value
            || es.contains(out[i]) by {
            if i > 0 {
                assert(out[i] == es[i - 1]);
            }
        }
        assert forall|low: Seq<char>|
            (key_less(low, key) && forall|i: int|
                0 <= i < es.len() ==> key_less(low, (#[trigger] es[i]).0)) implies forall|i: int|
            0 <= i < out.len() ==> #[trigger] key_less(low, out[i].0) by {
            assert forall|i: int| 0 <= i < out.len() implies #[trigger] key_less(
                low,
                out[i].0,
            ) by {
                if i > 0 {
                    assert(out[i] == es[i - 1]);
                }
            }
        }
    } else {
        let rest = es.skip(1);
        let put = entries_with(rest, key, value);
        assert(ascending(rest)) by {
            assert forall|i: int, j: int| 0 <= i < j < rest.len() implies key_less(
                (#[trigger] rest[i]).0,
                (#[trigger] rest[j]).0,
            ) by {
                assert(rest[i] == es[i + 1] && rest[j] == es[j + 1]);
            }
        }
        lemma_entries_with(rest, key, value);
        lemma_key_less_total(key, es[0].0);
        assert(out.skip(1) =~= put);
        assert(forall|i: int| 0 <= i < rest.len() ==> #[trigger] rest[i] == es[i + 1]);
        assert forall|i: int| 0 <= i < rest.len() implies key_less(
            es[0].0,
            (#[trigger] rest[i]).0,
        ) by {
            assert(key_less(es[0].0, es[i + 1].0));
        }
        lemma_key_index(put, key);
        assert forall|other: Seq<char>| other != key implies #[trigger] value_at(out, other)
            == value_at(es, other) by {
            lemma_key_index(rest, other);
            lemma_key_index(put, other);
            assert(value_at(put, other) == value_at(rest, other));
        }
        assert forall|i: int, j: int| 0 <= i < j < out.len() implies key_less(
            (#[trigger] out[i]).0,
            (#[trigger] out[j]).0,
        ) by {
            assert(out[j] == put[j - 1]);
            if i > 0 {
                assert(out[i] == put[i - 1]);
            } else {
                assert(key_less(es[0].0, put[j - 1].0));
            }
        }
        assert forall|i: int| 0 <= i < out.len() implies (#[trigger] out[i]).1 == value
            || es.contains(out[i]) by {
            if i > 0 {
                assert(out[i] == put[i - 1]);
                if put[i - 1].1 != value {
                    let k = choose|k: int| 0 <= k < rest.len() && rest[k] == put[i - 1];
                    assert(es[k + 1] == out[i]);
                }
            }
        }
        assert forall|low: Seq<char>|
            (key_less(low, key) && forall|i: int|
                0 <= i < es.len() ==> key_less(low, (#[trigger] es[i]).0)) implies forall|i: int|
            0 <= i < out.len() ==> #[trigger] key_less(low, out[i].0) by {
            assert forall|i: int| 0 <= i < rest.len() implies key_less(
                low,
                (#[trigger] rest[i]).0,
            ) by {
                assert(rest[i] == es[i + 1]);
            }
            assert forall|i: int| 0 <= i < out.len() implies #[trigger] key_less(
                low,
                out[i].0,
            ) by {
                if i > 0 {
                    assert(out[i] == put[i - 1]);
                    assert(key_less(low, put[i - 1].0));
                }
            }
        }
    }
}

// ---------------------------------------------------------------------------
// Numbers
// ---------------------------------------------------------------------------

/// `serde_json::Number`, carried for the sake of its doubles.
#[verifier::external_type_specification]
#[verifier::external_body]
pub struct ExNumber(serde_json::Number);

/// The number that a `serde_json::Number` holds.
pub uninterp spec fn number_view(n: serde_json::Number) -> NumberView;

/// A number as an unsigned integer, where it is one.
pub open spec fn number_u64(n: NumberView) -> Option<u64> {
    match n {
        NumberView::Int(k) if 0 <= k <= u64::MAX => Some(k as u64),
        _ => None,
    }
}

/// A number as a signed integer, where it is one.
pub open spec fn number_i64(n: NumberView) -> Option<i64> {
    match n {
        NumberView::Int(k) if i64::MIN <= k <= i64::MAX => Some(k as i64),
        _ => None,
    }
}

/// `serde_json::Number::as_u64`: the number if it was stored as an integer of
/// that range; a double never is.
pub assume_specification[ serde_json::Number::as_u64 ](n: &serde_json::Number) -> (r: Option<u64>)
    ensures
        r == number_u64(number_view(*n)),
;

/// `serde_json::Number::as_i64`: the number if it was stored as an integer of
/// that range; a double never is.
pub assume_specification[ serde_json::Number::as_i64 ](n: &serde_json::Number) -> (r: Option<i64>)
    ensures
        r == number_i64(number_view(*n)),
;

/// `Number::from(u64)` holds the integer it was made from.
#[verifier::external_body]
fn number_from_u64(n: u64) -> (r: serde_json::Number)
    ensures
        number_view(r) == NumberView::Int(n as int),
{
    serde_json::Number::from(n)
}

/// `Number::from(i64)` holds the integer it was made from.
#[verifier::external_body]
fn number_from_i64(n: i64) -> (r: serde_json::Number)
    ensures
        number_view(r) == NumberView::Int(n as int),
{
    serde_json::Number::from(n)
}

/// `Number::clone` copies the number.
pub assume_specification[ <serde_json::Number as std::clone::Clone>::clone ](
    n: &serde_json::Number,
) -> (r: serde_json::Number)
    ensures
        number_view(r) == number_view(*n),
;

/// `Number::eq`: integers by value, doubles by IEEE 754 comparison (no stored
/// double is a NaN), an integer never equal to a double.
#[verifier::external_body]
fn number_eq(a: &serde_json::Number, b: &serde_json::Number) -> (r: bool)
    ensures
        r == same_number(number_view(*a), number_view(*b)),
{
    a == b
}

/// A JSON number. Integers are plain; a double stays in `serde_json`'s type.
#[derive(Debug, Clone, PartialEq)]
pub enum JsonNumber {
    PosInt(u64),
    NegInt(i64),
    Double(serde_json::Number),
}

impl View for JsonNumber {
    type V = NumberView;

    open spec fn view(&self) -> NumberView {
        match *self {
            JsonNumber::PosInt(n) => NumberView::Int(n as int),
            JsonNumber::NegInt(n) => NumberView::Int(n as int),
            JsonNumber::Double(n) => number_view(n),
        }
    }
}

impl JsonNumber {
    /// Takes a number over from `serde_json`.
    pub fn from_number(n: serde_json::Number) -> (r: JsonNumber)
        ensures
            r@ == number_view(n),
    {
        if let Some(u) = n.as_u64() {
            JsonNumber::PosInt(u)
        } else if let Some(i) = n.as_i64() {
            JsonNumber::NegInt(i)
        } else {
            JsonNumber::Double(n)
        }
    }

    /// Hands a number over to `serde_json`.
    pub fn to_number(&self) -> (r: serde_json::Number)
        ensures
            number_view(r) == self@,
    {
        match self {
            JsonNumber::PosInt(n) => number_from_u64(*n),
            JsonNumber::NegInt(n) => number_from_i64(*n),
            JsonNumber::Double(n) => n.clone(),
        }
    }

    /// The number as an unsigned integer, where it is one.
    pub fn as_u64(&self) -> (r: Option<u64>)
        ensures
            r == number_u64(self@),
    {
        match self {
            JsonNumber::PosInt(n) => Some(*n),
            JsonNumber::NegInt(n) => if *n >= 0 {
                Some(*n as u64)
            } else {
                None
            },
            JsonNumber::Double(n) => n.as_u64(),
        }
    }

    /// The number as a signed integer, where it is one.
    pub fn as_i64(&self) -> (r: Option<i64>)
        ensures
            r == number_i64(self@),
    {
        match self {
            JsonNumber::PosInt(n) => if *n <= i64::MAX as u64 {
                Some(*n as i64)
            } else {
                None
            },
            JsonNumber::NegInt(n) => Some(*n),
            JsonNumber::Double(n) => n.as_i64(),
        }
    }

    /// A copy of the number.
    pub fn duplicate(&self) -> (r: JsonNumber)
        ensures
            r@ == self@,
    {
        match self {
            JsonNumber::PosInt(n) => JsonNumber::PosInt(*n),
            JsonNumber::NegInt(n) => JsonNumber::NegInt(*n),
            JsonNumber::Double(n) => JsonNumber::Double(n.clone()),
        }
    }

    /// Whether two numbers are equal.
    pub fn same(&self, other: &JsonNumber) -> (r: bool)
        ensures
            r == same_number(self@, other@),
    {
        match (self, other) {
            (JsonNumber::PosInt(a), JsonNumber::PosInt(b)) => *a == *b,
            (JsonNumber::NegInt(a), JsonNumber::NegInt(b)) => *a == *b,
            _ => number_eq(&self.to_number(), &other.to_number()),
        }
    }
}

// ---------------------------------------------------------------------------
// Values
// ---------------------------------------------------------------------------

/// A JSON value.
#[derive(Debug, PartialEq)]
pub enum JsonValue {
    Null,
    Bool(bool),
    Number(JsonNumber),
    Text(String),
    Array(Vec<JsonValue>),
    Object(JsonMap),
}

/// The entries of an object, in the order of their keys.
#[derive(Debug, PartialEq)]
pub struct JsonMap {
    entries: Vec<(String, JsonValue)>,
}

/// The trees of a list of values.
pub open spec fn trees(v: Seq<JsonValue>) -> Seq<JsonTree> {
    Seq::new(v.len(), |i: int| v[i]@)
}

/// The model of a list of entries.
closed spec fn pairs_of(v: Seq<(String, JsonValue)>) -> Entries {
    Seq::new(v.len(), |i: int| (v[i].0@, v[i].1@))
}

impl JsonValue {
    /// The model of the value.
    pub closed spec fn tree(self) -> JsonTree
        decreases self,
    {
        match self {
            JsonValue::Null => JsonTree::Null,
            JsonValue::Bool(b) => JsonTree::Bool(b),
            JsonValue::Number(n) => JsonTree::Number(n@),
            JsonValue::Text(s) => JsonTree::Text(s@),
            JsonValue::Array(v) => JsonTree::Array(
                Seq::new(
                    v@.len(),
                    |i: int|
                        if 0 <= i < v@.len() {
                            v@[i].tree()
                        } else {
                            JsonTree::Null
                        },
                ),
            ),
            JsonValue::Object(m) => JsonTree::Object(m.pairs()),
        }
    }
}

impl JsonMap {
    /// The model of the entries.
    pub closed spec fn pairs(self) -> Entries
        decreases self,
    {
        Seq::new(
            self.entries@.len(),
            |i: int|
                if 0 <= i < self.entries@.len() {
                    (self.entries@[i].0@, self.entries@[i].1.tree())
                } else {
                    (Seq::empty(), JsonTree::Null)
                },
        )
    }
}

impl JsonMap {
    /// The keys ascend.
    #[verifier::type_invariant]
    pub open spec fn sorted(self) -> bool {
        ascending(self.pairs())
    }
}

impl View for JsonValue {
    type V = JsonTree;

    open spec fn view(&self) -> JsonTree {
        self.tree()
    }
}

impl View for JsonMap {
    type V = Entries;

    open spec fn view(&self) -> Entries {
        self.pairs()
    }
}

/// The model of each kind of value.
pub broadcast proof fn lemma_value_view(v: JsonValue)
    ensures
        #[trigger] v@ == (match v {
            JsonValue::Null => JsonTree::Null,
            JsonValue::Bool(b) => JsonTree::Bool(b),
            JsonValue::Number(n) => JsonTree::Number(n@),
            JsonValue::Text(s) => JsonTree::Text(s@),
            JsonValue::Array(a) => JsonTree::Array(trees(a@)),
            JsonValue::Object(m) => JsonTree::Object(m@),
        }),
{
    if let JsonValue::Array(a) = v {
        assert(v@->Array_0 =~= trees(a@));
    }
}

impl JsonMap {
    /// An object without entries.
    pub fn new() -> (r: JsonMap)
        ensures
            r@ == Seq::<(Seq<char>, JsonTree)>::empty(),
    {
        let r = JsonMap { entries: Vec::new() };
        proof {
            assert(r@ =~= Seq::<(Seq<char>, JsonTree)>::empty());
        }
        r
    }

    /// The number of entries.
    pub fn len(&self) -> (r: usize)
        ensures
            r == self@.len(),
    {
        self.entries.len()
    }

    /// The key of the entry at position `i`.
    pub fn key_at(&self, i: usize) -> (r: &String)
        requires
            i < self@.len(),
        ensures
            r@ == self@[i as int].0,
    {
        &self.entries[i].0
    }

    /// The value of the entry at position `i`.
    pub fn value_at(&self, i: usize) -> (r: &JsonValue)
        requires
            i < self@.len(),
        ensures
            r@ == self@[i as int].1,
    {
        &self.entries[i].1
    }

    /// The position of `key`, or the number of entries if it is absent.
    fn index_of(&self, key: &str) -> (r: usize)
        ensures
            r == key_index(self@, key@),
            r <= self@.len(),
    {
        let mut i: usize = 0;
        proof {
            assert(self@.skip(0) =~= self@);
        }
        while i < self.entries.len()
            invariant
                i <= self@.len(),
                self@.len() == self.entries@.len(),
                i + key_index(self@.skip(i as int), key@) == key_index(self@, key@),
            decreases self.entries.len() - i,
        {
            proof {
                assert(self@[i as int].0 == self.entries@[i as int].0@);
                assert(self@.skip(i as int).skip(1) =~= self@.skip(i + 1));
            }
            if same_text(self.entries[i].0.as_str(), key) {
                return i;
            }
            i = i + 1;
        }
        i
    }

    /// The value under `key`.
    pub fn get(&self, key: &str) -> (r: Option<&JsonValue>)
        ensures
            match value_at(self@, key@) {
                Some(t) => r is Some && r->0@ == t,
                None => r is None,
            },
    {
        let i: usize = self.index_of(key);
        proof {
            lemma_key_index(self@, key@);
        }
        if i < self.entries.len() {
            Some(&self.entries[i].1)
        } else {
            None
        }
    }

    /// Whether there is a value under `key`.
    pub fn contains_key(&self, key: &str) -> (r: bool)
        ensures
            r == (value_at(self@, key@) is Some),
    {
        self.index_of(key) < self.entries.len()
    }

    /// Puts `value` under `key`, in place of what was there.
    pub fn insert(&mut self, key: String, value: JsonValue)
        ensures
            final(self)@ == entries_with(old(self)@, key@, value@),
            well_formed(JsonTree::Object(old(self)@)) && well_formed(value@) ==> well_formed(
                JsonTree::Object(final(self)@),
            ),
    {
        let ghost before = self@;
        proof {
            use_type_invariant(&*self);
            lemma_entries_with(before, key@, value@);
        }
        let mut entries: Vec<(String, JsonValue)> = Vec::new();
        std::mem::swap(&mut entries, &mut self.entries);
        let mut i: usize = 0;
        proof {
            assert(pairs_of(entries@) =~= before);
            assert(before.skip(0) =~= before);
            assert(before.take(0) + entries_with(before, key@, value@) =~= entries_with(
                before,
                key@,
                value@,
            ));
            lemma_inserted_well_formed(before, key@, value@);
        }
        while i < entries.len()
            invariant
                pairs_of(entries@) == before,
                i <= pairs_of(entries@).len(),
                pairs_of(entries@).len() == entries@.len(),
                before.take(i as int) + entries_with(before.skip(i as int), key@, value@)
                    == entries_with(before, key@, value@),
            ensures
                pairs_of(entries@) == before,
                i <= pairs_of(entries@).len(),
                pairs_of(entries@).len() == entries@.len(),
                before.take(i as int) + entries_with(before.skip(i as int), key@, value@)
                    == entries_with(before, key@, value@),
                i < pairs_of(entries@).len() ==> pairs_of(entries@)[i as int].0 == key@ || key_less(key@, pairs_of(entries@)[i as int].0),
            decreases entries.len() - i,
        {
            proof {
                assert(pairs_of(entries@)[i as int].0 == entries@[i as int].0@);
            }
            if same_text(entries[i].0.as_str(), key.as_str()) || key_before(
                key.as_str(),
                entries[i].0.as_str(),
            ) {
                break ;
            }
            proof {
                let rest = before.skip(i as int);
                assert(rest.skip(1) =~= before.skip(i + 1));
                assert(before.take(i as int) + (seq![rest[0]] + entries_with(
                    before.skip(i + 1),
                    key@,
                    value@,
                )) =~= before.take(i + 1) + entries_with(before.skip(i + 1), key@, value@));
            }
            i = i + 1;
        }
        let ghost k = key@;
        let ghost t = value@;
        if i < entries.len() && same_text(entries[i].0.as_str(), key.as_str()) {
            entries.set(i, (key, value));
            proof {
                assert(pairs_of(entries@) =~= before.update(i as int, (k, t)));
                assert(before.update(i as int, (k, t)) =~= before.take(i as int) + before.skip(
                    i as int,
                ).update(0, (k, t)));
            }
        } else {
            entries.insert(i, (key, value));
            proof {
                assert(pairs_of(entries@) =~= before.insert(i as int, (k, t)));
                if i < before.len() {
                    assert(before.insert(i as int, (k, t)) =~= before.take(i as int) + (seq![(k, t)]
                        + before.skip(i as int)));
                } else {
                    assert(before.insert(i as int, (k, t)) =~= before.take(i as int) + seq![(k, t)]);
                }
            }
        }
        proof {
            assert(JsonMap { entries }.pairs() =~= pairs_of(entries@));
        }
        self.entries = entries;
    }

    /// A copy of the entries. Going through them shows that they are well
    /// formed.
    pub fn duplicate(&self) -> (r: JsonMap)
        ensures
            r@ == self@,
            well_formed(JsonTree::Object(self@)),
        decreases JsonTree::Object(self@), 0int,
    {
        let mut out: Vec<(String, JsonValue)> = Vec::new();
        let mut i: usize = 0;
        while i < self.entries.len()
            invariant
                i <= self.entries@.len(),
                self@.len() == self.entries@.len(),
                out@.len() == i,
                forall|j: int|
                    0 <= j < i ==> (#[trigger] out@[j]).0@ == self@[j].0 && out@[j].1@ == self@[j].1,
                forall|j: int| 0 <= j < i ==> well_formed((#[trigger] self@[j]).1),
            decreases self.entries.len() - i,
        {
            proof {
                assert(self@[i as int] == (
                    self.entries@[i as int].0@,
                    self.entries@[i as int].1@,
                ));
                lemma_entry_decreases(self@, i as int);
            }
            let value = self.entries[i].1.duplicate();
            out.push((self.entries[i].0.clone(), value));
            i = i + 1;
        }
        proof {
            use_type_invariant(self);
            assert(JsonMap { entries: out }.pairs() =~= self.pairs());
        }
        JsonMap { entries: out }
    }

    /// Whether two objects are equal.
    pub fn same(&self, other: &JsonMap) -> (r: bool)
        ensures
            r == same_json(JsonTree::Object(self@), JsonTree::Object(other@)),
        decreases JsonTree::Object(self@), 0int,
    {
        if self.entries.len() != other.entries.len() {
            return false;
        }
        let mut i: usize = 0;
        while i < self.entries.len()
            invariant
                i <= self.entries@.len() == other.entries@.len(),
                self@.len() == self.entries@.len(),
                other@.len() == other.entries@.len(),
                forall|j: int|
                    0 <= j < i ==> (#[trigger] self@[j]).0 == other@[j].0 && same_json(
                        self@[j].1,
                        other@[j].1,
                    ),
            decreases self.entries.len() - i,
        {
            proof {
                assert(self@[i as int] == (
                    self.entries@[i as int].0@,
                    self.entries@[i as int].1@,
                ));
                lemma_entry_decreases(self@, i as int);
                assert(other@[i as int] == (
                    other.entries@[i as int].0@,
                    other.entries@[i as int].1@,
                ));
            }
            if !same_text(self.entries[i].0.as_str(), other.entries[i].0.as_str())
                || !self.entries[i].1.same(&other.entries[i].1) {
                return false;
            }
            i = i + 1;
        }
        true
    }
}

/// An element is smaller than its array.
pub proof fn lemma_element_decreases(v: Seq<JsonTree>, i: int)
    requires
        0 <= i < v.len(),
    ensures
        decreases_to!(JsonTree::Array(v) => v[i]),
{
    let whole = JsonTree::Array(v);
    assert(decreases_to!(whole => whole->Array_0));
    assert(decreases_to!(v => v[i]));
}

/// An entry's value is smaller than the object.
pub proof fn lemma_entry_decreases(es: Entries, i: int)
    requires
        0 <= i < es.len(),
    ensures
        decreases_to!(JsonTree::Object(es) => es[i].1),
{
    let whole = JsonTree::Object(es);
    assert(decreases_to!(whole => whole->Object_0));
    assert(decreases_to!(es => es[i]));
    assert(decreases_to!(es[i] => es[i].1));
}

/// Whether `a` comes before `b` in the order of keys.
fn key_before(a: &str, b: &str) -> (r: bool)
    ensures
        r == key_less(a@, b@),
{
    let x = chars_of(a);
    let y = chars_of(b);
    let mut i: usize = 0;
    proof {
        assert(a@.skip(0) =~= a@);
        assert(b@.skip(0) =~= b@);
    }
    while i < x.len() && i < y.len()
        invariant
            x@ == a@,
            y@ == b@,
            i <= x@.len(),
            i <= y@.len(),
            key_less(a@.skip(i as int), b@.skip(i as int)) == key_less(a@, b@),
        decreases x.len() - i,
    {
        if x[i] != y[i] {
            return x[i] < y[i];
        }
        proof {
            assert(a@.skip(i as int).skip(1) =~= a@.skip(i + 1));
            assert(b@.skip(i as int).skip(1) =~= b@.skip(i + 1));
        }
        i = i + 1;
    }
    i < y.len()
}

/// Putting a well-formed value into a well-formed object keeps it so.
proof fn lemma_inserted_well_formed(es: Entries, key: Seq<char>, value: JsonTree)
    ensures
        well_formed(JsonTree::Object(es)) && well_formed(value) ==> well_formed(
            JsonTree::Object(entries_with(es, key, value)),
        ),
{
    if well_formed(JsonTree::Object(es)) && well_formed(value) {
        lemma_entries_with(es, key, value);
        let out = entries_with(es, key, value);
        assert forall|i: int| 0 <= i < out.len() implies well_formed((#[trigger] out[i]).1) by {
            if out[i].1 != value {
                let k = choose|k: int| 0 <= k < es.len() && es[k] == out[i];
                assert(well_formed(es[k].1));
            }
        }
    }
}

impl JsonValue {
    /// A text value.
    pub fn text(s: &str) -> (r: JsonValue)
        ensures
            r@ == JsonTree::Text(s@),
    {
        broadcast use lemma_value_view;

        JsonValue::Text(s.to_owned())
    }

    /// An unsigned integer.
    pub fn unsigned(n: u64) -> (r: JsonValue)
        ensures
            r@ == JsonTree::Number(NumberView::Int(n as int)),
    {
        broadcast use lemma_value_view;

        JsonValue::Number(JsonNumber::PosInt(n))
    }

    /// A signed integer.
    pub fn signed(n: i64) -> (r: JsonValue)
        ensures
            r@ == JsonTree::Number(NumberView::Int(n as int)),
    {
        broadcast use lemma_value_view;

        if n >= 0 {
            JsonValue::Number(JsonNumber::PosInt(n as u64))
        } else {
            JsonValue::Number(JsonNumber::NegInt(n))
        }
    }

    /// Whether the value is `null`.
    pub fn is_null(&self) -> (r: bool)
        ensures
            r == (self@ is Null),
    {
        broadcast use lemma_value_view;

        matches!(self, JsonValue::Null)
    }

    /// The text of a text value.
    pub fn as_str(&self) -> (r: Option<&str>)
        ensures
            match self@ {
                JsonTree::Text(t) => r is Some && r->0@ == t,
                _ => r is None,
            },
    {
        broadcast use lemma_value_view;

        match self {
            JsonValue::Text(s) => Some(s.as_str()),
            _ => None,
        }
    }

    /// The truth value of a boolean.
    pub fn as_bool(&self) -> (r: Option<bool>)
        ensures
            r == (match self@ {
                JsonTree::Bool(b) => Some(b),
                _ => None,
            }),
    {
        broadcast use lemma_value_view;

        match self {
            JsonValue::Bool(b) => Some(*b),
            _ => None,
        }
    }

    /// The value as an unsigned integer, where it is one.
    pub fn as_u64(&self) -> (r: Option<u64>)
        ensures
            r == tree_u64(self@),
    {
        broadcast use lemma_value_view;

        match self {
            JsonValue::Number(n) => n.as_u64(),
            _ => None,
        }
    }

    /// The value as a signed integer, where it is one.
    pub fn as_i64(&self) -> (r: Option<i64>)
        ensures
            r == tree_i64(self@),
    {
        broadcast use lemma_value_view;

        match self {
            JsonValue::Number(n) => n.as_i64(),
            _ => None,
        }
    }

    /// The value under `key`, for objects.
    pub fn get(&self, key: &str) -> (r: Option<&JsonValue>)
        ensures
            match member(self@, key@) {
                Some(t) => r is Some && r->0@ == t,
                None => r is None,
            },
    {
        broadcast use lemma_value_view;

        match self {
            JsonValue::Object(m) => m.get(key),
            _ => None,
        }
    }

    /// A copy of the value. Going through it shows that it is well formed, as
    /// every value is.
    pub fn duplicate(&self) -> (r: JsonValue)
        ensures
            r@ == self@,
            well_formed(self@),
        decreases self@, 1int,
    {
        broadcast use lemma_value_view;

        match self {
            JsonValue::Null => JsonValue::Null,
            JsonValue::Bool(b) => JsonValue::Bool(*b),
            JsonValue::Number(n) => JsonValue::Number(n.duplicate()),
            JsonValue::Text(s) => JsonValue::Text(s.clone()),
            JsonValue::Array(v) => {
                let mut out: Vec<JsonValue> = Vec::new();
                let mut i: usize = 0;
                while i < v.len()
                    invariant
                        *self == JsonValue::Array(*v),
                        i <= v@.len(),
                        trees(out@) == trees(v@).take(i as int),
                        forall|j: int| 0 <= j < i ==> well_formed(#[trigger] trees(v@)[j]),
                    decreases v.len() - i,
                {
                    proof {
                        assert(self@->Array_0[i as int] == v@[i as int]@);
                        assert(decreases_to!(self@ => self@->Array_0[i as int]));
                    }
                    let ghost done = out@;
                    out.push(v[i].duplicate());
                    proof {
                        assert(trees(out@) =~= trees(done).push(v@[i as int]@));
                        assert(trees(v@).take(i + 1) =~= trees(v@).take(i as int).push(
                            trees(v@)[i as int],
                        ));
                    }
                    i = i + 1;
                }
                proof {
                    assert(trees(v@).take(i as int) =~= trees(v@));
                }
                JsonValue::Array(out)
            },
            JsonValue::Object(m) => JsonValue::Object(m.duplicate()),
        }
    }

    /// Whether two values are equal.
    pub fn same(&self, other: &JsonValue) -> (r: bool)
        ensures
            r == same_json(self@, other@),
        decreases self@, 1int,
    {
        broadcast use lemma_value_view;

        match (self, other) {
            (JsonValue::Null, JsonValue::Null) => true,
            (JsonValue::Bool(a), JsonValue::Bool(b)) => *a == *b,
            (JsonValue::Number(a), JsonValue::Number(b)) => a.same(b),
            (JsonValue::Text(a), JsonValue::Text(b)) => *a == *b,
            (JsonValue::Array(a), JsonValue::Array(b)) => {
                if a.len() != b.len() {
                    return false;
                }
                let mut i: usize = 0;
                while i < a.len()
                    invariant
                        *self == JsonValue::Array(*a),
                        *other == JsonValue::Array(*b),
                        i <= a@.len() == b@.len(),
                        forall|j: int|
                            0 <= j < i ==> same_json(#[trigger] trees(a@)[j], trees(b@)[j]),
                    decreases a.len() - i,
                {
                    proof {
                        assert(self@->Array_0[i as int] == a@[i as int]@);
                        assert(decreases_to!(self@ => self@->Array_0[i as int]));
                        assert(trees(a@)[i as int] == a@[i as int]@);
                    }
                    if !a[i].same(&b[i]) {
                        return false;
                    }
                    i = i + 1;
                }
                true
            },
            (JsonValue::Object(a), JsonValue::Object(b)) => a.same(b),
            _ => false,
        }
    }
}

/// A value as an unsigned integer, where it is one.
pub open spec fn tree_u64(t: JsonTree) -> Option<u64> {
    match t {
        JsonTree::Number(n) => number_u64(n),
        _ => None,
    }
}

/// A value as a signed integer, where it is one.
pub open spec fn tree_i64(t: JsonTree) -> Option<i64> {
    match t {
        JsonTree::Number(n) => number_i64(n),
        _ => None,
    }
}

impl Clone for JsonValue {
    fn clone(&self) -> (r: JsonValue)
        ensures
            r@ == self@,
    {
        self.duplicate()
    }
}

impl Clone for JsonMap {
    fn clone(&self) -> (r: JsonMap)
        ensures
            r@ == self@,
    {
        self.duplicate()
    }
}

/// The entries of an object with the given fields; of fields with one key the
/// last counts.
pub open spec fn entries_of(fields: Entries) -> Entries
    decreases fields.len(),
{
    if fields.len() == 0 {
        Seq::empty()
    } else {
        entries_with(entries_of(fields.drop_last()), fields.last().0, fields.last().1)
    }
}

/// The object with the given fields.
pub open spec fn object_of(fields: Entries) -> JsonTree {
    JsonTree::Object(entries_of(fields))
}

/// The model of a list of fields.
pub open spec fn field_views(fields: Seq<(&str, JsonValue)>) -> Entries {
    Seq::new(fields.len(), |i: int| (fields[i].0@, fields[i].1@))
}

/// The object with the given fields.
pub fn object(fields: Vec<(&str, JsonValue)>) -> (r: JsonValue)
    ensures
        r@ == object_of(field_views(fields@)),
{
    broadcast use lemma_value_view;

    let ghost all = field_views(fields@);
    let mut rest = fields;
    let mut out = JsonMap::new();
    let ghost mut done: int = 0;
    proof {
        assert(all.take(0) =~= Seq::<(Seq<char>, JsonTree)>::empty());
        assert(all.skip(0) =~= all);
    }
    while rest.len() > 0
        invariant
            0 <= done <= all.len(),
            field_views(rest@) == all.skip(done),
            out@ == entries_of(all.take(done)),
        decreases rest.len(),
    {
        let ghost before = field_views(rest@);
        let (key, value) = rest.remove(0);
        proof {
            assert(before[0] == (key@, value@));
            assert(before == all.skip(done) && before.len() > 0);
            assert(before[0] == all[done]);
            assert(field_views(rest@) =~= before.skip(1));
            assert(before.skip(1) =~= all.skip(done + 1));
            assert(all.take(done + 1).drop_last() =~= all.take(done));
        }
        out.insert(key.to_owned(), value);
        proof {
            done = done + 1;
        }
    }
    proof {
        assert(all.take(done) =~= all);
    }
    JsonValue::Object(out)
}

/// What stands under a key of an object: the value of the last field with that
/// key.
pub proof fn lemma_field_of_object(fields: Entries, key: Seq<char>)
    ensures
        ascending(entries_of(fields)),
        fields.len() > 0 && fields.last().0 == key ==> member(object_of(fields), key) == Some(
            fields.last().1,
        ),
        fields.len() > 0 && fields.last().0 != key ==> member(object_of(fields), key) == member(
            object_of(fields.drop_last()),
            key,
        ),
        fields.len() == 0 ==> member(object_of(fields), key) is None,
    decreases fields.len(),
{
    if fields.len() > 0 {
        lemma_field_of_object(fields.drop_last(), key);
        lemma_entries_with(entries_of(fields.drop_last()), fields.last().0, fields.last().1);
    }
}

/// Of an object with different keys every field is found again, and nothing
/// else.
pub proof fn lemma_fields_are_found(fields: Entries, i: int, other: Seq<char>)
    requires
        0 <= i < fields.len(),
        forall|a: int, b: int|
            0 <= a < b < fields.len() ==> (#[trigger] fields[a]).0 != (#[trigger] fields[b]).0,
        forall|a: int| 0 <= a < fields.len() ==> (#[trigger] fields[a]).0 != other,
    ensures
        member(object_of(fields), fields[i].0) == Some(fields[i].1),
        member(object_of(fields), other) is None,
    decreases fields.len(),
{
    let front = fields.drop_last();
    lemma_field_of_object(fields, fields[i].0);
    lemma_field_of_object(fields, other);
    assert(fields[fields.len() - 1].0 != other);
    assert forall|a: int, b: int| 0 <= a < b < front.len() implies (#[trigger] front[a]).0 != (
    #[trigger] front[b]).0 by {
        assert(fields[a].0 != fields[b].0);
    }
    assert forall|a: int| 0 <= a < front.len() implies (#[trigger] front[a]).0 != other by {
        assert(fields[a].0 != other);
    }
    if front.len() == 0 {
        lemma_field_of_object(front, other);
    } else if i < front.len() {
        assert(fields[i].0 != fields[fields.len() - 1].0);
        lemma_fields_are_found(front, i, other);
        assert(front[i] == fields[i]);
    } else {
        lemma_fields_are_found(front, 0, other);
    }
}

/// A key comes before another exactly if, at the first place where they
/// differ, its character is the smaller one or it has ended.
pub proof fn lemma_key_order(p: Seq<char>, a: Seq<char>, b: Seq<char>)
    ensures
        key_less(p + a, p + b) == key_less(a, b),
        a.len() > 0 && b.len() > 0 && a[0] < b[0] ==> key_less(p + a, p + b) && !key_less(
            p + b,
            p + a,
        ),
        a.len() == 0 && b.len() > 0 ==> key_less(p + a, p + b) && !key_less(p + b, p + a),
    decreases p.len(),
{
    if p.len() == 0 {
        assert(p + a =~= a);
        assert(p + b =~= b);
    } else {
        let q = p.skip(1);
        assert((p + a).skip(1) =~= q + a);
        assert((p + b).skip(1) =~= q + b);
        lemma_key_order(q, a, b);
    }
}

/// Equal objects have the same keys, and equal values under each of them.
pub proof fn lemma_equal_objects(a: Entries, b: Entries, key: Seq<char>)
    requires
        same_json(JsonTree::Object(a), JsonTree::Object(b)),
    ensures
        match (value_at(a, key), value_at(b, key)) {
            (Some(x), Some(y)) => same_json(x, y),
            (None, None) => true,
            _ => false,
        },
{
    lemma_key_index(a, key);
    lemma_key_index(b, key);
    let i = key_index(a, key);
    let j = key_index(b, key);
    if i < a.len() {
        assert(a[i].0 == b[i].0);
    }
    if j < b.len() {
        assert(a[j].0 == b[j].0);
    }
}

/// Arrays are equal exactly if they have the same length and equal elements.
pub proof fn lemma_equal_arrays(a: Seq<JsonTree>, b: Seq<JsonTree>, x: JsonTree, y: JsonTree)
    requires
        a.len() == b.len(),
        forall|i: int| 0 <= i < a.len() ==> same_json(#[trigger] a[i], b[i]),
    ensures
        same_json(JsonTree::Array(a), JsonTree::Array(b)),
        same_json(x, y) <==> same_json(JsonTree::Array(a.push(x)), JsonTree::Array(b.push(y))),
        !same_json(JsonTree::Array(a.push(x)), JsonTree::Array(b)),
{
    let p = a.push(x);
    let q = b.push(y);
    if same_json(x, y) {
        assert forall|i: int| 0 <= i < p.len() implies same_json(#[trigger] p[i], q[i]) by {
            if i < a.len() {
                assert(p[i] == a[i] && q[i] == b[i]);
                assert(same_json(a[i], b[i]));
            }
        }
    }
    if same_json(JsonTree::Array(p), JsonTree::Array(q)) {
        assert(same_json(p[a.len() as int], q[a.len() as int]));
    }
}

/// An integer is read back in each range that holds it, and only there; a
/// double, a text and every other value is no integer.
pub proof fn lemma_integers(n: int, bits: u64, s: Seq<char>)
    ensures
        0 <= n <= u64::MAX ==> (tree_u64(JsonTree::Number(NumberView::Int(n))) matches Some(k) && k
            == n),
        n < 0 || n > u64::MAX ==> tree_u64(JsonTree::Number(NumberView::Int(n))) is None,
        i64::MIN <= n <= i64::MAX ==> (tree_i64(JsonTree::Number(NumberView::Int(n))) matches Some(
            k,
        ) && k == n),
        n < i64::MIN || n > i64::MAX ==> tree_i64(JsonTree::Number(NumberView::Int(n))) is None,
        tree_u64(JsonTree::Number(NumberView::Double(bits))) is None,
        tree_i64(JsonTree::Number(NumberView::Double(bits))) is None,
        tree_u64(JsonTree::Text(s)) is None,
        tree_u64(JsonTree::Null) is None,
{
}

} // verus!
