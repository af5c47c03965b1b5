use ditto_replay::json::{object, JsonMap, JsonNumber, JsonValue};

fn j(s: &str) -> JsonValue {
    JsonValue::parse(s).expect("JSON")
}

#[test]
fn text_is_read_and_written() {
    let v = j(r#" { "b" : [1, -2, 2.5, null, true], "a" : "x" } "#);
    assert_eq!(v.to_compact(), r#"{"a":"x","b":[1,-2,2.5,null,true]}"#);
    assert_eq!(v.to_pretty(), "{\n  \"a\": \"x\",\n  \"b\": [\n    1,\n    -2,\n    2.5,\n    null,\n    true\n  ]\n}");
    assert!(JsonValue::parse("{").is_none());
    assert!(JsonValue::parse("").is_none());
}

#[test]
fn bytes_are_read() {
    assert_eq!(JsonValue::parse_bytes(b"[1]"), Some(j("[1]")));
    assert_eq!(JsonValue::parse_bytes(b"\xff"), None);
    assert_eq!(JsonValue::parse_bytes(b""), None);
}

#[test]
fn the_last_of_equal_keys_counts() {
    assert_eq!(j(r#"{"a":1,"a":2}"#), j(r#"{"a":2}"#));
}

#[test]
fn members_are_found() {
    let v = j(r#"{"x":{"y":[1]},"n":18446744073709551615,"m":-5,"f":1.5,"t":true}"#);
    assert!(v.get("x").is_some());
    assert!(v.get("z").is_none());
    assert!(j("[1]").get("x").is_none());
    assert_eq!(v.get("n").unwrap().as_u64(), Some(u64::MAX));
    assert_eq!(v.get("n").unwrap().as_i64(), None);
    assert_eq!(v.get("m").unwrap().as_i64(), Some(-5));
    assert_eq!(v.get("m").unwrap().as_u64(), None);
    assert_eq!(v.get("f").unwrap().as_u64(), None);
    assert_eq!(v.get("f").unwrap().as_i64(), None);
    assert_eq!(v.get("t").unwrap().as_bool(), Some(true));
    assert_eq!(v.get("t").unwrap().as_str(), None);
}

#[test]
fn numbers_are_compared_by_value() {
    assert!(j("1").same(&j("1")));
    assert!(!j("1").same(&j("1.0")));
    assert!(j("1.50").same(&j("15e-1")));
    assert!(j("0.0").same(&j("-0.0")));
    assert!(!j("-1").same(&j("1")));
    assert_ne!(j("0.0").to_compact(), j("-0.0").to_compact());
}

#[test]
fn values_are_compared_by_structure() {
    let a = j(r#"{"a":[1,{"b":null}],"c":"x"}"#);
    assert!(a.same(&a.duplicate()));
    assert!(a.same(&j(r#"{"c":"x","a":[1,{"b":null}]}"#)));
    assert!(!a.same(&j(r#"{"a":[1,{"b":0}],"c":"x"}"#)));
    assert!(!a.same(&j(r#"{"a":[1],"c":"x"}"#)));
    assert!(!j("[]").same(&j("{}")));
    assert!(!j("null").same(&j("false")));
}

#[test]
fn maps_keep_their_keys_in_order() {
    let mut m = JsonMap::new();
    m.insert("b".to_string(), j("1"));
    m.insert("a".to_string(), j("2"));
    m.insert("c".to_string(), j("3"));
    m.insert("b".to_string(), j("4"));
    assert_eq!(m.len(), 3);
    assert_eq!(m.key_at(0), "a");
    assert_eq!(m.key_at(1), "b");
    assert_eq!(m.key_at(2), "c");
    assert_eq!(m.get("b").unwrap().as_u64(), Some(4));
    assert!(m.contains_key("c"));
    assert!(!m.contains_key("d"));
    assert_eq!(JsonValue::Object(m).to_compact(), r#"{"a":2,"b":4,"c":3}"#);
}

#[test]
fn objects_are_built_from_fields() {
    let v = object(vec![
        ("z", JsonValue::unsigned(1)),
        ("a", JsonValue::signed(-1)),
        ("z", JsonValue::text("last")),
    ]);
    assert_eq!(v.to_compact(), r#"{"a":-1,"z":"last"}"#);
}

#[test]
fn numbers_cross_over_unchanged() {
    for s in ["0", "7", "-7", "18446744073709551615", "-9223372036854775808", "1e300", "2.25"] {
        let v = j(s);
        let back = JsonValue::from_value(v.to_value());
        assert_eq!(v, back);
        if let JsonValue::Number(n) = &v {
            let again = JsonNumber::from_number(n.to_number());
            assert!(again.same(n));
        } else {
            panic!("a number");
        }
    }
}

#[test]
fn values_are_read_back_from_their_text() {
    let mut deep = "0".to_string();
    for _ in 0..127 {
        deep = format!("[{deep}]");
    }
    for text in [deep.as_str(), r#"{"":[],"k":{"a":-1,"b":"\\\n\u001f"}}"#, "null", "\"x\""] {
        let v = j(text);
        assert_eq!(JsonValue::parse(&v.to_compact()).as_ref(), Some(&v));
        assert_eq!(JsonValue::parse_bytes(v.to_compact().as_bytes()).as_ref(), Some(&v));
        assert_eq!(JsonValue::parse(&v.to_pretty()).as_ref(), Some(&v));
    }
    // One level more is written, but not read.
    let more = JsonValue::Array(vec![j(&deep)]);
    assert!(JsonValue::parse(&more.to_compact()).is_none());
}
