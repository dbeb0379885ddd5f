use yuml_ddt::path::get_json_field;
use yuml_ddt::json::{is_empty, json_equals, json_value_to_string, write_json, JsonValue};

fn s(t: &str) -> JsonValue {
    JsonValue::Str(t.to_string())
}

fn n(t: &str) -> JsonValue {
    JsonValue::Number(t.to_string())
}

fn obj(entries: Vec<(&str, JsonValue)>) -> JsonValue {
    JsonValue::Object(entries.into_iter().map(|(k, v)| (k.to_string(), v)).collect())
}

#[test]
fn not_empty_rules() {
    assert!(is_empty(&s("")));
    assert!(is_empty(&JsonValue::Array(vec![])));
    assert!(is_empty(&obj(vec![])));
    assert!(is_empty(&JsonValue::Null));
    assert!(!is_empty(&n("0")));
    assert!(!is_empty(&JsonValue::Bool(false)));
    assert!(!is_empty(&s("x")));
}

#[test]
fn equals_is_structural() {
    let a = obj(vec![("a", n("1")), ("b", n("2"))]);
    let b = obj(vec![("b", n("2")), ("a", n("1"))]);
    assert!(json_equals(&a, &a));
    assert!(json_equals(&a, &b));
    let one = obj(vec![("a", n("1"))]);
    let text_one = obj(vec![("a", s("1"))]);
    assert!(json_equals(&one, &obj(vec![("a", n("1"))])));
    assert!(!json_equals(&one, &text_one));
    assert!(!json_equals(&one, &a));
    assert!(json_equals(&JsonValue::Array(vec![n("1"), s("x")]), &JsonValue::Array(vec![n("1"), s("x")])));
    assert!(!json_equals(&JsonValue::Array(vec![n("1"), s("x")]), &JsonValue::Array(vec![s("x"), n("1")])));
    assert!(!json_equals(&JsonValue::Null, &JsonValue::Bool(false)));
}

#[test]
fn equals_compares_effective_entries_both_ways() {
    let dup = obj(vec![("x", n("1")), ("x", n("1"))]);
    let two = obj(vec![("x", n("1")), ("y", n("2"))]);
    assert!(!json_equals(&dup, &two));
    assert!(!json_equals(&two, &dup));
    let shadow = obj(vec![("x", n("9")), ("x", n("1"))]);
    assert!(json_equals(&shadow, &obj(vec![("x", n("1"))])));
    assert!(json_equals(&obj(vec![("x", n("1"))]), &shadow));
}

#[test]
fn renders_scalars_and_composites() {
    assert_eq!(json_value_to_string(&s("plain")), "plain");
    assert_eq!(json_value_to_string(&n("42")), "42");
    assert_eq!(json_value_to_string(&n("-1.5")), "-1.5");
    assert_eq!(json_value_to_string(&JsonValue::Bool(true)), "true");
    assert_eq!(json_value_to_string(&JsonValue::Bool(false)), "false");
    assert_eq!(json_value_to_string(&JsonValue::Null), "null");
    let v = obj(vec![("a", JsonValue::Array(vec![n("1"), s("x"), JsonValue::Null])), ("b", obj(vec![]))]);
    assert_eq!(json_value_to_string(&v), r#"{"a":[1,"x",null],"b":{}}"#);
    assert_eq!(json_value_to_string(&JsonValue::Array(vec![])), "[]");
}

#[test]
fn escapes_strings_in_text() {
    let v = JsonValue::Array(vec![s("q\"b\\n\nt\tc\u{1}é")]);
    assert_eq!(json_value_to_string(&v), "[\"q\\\"b\\\\n\\nt\\tc\\u0001é\"]");
    let mut out: Vec<char> = vec!['>'];
    write_json(&mut out, &s("\u{8}\u{c}\r\u{1f}"));
    let text: String = out.iter().collect();
    assert_eq!(text, ">\"\\b\\f\\r\\u001f\"");
}

#[test]
fn dotted_field_lookup() {
    let v = obj(vec![("user", obj(vec![("name", s("ann")), ("tags", JsonValue::Array(vec![]))]))]);
    match get_json_field(&v, "user.name") {
        Some(JsonValue::Str(t)) => assert_eq!(t, "ann"),
        other => panic!("unexpected {:?}", other),
    }
    assert!(get_json_field(&v, "user.age").is_none());
    assert!(get_json_field(&v, "user.name.first").is_none());
    assert!(get_json_field(&v, "missing").is_none());
    assert!(matches!(get_json_field(&v, "user.tags"), Some(JsonValue::Array(_))));
}

#[test]
fn later_object_entry_shadows_earlier() {
    let v = obj(vec![("k", n("1")), ("k", n("2"))]);
    match get_json_field(&v, "k") {
        Some(JsonValue::Number(t)) => assert_eq!(t, "2"),
        other => panic!("unexpected {:?}", other),
    }
}
