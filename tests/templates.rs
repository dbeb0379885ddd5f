use yuml_ddt::json::JsonValue;
use yuml_ddt::template::{lookup_path, replace_json_variables, replace_map_variables, replace_variables};
use yuml_ddt::vars::Variables;

fn vars(entries: Vec<(&str, JsonValue)>) -> Variables {
    let mut v = Variables::new();
    for (k, x) in entries {
        v.insert(k.to_string(), x);
    }
    v
}

fn s(t: &str) -> JsonValue {
    JsonValue::Str(t.to_string())
}

fn n(t: &str) -> JsonValue {
    JsonValue::Number(t.to_string())
}

#[test]
fn substitutes_simple_and_nested_paths() {
    let user = JsonValue::Object(vec![("name".to_string(), s("ann")), ("id".to_string(), n("7"))]);
    let v = vars(vec![("id", n("42")), ("user", user), ("flag", JsonValue::Bool(true)), ("nothing", JsonValue::Null)]);
    assert_eq!(replace_variables("/users/{id}", &v), "/users/42");
    assert_eq!(replace_variables("{user.name}-{user.id}", &v), "ann-7");
    assert_eq!(replace_variables("{flag}/{nothing}", &v), "true/null");
    assert_eq!(replace_variables("{user}", &v), r#"{"name":"ann","id":7}"#);
}

#[test]
fn unresolvable_token_is_kept() {
    let v = vars(vec![("id", n("1"))]);
    assert_eq!(replace_variables("/a/{missing}/{id}", &v), "/a/{missing}/1");
    assert_eq!(replace_variables("{id.deeper}", &v), "{id.deeper}");
    assert_eq!(replace_variables("{}{id}", &v), "{}1");
    assert_eq!(replace_variables("{ {id}", &v), "{ {id}");
    assert_eq!(replace_variables("no braces", &v), "no braces");
    assert_eq!(replace_variables("open { only", &v), "open { only");
}

#[test]
fn resolving_twice_gives_the_same_text() {
    let v = vars(vec![("a", s("x")), ("b", n("2"))]);
    let once = replace_variables("p/{a}/{b}/{c}", &v);
    let twice = replace_variables(&once, &v);
    assert_eq!(once, "p/x/2/{c}");
    assert_eq!(once, twice);
}

#[test]
fn later_binding_wins() {
    let mut v = vars(vec![("a", s("old"))]);
    v.insert("a".to_string(), s("new"));
    assert_eq!(replace_variables("{a}", &v), "new");
    assert!(matches!(lookup_path(&v, "a"), Some(JsonValue::Str(t)) if t == "new"));
}

#[test]
fn resolves_structured_values() {
    let v = vars(vec![("id", n("5")), ("name", s("bo"))]);
    let body = JsonValue::Object(vec![
        ("who".to_string(), s("{name}")),
        ("list".to_string(), JsonValue::Array(vec![s("#{id}"), n("3"), JsonValue::Bool(false)])),
    ]);
    let out = replace_json_variables(&body, &v);
    assert_eq!(yuml_ddt::json::json_value_to_string(&out), r##"{"who":"bo","list":["#5",3,false]}"##);
    let params = vec![("q".to_string(), s("{name}")), ("n".to_string(), n("1"))];
    let resolved = replace_map_variables(&params, &v);
    assert_eq!(resolved.len(), 2);
    assert_eq!(resolved[0].0, "q");
    assert!(matches!(&resolved[0].1, JsonValue::Str(t) if t == "bo"));
}
