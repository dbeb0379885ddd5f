use yuml_ddt::cache::Cache;
use yuml_ddt::json::JsonValue;

fn s(t: &str) -> JsonValue {
    JsonValue::Str(t.to_string())
}

#[test]
fn value_without_ttl_never_expires() {
    let mut c = Cache::new();
    c.set_at("k", s("v"), None, 100);
    assert!(matches!(c.get_at("k", 100), Some(JsonValue::Str(t)) if t == "v"));
    assert!(matches!(c.get_at("k", u64::MAX), Some(JsonValue::Str(t)) if t == "v"));
}

#[test]
fn zero_ttl_is_already_expired() {
    let mut c = Cache::new();
    c.set_at("k", s("v"), Some(0), 100);
    assert!(c.get_at("k", 100).is_none());
    assert!(c.get_at("k", 101).is_none());
}

#[test]
fn ttl_bounds_lifetime() {
    let mut c = Cache::new();
    c.set_at("k", s("v"), Some(10), 100);
    assert!(c.get_at("k", 109).is_some());
    assert!(c.get_at("k", 110).is_none());
    c.set_at("k", s("w"), Some(u64::MAX), 100);
    assert!(matches!(c.get_at("k", u64::MAX - 1), Some(JsonValue::Str(t)) if t == "w"));
}

#[test]
fn overwrite_remove_and_clear() {
    let mut c = Cache::new();
    c.set_at("a", s("1"), None, 0);
    c.set_at("a", s("2"), None, 0);
    c.set_at("b", s("3"), None, 0);
    assert!(matches!(c.get_at("a", 0), Some(JsonValue::Str(t)) if t == "2"));
    c.remove("a");
    assert!(c.get_at("a", 0).is_none());
    assert!(c.get_at("b", 0).is_some());
    c.clear();
    assert!(c.get_at("b", 0).is_none());
}

#[test]
fn set_and_get_now() {
    let mut c = Cache::new();
    c.set("k", s("v"), None);
    assert!(matches!(c.get("k"), Some(JsonValue::Str(t)) if t == "v"));
    c.set("z", s("v"), Some(0));
    assert!(c.get("z").is_none());
    assert!(c.get("missing").is_none());
}
