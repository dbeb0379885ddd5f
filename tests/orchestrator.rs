use yuml_ddt::config::{
    EnvironmentConfig, GlobalConfig, ProfileConfig, SaveRule, Step, TestConfig, Validation,
};
use yuml_ddt::engine::{
    apply_longest_path_mapping, apply_path_mapping, dispatch, decimal_text, merge_variables, parse_method, step_not_found, HttpMethod,
    HttpResponse, TestEngine,
};
use yuml_ddt::json::{json_value_to_string, JsonValue};
use yuml_ddt::vars::Variables;

fn n(t: &str) -> JsonValue {
    JsonValue::Number(t.to_string())
}

fn s(t: &str) -> JsonValue {
    JsonValue::Str(t.to_string())
}

fn vars(entries: Vec<(&str, JsonValue)>) -> Variables {
    let mut v = Variables::new();
    for (k, x) in entries {
        v.insert(k.to_string(), x);
    }
    v
}

fn step(method: &str, path: &str) -> Step {
    Step {
        name: String::new(),
        method: method.to_string(),
        path: path.to_string(),
        params: vec![],
        body: None,
        headers: vec![],
        variables: Variables::new(),
        validate: vec![],
        save_response: vec![],
    }
}

fn env(context: &str, mapping: Vec<(&str, &str)>) -> EnvironmentConfig {
    EnvironmentConfig {
        base_url: "https://api.test".to_string(),
        context: context.to_string(),
        brand: "acme".to_string(),
        path_mapping: mapping.into_iter().map(|(a, b)| (a.to_string(), b.to_string())).collect(),
        path_mapping_longest_first: false,
        auth: None,
    }
}

fn config(active: &str, e: EnvironmentConfig, steps: Vec<(&str, Step)>, globals: Variables) -> TestConfig {
    TestConfig {
        global: GlobalConfig {
            debug: false,
            profile: ProfileConfig { active: active.to_string(), environments: vec![("dev".to_string(), e)] },
        },
        variables: globals,
        steps: steps.into_iter().map(|(k, v)| (k.to_string(), v)).collect(),
        test_cases: vec![],
    }
}

fn ok_response(body: JsonValue, status: u16) -> HttpResponse {
    HttpResponse { status, request_headers: vec![], headers: vec![], body }
}

#[test]
fn construction_needs_the_active_environment() {
    let e = TestEngine::new(config("", env("", vec![]), vec![], Variables::new()));
    assert!(e.is_err());
    let e = TestEngine::new(config("prod", env("", vec![]), vec![], Variables::new()));
    assert_eq!(e.err().unwrap(), "environment 'prod' is not configured");
    let e = TestEngine::new(config("dev", env("", vec![]), vec![], Variables::new())).ok().unwrap();
    assert!(matches!(e.context().get(&"brand".to_string()), Some(JsonValue::Str(b)) if b == "acme"));
    assert!(matches!(e.context().get(&"timestamp".to_string()), Some(JsonValue::Str(t)) if t.chars().all(|c| c.is_ascii_digit())));
    assert!(!e.debug());
}

#[test]
fn get_request_url_from_context() {
    let cfg = config("dev", env("", vec![]), vec![("get_user", step("get", "/users/{id}"))], Variables::new());
    let engine = TestEngine::new(cfg).ok().unwrap();
    let over = vars(vec![("id", n("42"))]);
    let plan = engine.prepare_step("get_user", Some(&over)).ok().unwrap();
    assert_eq!(plan.url, "https://api.test/users/42");
    assert_eq!(plan.path, "/users/42");
    assert_eq!(plan.method, "GET");
    assert_eq!(plan.http_method, Some(HttpMethod::Get));
}

#[test]
fn saved_field_feeds_the_next_step() {
    let mut login = step("post", "/login");
    login.save_response = vec![SaveRule { field: "token".to_string(), to: "auth_token".to_string() }];
    let mut me = step("GET", "/me/{auth_token}");
    me.headers = vec![("Authorization".to_string(), "Bearer {auth_token}".to_string())];
    let cfg = config("dev", env("", vec![]), vec![("login", login), ("me", me)], Variables::new());
    let mut engine = TestEngine::new(cfg).ok().unwrap();
    let plan = engine.prepare_step("login", None).ok().unwrap();
    let body = JsonValue::Object(vec![("token".to_string(), s("abc"))]);
    let result = engine.finish_step(plan, Ok(ok_response(body, 200)), 3);
    assert!(result.success);
    assert_eq!(result.response_status, 200);
    assert_eq!(result.duration_ms, 3);
    assert!(matches!(engine.context().get(&"auth_token".to_string()), Some(JsonValue::Str(t)) if t == "abc"));
    let next = engine.prepare_step("me", None).ok().unwrap();
    assert_eq!(next.headers, vec![("Authorization".to_string(), "Bearer abc".to_string())]);
    assert_eq!(next.url, "https://api.test/me/abc");
}

#[test]
fn unknown_step_is_a_failed_result() {
    let cfg = config("dev", env("", vec![]), vec![], Variables::new());
    let engine = TestEngine::new(cfg).ok().unwrap();
    let r = engine.prepare_step("nope", None).err().unwrap();
    assert!(!r.success);
    assert_eq!(r.response_status, 0);
    assert_eq!(r.error.as_deref(), Some("step 'nope' not found"));
    assert_eq!(r.step_name, "nope");
    assert!(r.validations.is_empty());
    let direct = step_not_found("x", 9);
    assert_eq!(direct.duration_ms, 9);
    assert!(!direct.error.unwrap().is_empty());
}

#[test]
fn variable_precedence() {
    let session = vars(vec![("k", s("session")), ("g", s("session"))]);
    let globals = vars(vec![("k", s("global")), ("g", s("global")), ("sg", s("global"))]);
    let step_vars = vars(vec![("k", s("step")), ("sg", s("step"))]);
    let over = vars(vec![("k", s("override"))]);
    let m = merge_variables(&session, &globals, &step_vars, Some(&over));
    assert!(matches!(m.get(&"k".to_string()), Some(JsonValue::Str(t)) if t == "override"));
    assert!(matches!(m.get(&"sg".to_string()), Some(JsonValue::Str(t)) if t == "step"));
    assert!(matches!(m.get(&"g".to_string()), Some(JsonValue::Str(t)) if t == "global"));
    let m2 = merge_variables(&session, &globals, &step_vars, None);
    assert!(matches!(m2.get(&"k".to_string()), Some(JsonValue::Str(t)) if t == "step"));
}

#[test]
fn precedence_through_a_step() {
    let mut st = step("GET", "/{k}/{g}/{brand}");
    st.variables = vars(vec![("k", s("step"))]);
    let cfg = config("dev", env("/ctx", vec![]), vec![("s", st)], vars(vec![("k", s("global")), ("g", s("global"))]));
    let engine = TestEngine::new(cfg).ok().unwrap();
    let plan = engine.prepare_step("s", None).ok().unwrap();
    assert_eq!(plan.path, "/ctx/step/global/acme");
    let over = vars(vec![("k", s("mine"))]);
    let plan2 = engine.prepare_step("s", Some(&over)).ok().unwrap();
    assert_eq!(plan2.path, "/ctx/mine/global/acme");
}

#[test]
fn path_mapping_first_matching_rule() {
    let rules = vec![("/api/v1".to_string(), "/v1".to_string()), ("/api".to_string(), "/x".to_string())];
    assert_eq!(apply_path_mapping(&rules, "/api/v1/users"), "/v1/users");
    assert_eq!(apply_path_mapping(&rules, "/api/other"), "/x/other");
    assert_eq!(apply_path_mapping(&rules, "/else/api"), "/else/api");
    let empty: Vec<(String, String)> = vec![];
    assert_eq!(apply_path_mapping(&empty, "/a"), "/a");
    let cfg = config("dev", env("/api", vec![("/api", "/gw")]), vec![("s", step("GET", "/u"))], Variables::new());
    let engine = TestEngine::new(cfg).ok().unwrap();
    assert_eq!(engine.prepare_step("s", None).ok().unwrap().url, "https://api.test/gw/u");
}

#[test]
fn path_mapping_longest_source() {
    let rules = vec![
        ("/api".to_string(), "/x".to_string()),
        ("/api/v1".to_string(), "/v1".to_string()),
        ("/ap".to_string(), "/y".to_string()),
    ];
    assert_eq!(apply_longest_path_mapping(&rules, "/api/v1/users"), "/v1/users");
    assert_eq!(apply_longest_path_mapping(&rules, "/api/other"), "/x/other");
    assert_eq!(apply_longest_path_mapping(&rules, "/apple"), "/yple");
    assert_eq!(apply_longest_path_mapping(&rules, "/else"), "/else");
    assert_eq!(apply_path_mapping(&rules, "/api/v1/users"), "/x/v1/users");
    let mut e = env("", vec![("/a", "/one"), ("/a/b", "/two")]);
    e.path_mapping_longest_first = true;
    let cfg = config("dev", e, vec![("s", step("GET", "/a/b/c"))], Variables::new());
    let engine = TestEngine::new(cfg).ok().unwrap();
    assert_eq!(engine.prepare_step("s", None).ok().unwrap().path, "/two/c");
}

#[test]
fn dispatch_sends_bodies_for_post_and_put() {
    let mut st = step("put", "/x");
    st.body = Some(s("b"));
    let cfg = config("dev", env("", vec![]), vec![("p", st), ("g", step("get", "/y")), ("o", step("options", "/z"))], Variables::new());
    let engine = TestEngine::new(cfg).ok().unwrap();
    let p = engine.prepare_step("p", None).ok().unwrap();
    assert!(matches!(dispatch(&p), Ok((HttpMethod::Put, true))));
    let g = engine.prepare_step("g", None).ok().unwrap();
    assert!(matches!(dispatch(&g), Ok((HttpMethod::Get, false))));
    let o = engine.prepare_step("o", None).ok().unwrap();
    assert!(matches!(dispatch(&o), Err(m) if m == "unsupported HTTP method: OPTIONS"));
}

#[test]
fn params_body_and_headers_are_resolved() {
    let mut st = step("put", "/items");
    st.params = vec![("q".to_string(), s("{name}")), ("n".to_string(), n("3")), ("obj".to_string(), JsonValue::Object(vec![("a".to_string(), s("{name}"))]))];
    st.body = Some(JsonValue::Object(vec![("who".to_string(), s("{name}"))]));
    st.headers = vec![("X-Who".to_string(), "{name}".to_string())];
    let cfg = config("dev", env("", vec![]), vec![("s", st)], vars(vec![("name", s("zed"))]));
    let engine = TestEngine::new(cfg).ok().unwrap();
    let plan = engine.prepare_step("s", None).ok().unwrap();
    assert_eq!(plan.http_method, Some(HttpMethod::Put));
    assert_eq!(
        plan.params,
        vec![
            ("q".to_string(), "zed".to_string()),
            ("n".to_string(), "3".to_string()),
            ("obj".to_string(), r#"{"a":"zed"}"#.to_string())
        ]
    );
    assert_eq!(json_value_to_string(plan.body.as_ref().unwrap()), r#"{"who":"zed"}"#);
    assert_eq!(plan.headers, vec![("X-Who".to_string(), "zed".to_string())]);
}

#[test]
fn failed_checks_or_status_fail_the_step() {
    let mut st = step("GET", "/x");
    st.validate = vec![Validation { field: "code".to_string(), operator: "equals".to_string(), expected: n("0") }];
    st.save_response = vec![SaveRule { field: "missing".to_string(), to: "m".to_string() }];
    let cfg = config("dev", env("", vec![]), vec![("s", st)], Variables::new());
    let mut engine = TestEngine::new(cfg).ok().unwrap();
    let good = JsonValue::Object(vec![("code".to_string(), n("0"))]);
    let bad = JsonValue::Object(vec![("code".to_string(), n("1"))]);
    let p = engine.prepare_step("s", None).ok().unwrap();
    assert!(!engine.finish_step(p, Ok(ok_response(good, 500)), 0).success);
    let p = engine.prepare_step("s", None).ok().unwrap();
    let r = engine.finish_step(p, Ok(ok_response(bad, 200)), 0);
    assert!(!r.success);
    assert_eq!(r.validations.len(), 1);
    assert_eq!(r.validations[0].actual, "1");
    assert!(engine.context().get(&"m".to_string()).is_none());
}

#[test]
fn transport_error_is_carried() {
    let mut st = step("post", "/x");
    st.headers = vec![("H".to_string(), "v".to_string())];
    let cfg = config("dev", env("", vec![]), vec![("s", st)], Variables::new());
    let mut engine = TestEngine::new(cfg).ok().unwrap();
    let p = engine.prepare_step("s", None).ok().unwrap();
    let r = engine.finish_step(p, Err("connection refused".to_string()), 7);
    assert!(!r.success);
    assert_eq!(r.error.as_deref(), Some("connection refused"));
    assert_eq!(r.response_status, 0);
    assert_eq!(r.request_url, "https://api.test/x");
    assert_eq!(r.request_method, "POST");
    assert_eq!(r.request_headers, vec![("H".to_string(), "v".to_string())]);
    assert!(r.response_body.is_none());
}

#[test]
fn unsupported_method_is_detected() {
    let cfg = config("dev", env("", vec![]), vec![("s", step("patch", "/x"))], Variables::new());
    let engine = TestEngine::new(cfg).ok().unwrap();
    let p = engine.prepare_step("s", None).ok().unwrap();
    assert_eq!(p.method, "PATCH");
    assert!(p.http_method.is_none());
    assert_eq!(yuml_ddt::engine::unsupported_method_error(&p.method), "unsupported HTTP method: PATCH");
    assert_eq!(parse_method(&"DELETE".to_string()), Some(HttpMethod::Delete));
    assert_eq!(parse_method(&"get".to_string()), None);
}

#[test]
fn step_list_uses_ids_for_unnamed_steps() {
    let mut named = step("GET", "/a");
    named.name = "Fetch A".to_string();
    let cfg = config("dev", env("", vec![]), vec![("a", named), ("b", step("POST", "/b"))], Variables::new());
    let engine = TestEngine::new(cfg).ok().unwrap();
    let list = engine.get_step_list();
    assert_eq!(list.len(), 2);
    assert_eq!(list[0].name, "Fetch A");
    assert_eq!(list[1].name, "b");
    assert_eq!(list[1].method, "POST");
    assert_eq!(list[1].path, "/b");
}

#[test]
fn step_list_has_one_entry_per_id() {
    let cfg = config(
        "dev",
        env("", vec![]),
        vec![("a", step("GET", "/old")), ("b", step("GET", "/b")), ("a", step("PUT", "/new"))],
        Variables::new(),
    );
    let engine = TestEngine::new(cfg).ok().unwrap();
    let list = engine.get_step_list();
    assert_eq!(list.len(), 2);
    assert_eq!(list[0].id, "b");
    assert_eq!(list[1].id, "a");
    assert_eq!(list[1].path, "/new");
    let plan = engine.prepare_step("a", None).ok().unwrap();
    assert_eq!(plan.path, "/new");
}

#[test]
fn missing_step_builds_no_request() {
    let cfg = config("dev", env("", vec![]), vec![], Variables::new());
    let engine = TestEngine::new(cfg).ok().unwrap();
    let r = engine.prepare_step("ghost", None).err().unwrap();
    assert_eq!(r.request_url, "");
    assert_eq!(r.request_method, "");
    assert!(r.request_headers.is_empty());
    assert!(r.request_body.is_none());
}

#[test]
fn decimal_digits() {
    assert_eq!(decimal_text(0), "0");
    assert_eq!(decimal_text(1700000000), "1700000000");
    assert_eq!(decimal_text(u64::MAX), "18446744073709551615");
}
