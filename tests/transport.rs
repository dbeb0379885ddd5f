use yuml_ddt::cache::Cache;
use yuml_ddt::config::AuthConfig;
use yuml_ddt::http::{
    accept_token_response, access_token, attach_token, is_success, record_json_content_type, token_cache_key,
    token_placement, token_step, TokenPlacement, TokenStep,
};
use yuml_ddt::json::JsonValue;

fn auth() -> AuthConfig {
    let mut a = AuthConfig::default();
    a.token_url = "https://auth.test/token".to_string();
    a.client_id = "cid".to_string();
    a.grant_type = "password".to_string();
    a.username = "u".to_string();
    a.password = "p".to_string();
    a
}

fn payload(token: &str) -> JsonValue {
    JsonValue::Object(vec![("access_token".to_string(), JsonValue::Str(token.to_string()))])
}

#[test]
fn default_auth_settings() {
    let a = AuthConfig::default();
    assert_eq!(a.auth_position, "header");
    assert_eq!(a.auth_key, "Authorization");
    assert_eq!(a.auth_prefix, "Bearer");
    assert_eq!(token_cache_key(&a), "default_token");
    let mut b = auth();
    b.token_cache_key = "mine".to_string();
    assert_eq!(token_cache_key(&b), "mine");
}

#[test]
fn success_statuses() {
    assert!(is_success(200));
    assert!(is_success(299));
    assert!(!is_success(199));
    assert!(!is_success(300));
    assert!(!is_success(404));
}

#[test]
fn token_step_choices() {
    let cache = Cache::new();
    assert!(matches!(token_step(None, &cache, 0), TokenStep::Skip));
    let mut no_url = auth();
    no_url.token_url = String::new();
    assert!(matches!(token_step(Some(&no_url), &cache, 0), TokenStep::Skip));
    match token_step(Some(&auth()), &cache, 0) {
        TokenStep::Fetch { url, form } => {
            assert_eq!(url, "https://auth.test/token");
            let names: Vec<&str> = form.iter().map(|(k, _)| k.as_str()).collect();
            assert_eq!(names, vec!["client_id", "grant_type", "username", "password"]);
            assert_eq!(form[0].1, "cid");
            assert_eq!(form[3].1, "p");
        }
        _ => panic!("expected a fetch"),
    }
}

#[test]
fn cached_token_is_reused_until_expiry() {
    let mut cache = Cache::new();
    let a = auth();
    let got = accept_token_response(&mut cache, &a, 200, Some(payload("tok1")), 1000);
    assert_eq!(got.as_deref(), Some("tok1"));
    assert!(matches!(token_step(Some(&a), &cache, 1000 + 3599), TokenStep::Cached(t) if t == "tok1"));
    assert!(matches!(token_step(Some(&a), &cache, 1000 + 3600), TokenStep::Fetch { .. }));
}

#[test]
fn failed_token_answers_give_no_token() {
    let mut cache = Cache::new();
    let a = auth();
    assert!(accept_token_response(&mut cache, &a, 500, Some(payload("x")), 0).is_none());
    assert!(accept_token_response(&mut cache, &a, 200, None, 0).is_none());
    assert!(matches!(token_step(Some(&a), &cache, 0), TokenStep::Fetch { .. }));
    let no_token = JsonValue::Object(vec![]);
    assert!(accept_token_response(&mut cache, &a, 200, Some(no_token), 0).is_none());
    assert!(access_token(&payload("abc")).as_deref() == Some("abc"));
}

#[test]
fn header_placement_defaults() {
    let mut a = auth();
    a.auth_position = String::new();
    a.auth_key = String::new();
    a.auth_prefix = String::new();
    match token_placement(&a, &"abc".to_string()) {
        TokenPlacement::Header(k, v) => {
            assert_eq!(k, "Authorization");
            assert_eq!(v, "Bearer abc");
        }
        _ => panic!("expected a header"),
    }
    a.auth_key = "X-Token".to_string();
    a.auth_prefix = "Token".to_string();
    assert!(matches!(token_placement(&a, &"abc".to_string()), TokenPlacement::Header(k, v) if k == "X-Token" && v == "Token abc"));
    a.auth_position = "body".to_string();
    assert!(matches!(token_placement(&a, &"abc".to_string()), TokenPlacement::Nowhere));
}

#[test]
fn query_token_stays_out_of_headers() {
    let mut cache = Cache::new();
    let mut a = auth();
    a.auth_position = "query".to_string();
    a.auth_key = "tok".to_string();
    cache.set_at("default_token", payload("xyz"), None, 0);
    let token = match token_step(Some(&a), &cache, 5) {
        TokenStep::Cached(t) => t,
        _ => panic!("expected the cached token"),
    };
    assert_eq!(token, "xyz");
    let mut headers = vec![("Accept".to_string(), "application/json".to_string())];
    let mut query = vec![("page".to_string(), "1".to_string())];
    attach_token(&mut headers, &mut query, token_placement(&a, &token));
    assert!(query.iter().any(|(k, v)| k == "tok" && v == "xyz"));
    assert_eq!(headers.len(), 1);
    assert!(!headers.iter().any(|(k, _)| k.eq_ignore_ascii_case("authorization")));
    let mut plain = auth();
    plain.auth_position = "query".to_string();
    plain.auth_key = String::new();
    assert!(matches!(token_placement(&plain, &token), TokenPlacement::Query(k, _) if k == "access_token"));
}

#[test]
fn content_type_is_recorded_for_bodies() {
    let mut h: Vec<(String, String)> = vec![];
    record_json_content_type(&mut h, true);
    assert_eq!(h, vec![("content-type".to_string(), "application/json".to_string())]);
    let mut h2 = vec![("Content-Type".to_string(), "text/plain".to_string())];
    record_json_content_type(&mut h2, true);
    assert_eq!(h2.len(), 1);
    let mut h4 = vec![("CONTENT-type".to_string(), "text/plain".to_string())];
    record_json_content_type(&mut h4, true);
    assert_eq!(h4.len(), 1);
    let mut h5 = vec![("content-typo".to_string(), "x".to_string())];
    record_json_content_type(&mut h5, true);
    assert_eq!(h5.len(), 2);
    let mut h3: Vec<(String, String)> = vec![];
    record_json_content_type(&mut h3, false);
    assert!(h3.is_empty());
}
