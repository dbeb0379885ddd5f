//! The parsed form of a test configuration: environments, steps, their
//! checks and extraction rules, and the shapes of what a step reports.

use vstd::prelude::*;

use crate::json::JsonValue;
use crate::vars::Variables;

verus! {

/// A whole test configuration.
pub struct TestConfig {
    pub global: GlobalConfig,
    /// Variables shared by every step.
    pub variables: Variables,
    /// Steps by id, in the order they were declared.
    pub steps: Vec<(String, Step)>,
    /// Test cases by id, in the order they were declared.
    pub test_cases: Vec<(String, TestCase)>,
}

/// Settings that apply to the whole configuration.
pub struct GlobalConfig {
    pub debug: bool,
    pub profile: ProfileConfig,
}

/// The named environments and which of them is active.
pub struct ProfileConfig {
    pub active: String,
    pub environments: Vec<(String, EnvironmentConfig)>,
}

/// One environment that requests are sent to.
pub struct EnvironmentConfig {
    pub base_url: String,
    /// A prefix put before every step's path.
    pub context: String,
    pub brand: String,
    /// Prefix rewrites, tried in this order: `(source, target)`.
    pub path_mapping: Vec<(String, String)>,
    /// Whether the rule with the longest matching source wins, rather than
    /// the first that matches.
    pub path_mapping_longest_first: bool,
    pub auth: Option<AuthConfig>,
}

/// How a token is obtained and attached to requests.
#[derive(Clone)]
pub struct AuthConfig {
    pub token_url: String,
    pub client_id: String,
    pub grant_type: String,
    pub username: String,
    pub password: String,
    pub token_cache_key: String,
    /// `header` or `query`.
    pub auth_position: String,
    pub auth_key: String,
    pub auth_prefix: String,
}

impl Default for AuthConfig {
    fn default() -> (r: AuthConfig)
        ensures
            r.token_url@.len() == 0,
            r.client_id@.len() == 0,
            r.grant_type@.len() == 0,
            r.username@.len() == 0,
            r.password@.len() == 0,
            r.token_cache_key@.len() == 0,
            r.auth_position@ == "header"@,
            r.auth_key@ == "Authorization"@,
            r.auth_prefix@ == "Bearer"@,
    {
        AuthConfig {
            token_url: String::new(),
            client_id: String::new(),
            grant_type: String::new(),
            username: String::new(),
            password: String::new(),
            token_cache_key: String::new(),
            auth_position: String::from_str("header"),
            auth_key: String::from_str("Authorization"),
            auth_prefix: String::from_str("Bearer"),
        }
    }
}

/// One declarative HTTP call.
pub struct Step {
    pub name: String,
    pub method: String,
    pub path: String,
    pub params: Vec<(String, JsonValue)>,
    pub body: Option<JsonValue>,
    pub headers: Vec<(String, String)>,
    pub variables: Variables,
    pub validate: Vec<Validation>,
    pub save_response: Vec<SaveRule>,
}

/// A check on a response field.
pub struct Validation {
    pub field: String,
    pub operator: String,
    pub expected: JsonValue,
}

/// Copies a response field into the session variables.
pub struct SaveRule {
    pub field: String,
    pub to: String,
}

/// A named sequence of steps.
pub struct TestCase {
    pub name: String,
    pub description: String,
    pub steps: Vec<String>,
    pub variables: Variables,
}

/// A step as listed for display.
pub struct StepInfo {
    pub id: String,
    pub name: String,
    pub method: String,
    pub path: String,
}

/// What running one step gave.
pub struct ExecutionResult {
    pub success: bool,
    pub step_name: String,
    pub request_url: String,
    pub request_method: String,
    /// The headers the request carried; where a name repeats, the later
    /// entry is the one in effect.
    pub request_headers: Vec<(String, String)>,
    pub request_body: Option<JsonValue>,
    pub response_status: u16,
    pub response_headers: Vec<(String, String)>,
    pub response_body: Option<JsonValue>,
    pub validations: Vec<ValidationResult>,
    pub duration_ms: u64,
    pub error: Option<String>,
}

/// The outcome of one check.
pub struct ValidationResult {
    pub field: String,
    pub operator: String,
    pub expected: String,
    pub actual: String,
    pub passed: bool,
}

} // verus!
