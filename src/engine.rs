//! The step orchestrator: looks a step up, resolves its request against the
//! merged variables, and turns the transport's outcome into a result,
//! updating the session variables from the step's extraction rules.

use vstd::prelude::*;

use crate::cache::now_secs;
use crate::config::{ExecutionResult, SaveRule, Step, StepInfo, TestConfig, EnvironmentConfig, ValidationResult};
use crate::http::success_status;
use crate::json::{entries_view, hex_digit, hex_digits, json_value_to_string, render, Json, JsonValue};
use crate::path::{get_json_field, json_field};
use crate::template::{law_variable_token, replace_json_variables, replace_variables, resolve, resolve_json};
use crate::text::{chars_of, text_of};
use crate::validate::{check_result, result_view, validate_response};
use crate::vars::Variables;

verus! {

broadcast use vstd::std_specs::vec::group_vec_axioms;

/// The upper-case form of a text, as `str::to_uppercase` gives it.
pub uninterp spec fn upper_of(s: Seq<char>) -> Seq<char>;

/// Relies on `str::to_uppercase`: the result depends on the text alone.
#[verifier::external_body]
fn to_upper(s: &str) -> (r: String)
    ensures
        r@ == upper_of(s@),
{
    s.to_uppercase()
}

/// The HTTP methods a step may use.
#[derive(PartialEq, Eq, Structural, Clone, Copy, Debug)]
pub enum HttpMethod {
    Get,
    Post,
    Put,
    Delete,
}

/// The method an upper-case name stands for, if it is one of the four.
pub open spec fn method_of(name: Seq<char>) -> Option<HttpMethod> {
    if name == "GET"@ {
        Some(HttpMethod::Get)
    } else if name == "POST"@ {
        Some(HttpMethod::Post)
    } else if name == "PUT"@ {
        Some(HttpMethod::Put)
    } else if name == "DELETE"@ {
        Some(HttpMethod::Delete)
    } else {
        None
    }
}

/// The method an upper-case name stands for, if it is one of the four.
pub fn parse_method(name: &String) -> (r: Option<HttpMethod>)
    ensures
        r == method_of(name@),
{
    if *name == String::from_str("GET") {
        Some(HttpMethod::Get)
    } else if *name == String::from_str("POST") {
        Some(HttpMethod::Post)
    } else if *name == String::from_str("PUT") {
        Some(HttpMethod::Put)
    } else if *name == String::from_str("DELETE") {
        Some(HttpMethod::Delete)
    } else {
        None
    }
}

/// Whether a method sends a body.
pub open spec fn sends_body(m: HttpMethod) -> bool {
    m == HttpMethod::Post || m == HttpMethod::Put
}

/// The pairs of texts a list of text pairs holds.
pub open spec fn pairs_view(s: Seq<(String, String)>) -> Seq<(Seq<char>, Seq<char>)> {
    s.map_values(|e: (String, String)| (e.0@, e.1@))
}

/// A path after the first rule, in order, whose source is a prefix of it has
/// replaced that prefix by its target; unchanged where no rule applies.
pub open spec fn map_path(rules: Seq<(Seq<char>, Seq<char>)>, path: Seq<char>) -> Seq<char>
    decreases rules.len(),
{
    if rules.len() == 0 {
        path
    } else if rules[0].0.is_prefix_of(path) {
        rules[0].1 + path.skip(rules[0].0.len() as int)
    } else {
        map_path(rules.drop_first(), path)
    }
}

/// Whether `p` is a prefix of `s`.
fn starts_with(s: &Vec<char>, p: &Vec<char>) -> (r: bool)
    ensures
        r == p@.is_prefix_of(s@),
{
    if p.len() > s.len() {
        return false;
    }
    let mut i: usize = 0;
    while i < p.len()
        invariant
            p.len() <= s.len(),
            i <= p.len(),
            forall|k: int| 0 <= k < i ==> s@[k] == p@[k],
        decreases p.len() - i,
    {
        if s[i] != p[i] {
            return false;
        }
        i = i + 1;
    }
    assert(s@.take(p@.len() as int) =~= p@);
    true
}

/// Rewrites the prefix of `path` by the first rule that applies.
pub fn apply_path_mapping(rules: &Vec<(String, String)>, path: &str) -> (r: String)
    ensures
        r@ == map_path(pairs_view(rules@), path@),
{
    let cs = chars_of(path);
    let ghost rv = pairs_view(rules@);
    let mut i: usize = 0;
    assert(rv.skip(0) =~= rv);
    while i < rules.len()
        invariant
            i <= rules.len(),
            rv == pairs_view(rules@),
            cs@ == path@,
            map_path(rv, path@) == map_path(rv.skip(i as int), path@),
        decreases rules.len() - i,
    {
        let src = chars_of(rules[i].0.as_str());
        assert(rv.skip(i as int)[0] == rv[i as int]);
        if starts_with(&cs, &src) {
            return replace_prefix(&cs, src.len(), rules[i].1.as_str());
        }
        assert(rv.skip(i as int).drop_first() =~= rv.skip(i + 1));
        i = i + 1;
    }
    assert(rv.skip(i as int).len() == 0);
    text_of(&cs)
}

/// The rule whose source is the longest prefix of `path`; the earliest of
/// equally long ones.
pub open spec fn longest_rule(rules: Seq<(Seq<char>, Seq<char>)>, path: Seq<char>) -> Option<int>
    decreases rules.len(),
{
    if rules.len() == 0 {
        None
    } else {
        let prev = longest_rule(rules.drop_last(), path);
        let i = rules.len() - 1;
        if rules[i].0.is_prefix_of(path) && (prev is None || rules[prev->0].0.len()
            < rules[i].0.len()) {
            Some(i)
        } else {
            prev
        }
    }
}

/// A path after the rule with the longest matching source has replaced that
/// prefix by its target; unchanged where no rule applies.
pub open spec fn map_path_longest(rules: Seq<(Seq<char>, Seq<char>)>, path: Seq<char>) -> Seq<char> {
    match longest_rule(rules, path) {
        Some(i) => rules[i].1 + path.skip(rules[i].0.len() as int),
        None => path,
    }
}

/// The path an environment maps `path` to: by its rules in declared order,
/// or by the longest matching source where it asks for that.
pub open spec fn mapped_path(env: EnvironmentConfig, path: Seq<char>) -> Seq<char> {
    if env.path_mapping_longest_first {
        map_path_longest(pairs_view(env.path_mapping@), path)
    } else {
        map_path(pairs_view(env.path_mapping@), path)
    }
}

proof fn lemma_longest_rule_bounds(rules: Seq<(Seq<char>, Seq<char>)>, path: Seq<char>)
    ensures
        match longest_rule(rules, path) {
            Some(i) => 0 <= i < rules.len() && rules[i].0.is_prefix_of(path),
            None => true,
        },
    decreases rules.len(),
{
    if rules.len() > 0 {
        lemma_longest_rule_bounds(rules.drop_last(), path);
    }
}

/// Rewrites the prefix of `path` by the rule whose source is the longest
/// prefix of it.
pub fn apply_longest_path_mapping(rules: &Vec<(String, String)>, path: &str) -> (r: String)
    ensures
        r@ == map_path_longest(pairs_view(rules@), path@),
{
    let cs = chars_of(path);
    let ghost rv = pairs_view(rules@);
    let mut best: Option<usize> = None;
    let mut best_len: usize = 0;
    let mut i: usize = 0;
    while i < rules.len()
        invariant
            i <= rules.len(),
            rv == pairs_view(rules@),
            cs@ == path@,
            match best {
                Some(k) => longest_rule(rv.take(i as int), path@) == Some(k as int) && k < i
                    && best_len == rv[k as int].0.len(),
                None => longest_rule(rv.take(i as int), path@) is None,
            },
        decreases rules.len() - i,
    {
        let src = chars_of(rules[i].0.as_str());
        assert(rv.take(i + 1).drop_last() =~= rv.take(i as int));
        assert(rv.take(i + 1)[i as int] == rv[i as int]);
        match best {
            Some(k) => {
                assert(rv.take(i + 1)[k as int] == rv[k as int]);
            },
            None => {},
        }
        if starts_with(&cs, &src) && (best.is_none() || best_len < src.len()) {
            best = Some(i);
            best_len = src.len();
        }
        i = i + 1;
    }
    assert(rv.take(i as int) =~= rv);
    match best {
        Some(k) => {
            let src = chars_of(rules[k].0.as_str());
            proof {
                lemma_longest_rule_bounds(rv, path@);
            }
            replace_prefix(&cs, src.len(), rules[k].1.as_str())
        },
        None => text_of(&cs),
    }
}

/// `target` followed by `cs` after its first `n` characters.
fn replace_prefix(cs: &Vec<char>, n: usize, target: &str) -> (r: String)
    requires
        n <= cs.len(),
    ensures
        r@ == target@ + cs@.skip(n as int),
{
    let mut out = chars_of(target);
    let mut k: usize = n;
    let ghost base = out@;
    while k < cs.len()
        invariant
            n <= k <= cs.len(),
            out@ == base + cs@.subrange(n as int, k as int),
        decreases cs.len() - k,
    {
        out.push(cs[k]);
        k = k + 1;
        assert(out@ =~= base + cs@.subrange(n as int, k as int));
    }
    assert(cs@.subrange(n as int, k as int) =~= cs@.skip(n as int));
    text_of(&out)
}

/// The decimal digits of `n`.
pub open spec fn decimal(n: nat) -> Seq<char>
    decreases n,
{
    if n < 10 {
        seq![hex_digits()[n as int]]
    } else {
        decimal(n / 10).push(hex_digits()[(n % 10) as int])
    }
}

/// Appends the decimal digits of `n`.
fn push_decimal(out: &mut Vec<char>, n: u64)
    ensures
        final(out)@ == old(out)@ + decimal(n as nat),
    decreases n,
{
    if n >= 10 {
        push_decimal(out, n / 10);
    }
    out.push(hex_digit((n % 10) as u32));
    assert(final(out)@ =~= old(out)@ + decimal(n as nat));
}

/// The decimal text of `n`.
pub fn decimal_text(n: u64) -> (r: String)
    ensures
        r@ == decimal(n as nat),
{
    let mut out: Vec<char> = Vec::new();
    push_decimal(&mut out, n);
    assert(out@ =~= decimal(n as nat));
    text_of(&out)
}

/// The variables a step sees, lowest precedence first: the session's, the
/// configuration's, the step's own, then the caller's.
pub open spec fn merged(
    session: Map<Seq<char>, Json>,
    globals: Map<Seq<char>, Json>,
    step: Map<Seq<char>, Json>,
    overrides: Map<Seq<char>, Json>,
) -> Map<Seq<char>, Json> {
    session.union_prefer_right(globals).union_prefer_right(step).union_prefer_right(overrides)
}

/// Merges the four sources of variables; a later source wins on a shared name.
pub fn merge_variables(
    session: &Variables,
    globals: &Variables,
    step: &Variables,
    overrides: Option<&Variables>,
) -> (r: Variables)
    ensures
        r@ == merged(
            session@,
            globals@,
            step@,
            match overrides {
                Some(o) => o@,
                None => Map::empty(),
            },
        ),
{
    let mut r = session.duplicate();
    r.extend(globals);
    r.extend(step);
    match overrides {
        Some(o) => r.extend(o),
        None => {
            assert(r@.union_prefer_right(Map::empty()) =~= r@);
        },
    }
    r
}

/// Variable precedence: a name bound by the caller takes the caller's value
/// whatever else binds it; a name the caller does not bind but the step does
/// takes the step's value over the configuration's and the session's.
pub proof fn law_variable_precedence(
    session: Map<Seq<char>, Json>,
    globals: Map<Seq<char>, Json>,
    step: Map<Seq<char>, Json>,
    overrides: Map<Seq<char>, Json>,
    k: Seq<char>,
)
    ensures
        overrides.contains_key(k) ==> merged(session, globals, step, overrides)[k] == overrides[k],
        !overrides.contains_key(k) && step.contains_key(k) ==> merged(
            session,
            globals,
            step,
            overrides,
        )[k] == step[k],
{
}

/// The index of the last entry whose key is `key`.
pub open spec fn find_last_key<V>(s: Seq<(String, V)>, key: Seq<char>) -> Option<int>
    decreases s.len(),
{
    if s.len() == 0 {
        None
    } else if s.last().0@ == key {
        Some(s.len() - 1)
    } else {
        find_last_key(s.drop_last(), key)
    }
}

/// The index of the last entry whose key is `key`.
pub fn find_key<V>(s: &Vec<(String, V)>, key: &String) -> (r: Option<usize>)
    ensures
        match r {
            Some(i) => find_last_key(s@, key@) == Some(i as int) && i < s.len(),
            None => find_last_key(s@, key@) is None,
        },
{
    let mut i: usize = s.len();
    assert(s@.take(i as int) =~= s@);
    while i > 0
        invariant
            i <= s.len(),
            find_last_key(s@, key@) == find_last_key(s@.take(i as int), key@),
        decreases i,
    {
        i = i - 1;
        assert(s@.take(i + 1).drop_last() =~= s@.take(i as int));
        if s[i].0 == *key {
            return Some(i);
        }
    }
    None
}

/// The session variables after the extraction rules ran, in order, against `body`:
/// each rule whose field is present binds its target name to that field's value.
pub open spec fn apply_saves(ctx: Map<Seq<char>, Json>, rules: Seq<SaveRule>, body: Json) -> Map<
    Seq<char>,
    Json,
>
    decreases rules.len(),
{
    if rules.len() == 0 {
        ctx
    } else {
        let prev = apply_saves(ctx, rules.drop_last(), body);
        match json_field(body, rules.last().field@) {
            Some(v) => prev.insert(rules.last().to@, v),
            None => prev,
        }
    }
}

/// Whether every check passed.
pub open spec fn all_passed(rs: Seq<ValidationResult>) -> bool {
    forall|i: int| 0 <= i < rs.len() ==> (#[trigger] rs[i]).passed
}

/// What the transport reports for a request that got a response.
pub struct HttpResponse {
    pub status: u16,
    /// The headers the request carried, as recorded by the transport.
    pub request_headers: Vec<(String, String)>,
    pub headers: Vec<(String, String)>,
    /// The parsed body; a body that does not parse is null.
    pub body: JsonValue,
}

/// A step's request, fully resolved and ready to send.
pub struct RequestPlan {
    /// Where the step stands in the configuration.
    pub step_index: usize,
    pub step_name: String,
    /// The step's method, upper-cased.
    pub method: String,
    /// The method, where it is one the transport sends.
    pub http_method: Option<HttpMethod>,
    /// The path after the environment's prefix, resolution and path mapping.
    pub path: String,
    /// The base URL followed by the path.
    pub url: String,
    pub params: Vec<(String, String)>,
    pub body: Option<JsonValue>,
    pub headers: Vec<(String, String)>,
}

/// The engine for one loaded configuration and its session.
pub struct TestEngine {
    config: TestConfig,
    env_index: usize,
    context: Variables,
}

/// The message for a step id that names no step.
pub open spec fn step_missing_message(name: Seq<char>) -> Seq<char> {
    "step '"@ + name + "' not found"@
}

/// A failed result that carries `error` and the request as it was attempted.
pub open spec fn is_failure(r: ExecutionResult, error: Seq<char>) -> bool {
    &&& !r.success
    &&& r.response_status == 0
    &&& r.response_headers@.len() == 0
    &&& r.response_body is None
    &&& r.validations@.len() == 0
    &&& r.error matches Some(e) && e@ == error
}

/// The result for a step id that names no step.
pub fn step_not_found(step_name: &str, duration_ms: u64) -> (r: ExecutionResult)
    ensures
        is_failure(r, step_missing_message(step_name@)),
        r.step_name@ == step_name@,
        r.request_url@.len() == 0,
        r.request_method@.len() == 0,
        r.request_headers@.len() == 0,
        r.request_body is None,
        r.duration_ms == duration_ms,
{
    let msg = String::from_str("step '").concat(step_name).concat("' not found");
    ExecutionResult {
        success: false,
        step_name: step_name.to_owned(),
        request_url: String::new(),
        request_method: String::new(),
        request_headers: Vec::new(),
        request_body: None,
        response_status: 0,
        response_headers: Vec::new(),
        response_body: None,
        validations: Vec::new(),
        duration_ms,
        error: Some(msg),
    }
}

/// The message for a method the transport does not send.
pub open spec fn unsupported_method_message(method: Seq<char>) -> Seq<char> {
    "unsupported HTTP method: "@ + method
}

/// The message for a method the transport does not send.
pub fn unsupported_method_error(method: &str) -> (r: String)
    ensures
        r@ == unsupported_method_message(method@),
{
    String::from_str("unsupported HTTP method: ").concat(method)
}

/// What the transport is asked to do for a plan: its method, and whether
/// the body goes with it (POST and PUT only); a method it does not send gives
/// the failure message instead.
pub fn dispatch(plan: &RequestPlan) -> (r: Result<(HttpMethod, bool), String>)
    ensures
        match plan.http_method {
            Some(m) => r == Ok::<(HttpMethod, bool), String>((m, sends_body(m))),
            None => r matches Err(e) && e@ == unsupported_method_message(plan.method@),
        },
{
    match plan.http_method {
        Some(m) => {
            let body = match m {
                HttpMethod::Post => true,
                HttpMethod::Put => true,
                _ => false,
            };
            Ok((m, body))
        },
        None => Err(unsupported_method_error(plan.method.as_str())),
    }
}

/// The error for a configuration whose active profile is not set.
pub open spec fn no_active_message() -> Seq<char> {
    "profile.active is not configured"@
}

/// The error for an active profile that names no environment.
pub open spec fn env_missing_message(name: Seq<char>) -> Seq<char> {
    "environment '"@ + name + "' is not configured"@
}

/// The index of the environment the active profile names.
fn find_environment(config: &TestConfig) -> (r: Result<usize, String>)
    ensures
        match r {
            Ok(i) => config.global.profile.active@.len() > 0 && find_last_key(
                config.global.profile.environments@,
                config.global.profile.active@,
            ) == Some(i as int) && i < config.global.profile.environments.len(),
            Err(e) => if config.global.profile.active@.len() == 0 {
                e@ == no_active_message()
            } else {
                find_last_key(
                    config.global.profile.environments@,
                    config.global.profile.active@,
                ) is None && e@ == env_missing_message(config.global.profile.active@)
            },
        },
{
    let active = &config.global.profile.active;
    if active.as_str().unicode_len() == 0 {
        return Err(String::from_str("profile.active is not configured"));
    }
    match find_key(&config.global.profile.environments, active) {
        Some(i) => Ok(i),
        None => Err(
            String::from_str("environment '").concat(active.as_str()).concat(
                "' is not configured",
            ),
        ),
    }
}

/// The request a step resolves to against `vars` in `env`.
pub open spec fn plan_for(
    env: EnvironmentConfig,
    step: Step,
    vars: Map<Seq<char>, Json>,
    p: RequestPlan,
) -> bool {
    &&& p.method@ == upper_of(step.method@)
    &&& p.http_method == method_of(p.method@)
    &&& p.path@ == mapped_path(env, resolve(env.context@ + step.path@, vars))
    &&& p.url@ == env.base_url@ + p.path@
    &&& pairs_view(p.params@) == entries_view(step.params@).map_values(
        |e: (Seq<char>, Json)| (e.0, render(resolve_json(e.1, vars))),
    )
    &&& match step.body {
        Some(b) => p.body matches Some(x) && x@ == resolve_json(b@, vars),
        None => p.body is None,
    }
    &&& pairs_view(p.headers@) == pairs_view(step.headers@).map_values(
        |e: (Seq<char>, Seq<char>)| (e.0, resolve(e.1, vars)),
    )
}

/// Precedence and saved values reach the request: for a step whose path is
/// `a{k}b`, in an environment without path-mapping rules whose prefix, like
/// `a`, holds no `{`, the URL carries the value `k` has among the merged
/// variables: the caller's where it binds `k`, else the step's, else the
/// configuration's, else the session's (where saved response fields live).
pub proof fn law_path_variable(
    env: EnvironmentConfig,
    step: Step,
    session: Map<Seq<char>, Json>,
    globals: Map<Seq<char>, Json>,
    overrides: Map<Seq<char>, Json>,
    p: RequestPlan,
    a: Seq<char>,
    k: Seq<char>,
    b: Seq<char>,
)
    requires
        plan_for(env, step, merged(session, globals, step.variables@, overrides), p),
        env.path_mapping@.len() == 0,
        forall|i: int| 0 <= i < env.context@.len() ==> env.context@[i] != '{',
        forall|i: int| 0 <= i < a.len() ==> a[i] != '{',
        step.path@ == a + (seq!['{'] + k + seq!['}']) + b,
        k.len() > 0,
        forall|i: int| 0 <= i < k.len() ==> k[i] != '}' && k[i] != '.',
        session.contains_key(k) || globals.contains_key(k) || step.variables@.contains_key(k)
            || overrides.contains_key(k),
    ensures
        ({
            let m = merged(session, globals, step.variables@, overrides);
            let head = env.base_url@ + env.context@ + a;
            let tail = resolve(b, m);
            &&& overrides.contains_key(k) ==> p.url@ == head + render(overrides[k]) + tail
            &&& !overrides.contains_key(k) && step.variables@.contains_key(k) ==> p.url@ == head
                + render(step.variables@[k]) + tail
            &&& !overrides.contains_key(k) && !step.variables@.contains_key(k)
                && globals.contains_key(k) ==> p.url@ == head + render(globals[k]) + tail
            &&& !overrides.contains_key(k) && !step.variables@.contains_key(k)
                && !globals.contains_key(k) ==> p.url@ == head + render(session[k]) + tail
        }),
{
    let m = merged(session, globals, step.variables@, overrides);
    let pre = env.context@ + a;
    let tok = seq!['{'] + k + seq!['}'];
    assert(env.context@ + step.path@ =~= pre + tok + b);
    assert forall|i: int| 0 <= i < pre.len() implies pre[i] != '{' by {
        if i >= env.context@.len() {
            assert(pre[i] == a[i - env.context@.len()]);
        }
    }
    law_variable_token(pre, k, b, m);
    assert(pairs_view(env.path_mapping@) =~= Seq::<(Seq<char>, Seq<char>)>::empty());
    let resolved = resolve(env.context@ + step.path@, m);
    assert(mapped_path(env, resolved) == resolved);
    assert(env.base_url@ + (pre + render(m[k]) + resolve(b, m)) =~= env.base_url@ + env.context@
        + a + render(m[k]) + resolve(b, m));
}

impl TestEngine {
    /// The engine's invariant: the active environment is one of the configuration's.
    #[verifier::type_invariant]
    spec fn well_formed(self) -> bool {
        self.env_index < self.config.global.profile.environments.len()
    }

    /// The configuration.
    pub closed spec fn config_spec(&self) -> TestConfig {
        self.config
    }

    /// Where the active environment stands among the configuration's.
    pub closed spec fn env_index_spec(&self) -> int {
        self.env_index as int
    }

    /// The active environment.
    pub open spec fn env_spec(&self) -> EnvironmentConfig {
        self.config_spec().global.profile.environments[self.env_index_spec()].1
    }

    /// The session variables.
    pub closed spec fn context_spec(&self) -> Map<Seq<char>, Json> {
        self.context@
    }

    /// Builds an engine on `config`: its active profile must name an
    /// environment. The session starts with `brand` (the environment's brand)
    /// and `timestamp` (the second of construction, in decimal).
    pub fn new(config: TestConfig) -> (r: Result<TestEngine, String>)
        ensures
            match r {
                Ok(e) => {
                    &&& e.config_spec() == config
                    &&& config.global.profile.active@.len() > 0
                    &&& find_last_key(
                        config.global.profile.environments@,
                        config.global.profile.active@,
                    ) == Some(e.env_index_spec())
                    &&& exists|t: nat| e.context_spec() == map![
                            "brand"@ => Json::Str(e.env_spec().brand@),
                            "timestamp"@ => Json::Str(decimal(t)),
                        ]
                },
                Err(msg) => if config.global.profile.active@.len() == 0 {
                    msg@ == no_active_message()
                } else {
                    find_last_key(
                        config.global.profile.environments@,
                        config.global.profile.active@,
                    ) is None && msg@ == env_missing_message(config.global.profile.active@)
                },
            },
    {
        let env_index = match find_environment(&config) {
            Ok(i) => i,
            Err(e) => {
                return Err(e);
            },
        };
        let mut context = Variables::new();
        let brand = config.global.profile.environments[env_index].1.brand.clone();
        context.insert(String::from_str("brand"), JsonValue::Str(brand));
        let now = now_secs();
        let stamp = decimal_text(now);
        context.insert(String::from_str("timestamp"), JsonValue::Str(stamp));
        let e = TestEngine { config, env_index, context };
        assert(e.context_spec() =~= map![
            "brand"@ => Json::Str(e.env_spec().brand@),
            "timestamp"@ => Json::Str(decimal(now as nat)),
        ]);
        Ok(e)
    }

    /// The active environment.
    pub fn environment(&self) -> (r: &EnvironmentConfig)
        ensures
            *r == self.env_spec(),
    {
        proof {
            use_type_invariant(self);
        }
        &self.config.global.profile.environments[self.env_index].1
    }

    /// Rewrites the prefix of `path` by the active environment's path
    /// mapping: the first rule that applies, or the one with the longest
    /// source where the environment asks for that.
    pub fn transform_path(&self, path: &str) -> (r: String)
        ensures
            r@ == mapped_path(self.env_spec(), path@),
    {
        let env = self.environment();
        if env.path_mapping_longest_first {
            apply_longest_path_mapping(&env.path_mapping, path)
        } else {
            apply_path_mapping(&env.path_mapping, path)
        }
    }

    /// The configuration.
    pub fn config(&self) -> (r: &TestConfig)
        ensures
            *r == self.config_spec(),
    {
        &self.config
    }

    /// The session variables.
    pub fn context(&self) -> (r: &Variables)
        ensures
            r@ == self.context_spec(),
    {
        &self.context
    }

    /// Whether the configuration asks for debug output.
    pub fn debug(&self) -> (r: bool)
        ensures
            r == self.config_spec().global.debug,
    {
        self.config.global.debug
    }

    /// Resolves the request of step `step_name`: the variables are merged
    /// (session, configuration, step, then `overrides`), the environment's
    /// prefix and the step's path are resolved and mapped, and parameters,
    /// body and headers are resolved. A step id that names no step gives the
    /// failed result instead, with no request built.
    pub fn prepare_step(&self, step_name: &str, overrides: Option<&Variables>) -> (r: Result<
        RequestPlan,
        ExecutionResult,
    >)
        ensures
            match find_last_key(self.config_spec().steps@, step_name@) {
                None => r matches Err(res) && is_failure(res, step_missing_message(step_name@))
                    && res.step_name@ == step_name@ && res.duration_ms == 0
                    && res.request_url@.len() == 0 && res.request_method@.len() == 0
                    && res.request_headers@.len() == 0 && res.request_body is None,
                Some(i) => r matches Ok(p) && p.step_index == i && p.step_name@ == step_name@
                    && plan_for(
                    self.env_spec(),
                    self.config_spec().steps[i].1,
                    merged(
                        self.context_spec(),
                        self.config_spec().variables@,
                        self.config_spec().steps[i].1.variables@,
                        match overrides {
                            Some(o) => o@,
                            None => Map::empty(),
                        },
                    ),
                    p,
                ),
            },
    {
        proof {
            use_type_invariant(self);
        }
        let name = step_name.to_owned();
        let idx = match find_key(&self.config.steps, &name) {
            Some(i) => i,
            None => {
                return Err(step_not_found(step_name, 0));
            },
        };
        let step = &self.config.steps[idx].1;
        let env = &self.config.global.profile.environments[self.env_index].1;
        let vars = merge_variables(&self.context, &self.config.variables, &step.variables, overrides);

        let full_path = env.context.clone().concat(step.path.as_str());
        let resolved = replace_variables(full_path.as_str(), &vars);
        let path = self.transform_path(resolved.as_str());

        let mut params: Vec<(String, String)> = Vec::new();
        let mut i: usize = 0;
        let ghost want = entries_view(step.params@).map_values(
            |e: (Seq<char>, Json)| (e.0, render(resolve_json(e.1, vars@))),
        );
        while i < step.params.len()
            invariant
                i <= step.params.len(),
                want == entries_view(step.params@).map_values(
                    |e: (Seq<char>, Json)| (e.0, render(resolve_json(e.1, vars@))),
                ),
                pairs_view(params@) == want.take(i as int),
            decreases step.params.len() - i,
        {
            let v = replace_json_variables(&step.params[i].1, &vars);
            let k = step.params[i].0.clone();
            let t = json_value_to_string(&v);
            let ghost pair = (k@, t@);
            assert(want[i as int] == pair);
            let ghost before = params@;
            params.push((k, t));
            assert(pairs_view(params@) =~= pairs_view(before).push(pair));
            assert(want.take(i + 1) =~= want.take(i as int).push(pair));
            i = i + 1;
        }
        assert(want.take(i as int) =~= want);

        let body = match &step.body {
            Some(b) => Some(replace_json_variables(b, &vars)),
            None => None,
        };

        let mut headers: Vec<(String, String)> = Vec::new();
        let mut j: usize = 0;
        let ghost want_h = pairs_view(step.headers@).map_values(
            |e: (Seq<char>, Seq<char>)| (e.0, resolve(e.1, vars@)),
        );
        while j < step.headers.len()
            invariant
                j <= step.headers.len(),
                want_h == pairs_view(step.headers@).map_values(
                    |e: (Seq<char>, Seq<char>)| (e.0, resolve(e.1, vars@)),
                ),
                pairs_view(headers@) == want_h.take(j as int),
            decreases step.headers.len() - j,
        {
            let k = step.headers[j].0.clone();
            let v = replace_variables(step.headers[j].1.as_str(), &vars);
            let ghost pair = (k@, v@);
            assert(want_h[j as int] == pair);
            let ghost before = headers@;
            headers.push((k, v));
            assert(pairs_view(headers@) =~= pairs_view(before).push(pair));
            assert(want_h.take(j + 1) =~= want_h.take(j as int).push(pair));
            j = j + 1;
        }
        assert(want_h.take(j as int) =~= want_h);

        let url = env.base_url.clone().concat(path.as_str());
        let method = to_upper(step.method.as_str());
        let http_method = parse_method(&method);
        Ok(
            RequestPlan {
                step_index: idx,
                step_name: name,
                method,
                http_method,
                path,
                url,
                params,
                body,
                headers,
            },
        )
    }

    /// Turns the transport's outcome for `plan` into the step's result. On a
    /// response the step's checks run against its body, the extraction rules
    /// update the session variables, and the step succeeds when the status is
    /// a success and every check passed. On a transport error the result is a
    /// failure carrying it, with the request as attempted, and the session is
    /// unchanged.
    pub fn finish_step(
        &mut self,
        plan: RequestPlan,
        outcome: Result<HttpResponse, String>,
        duration_ms: u64,
    ) -> (r: ExecutionResult)
        requires
            plan.step_index < old(self).config_spec().steps.len(),
        ensures
            final(self).config_spec() == old(self).config_spec(),
            final(self).env_index_spec() == old(self).env_index_spec(),
            r.step_name == plan.step_name,
            r.request_url == plan.url,
            r.request_method == plan.method,
            r.request_body == plan.body,
            r.duration_ms == duration_ms,
            match outcome {
                Ok(resp) => {
                    let step = old(self).config_spec().steps[plan.step_index as int].1;
                    &&& r.validations.len() == step.validate.len()
                    &&& forall|i: int|
                        0 <= i < r.validations.len() ==> result_view(#[trigger] r.validations[i])
                            == check_result(step.validate[i], resp.body@)
                    &&& r.success == (all_passed(r.validations@) && success_status(resp.status))
                    &&& r.response_status == resp.status
                    &&& r.request_headers == resp.request_headers
                    &&& r.response_headers == resp.headers
                    &&& r.response_body matches Some(b) && b@ == resp.body@
                    &&& r.error is None
                    &&& final(self).context_spec() == apply_saves(
                        old(self).context_spec(),
                        step.save_response@,
                        resp.body@,
                    )
                },
                Err(e) => {
                    &&& is_failure(r, e@)
                    &&& r.request_headers == plan.headers
                    &&& final(self).context_spec() == old(self).context_spec()
                },
            },
    {
        match outcome {
            Ok(resp) => {
                let idx = plan.step_index;
                let validations = validate_response(&resp.body, &self.config.steps[idx].1.validate);
                let mut passed = true;
                let mut i: usize = 0;
                while i < validations.len()
                    invariant
                        i <= validations.len(),
                        passed == forall|k: int| 0 <= k < i ==> (#[trigger] validations[k]).passed,
                    decreases validations.len() - i,
                {
                    passed = passed && validations[i].passed;
                    i = i + 1;
                }
                proof {
                    use_type_invariant(&*self);
                }
                let mut ctx = Variables::new();
                std::mem::swap(&mut ctx, &mut self.context);
                let ghost ctx0 = ctx@;
                assert(ctx0 == old(self).context_spec());
                let rules = &self.config.steps[idx].1.save_response;
                let n = rules.len();
                let mut j: usize = 0;
                while j < n
                    invariant
                        idx < self.config.steps.len(),
                        rules == &self.config.steps[idx as int].1.save_response,
                        n == rules.len(),
                        j <= n,
                        ctx@ == apply_saves(
                            ctx0,
                            self.config.steps[idx as int].1.save_response@.take(j as int),
                            resp.body@,
                        ),
                    decreases n - j,
                {
                    assert(rules@.take(j + 1).drop_last() =~= rules@.take(j as int));
                    let found = get_json_field(&resp.body, rules[j].field.as_str());
                    match found {
                        Some(v) => {
                            let to = rules[j].to.clone();
                            ctx.insert(to, v);
                        },
                        None => {},
                    }
                    j = j + 1;
                }
                self.context = ctx;
                assert(self.config.steps[idx as int].1.save_response@.take(n as int)
                    =~= self.config.steps[idx as int].1.save_response@);
                let ok = crate::http::is_success(resp.status);
                ExecutionResult {
                    success: passed && ok,
                    step_name: plan.step_name,
                    request_url: plan.url,
                    request_method: plan.method,
                    request_headers: resp.request_headers,
                    request_body: plan.body,
                    response_status: resp.status,
                    response_headers: resp.headers,
                    response_body: Some(resp.body),
                    validations,
                    duration_ms,
                    error: None,
                }
            },
            Err(e) => ExecutionResult {
                success: false,
                step_name: plan.step_name,
                request_url: plan.url,
                request_method: plan.method,
                request_headers: plan.headers,
                request_body: plan.body,
                response_status: 0,
                response_headers: Vec::new(),
                response_body: None,
                validations: Vec::new(),
                duration_ms,
                error: Some(e),
            },
        }
    }

    /// The steps for display, one per id (the entry that the id looks up),
    /// in declared order; a step without a name shows its id.
    pub fn get_step_list(&self) -> (r: Vec<StepInfo>)
        ensures
            forall|j1: int, j2: int| 0 <= j1 < j2 < r.len() ==> r[j1].id@ != r[j2].id@,
            forall|j: int| 0 <= j < r.len() ==> listed_from(#[trigger] r[j], self.config_spec().steps@),
            forall|i: int|
                0 <= i < self.config_spec().steps.len() && #[trigger] is_effective(
                    self.config_spec().steps@,
                    i,
                ) ==> exists|j: int| 0 <= j < r.len() && lists(r[j], self.config_spec().steps[i]),
    {
        let steps = &self.config.steps;
        let mut out: Vec<StepInfo> = Vec::new();
        let ghost mut src: Seq<int> = seq![];
        let mut i: usize = 0;
        while i < steps.len()
            invariant
                i <= steps.len(),
                steps == &self.config.steps,
                src.len() == out.len(),
                forall|j: int|
                    0 <= j < src.len() ==> 0 <= #[trigger] src[j] < i && is_effective(steps@, src[j])
                        && lists(out[j], steps[src[j]]),
                forall|j1: int, j2: int| 0 <= j1 < j2 < src.len() ==> src[j1] < src[j2],
                forall|k: int|
                    0 <= k < i && #[trigger] is_effective(steps@, k) ==> exists|j: int|
                        0 <= j < src.len() && src[j] == k,
            decreases steps.len() - i,
        {
            let id = &steps[i].0;
            let step = &steps[i].1;
            let ghost src0 = src;
            let found = find_key(steps, id);
            if found == Some(i) {
                let name = if step.name.as_str().unicode_len() == 0 {
                    id.clone()
                } else {
                    step.name.clone()
                };
                out.push(
                    StepInfo {
                        id: id.clone(),
                        name,
                        method: step.method.clone(),
                        path: step.path.clone(),
                    },
                );
                proof {
                    src = src.push(i as int);
                    assert(src[src.len() - 1] == i);
                }
            }
            proof {
                assert forall|k: int|
                    0 <= k < i + 1 && #[trigger] is_effective(steps@, k) implies exists|j: int|
                        0 <= j < src.len() && src[j] == k by {
                    if k < i {
                        let j = choose|j: int| 0 <= j < src0.len() && src0[j] == k;
                        assert(src[j] == k);
                    } else {
                        assert(src[src.len() - 1] == k);
                    }
                }
            }
            i = i + 1;
        }
        assert forall|j: int| 0 <= j < out.len() implies listed_from(#[trigger] out[j], steps@) by {
            assert(is_effective(steps@, src[j]) && lists(out[j], steps@[src[j]]));
        }
        assert(self.config_spec().steps == *steps);
        assert forall|j1: int, j2: int| 0 <= j1 < j2 < out.len() implies out[j1].id@ != out[j2].id@ by {
            assert(is_effective(steps@, src[j1]) && is_effective(steps@, src[j2]));
            assert(src[j1] < src[j2]);
        }
        assert forall|k: int|
            0 <= k < steps.len() && #[trigger] is_effective(steps@, k) implies exists|j: int|
                0 <= j < out.len() && lists(out[j], steps[k]) by {
            let j = choose|j: int| 0 <= j < src.len() && src[j] == k;
            assert(lists(out[j], steps[k]));
        }
        out
    }
}

/// Whether `info` lists the step `entry`: its id, its name (the id where the
/// name is empty), its method and its path.
pub open spec fn lists(info: StepInfo, entry: (String, Step)) -> bool {
    &&& info.id@ == entry.0@
    &&& info.name@ == if entry.1.name@.len() == 0 {
        entry.0@
    } else {
        entry.1.name@
    }
    &&& info.method@ == entry.1.method@
    &&& info.path@ == entry.1.path@
}

/// Whether `info` lists an entry of `steps` that its id looks up.
pub open spec fn listed_from(info: StepInfo, steps: Seq<(String, Step)>) -> bool {
    exists|i: int| 0 <= i < steps.len() && is_effective(steps, i) && lists(info, #[trigger] steps[i])
}

/// Whether entry `i` is the one its id looks up (the last entry with that id).
pub open spec fn is_effective<V>(s: Seq<(String, V)>, i: int) -> bool {
    find_last_key(s, s[i].0@) == Some(i)
}

} // verus!
