//! The decisions of the HTTP transport: which token to use or fetch, how it
//! is attached, which headers a request records, and which statuses succeed.
//! Sending is done by the caller, which hands the outcome back.

use vstd::prelude::*;

use crate::cache::{expired, expiry, Cache};
use crate::config::AuthConfig;
use crate::json::{field_of, field_ref, Json, JsonValue};
use crate::text::chars_of;

verus! {

/// How long a fetched token is cached, in seconds.
pub const TOKEN_TTL_SECONDS: u64 = 3600;

/// The cache key a token is stored under: the configured one, else `default_token`.
pub open spec fn cache_key_of(auth: AuthConfig) -> Seq<char> {
    if auth.token_cache_key@.len() == 0 {
        "default_token"@
    } else {
        auth.token_cache_key@
    }
}

/// The `access_token` text inside a token payload.
pub open spec fn access_token_of(payload: Json) -> Option<Seq<char>> {
    match field_of(payload, "access_token"@) {
        Some(Json::Str(t)) => Some(t),
        _ => None,
    }
}

/// What to do about a token before a request.
pub enum TokenStep {
    /// No token is to be used.
    Skip,
    /// This cached token is used.
    Cached(String),
    /// A token is to be fetched: a form post of these fields to this url.
    Fetch { url: String, form: Vec<(String, String)> },
}

/// Where a token goes on a request.
pub enum TokenPlacement {
    Nowhere,
    /// A header with this name and value.
    Header(String, String),
    /// A query parameter with this name and value.
    Query(String, String),
}

/// Whether a status code is a success (2xx).
pub open spec fn success_status(status: u16) -> bool {
    200 <= status <= 299
}

/// Whether a status code is a success (2xx).
pub fn is_success(status: u16) -> (r: bool)
    ensures
        r == success_status(status),
{
    200 <= status && status <= 299
}

/// The cache key a token is stored under.
pub fn token_cache_key(auth: &AuthConfig) -> (r: String)
    ensures
        r@ == cache_key_of(*auth),
{
    if auth.token_cache_key.as_str().unicode_len() == 0 {
        String::from_str("default_token")
    } else {
        auth.token_cache_key.clone()
    }
}

/// The `access_token` text inside a token payload.
pub fn access_token(payload: &JsonValue) -> (r: Option<String>)
    ensures
        match r {
            Some(t) => access_token_of(payload@) == Some(t@),
            None => access_token_of(payload@) is None,
        },
{
    let key = String::from_str("access_token");
    match field_ref(payload, &key) {
        Some(JsonValue::Str(t)) => Some(t.clone()),
        _ => None,
    }
}

/// Decides, at second `now`, whether a token is skipped, taken from the cache
/// or fetched.
pub fn token_step(auth: Option<&AuthConfig>, cache: &Cache, now: u64) -> (r: TokenStep)
    ensures
        match auth {
            None => r is Skip,
            Some(a) => if a.token_url@.len() == 0 {
                r is Skip
            } else {
                let key = cache_key_of(*a);
                let hit = cache@.contains_key(key) && !expired(cache@[key].1, now);
                match r {
                    TokenStep::Skip => false,
                    TokenStep::Cached(t) => hit && access_token_of(cache@[key].0) == Some(t@),
                    TokenStep::Fetch { url, form } => !(hit && access_token_of(cache@[key].0) is Some)
                        && url@ == a.token_url@ && form@.len() == 4
                        && form@[0].0@ == "client_id"@ && form@[0].1@ == a.client_id@
                        && form@[1].0@ == "grant_type"@ && form@[1].1@ == a.grant_type@
                        && form@[2].0@ == "username"@ && form@[2].1@ == a.username@
                        && form@[3].0@ == "password"@ && form@[3].1@ == a.password@,
                }
            },
        },
{
    match auth {
        None => TokenStep::Skip,
        Some(a) => {
            if a.token_url.as_str().unicode_len() == 0 {
                return TokenStep::Skip;
            }
            let key = token_cache_key(a);
            match cache.get_at(key.as_str(), now) {
                Some(payload) => match access_token(&payload) {
                    Some(t) => {
                        return TokenStep::Cached(t);
                    },
                    None => {},
                },
                None => {},
            }
            let mut form: Vec<(String, String)> = Vec::new();
            form.push((String::from_str("client_id"), a.client_id.clone()));
            form.push((String::from_str("grant_type"), a.grant_type.clone()));
            form.push((String::from_str("username"), a.username.clone()));
            form.push((String::from_str("password"), a.password.clone()));
            TokenStep::Fetch { url: a.token_url.clone(), form }
        },
    }
}

/// Takes the answer to a token request at second `now`: on a success status
/// with a parsed payload, the payload is cached for an hour under the token's
/// cache key and its `access_token` is returned; otherwise nothing changes
/// and there is no token.
pub fn accept_token_response(
    cache: &mut Cache,
    auth: &AuthConfig,
    status: u16,
    payload: Option<JsonValue>,
    now: u64,
) -> (r: Option<String>)
    ensures
        match payload {
            Some(p) if success_status(status) => {
                &&& final(cache)@ == old(cache)@.insert(
                    cache_key_of(*auth),
                    (p@, expiry(now, Some(TOKEN_TTL_SECONDS))),
                )
                &&& match r {
                    Some(t) => access_token_of(p@) == Some(t@),
                    None => access_token_of(p@) is None,
                }
            },
            _ => final(cache)@ == old(cache)@ && r is None,
        },
{
    if !is_success(status) {
        return None;
    }
    match payload {
        Some(p) => {
            let token = access_token(&p);
            let key = token_cache_key(auth);
            cache.set_at(key.as_str(), p, Some(TOKEN_TTL_SECONDS), now);
            token
        },
        None => None,
    }
}

/// Where a token goes, by the configuration: as a header `{prefix} {token}`
/// (name `Authorization` and prefix `Bearer` unless configured), or as a
/// query parameter (name `access_token` unless configured); an empty position
/// means a header, and any other position attaches nothing.
pub open spec fn placement_of(auth: AuthConfig, token: Seq<char>) -> (Option<bool>, Seq<char>, Seq<char>) {
    let pos = if auth.auth_position@.len() == 0 { "header"@ } else { auth.auth_position@ };
    if pos == "header"@ {
        let key = if auth.auth_key@.len() == 0 { "Authorization"@ } else { auth.auth_key@ };
        let prefix = if auth.auth_prefix@.len() == 0 { "Bearer"@ } else { auth.auth_prefix@ };
        (Some(true), key, prefix + seq![' '] + token)
    } else if pos == "query"@ {
        let key = if auth.auth_key@.len() == 0 { "access_token"@ } else { auth.auth_key@ };
        (Some(false), key, token)
    } else {
        (None, seq![], seq![])
    }
}

/// The view of a placement: header or query (or neither), name and value.
pub open spec fn placement_view(p: TokenPlacement) -> (Option<bool>, Seq<char>, Seq<char>) {
    match p {
        TokenPlacement::Nowhere => (None, seq![], seq![]),
        TokenPlacement::Header(k, v) => (Some(true), k@, v@),
        TokenPlacement::Query(k, v) => (Some(false), k@, v@),
    }
}

/// Where `token` goes on a request under `auth`.
pub fn token_placement(auth: &AuthConfig, token: &String) -> (r: TokenPlacement)
    ensures
        placement_view(r) == placement_of(*auth, token@),
{
    let pos = if auth.auth_position.as_str().unicode_len() == 0 {
        String::from_str("header")
    } else {
        auth.auth_position.clone()
    };
    if pos == String::from_str("header") {
        let key = if auth.auth_key.as_str().unicode_len() == 0 {
            String::from_str("Authorization")
        } else {
            auth.auth_key.clone()
        };
        let prefix = if auth.auth_prefix.as_str().unicode_len() == 0 {
            String::from_str("Bearer")
        } else {
            auth.auth_prefix.clone()
        };
        let value = prefix.concat(" ").concat(token.as_str());
        proof {
            reveal_strlit(" ");
        }
        assert(value@ =~= placement_of(*auth, token@).2);
        TokenPlacement::Header(key, value)
    } else if pos == String::from_str("query") {
        let key = if auth.auth_key.as_str().unicode_len() == 0 {
            String::from_str("access_token")
        } else {
            auth.auth_key.clone()
        };
        TokenPlacement::Query(key, token.clone())
    } else {
        TokenPlacement::Nowhere
    }
}

/// Attaches a token where `placement` says: a header is added to `headers`,
/// a query parameter to `query`; neither list changes otherwise. The entry
/// goes last, so where a custom header has the same name, the token's entry
/// is the later one, and a later entry for a name is the one in effect.
pub fn attach_token(
    headers: &mut Vec<(String, String)>,
    query: &mut Vec<(String, String)>,
    placement: TokenPlacement,
)
    ensures
        match placement_view(placement) {
            (Some(true), k, v) => final(headers)@.len() == old(headers)@.len() + 1
                && final(headers)@.take(old(headers)@.len() as int) == old(headers)@
                && final(headers)@.last().0@ == k && final(headers)@.last().1@ == v
                && final(query)@ == old(query)@,
            (Some(false), k, v) => final(query)@.len() == old(query)@.len() + 1
                && final(query)@.take(old(query)@.len() as int) == old(query)@
                && final(query)@.last().0@ == k && final(query)@.last().1@ == v
                && final(headers)@ == old(headers)@,
            _ => final(headers)@ == old(headers)@ && final(query)@ == old(query)@,
        },
{
    match placement {
        TokenPlacement::Header(k, v) => {
            let ghost before = headers@;
            headers.push((k, v));
            assert(headers@.take(before.len() as int) =~= before);
        },
        TokenPlacement::Query(k, v) => {
            let ghost before = query@;
            query.push((k, v));
            assert(query@.take(before.len() as int) =~= before);
        },
        TokenPlacement::Nowhere => {},
    }
}

/// The header name `content-type`, in lower case.
pub open spec fn content_type_name() -> Seq<char> {
    seq!['c', 'o', 'n', 't', 'e', 'n', 't', '-', 't', 'y', 'p', 'e']
}

/// Whether `a` is `lower` or, for a lower-case ASCII letter, its upper case.
pub open spec fn same_ignoring_case(a: char, lower: char) -> bool {
    a == lower || ('a' <= lower && lower <= 'z' && (a as u32) + 32 == lower as u32)
}

/// Whether a header name is `content-type` in any ASCII casing.
pub open spec fn is_content_type_name(name: Seq<char>) -> bool {
    name.len() == content_type_name().len() && forall|i: int|
        0 <= i < name.len() ==> same_ignoring_case(#[trigger] name[i], content_type_name()[i])
}

/// Whether a list of headers names a content type, in any ASCII casing.
pub open spec fn has_content_type(headers: Seq<(String, String)>) -> bool {
    exists|i: int| 0 <= i < headers.len() && is_content_type_name(#[trigger] headers[i].0@)
}

/// Whether a header name is `content-type` in any ASCII casing.
fn names_content_type(name: &String) -> (r: bool)
    ensures
        r == is_content_type_name(name@),
{
    let cs = chars_of(name.as_str());
    let target = chars_of("content-type");
    proof {
        reveal_strlit("content-type");
    }
    assert(target@ =~= content_type_name());
    if cs.len() != target.len() {
        return false;
    }
    let mut i: usize = 0;
    while i < cs.len()
        invariant
            i <= cs.len(),
            cs.len() == target.len(),
            cs@ == name@,
            target@ == content_type_name(),
            forall|k: int| 0 <= k < i ==> same_ignoring_case(#[trigger] cs@[k], target@[k]),
        decreases cs.len() - i,
    {
        let a = cs[i];
        let b = target[i];
        let same = a == b || ('a' <= b && b <= 'z' && (a as u32) == (b as u32) - 32);
        if !same {
            assert(!same_ignoring_case(name@[i as int], content_type_name()[i as int]));
            return false;
        }
        i = i + 1;
    }
    true
}

/// Records the `content-type: application/json` header that a structured
/// body brings, unless the headers already name a content type in any casing.
pub fn record_json_content_type(headers: &mut Vec<(String, String)>, has_body: bool)
    ensures
        if has_body && !has_content_type(old(headers)@) {
            &&& final(headers)@.len() == old(headers)@.len() + 1
            &&& final(headers)@.take(old(headers)@.len() as int) == old(headers)@
            &&& final(headers)@.last().0@ == "content-type"@
            &&& final(headers)@.last().1@ == "application/json"@
        } else {
            final(headers)@ == old(headers)@
        },
{
    if !has_body {
        return;
    }
    let mut i: usize = 0;
    while i < headers.len()
        invariant
            i <= headers.len(),
            headers@ == old(headers)@,
            forall|k: int| 0 <= k < i ==> !is_content_type_name(#[trigger] headers@[k].0@),
        decreases headers.len() - i,
    {
        if names_content_type(&headers[i].0) {
            return;
        }
        i = i + 1;
    }
    let ghost before = headers@;
    headers.push((String::from_str("content-type"), String::from_str("application/json")));
    assert(headers@.take(before.len() as int) =~= before);
}

} // verus!
