//! `{dotted.path}` templates and their resolution against variables.

use vstd::prelude::*;

use crate::json::{json_value_to_string, render, Json, JsonValue, entries_view};
use crate::path::{split_dots, split_path, texts_view, walk, walk_segments};
use crate::text::{append_chars, chars_of, text_of};
use crate::vars::Variables;

verus! {

broadcast use vstd::std_specs::vec::group_vec_axioms;

/// The index of the first `}` in `s`.
pub open spec fn first_close(s: Seq<char>) -> Option<int>
    decreases s.len(),
{
    if s.len() == 0 {
        None
    } else if s[0] == '}' {
        Some(0)
    } else {
        match first_close(s.drop_first()) {
            Some(j) => Some(j + 1),
            None => None,
        }
    }
}

/// Where the token that opens at the start of `t` closes: `t` starts with `{`,
/// and its first `}` comes after at least one other character.
pub open spec fn token_end(t: Seq<char>) -> Option<int> {
    if t.len() > 0 && t[0] == '{' {
        match first_close(t.drop_first()) {
            Some(k) => if k >= 1 {
                Some(k + 1)
            } else {
                None
            },
            None => None,
        }
    } else {
        None
    }
}

/// The value a dotted path names: its first segment is a variable, the rest
/// descend into object members.
pub open spec fn path_value(vars: Map<Seq<char>, Json>, path: Seq<char>) -> Option<Json> {
    let segs = split_dots(path);
    if vars.contains_key(segs[0]) {
        walk(vars[segs[0]], segs.drop_first())
    } else {
        None
    }
}

/// What the token `{name}` becomes: the rendered value, or the token itself
/// where the path names nothing.
pub open spec fn token_text(name: Seq<char>, vars: Map<Seq<char>, Json>) -> Seq<char> {
    match path_value(vars, name) {
        Some(v) => render(v),
        None => seq!['{'] + name + seq!['}'],
    }
}

/// A template with every token replaced, scanning from the left; text that is
/// not part of a token is kept as it is.
pub open spec fn resolve(t: Seq<char>, vars: Map<Seq<char>, Json>) -> Seq<char>
    decreases t.len(),
{
    if t.len() == 0 {
        seq![]
    } else {
        match token_end(t) {
            Some(j) => if 1 < j < t.len() {
                token_text(t.subrange(1, j), vars) + resolve(t.skip(j + 1), vars)
            } else {
                seq![]
            },
            None => seq![t[0]] + resolve(t.skip(1), vars),
        }
    }
}

/// The index of the first `}` at or after `from`.
fn find_close(cs: &Vec<char>, from: usize) -> (r: Option<usize>)
    requires
        from <= cs.len(),
    ensures
        match r {
            Some(j) => from <= j < cs.len() && first_close(cs@.skip(from as int)) == Some(
                j - from,
            ),
            None => first_close(cs@.skip(from as int)) is None,
        },
{
    let mut k: usize = from;
    while k < cs.len()
        invariant
            from <= k <= cs.len(),
            first_close(cs@.skip(from as int)) == match first_close(cs@.skip(k as int)) {
                Some(j) => Some(j + (k - from)),
                None => None,
            },
        decreases cs.len() - k,
    {
        assert(cs@.skip(k as int)[0] == cs@[k as int]);
        if cs[k] == '}' {
            return Some(k);
        }
        assert(cs@.skip(k as int).drop_first() =~= cs@.skip(k + 1));
        k = k + 1;
    }
    assert(cs@.skip(k as int) =~= Seq::<char>::empty());
    None
}

/// The characters of `cs` from `a` up to `b`.
fn sub_chars(cs: &Vec<char>, a: usize, b: usize) -> (r: Vec<char>)
    requires
        a <= b <= cs.len(),
    ensures
        r@ == cs@.subrange(a as int, b as int),
{
    let mut r: Vec<char> = Vec::new();
    let mut k: usize = a;
    while k < b
        invariant
            a <= k <= b <= cs.len(),
            r@ == cs@.subrange(a as int, k as int),
        decreases b - k,
    {
        r.push(cs[k]);
        k = k + 1;
        assert(r@ =~= cs@.subrange(a as int, k as int));
    }
    r
}

/// The value a dotted path names among `vars`.
pub fn lookup_path<'a>(vars: &'a Variables, path: &str) -> (r: Option<&'a JsonValue>)
    ensures
        match r {
            Some(v) => path_value(vars@, path@) == Some(v@),
            None => path_value(vars@, path@) is None,
        },
{
    let segs = split_path(path);
    assert(texts_view(segs@)[0] == segs@[0]@);
    assert(texts_view(segs@).skip(1) =~= split_dots(path@).drop_first());
    match vars.get(&segs[0]) {
        Some(first) => walk_segments(first, &segs, 1),
        None => None,
    }
}

/// Replaces every `{dotted.path}` token of `text` by the value it names in
/// `vars`; a token whose path names nothing is left as it stands.
pub fn replace_variables(text: &str, vars: &Variables) -> (r: String)
    ensures
        r@ == resolve(text@, vars@),
{
    let cs = chars_of(text);
    let mut out: Vec<char> = Vec::new();
    let mut i: usize = 0;
    assert(cs@.skip(0) =~= cs@);
    while i < cs.len()
        invariant
            i <= cs.len(),
            cs@ == text@,
            resolve(text@, vars@) == out@ + resolve(cs@.skip(i as int), vars@),
        decreases cs.len() - i,
    {
        let ghost rest = cs@.skip(i as int);
        assert(rest[0] == cs@[i as int]);
        assert(rest.skip(1) =~= cs@.skip(i + 1));
        let mut consumed = false;
        if cs[i] == '{' {
            assert(rest.drop_first() =~= cs@.skip(i + 1));
            match find_close(&cs, i + 1) {
                Some(j) => {
                    if j > i + 1 {
                        assert(token_end(rest) == Some(j - i));
                        assert(rest.subrange(1, (j - i) as int) =~= cs@.subrange(i + 1, j as int));
                        assert(rest.skip(j - i + 1) =~= cs@.skip(j + 1));
                        let name_chars = sub_chars(&cs, i + 1, j);
                        let name = text_of(&name_chars);
                        match lookup_path(vars, name.as_str()) {
                            Some(v) => {
                                let s = json_value_to_string(v);
                                let sc = chars_of(s.as_str());
                                append_chars(&mut out, &sc);
                            },
                            None => {
                                out.push('{');
                                append_chars(&mut out, &name_chars);
                                out.push('}');
                            },
                        }
                        i = j + 1;
                        consumed = true;
                    }
                },
                None => {},
            }
        }
        if !consumed {
            out.push(cs[i]);
            i = i + 1;
        }
    }
    assert(cs@.skip(i as int) =~= Seq::<char>::empty());
    assert(out@ =~= resolve(text@, vars@));
    text_of(&out)
}

/// A value with every string inside it resolved as a template; keys, and
/// scalars other than strings, are kept.
pub open spec fn resolve_json(v: Json, vars: Map<Seq<char>, Json>) -> Json
    decreases v,
{
    match v {
        Json::Str(s) => Json::Str(resolve(s, vars)),
        Json::Array(xs) => Json::Array(
            Seq::new(
                xs.len(),
                |i: int|
                    if 0 <= i < xs.len() {
                        resolve_json(xs[i], vars)
                    } else {
                        Json::Null
                    },
            ),
        ),
        Json::Object(xs) => Json::Object(
            Seq::new(
                xs.len(),
                |i: int|
                    if 0 <= i < xs.len() {
                        (xs[i].0, resolve_json(xs[i].1, vars))
                    } else {
                        (Seq::empty(), Json::Null)
                    },
            ),
        ),
        _ => v,
    }
}

/// Entries with each value resolved as [`resolve_json`] says.
pub open spec fn resolve_entries(
    s: Seq<(Seq<char>, Json)>,
    vars: Map<Seq<char>, Json>,
) -> Seq<(Seq<char>, Json)> {
    s.map_values(|e: (Seq<char>, Json)| (e.0, resolve_json(e.1, vars)))
}

/// Resolves every string inside `value` as a template.
pub fn replace_json_variables(value: &JsonValue, vars: &Variables) -> (r: JsonValue)
    ensures
        r@ == resolve_json(value@, vars@),
    decreases value,
{
    match value {
        JsonValue::Str(s) => JsonValue::Str(replace_variables(s.as_str(), vars)),
        JsonValue::Array(xs) => {
            let mut out: Vec<JsonValue> = Vec::new();
            let mut i: usize = 0;
            while i < xs.len()
                invariant
                    i <= xs.len(),
                    out.len() == i,
                    *value == JsonValue::Array(*xs),
                    forall|j: int|
                        0 <= j < i ==> (#[trigger] out[j])@ == resolve_json(xs[j]@, vars@),
                decreases xs.len() - i,
            {
                assert(decreases_to!(*value => (*value)->Array_0));
                assert(decreases_to!((*value)->Array_0 => xs[i as int]));
                out.push(replace_json_variables(&xs[i], vars));
                i = i + 1;
            }
            let r = JsonValue::Array(out);
            assert(r@->Array_0 =~= resolve_json(value@, vars@)->Array_0);
            r
        },
        JsonValue::Object(xs) => {
            let mut out: Vec<(String, JsonValue)> = Vec::new();
            let mut i: usize = 0;
            while i < xs.len()
                invariant
                    i <= xs.len(),
                    out.len() == i,
                    *value == JsonValue::Object(*xs),
                    forall|j: int|
                        0 <= j < i ==> (#[trigger] out[j]).0@ == xs[j].0@ && out[j].1@
                            == resolve_json(xs[j].1@, vars@),
                decreases xs.len() - i,
            {
                assert(decreases_to!(*value => (*value)->Object_0));
                assert(decreases_to!((*value)->Object_0 => xs[i as int]));
                assert(decreases_to!(xs[i as int] => xs[i as int].1));
                out.push((xs[i].0.clone(), replace_json_variables(&xs[i].1, vars)));
                i = i + 1;
            }
            let r = JsonValue::Object(out);
            assert(r@->Object_0 =~= resolve_json(value@, vars@)->Object_0);
            r
        },
        JsonValue::Null => JsonValue::Null,
        JsonValue::Bool(b) => JsonValue::Bool(*b),
        JsonValue::Number(n) => JsonValue::Number(n.clone()),
    }
}

/// Resolves every value of a list of named entries as a template.
pub fn replace_map_variables(map: &Vec<(String, JsonValue)>, vars: &Variables) -> (r: Vec<
    (String, JsonValue),
>)
    ensures
        entries_view(r@) == resolve_entries(entries_view(map@), vars@),
{
    let mut out: Vec<(String, JsonValue)> = Vec::new();
    let mut i: usize = 0;
    while i < map.len()
        invariant
            i <= map.len(),
            entries_view(out@) == resolve_entries(entries_view(map@), vars@).take(i as int),
        decreases map.len() - i,
    {
        let ghost before = out@;
        let k = map[i].0.clone();
        let v = replace_json_variables(&map[i].1, vars);
        let ghost pair = (k@, v@);
        assert(resolve_entries(entries_view(map@), vars@)[i as int] == pair);
        out.push((k, v));
        assert(entries_view(out@) =~= entries_view(before).push(pair));
        assert(entries_view(out@) =~= resolve_entries(entries_view(map@), vars@).take(i + 1));
        i = i + 1;
    }
    assert(resolve_entries(entries_view(map@), vars@).take(i as int) =~= resolve_entries(
        entries_view(map@),
        vars@,
    ));
    out
}

/// Whether `s` holds no brace at all.
pub open spec fn brace_free(s: Seq<char>) -> bool {
    forall|i: int| 0 <= i < s.len() ==> s[i] != '{' && s[i] != '}'
}

/// Whether `s` holds no closing brace.
pub open spec fn close_free(s: Seq<char>) -> bool {
    forall|i: int| 0 <= i < s.len() ==> s[i] != '}'
}

/// Whether every value that resolving `t` substitutes renders without braces.
pub open spec fn substitutions_brace_free(t: Seq<char>, vars: Map<Seq<char>, Json>) -> bool
    decreases t.len(),
{
    if t.len() == 0 {
        true
    } else {
        match token_end(t) {
            Some(j) => if 1 < j < t.len() {
                (match path_value(vars, t.subrange(1, j)) {
                    Some(v) => brace_free(render(v)),
                    None => true,
                }) && substitutions_brace_free(t.skip(j + 1), vars)
            } else {
                true
            },
            None => substitutions_brace_free(t.skip(1), vars),
        }
    }
}

proof fn lemma_first_close_bounds(s: Seq<char>)
    ensures
        match first_close(s) {
            Some(k) => 0 <= k < s.len() && s[k] == '}' && close_free(s.take(k)),
            None => close_free(s),
        },
    decreases s.len(),
{
    if s.len() > 0 && s[0] != '}' {
        lemma_first_close_bounds(s.drop_first());
        match first_close(s.drop_first()) {
            Some(k) => {
                assert forall|i: int| 0 <= i < k + 1 implies #[trigger] s.take(k + 1)[i] != '}' by {
                    if i > 0 {
                        assert(s.take(k + 1)[i] == s.drop_first().take(k)[i - 1]);
                    }
                }
            },
            None => {
                assert forall|i: int| 0 <= i < s.len() implies s[i] != '}' by {
                    if i > 0 {
                        assert(s[i] == s.drop_first()[i - 1]);
                    }
                }
            },
        }
    }
}

proof fn lemma_first_close_at(s: Seq<char>, k: int)
    requires
        0 <= k < s.len(),
        s[k] == '}',
        close_free(s.take(k)),
    ensures
        first_close(s) == Some(k),
    decreases k,
{
    if k > 0 {
        assert(s[0] == s.take(k)[0]);
        assert(s.drop_first().take(k - 1) =~= s.take(k).drop_first());
        lemma_first_close_at(s.drop_first(), k - 1);
    }
}

proof fn lemma_resolve_literal(c: char, s: Seq<char>, vars: Map<Seq<char>, Json>)
    requires
        c != '{',
    ensures
        resolve(seq![c] + s, vars) == seq![c] + resolve(s, vars),
{
    assert((seq![c] + s).skip(1) =~= s);
}

/// Text without an opening brace passes through resolution unchanged.
pub proof fn lemma_resolve_plain_prefix(a: Seq<char>, s: Seq<char>, vars: Map<Seq<char>, Json>)
    requires
        forall|i: int| 0 <= i < a.len() ==> a[i] != '{',
    ensures
        resolve(a + s, vars) == a + resolve(s, vars),
    decreases a.len(),
{
    if a.len() > 0 {
        let rest = a.drop_first();
        assert(a + s =~= seq![a[0]] + (rest + s));
        lemma_resolve_plain_prefix(rest, s, vars);
        lemma_resolve_literal(a[0], rest + s, vars);
        assert(a =~= seq![a[0]] + rest);
    } else {
        assert(a + s =~= s);
    }
}

/// Text without a closing brace holds no token, so resolution leaves it as it is.
pub proof fn lemma_resolve_close_free(t: Seq<char>, vars: Map<Seq<char>, Json>)
    requires
        close_free(t),
    ensures
        resolve(t, vars) == t,
    decreases t.len(),
{
    if t.len() > 0 {
        lemma_first_close_bounds(t.drop_first());
        if first_close(t.drop_first()) is Some {
            let k = first_close(t.drop_first())->0;
            assert(t.drop_first()[k] == t[k + 1]);
        }
        assert(token_end(t) is None);
        lemma_resolve_close_free(t.skip(1), vars);
        assert(t =~= seq![t[0]] + t.skip(1));
    }
}

/// A token whose path names nothing is kept as it stands, and resolution goes
/// on after it.
pub proof fn lemma_unresolved_token_kept(
    name: Seq<char>,
    rest: Seq<char>,
    vars: Map<Seq<char>, Json>,
)
    requires
        name.len() > 0,
        close_free(name),
        path_value(vars, name) is None,
    ensures
        resolve(seq!['{'] + name + seq!['}'] + rest, vars) == seq!['{'] + name + seq!['}']
            + resolve(rest, vars),
{
    let t = seq!['{'] + name + seq!['}'] + rest;
    let k = name.len() as int;
    assert(t.drop_first().take(k) =~= name);
    assert(t.drop_first()[k] == '}');
    lemma_first_close_at(t.drop_first(), k);
    assert(token_end(t) == Some(k + 1));
    assert(t.subrange(1, k + 1) =~= name);
    assert(t.skip(k + 2) =~= rest);
}

/// Whether every `{` of `a` has a `}` after it within `a`, so that a scan of
/// `a` never reads past its end for a token.
pub open spec fn braces_closed(a: Seq<char>) -> bool {
    forall|i: int|
        0 <= i < a.len() && a[i] == '{' ==> exists|j: int| i < j < a.len() && #[trigger] a[j] == '}'
}

proof fn lemma_first_close_prefix(x: Seq<char>, y: Seq<char>)
    requires
        first_close(x) is Some,
    ensures
        first_close(x + y) == first_close(x),
    decreases x.len(),
{
    if x[0] != '}' {
        assert((x + y).drop_first() =~= x.drop_first() + y);
        lemma_first_close_prefix(x.drop_first(), y);
    }
}

/// Text whose every `{` is closed within it resolves on its own: resolving
/// it followed by more text is resolving each part.
pub proof fn lemma_resolve_split(a: Seq<char>, s: Seq<char>, vars: Map<Seq<char>, Json>)
    requires
        braces_closed(a),
    ensures
        resolve(a + s, vars) == resolve(a, vars) + resolve(s, vars),
    decreases a.len(),
{
    if a.len() == 0 {
        assert(a + s =~= s);
    } else {
        let t = a + s;
        assert(t[0] == a[0]);
        if a[0] != '{' {
            assert(t.skip(1) =~= a.skip(1) + s);
            assert(braces_closed(a.skip(1))) by {
                assert forall|i: int| 0 <= i < a.skip(1).len() && a.skip(1)[i] == '{' implies exists|j: int|
                    i < j < a.skip(1).len() && #[trigger] a.skip(1)[j] == '}' by {
                    let j = choose|j: int| i + 1 < j < a.len() && #[trigger] a[j] == '}';
                    assert(a.skip(1)[j - 1] == '}');
                }
            }
            lemma_resolve_split(a.skip(1), s, vars);
            assert(token_end(t) is None);
            assert(token_end(a) is None);
        } else {
            let j0 = choose|j: int| 0 < j < a.len() && #[trigger] a[j] == '}';
            lemma_first_close_bounds(a.drop_first());
            if first_close(a.drop_first()) is None {
                assert(a.drop_first()[j0 - 1] == '}');
            }
            let k = first_close(a.drop_first())->0;
            assert(t.drop_first() =~= a.drop_first() + s);
            lemma_first_close_prefix(a.drop_first(), s);
            let skip = if k >= 1 { k + 2 } else { 1 };
            assert(t.skip(skip) =~= a.skip(skip) + s);
            assert(braces_closed(a.skip(skip))) by {
                assert forall|i: int| 0 <= i < a.skip(skip).len() && a.skip(skip)[i] == '{' implies exists|j: int|
                    i < j < a.skip(skip).len() && #[trigger] a.skip(skip)[j] == '}' by {
                    assert(a[i + skip] == '{');
                    let j = choose|j: int| i + skip < j < a.len() && #[trigger] a[j] == '}';
                    assert(a.skip(skip)[j - skip] == '}');
                }
            }
            lemma_resolve_split(a.skip(skip), s, vars);
            if k >= 1 {
                assert(a.drop_first()[k] == a[k + 1]);
                assert(t.subrange(1, k + 1) =~= a.subrange(1, k + 1));
            }
        }
    }
}

/// Resolution keeps an unresolvable `{path}` token as literal text, at its
/// place: after any text whose every `{` is closed within it (so that the
/// token is one that the scan reads), a token whose path names nothing in
/// `vars` stands unchanged between the resolved text before and after it.
pub proof fn law_unresolvable_token_preserved(
    prefix: Seq<char>,
    name: Seq<char>,
    rest: Seq<char>,
    vars: Map<Seq<char>, Json>,
)
    requires
        braces_closed(prefix),
        name.len() > 0,
        close_free(name),
        path_value(vars, name) is None,
    ensures
        resolve(prefix + (seq!['{'] + name + seq!['}']) + rest, vars) == resolve(prefix, vars) + (
        seq!['{'] + name + seq!['}']) + resolve(rest, vars),
{
    let tok = seq!['{'] + name + seq!['}'];
    assert(prefix + tok + rest =~= prefix + (tok + rest));
    lemma_resolve_split(prefix, tok + rest, vars);
    lemma_unresolved_token_kept(name, rest, vars);
    assert(tok + rest =~= seq!['{'] + name + seq!['}'] + rest);
    assert(resolve(prefix, vars) + (tok + resolve(rest, vars)) =~= resolve(prefix, vars) + tok
        + resolve(rest, vars));
}

proof fn lemma_split_dot_free(k: Seq<char>)
    requires
        forall|i: int| 0 <= i < k.len() ==> k[i] != '.',
    ensures
        split_dots(k) == seq![k],
    decreases k.len(),
{
    if k.len() > 0 {
        lemma_split_dot_free(k.drop_last());
        assert(k.last() != '.');
        assert(k.drop_last().push(k.last()) =~= k);
        assert(seq![k.drop_last()].update(0, k) =~= seq![k]);
    } else {
        assert(k =~= Seq::<char>::empty());
    }
}

/// A token naming a bound variable (a name without dots or closing braces),
/// after text without an opening brace, is replaced by that variable's
/// rendered value.
pub proof fn law_variable_token(
    prefix: Seq<char>,
    name: Seq<char>,
    rest: Seq<char>,
    vars: Map<Seq<char>, Json>,
)
    requires
        forall|i: int| 0 <= i < prefix.len() ==> prefix[i] != '{',
        name.len() > 0,
        close_free(name),
        forall|i: int| 0 <= i < name.len() ==> name[i] != '.',
        vars.contains_key(name),
    ensures
        resolve(prefix + (seq!['{'] + name + seq!['}']) + rest, vars) == prefix + render(vars[name])
            + resolve(rest, vars),
{
    let tok = seq!['{'] + name + seq!['}'];
    assert(prefix + tok + rest =~= prefix + (tok + rest));
    lemma_resolve_plain_prefix(prefix, tok + rest, vars);
    lemma_split_dot_free(name);
    assert(split_dots(name).drop_first() =~= Seq::<Seq<char>>::empty());
    assert(path_value(vars, name) == Some(vars[name]));
    let t = tok + rest;
    let k = name.len() as int;
    assert(t.drop_first().take(k) =~= name);
    assert(t.drop_first()[k] == '}');
    lemma_first_close_at(t.drop_first(), k);
    assert(token_end(t) == Some(k + 1));
    assert(t.subrange(1, k + 1) =~= name);
    assert(t.skip(k + 2) =~= rest);
    assert(prefix + (render(vars[name]) + resolve(rest, vars)) =~= prefix + render(vars[name])
        + resolve(rest, vars));
}

/// Resolution is idempotent: resolving the output of a resolution again
/// changes nothing, provided no substituted value renders with a brace (such
/// a value could carry a new token into the output).
pub proof fn law_resolve_idempotent(t: Seq<char>, vars: Map<Seq<char>, Json>)
    requires
        substitutions_brace_free(t, vars),
    ensures
        resolve(resolve(t, vars), vars) == resolve(t, vars),
    decreases t.len(),
{
    if t.len() > 0 {
        lemma_first_close_bounds(t.drop_first());
        match token_end(t) {
            Some(j) => {
                let name = t.subrange(1, j);
                let rest = t.skip(j + 1);
                law_resolve_idempotent(rest, vars);
                assert(name =~= t.drop_first().take(j - 1));
                match path_value(vars, name) {
                    Some(v) => {
                        lemma_resolve_plain_prefix(render(v), resolve(rest, vars), vars);
                    },
                    None => {
                        lemma_unresolved_token_kept(name, resolve(rest, vars), vars);
                    },
                }
            },
            None => {
                if t[0] != '{' {
                    law_resolve_idempotent(t.skip(1), vars);
                    lemma_resolve_literal(t[0], resolve(t.skip(1), vars), vars);
                } else if first_close(t.drop_first()) is None {
                    assert forall|i: int| 0 <= i < t.len() implies t[i] != '}' by {
                        if i > 0 {
                            assert(t[i] == t.drop_first()[i - 1]);
                        }
                    }
                    lemma_resolve_close_free(t, vars);
                } else {
                    // `{}`: both braces are literal text.
                    let r2 = t.skip(2);
                    assert(t[1] == '}');
                    assert(t.skip(1) =~= seq!['}'] + r2);
                    assert(t.skip(1).skip(1) =~= r2);
                    lemma_resolve_literal('}', r2, vars);
                    assert(substitutions_brace_free(t.skip(1), vars));
                    assert(token_end(t.skip(1)) is None);
                    assert(substitutions_brace_free(r2, vars));
                    law_resolve_idempotent(r2, vars);
                    let out = seq!['{', '}'] + resolve(r2, vars);
                    assert(resolve(t, vars) =~= out);
                    assert(out.drop_first() =~= seq!['}'] + resolve(r2, vars));
                    assert(first_close(out.drop_first()) == Some(0int));
                    assert(out.skip(1) =~= seq!['}'] + resolve(r2, vars));
                    lemma_resolve_literal('}', resolve(r2, vars), vars);
                }
            },
        }
    }
}

} // verus!
