//! A structured value as the engine sees it, with lookup, emptiness,
//! structural equality and its canonical text.

use vstd::prelude::*;

use crate::text::{append_chars, chars_of, text_of};

verus! {

broadcast use vstd::std_specs::vec::group_vec_axioms;

/// A structured value. A number is held as its decimal text; an object as its
/// entries, where a later entry for a key shadows an earlier one.
#[derive(Debug)]
pub enum JsonValue {
    Null,
    Bool(bool),
    Number(String),
    Str(String),
    Array(Vec<JsonValue>),
    Object(Vec<(String, JsonValue)>),
}

/// The mathematical content of a [`JsonValue`].
#[verifier::ext_equal]
pub enum Json {
    Null,
    Bool(bool),
    Number(Seq<char>),
    Str(Seq<char>),
    Array(Seq<Json>),
    Object(Seq<(Seq<char>, Json)>),
}

/// The content of a value.
pub open spec fn json_model(v: JsonValue) -> Json
    decreases v,
{
    match v {
        JsonValue::Null => Json::Null,
        JsonValue::Bool(b) => Json::Bool(b),
        JsonValue::Number(n) => Json::Number(n@),
        JsonValue::Str(s) => Json::Str(s@),
        JsonValue::Array(xs) => Json::Array(
            Seq::new(
                xs.len() as nat,
                |i: int|
                    if 0 <= i < xs.len() {
                        json_model(xs[i])
                    } else {
                        Json::Null
                    },
            ),
        ),
        JsonValue::Object(xs) => Json::Object(
            Seq::new(
                xs.len() as nat,
                |i: int|
                    if 0 <= i < xs.len() {
                        (xs[i].0@, json_model(xs[i].1))
                    } else {
                        (Seq::empty(), Json::Null)
                    },
            ),
        ),
    }
}

impl View for JsonValue {
    type V = Json;

    open spec fn view(&self) -> Json {
        json_model(*self)
    }
}

/// Entries with their keys and values taken as content.
pub open spec fn entries_view(entries: Seq<(String, JsonValue)>) -> Seq<(Seq<char>, Json)> {
    entries.map_values(|e: (String, JsonValue)| (e.0@, e.1@))
}

/// The value bound to `key` in `entries`: the last entry for it wins.
pub open spec fn entry_lookup<V>(entries: Seq<(Seq<char>, V)>, key: Seq<char>) -> Option<V>
    decreases entries.len(),
{
    if entries.len() == 0 {
        None
    } else if entries.last().0 == key {
        Some(entries.last().1)
    } else {
        entry_lookup(entries.drop_last(), key)
    }
}

/// Structural equality: objects compare as maps, whatever the order of their entries.
pub open spec fn json_eq(a: Json, b: Json) -> bool
    decreases a, member_count(a) + 1,
{
    match a {
        Json::Null => b is Null,
        Json::Bool(x) => b matches Json::Bool(y) && x == y,
        Json::Number(x) => b matches Json::Number(y) && x == y,
        Json::Str(x) => b matches Json::Str(y) && x == y,
        Json::Array(xs) => b is Array && xs.len() == member_count(b) && members_eq(a, b, xs.len()),
        Json::Object(xs) => b is Object && members_eq(a, b, xs.len()) && keys_in(b, a),
    }
}

/// Whether entry `i` is shadowed by a later entry for the same key.
pub open spec fn shadowed(s: Seq<(Seq<char>, Json)>, i: int) -> bool {
    exists|j: int| i < j < s.len() && #[trigger] s[j].0 == s[i].0
}

/// Whether every key of object `b` is a key of object `a`.
pub open spec fn keys_in(b: Json, a: Json) -> bool {
    match b {
        Json::Object(ys) => forall|j: int| 0 <= j < ys.len() ==> field_of(a, (#[trigger] ys[j]).0) is Some,
        _ => true,
    }
}

/// Whether the first `n` members of `a` match `b`: array elements pairwise;
/// object entries that no later entry shadows, by their key's value in `b`.
pub open spec fn members_eq(a: Json, b: Json, n: nat) -> bool
    decreases a, n,
{
    if n == 0 || n > member_count(a) {
        true
    } else {
        members_eq(a, b, (n - 1) as nat) && match a {
            Json::Array(xs) => match b {
                Json::Array(ys) => n <= ys.len() && json_eq(xs[n - 1], ys[n - 1]),
                _ => false,
            },
            Json::Object(xs) => shadowed(xs, n - 1) || match field_of(b, xs[n - 1].0) {
                Some(w) => json_eq(xs[n - 1].1, w),
                None => false,
            },
            _ => false,
        }
    }
}

/// The number of members of an array or object; zero for a scalar.
pub open spec fn member_count(v: Json) -> nat {
    match v {
        Json::Array(xs) => xs.len(),
        Json::Object(xs) => xs.len(),
        _ => 0,
    }
}

/// The lower-case hexadecimal digits.
pub open spec fn hex_digits() -> Seq<char> {
    seq!['0', '1', '2', '3', '4', '5', '6', '7', '8', '9', 'a', 'b', 'c', 'd', 'e', 'f']
}

/// How one character of a string is written inside quotes.
pub open spec fn escape_char(c: char) -> Seq<char> {
    if c == '"' {
        seq!['\\', '"']
    } else if c == '\\' {
        seq!['\\', '\\']
    } else if c == '\n' {
        seq!['\\', 'n']
    } else if c == '\r' {
        seq!['\\', 'r']
    } else if c == '\t' {
        seq!['\\', 't']
    } else if c == '\x08' {
        seq!['\\', 'b']
    } else if c == '\x0c' {
        seq!['\\', 'f']
    } else if (c as u32) < 32 {
        seq![
            '\\',
            'u',
            '0',
            '0',
            hex_digits()[(c as u32) as int / 16],
            hex_digits()[(c as u32) as int % 16],
        ]
    } else {
        seq![c]
    }
}

/// A string's characters with each one escaped.
pub open spec fn escaped(s: Seq<char>) -> Seq<char>
    decreases s.len(),
{
    if s.len() == 0 {
        seq![]
    } else {
        escaped(s.drop_last()) + escape_char(s.last())
    }
}

/// A string in quotes, escaped.
pub open spec fn quoted(s: Seq<char>) -> Seq<char> {
    seq!['"'] + escaped(s) + seq!['"']
}

/// The canonical compact text of a value: no whitespace, strings escaped,
/// members in the order they are held.
pub open spec fn json_text(v: Json) -> Seq<char>
    decreases v, member_count(v) + 1,
{
    match v {
        Json::Null => seq!['n', 'u', 'l', 'l'],
        Json::Bool(b) => if b {
            seq!['t', 'r', 'u', 'e']
        } else {
            seq!['f', 'a', 'l', 's', 'e']
        },
        Json::Number(n) => n,
        Json::Str(s) => quoted(s),
        Json::Array(xs) => seq!['['] + members_text(v, xs.len()) + seq![']'],
        Json::Object(xs) => seq!['{'] + members_text(v, xs.len()) + seq!['}'],
    }
}

/// The text of the first `n` members of an array or object, separated by commas.
pub open spec fn members_text(v: Json, n: nat) -> Seq<char>
    decreases v, n,
{
    if n == 0 || n > member_count(v) {
        seq![]
    } else {
        let sep = if n > 1 { seq![','] } else { seq![] };
        match v {
            Json::Array(xs) => members_text(v, (n - 1) as nat) + sep + json_text(xs[n - 1]),
            Json::Object(xs) => members_text(v, (n - 1) as nat) + sep + quoted(xs[n - 1].0)
                + seq![':'] + json_text(xs[n - 1].1),
            _ => seq![],
        }
    }
}

/// How a value reads when it stands in text: a string as itself, a number,
/// boolean or null as its literal, an array or object as its canonical text.
pub open spec fn render(v: Json) -> Seq<char> {
    match v {
        Json::Str(s) => s,
        _ => json_text(v),
    }
}

/// Whether a value counts as empty: null, an empty string, array or object.
pub open spec fn is_empty_value(v: Json) -> bool {
    match v {
        Json::Null => true,
        Json::Str(s) => s.len() == 0,
        Json::Array(xs) => xs.len() == 0,
        Json::Object(xs) => xs.len() == 0,
        _ => false,
    }
}

/// The member `key` of an object; nothing for any other value.
pub open spec fn field_of(v: Json, key: Seq<char>) -> Option<Json> {
    match v {
        Json::Object(xs) => entry_lookup(xs, key),
        _ => None,
    }
}

/// Looks `key` up in `entries`; the last entry for it wins.
pub fn find_entry<'a>(entries: &'a Vec<(String, JsonValue)>, key: &String) -> (r: Option<
    &'a JsonValue,
>)
    ensures
        match r {
            Some(v) => entry_lookup(entries_view(entries@), key@) == Some(v@),
            None => entry_lookup(entries_view(entries@), key@) is None,
        },
{
    let ghost ev = entries_view(entries@);
    let mut i: usize = entries.len();
    assert(ev.take(i as int) =~= ev);
    while i > 0
        invariant
            i <= entries.len(),
            ev == entries_view(entries@),
            entry_lookup(ev, key@) == entry_lookup(ev.take(i as int), key@),
        decreases i,
    {
        i = i - 1;
        assert(ev.take(i + 1).drop_last() =~= ev.take(i as int));
        if entries[i].0 == *key {
            return Some(&entries[i].1);
        }
    }
    None
}

/// Whether a value counts as empty.
pub fn is_empty(v: &JsonValue) -> (r: bool)
    ensures
        r == is_empty_value(v@),
{
    match v {
        JsonValue::Null => true,
        JsonValue::Str(s) => s.as_str().unicode_len() == 0,
        JsonValue::Array(xs) => xs.len() == 0,
        JsonValue::Object(xs) => xs.len() == 0,
        _ => false,
    }
}

/// A copy of a value with the same content.
pub fn clone_json(v: &JsonValue) -> (r: JsonValue)
    ensures
        r@ == v@,
    decreases v,
{
    match v {
        JsonValue::Null => JsonValue::Null,
        JsonValue::Bool(b) => JsonValue::Bool(*b),
        JsonValue::Number(n) => JsonValue::Number(n.clone()),
        JsonValue::Str(s) => JsonValue::Str(s.clone()),
        JsonValue::Array(xs) => {
            let mut out: Vec<JsonValue> = Vec::new();
            let mut i: usize = 0;
            while i < xs.len()
                invariant
                    i <= xs.len(),
                    out.len() == i,
                    *v == JsonValue::Array(*xs),
                    forall|j: int| 0 <= j < i ==> (#[trigger] out[j])@ == xs[j]@,
                decreases xs.len() - i,
            {
                assert(decreases_to!(*v => (*v)->Array_0));
                assert(decreases_to!((*v)->Array_0 => xs[i as int]));
                out.push(clone_json(&xs[i]));
                i = i + 1;
            }
            let r = JsonValue::Array(out);
            assert(r@->Array_0 =~= v@->Array_0);
            r
        },
        JsonValue::Object(xs) => {
            let mut out: Vec<(String, JsonValue)> = Vec::new();
            let mut i: usize = 0;
            while i < xs.len()
                invariant
                    i <= xs.len(),
                    out.len() == i,
                    *v == JsonValue::Object(*xs),
                    forall|j: int|
                        0 <= j < i ==> (#[trigger] out[j]).0@ == xs[j].0@ && out[j].1@ == xs[j].1@,
                decreases xs.len() - i,
            {
                assert(decreases_to!(*v => (*v)->Object_0));
                assert(decreases_to!((*v)->Object_0 => xs[i as int]));
                assert(decreases_to!(xs[i as int] => xs[i as int].1));
                out.push((xs[i].0.clone(), clone_json(&xs[i].1)));
                i = i + 1;
            }
            let r = JsonValue::Object(out);
            assert(r@->Object_0 =~= v@->Object_0);
            r
        },
    }
}

/// The member `key` of an object.
pub fn field_ref<'a>(v: &'a JsonValue, key: &String) -> (r: Option<&'a JsonValue>)
    ensures
        match r {
            Some(w) => field_of(v@, key@) == Some(w@),
            None => field_of(v@, key@) is None,
        },
{
    match v {
        JsonValue::Object(xs) => {
            assert(entries_view(xs@) =~= v@->Object_0);
            find_entry(xs, key)
        },
        _ => None,
    }
}

/// The hexadecimal digit of `n`.
pub(crate) fn hex_digit(n: u32) -> (c: char)
    requires
        n < 16,
    ensures
        c == hex_digits()[n as int],
{
    if n < 8 {
        if n < 4 {
            if n == 0 { '0' } else if n == 1 { '1' } else if n == 2 { '2' } else { '3' }
        } else {
            if n == 4 { '4' } else if n == 5 { '5' } else if n == 6 { '6' } else { '7' }
        }
    } else {
        if n < 12 {
            if n == 8 { '8' } else if n == 9 { '9' } else if n == 10 { 'a' } else { 'b' }
        } else {
            if n == 12 { 'c' } else if n == 13 { 'd' } else if n == 14 { 'e' } else { 'f' }
        }
    }
}

/// Appends `c` as it is written inside quotes.
fn push_escaped(out: &mut Vec<char>, c: char)
    ensures
        final(out)@ == old(out)@ + escape_char(c),
{
    let code = c as u32;
    if c == '"' {
        out.push('\\');
        out.push('"');
    } else if c == '\\' {
        out.push('\\');
        out.push('\\');
    } else if c == '\n' {
        out.push('\\');
        out.push('n');
    } else if c == '\r' {
        out.push('\\');
        out.push('r');
    } else if c == '\t' {
        out.push('\\');
        out.push('t');
    } else if c == '\x08' {
        out.push('\\');
        out.push('b');
    } else if c == '\x0c' {
        out.push('\\');
        out.push('f');
    } else if code < 32 {
        out.push('\\');
        out.push('u');
        out.push('0');
        out.push('0');
        out.push(hex_digit(code / 16));
        out.push(hex_digit(code % 16));
    } else {
        out.push(c);
    }
    assert(final(out)@ =~= old(out)@ + escape_char(c));
}

/// Appends `s` in quotes, escaped.
fn push_quoted(out: &mut Vec<char>, s: &str)
    ensures
        final(out)@ == old(out)@ + quoted(s@),
{
    let cs = chars_of(s);
    out.push('"');
    let mut i: usize = 0;
    while i < cs.len()
        invariant
            i <= cs.len(),
            cs@ == s@,
            out@ == old(out)@ + seq!['"'] + escaped(cs@.take(i as int)),
        decreases cs.len() - i,
    {
        assert(cs@.take(i + 1).drop_last() =~= cs@.take(i as int));
        push_escaped(out, cs[i]);
        i = i + 1;
    }
    assert(cs@.take(i as int) =~= cs@);
    out.push('"');
    assert(final(out)@ =~= old(out)@ + quoted(s@));
}

/// Appends the canonical text of `v`.
pub fn write_json(out: &mut Vec<char>, v: &JsonValue)
    ensures
        final(out)@ == old(out)@ + json_text(v@),
    decreases v,
{
    match v {
        JsonValue::Null => {
            out.push('n');
            out.push('u');
            out.push('l');
            out.push('l');
        },
        JsonValue::Bool(b) => {
            if *b {
                out.push('t');
                out.push('r');
                out.push('u');
                out.push('e');
            } else {
                out.push('f');
                out.push('a');
                out.push('l');
                out.push('s');
                out.push('e');
            }
        },
        JsonValue::Number(n) => {
            let cs = chars_of(n.as_str());
            append_chars(out, &cs);
        },
        JsonValue::Str(s) => {
            push_quoted(out, s.as_str());
        },
        JsonValue::Array(xs) => {
            out.push('[');
            let ghost start = out@;
            let mut i: usize = 0;
            while i < xs.len()
                invariant
                    i <= xs.len(),
                    *v == JsonValue::Array(*xs),
                    out@ == start + members_text(v@, i as nat),
                decreases xs.len() - i,
            {
                if i > 0 {
                    out.push(',');
                }
                assert(decreases_to!(*v => (*v)->Array_0));
                assert(decreases_to!((*v)->Array_0 => xs[i as int]));
                write_json(out, &xs[i]);
                i = i + 1;
            }
            out.push(']');
        },
        JsonValue::Object(xs) => {
            out.push('{');
            let ghost start = out@;
            let mut i: usize = 0;
            while i < xs.len()
                invariant
                    i <= xs.len(),
                    *v == JsonValue::Object(*xs),
                    out@ == start + members_text(v@, i as nat),
                decreases xs.len() - i,
            {
                if i > 0 {
                    out.push(',');
                }
                push_quoted(out, xs[i].0.as_str());
                out.push(':');
                assert(decreases_to!(*v => (*v)->Object_0));
                assert(decreases_to!((*v)->Object_0 => xs[i as int]));
                assert(decreases_to!(xs[i as int] => xs[i as int].1));
                write_json(out, &xs[i].1);
                i = i + 1;
            }
            out.push('}');
        },
    }
    assert(final(out)@ =~= old(out)@ + json_text(v@));
}

/// The text a value reads as where it stands in a template or a report.
pub fn json_value_to_string(v: &JsonValue) -> (r: String)
    ensures
        r@ == render(v@),
{
    match v {
        JsonValue::Str(s) => s.clone(),
        _ => {
            let mut out: Vec<char> = Vec::new();
            write_json(&mut out, v);
            assert(out@ =~= json_text(v@));
            text_of(&out)
        },
    }
}

/// Matching members up to `m` match up to any `n <= m`.
proof fn lemma_members_eq_prefix(a: Json, b: Json, n: nat, m: nat)
    requires
        n <= m,
        members_eq(a, b, m),
        m <= member_count(a),
    ensures
        members_eq(a, b, n),
    decreases m - n,
{
    if n < m {
        lemma_members_eq_prefix(a, b, n, (m - 1) as nat);
    }
}

/// Structural equality of two values; objects compare as maps.
pub fn json_equals(a: &JsonValue, b: &JsonValue) -> (r: bool)
    ensures
        r == json_eq(a@, b@),
    decreases a,
{
    match a {
        JsonValue::Null => match b {
            JsonValue::Null => true,
            _ => false,
        },
        JsonValue::Bool(x) => match b {
            JsonValue::Bool(y) => *x == *y,
            _ => false,
        },
        JsonValue::Number(x) => match b {
            JsonValue::Number(y) => *x == *y,
            _ => false,
        },
        JsonValue::Str(x) => match b {
            JsonValue::Str(y) => *x == *y,
            _ => false,
        },
        JsonValue::Array(xs) => match b {
            JsonValue::Array(ys) => {
                if xs.len() != ys.len() {
                    return false;
                }
                let mut i: usize = 0;
                while i < xs.len()
                    invariant
                        i <= xs.len(),
                        xs.len() == ys.len(),
                        *a == JsonValue::Array(*xs),
                        *b == JsonValue::Array(*ys),
                        members_eq(a@, b@, i as nat),
                    decreases xs.len() - i,
                {
                    assert(decreases_to!(*a => (*a)->Array_0));
                    assert(decreases_to!((*a)->Array_0 => xs[i as int]));
                    if !json_equals(&xs[i], &ys[i]) {
                        proof {
                            if json_eq(a@, b@) {
                                    lemma_members_eq_prefix(a@, b@, (i + 1) as nat, xs.len() as nat);
                                }
                        }
                        return false;
                    }
                    i = i + 1;
                }
                true
            },
            _ => false,
        },
        JsonValue::Object(xs) => match b {
            JsonValue::Object(ys) => {
                assert(entries_view(ys@) =~= b@->Object_0);
                assert(entries_view(xs@) =~= a@->Object_0);
                let mut i: usize = 0;
                while i < xs.len()
                    invariant
                        i <= xs.len(),
                        *a == JsonValue::Object(*xs),
                        *b == JsonValue::Object(*ys),
                        entries_view(ys@) == b@->Object_0,
                        entries_view(xs@) == a@->Object_0,
                        members_eq(a@, b@, i as nat),
                    decreases xs.len() - i,
                {
                    assert(decreases_to!(*a => (*a)->Object_0));
                    assert(decreases_to!((*a)->Object_0 => xs[i as int]));
                    assert(decreases_to!(xs[i as int] => xs[i as int].1));
                    let ghost key = (a@->Object_0)[i as int].0;
                    assert(key == xs[i as int].0@);
                    if !shadowed_at(xs, i) {
                        match find_entry(ys, &xs[i].0) {
                            Some(w) => {
                                if !json_equals(&xs[i].1, w) {
                                    assert(entry_lookup(b@->Object_0, key) == Some(w@));
                                    proof {
                                        if json_eq(a@, b@) {
                                            lemma_members_eq_prefix(a@, b@, (i + 1) as nat, xs.len() as nat);
                                        }
                                    }
                                    return false;
                                }
                            },
                            None => {
                                assert(entry_lookup(b@->Object_0, key) is None);
                                proof {
                                    if json_eq(a@, b@) {
                                        lemma_members_eq_prefix(a@, b@, (i + 1) as nat, xs.len() as nat);
                                    }
                                }
                                return false;
                            },
                        }
                    }
                    i = i + 1;
                }
                let mut j: usize = 0;
                while j < ys.len()
                    invariant
                        j <= ys.len(),
                        *a == JsonValue::Object(*xs),
                        *b == JsonValue::Object(*ys),
                        entries_view(ys@) == b@->Object_0,
                        entries_view(xs@) == a@->Object_0,
                        forall|k: int| 0 <= k < j ==> field_of(a@, (#[trigger] (b@->Object_0)[k]).0) is Some,
                    decreases ys.len() - j,
                {
                    let ghost key = (b@->Object_0)[j as int].0;
                    assert(key == ys[j as int].0@);
                    if find_entry(xs, &ys[j].0).is_none() {
                        assert(!keys_in(b@, a@));
                        return false;
                    }
                    j = j + 1;
                }
                true
            },
            _ => false,
        },
    }
}

/// Whether entry `i` is shadowed by a later entry for the same key.
fn shadowed_at(xs: &Vec<(String, JsonValue)>, i: usize) -> (r: bool)
    requires
        i < xs.len(),
    ensures
        r == shadowed(entries_view(xs@), i as int),
{
    let ghost s = entries_view(xs@);
    let mut j: usize = i + 1;
    while j < xs.len()
        invariant
            i < j <= xs.len(),
            s == entries_view(xs@),
            forall|k: int| i < k < j ==> (#[trigger] s[k]).0 != s[i as int].0,
        decreases xs.len() - j,
    {
        if xs[j].0 == xs[i].0 {
            assert(s[j as int].0 == s[i as int].0);
            return true;
        }
        j = j + 1;
    }
    false
}

} // verus!
