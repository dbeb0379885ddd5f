//! Dotted paths (`user.name`) into structured values.

use vstd::prelude::*;

use crate::json::{clone_json, field_of, field_ref, Json, JsonValue};
use crate::text::{chars_of, text_of};

verus! {

/// The segments of a path, split at every dot: `"a..b"` has three, `""` has one.
pub open spec fn split_dots(s: Seq<char>) -> Seq<Seq<char>>
    decreases s.len(),
{
    if s.len() == 0 {
        seq![seq![]]
    } else {
        let p = split_dots(s.drop_last());
        if s.last() == '.' {
            p.push(seq![])
        } else {
            p.update(p.len() - 1, p.last().push(s.last()))
        }
    }
}

/// What is reached from `v` by descending through the object members named by `segs`.
pub open spec fn walk(v: Json, segs: Seq<Seq<char>>) -> Option<Json>
    decreases segs.len(),
{
    if segs.len() == 0 {
        Some(v)
    } else {
        match field_of(v, segs[0]) {
            Some(w) => walk(w, segs.drop_first()),
            None => None,
        }
    }
}

/// The value at a dotted path inside `v`.
pub open spec fn json_field(v: Json, path: Seq<char>) -> Option<Json> {
    walk(v, split_dots(path))
}

/// The contents of a list of texts.
pub open spec fn texts_view(v: Seq<String>) -> Seq<Seq<char>> {
    v.map_values(|s: String| s@)
}

/// A path always has at least one segment.
pub proof fn lemma_split_nonempty(s: Seq<char>)
    ensures
        split_dots(s).len() >= 1,
    decreases s.len(),
{
    if s.len() > 0 {
        lemma_split_nonempty(s.drop_last());
    }
}

/// Splits a path at every dot.
pub fn split_path(path: &str) -> (r: Vec<String>)
    ensures
        texts_view(r@) == split_dots(path@),
        r@.len() >= 1,
{
    proof {
        lemma_split_nonempty(path@);
    }
    let cs = chars_of(path);
    let mut segs: Vec<String> = Vec::new();
    let mut cur: Vec<char> = Vec::new();
    let mut i: usize = 0;
    assert(cs@.take(0) =~= Seq::<char>::empty());
    while i < cs.len()
        invariant
            i <= cs.len(),
            cs@ == path@,
            split_dots(cs@.take(i as int)) == texts_view(segs@).push(cur@),
        decreases cs.len() - i,
    {
        let c = cs[i];
        assert(cs@.take(i + 1).drop_last() =~= cs@.take(i as int));
        let ghost before = texts_view(segs@);
        if c == '.' {
            let t = text_of(&cur);
            segs.push(t);
            cur = Vec::new();
            assert(texts_view(segs@) =~= before.push(t@));
            assert(texts_view(segs@).push(cur@) =~= before.push(t@).push(seq![]));
        } else {
            let ghost old_cur = cur@;
            cur.push(c);
            assert(texts_view(segs@).push(cur@) =~= before.push(old_cur).update(
                before.len() as int,
                old_cur.push(c),
            ));
        }
        i = i + 1;
    }
    assert(cs@.take(i as int) =~= cs@);
    let ghost before = texts_view(segs@);
    let t = text_of(&cur);
    segs.push(t);
    assert(texts_view(segs@) =~= before.push(t@));
    segs
}

/// What `v` holds under the segments `segs` from index `from` on.
pub fn walk_segments<'a>(v: &'a JsonValue, segs: &Vec<String>, from: usize) -> (r: Option<
    &'a JsonValue,
>)
    requires
        from <= segs.len(),
    ensures
        match r {
            Some(w) => walk(v@, texts_view(segs@).skip(from as int)) == Some(w@),
            None => walk(v@, texts_view(segs@).skip(from as int)) is None,
        },
{
    let ghost sv = texts_view(segs@);
    let mut cur: &JsonValue = v;
    let mut k: usize = from;
    while k < segs.len()
        invariant
            from <= k <= segs.len(),
            sv == texts_view(segs@),
            walk(v@, sv.skip(from as int)) == walk(cur@, sv.skip(k as int)),
        decreases segs.len() - k,
    {
        assert(sv.skip(k as int).drop_first() =~= sv.skip(k + 1));
        assert(sv.skip(k as int)[0] == segs@[k as int]@);
        match field_ref(cur, &segs[k]) {
            Some(w) => {
                cur = w;
            },
            None => {
                return None;
            },
        }
        k = k + 1;
    }
    assert(sv.skip(k as int) =~= Seq::<Seq<char>>::empty());
    Some(cur)
}

/// The value at a dotted path inside `value`, if every segment is present.
pub fn get_json_field(value: &JsonValue, path: &str) -> (r: Option<JsonValue>)
    ensures
        match r {
            Some(w) => json_field(value@, path@) == Some(w@),
            None => json_field(value@, path@) is None,
        },
{
    let segs = split_path(path);
    assert(texts_view(segs@).skip(0) =~= texts_view(segs@));
    match walk_segments(value, &segs, 0) {
        Some(w) => Some(clone_json(w)),
        None => None,
    }
}

} // verus!
