//! Named variables that templates are resolved against.

use vstd::prelude::*;

use crate::json::{clone_json, entries_view, entry_lookup, find_entry, Json, JsonValue};

verus! {

/// The map that a list of entries stands for: a later entry for a key
/// shadows an earlier one.
pub open spec fn entries_map<V>(s: Seq<(Seq<char>, V)>) -> Map<Seq<char>, V> {
    Map::new(|k: Seq<char>| entry_lookup(s, k) is Some, |k: Seq<char>| entry_lookup(s, k)->0)
}

/// Looking a key up after more entries: the new entries first, then the old.
pub proof fn lemma_lookup_append<V>(s: Seq<(Seq<char>, V)>, t: Seq<(Seq<char>, V)>, k: Seq<char>)
    ensures
        entry_lookup(s + t, k) == match entry_lookup(t, k) {
            Some(v) => Some(v),
            None => entry_lookup(s, k),
        },
    decreases t.len(),
{
    if t.len() == 0 {
        assert(s + t =~= s);
    } else {
        assert((s + t).drop_last() =~= s + t.drop_last());
        lemma_lookup_append(s, t.drop_last(), k);
    }
}

/// One more entry binds its key to its value.
pub proof fn lemma_entries_map_push<V>(s: Seq<(Seq<char>, V)>, k: Seq<char>, v: V)
    ensures
        entries_map(s.push((k, v))) == entries_map(s).insert(k, v),
{
    assert(s.push((k, v)).drop_last() =~= s);
    assert(entries_map(s.push((k, v))) =~= entries_map(s).insert(k, v));
}

/// A set of variables, each a name bound to a value.
pub struct Variables {
    pub entries: Vec<(String, JsonValue)>,
}

impl View for Variables {
    type V = Map<Seq<char>, Json>;

    open spec fn view(&self) -> Map<Seq<char>, Json> {
        entries_map(entries_view(self.entries@))
    }
}

impl Variables {
    /// No variables.
    pub fn new() -> (r: Variables)
        ensures
            r@ == Map::<Seq<char>, Json>::empty(),
    {
        let r = Variables { entries: Vec::new() };
        assert(r@ =~= Map::<Seq<char>, Json>::empty());
        r
    }

    /// Binds `key` to `value`, replacing any earlier binding.
    pub fn insert(&mut self, key: String, value: JsonValue)
        ensures
            final(self)@ == old(self)@.insert(key@, value@),
    {
        let ghost s = entries_view(self.entries@);
        let ghost k = key@;
        let ghost v = value@;
        self.entries.push((key, value));
        assert(entries_view(self.entries@) =~= s.push((k, v)));
        proof {
            lemma_entries_map_push(s, k, v);
        }
    }

    /// The value bound to `key`.
    pub fn get(&self, key: &String) -> (r: Option<&JsonValue>)
        ensures
            match r {
                Some(v) => self@.contains_key(key@) && self@[key@] == v@,
                None => !self@.contains_key(key@),
            },
    {
        find_entry(&self.entries, key)
    }

    /// Binds every variable of `other`, which wins where both bind a name.
    pub fn extend(&mut self, other: &Variables)
        ensures
            final(self)@ == old(self)@.union_prefer_right(other@),
    {
        let ghost s = entries_view(self.entries@);
        let ghost t = entries_view(other.entries@);
        let mut i: usize = 0;
        while i < other.entries.len()
            invariant
                i <= other.entries.len(),
                t == entries_view(other.entries@),
                entries_view(self.entries@) == s + t.take(i as int),
            decreases other.entries.len() - i,
        {
            let key = other.entries[i].0.clone();
            let value = clone_json(&other.entries[i].1);
            let ghost pair = (key@, value@);
            assert(t[i as int] == pair);
            let ghost before = self.entries@;
            self.entries.push((key, value));
            assert(entries_view(self.entries@) =~= entries_view(before).push(pair));
            assert(t.take(i + 1) =~= t.take(i as int).push(pair));
            assert(entries_view(self.entries@) =~= s + t.take(i + 1));
            i = i + 1;
        }
        assert(t.take(i as int) =~= t);
        assert forall|k: Seq<char>| true implies #[trigger] entry_lookup(s + t, k) == match entry_lookup(t, k) {
            Some(v) => Some(v),
            None => entry_lookup(s, k),
        } by {
            lemma_lookup_append(s, t, k);
        }
        assert(final(self)@ =~= old(self)@.union_prefer_right(other@));
    }

    /// A copy with the same bindings.
    pub fn duplicate(&self) -> (r: Variables)
        ensures
            r@ == self@,
    {
        let mut r = Variables::new();
        r.extend(self);
        assert(r@ =~= self@);
        r
    }
}

} // verus!
