//! A string-keyed store whose entries may expire.
//!
//! Expiry is lazy: an entry past its time reads as absent but stays until it
//! is overwritten, removed or cleared. The store is owned by one caller at a
//! time (`&mut self` to change it), so there is no lock that could fail; a
//! caller that shares it guards it and treats a failed guard as a miss.

use vstd::prelude::*;

use crate::json::{clone_json, Json, JsonValue};
use crate::json::entry_lookup;
use crate::vars::{entries_map, lemma_entries_map_push};

verus! {

#[verifier::external_type_specification]
#[verifier::external_body]
pub struct ExSystemTime(std::time::SystemTime);

/// Relies on `std::time::SystemTime::now`: the system clock's current
/// reading. Nothing is promised of its value.
#[verifier::external_body]
fn clock_now() -> (r: std::time::SystemTime) {
    std::time::SystemTime::now()
}

/// Relies on `SystemTime::duration_since(UNIX_EPOCH)`, which fails for a
/// reading before the epoch: the whole seconds since the epoch, or none.
#[verifier::external_body]
fn secs_since_epoch(t: &std::time::SystemTime) -> (r: Option<u64>) {
    t.duration_since(std::time::UNIX_EPOCH).ok().map(|d| d.as_secs())
}

/// The current time in whole seconds since the epoch; a clock that reads
/// before the epoch gives 0.
pub fn now_secs() -> (r: u64) {
    let t = clock_now();
    match secs_since_epoch(&t) {
        Some(s) => s,
        None => 0,
    }
}

/// A stored value and the second from which it counts as expired, if any.
pub struct CacheEntry {
    pub value: JsonValue,
    pub expire_time: Option<u64>,
}

/// The expiry second of an entry stored at `now` for `ttl` seconds; it
/// saturates at the largest second.
pub open spec fn expiry(now: u64, ttl: Option<u64>) -> Option<u64> {
    match ttl {
        Some(t) => Some(
            if now + t > u64::MAX {
                u64::MAX
            } else {
                (now + t) as u64
            },
        ),
        None => None,
    }
}

/// Whether an entry with this expiry reads as absent at `now`.
pub open spec fn expired(expire_time: Option<u64>, now: u64) -> bool {
    match expire_time {
        Some(t) => now >= t,
        None => false,
    }
}

/// The contents of stored entries: key to value and expiry.
pub open spec fn cache_entries_view(s: Seq<(String, CacheEntry)>) -> Seq<
    (Seq<char>, (Json, Option<u64>)),
> {
    s.map_values(|e: (String, CacheEntry)| (e.0@, (e.1.value@, e.1.expire_time)))
}

/// A string-keyed store of values, each with an optional expiry.
pub struct Cache {
    data: Vec<(String, CacheEntry)>,
}

impl View for Cache {
    type V = Map<Seq<char>, (Json, Option<u64>)>;

    closed spec fn view(&self) -> Map<Seq<char>, (Json, Option<u64>)> {
        entries_map(cache_entries_view(self.data@))
    }
}

impl Cache {
    /// An empty store.
    pub fn new() -> (r: Cache)
        ensures
            r@ == Map::<Seq<char>, (Json, Option<u64>)>::empty(),
    {
        let r = Cache { data: Vec::new() };
        assert(r@ =~= Map::<Seq<char>, (Json, Option<u64>)>::empty());
        r
    }

    /// Stores `value` under `key` at second `now`, for `ttl` seconds or for good.
    pub fn set_at(&mut self, key: &str, value: JsonValue, ttl_seconds: Option<u64>, now: u64)
        ensures
            final(self)@ == old(self)@.insert(key@, (value@, expiry(now, ttl_seconds))),
    {
        let expire_time = match ttl_seconds {
            Some(t) => Some(now.saturating_add(t)),
            None => None,
        };
        let k = key.to_owned();
        self.remove_key(&k);
        let ghost s = cache_entries_view(self.data@);
        let ghost e = (value@, expire_time);
        self.data.push((k, CacheEntry { value, expire_time }));
        assert(cache_entries_view(self.data@) =~= s.push((key@, e)));
        proof {
            lemma_entries_map_push(s, key@, e);
        }
        assert(final(self)@ =~= old(self)@.insert(key@, (e.0, expiry(now, ttl_seconds))));
    }

    /// Stores `value` under `key` now, for `ttl` seconds or for good.
    pub fn set(&mut self, key: &str, value: JsonValue, ttl_seconds: Option<u64>)
        ensures
            exists|now: u64| final(self)@ == old(self)@.insert(key@, (value@, expiry(now, ttl_seconds))),
    {
        let now = now_secs();
        self.set_at(key, value, ttl_seconds, now);
    }

    /// The value under `key` at second `now`, unless it is absent or expired.
    pub fn get_at(&self, key: &str, now: u64) -> (r: Option<JsonValue>)
        ensures
            match r {
                Some(v) => self@.contains_key(key@) && !expired(self@[key@].1, now)
                    && v@ == self@[key@].0,
                None => !self@.contains_key(key@) || expired(self@[key@].1, now),
            },
    {
        let k = key.to_owned();
        let ghost s = cache_entries_view(self.data@);
        let mut i: usize = self.data.len();
        assert(s.take(i as int) =~= s);
        while i > 0
            invariant
                i <= self.data.len(),
                s == cache_entries_view(self.data@),
                k@ == key@,
                entry_lookup(s, key@) == entry_lookup(s.take(i as int), key@),
            decreases i,
        {
            i = i - 1;
            assert(s.take(i + 1).drop_last() =~= s.take(i as int));
            if self.data[i].0 == k {
                let entry = &self.data[i].1;
                match entry.expire_time {
                    Some(t) => {
                        if now >= t {
                            return None;
                        }
                    },
                    None => {},
                }
                return Some(clone_json(&entry.value));
            }
        }
        None
    }

    /// The value under `key`, unless it is absent or has expired by now.
    pub fn get(&self, key: &str) -> (r: Option<JsonValue>)
        ensures
            match r {
                Some(v) => self@.contains_key(key@) && v@ == self@[key@].0,
                None => !self@.contains_key(key@) || self@[key@].1 is Some,
            },
    {
        let now = now_secs();
        self.get_at(key, now)
    }

    fn remove_key(&mut self, key: &String)
        ensures
            final(self)@ == old(self)@.remove(key@),
    {
        let ghost s = cache_entries_view(self.data@);
        let mut kept: Vec<(String, CacheEntry)> = Vec::new();
        let mut old_data: Vec<(String, CacheEntry)> = Vec::new();
        std::mem::swap(&mut old_data, &mut self.data);
        assert(cache_entries_view(old_data@) == s);
        assert(s.len() == old_data.len());
        let mut i: usize = 0;
        assert(entries_map(cache_entries_view(kept@)) =~= entries_map(s.take(0)).remove(key@));
        while old_data.len() > 0
            invariant
                i + old_data.len() == s.len(),
                s.len() <= usize::MAX,
                cache_entries_view(old_data@) == s.skip(i as int),
                entries_map(cache_entries_view(kept@)) == entries_map(s.take(i as int)).remove(key@),
            decreases old_data.len(),
        {
            let ghost before = old_data@;
            let e = old_data.remove(0);
            assert(old_data@ =~= before.skip(1));
            assert(s.skip(i as int)[0] == s[i as int]);
            assert(cache_entries_view(before) == s.skip(i as int));
            assert(cache_entries_view(before.skip(1)) =~= cache_entries_view(before).skip(1));
            assert(cache_entries_view(old_data@) =~= s.skip(i + 1));
            let ghost ev = (e.0@, (e.1.value@, e.1.expire_time));
            assert(ev == s[i as int]);
            assert(s.take(i + 1) =~= s.take(i as int).push(ev));
            proof {
                lemma_entries_map_push(s.take(i as int), ev.0, ev.1);
            }
            if e.0 != *key {
                let ghost kv = cache_entries_view(kept@);
                kept.push(e);
                assert(cache_entries_view(kept@) =~= kv.push(ev));
                proof {
                    lemma_entries_map_push(kv, ev.0, ev.1);
                }
                assert(entries_map(cache_entries_view(kept@)) =~= entries_map(s.take(i + 1)).remove(key@));
            } else {
                assert(entries_map(cache_entries_view(kept@)) =~= entries_map(s.take(i + 1)).remove(key@));
            }
            i = i + 1;
        }
        assert(s.take(i as int) =~= s);
        self.data = kept;
    }

    /// Drops the entry under `key`, if any.
    pub fn remove(&mut self, key: &str)
        ensures
            final(self)@ == old(self)@.remove(key@),
    {
        let k = key.to_owned();
        self.remove_key(&k);
    }

    /// Drops every entry.
    pub fn clear(&mut self)
        ensures
            final(self)@ == Map::<Seq<char>, (Json, Option<u64>)>::empty(),
    {
        self.data = Vec::new();
        assert(final(self)@ =~= Map::<Seq<char>, (Json, Option<u64>)>::empty());
    }
}

/// A value stored without a time to live is read back at any later second;
/// one stored with a time to live of zero reads as absent from that second on.
pub proof fn law_cache_round_trip(c: Cache, k: Seq<char>, v: Json, t_set: u64, t_get: u64)
    requires
        t_set <= t_get,
    ensures
        ({
            let after = c@.insert(k, (v, expiry(t_set, None)));
            after.contains_key(k) && !expired(after[k].1, t_get) && after[k].0 == v
        }),
        ({
            let after = c@.insert(k, (v, expiry(t_set, Some(0))));
            after.contains_key(k) && expired(after[k].1, t_get)
        }),
{
}

} // verus!
