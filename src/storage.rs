use vstd::prelude::*;

use crate::data_item::is_expired;

pub mod in_memory_storage;

verus! {

/// What a read of `key` at `now` finds in a map from keys to (value, expiry): the value,
/// unless the key is absent or its entry has expired.
pub open spec fn lookup(
    entries: Map<Seq<char>, (Seq<char>, Option<u64>)>,
    key: Seq<char>,
    now: u64,
) -> Option<Seq<char>> {
    if entries.contains_key(key) && !is_expired(entries[key].1, now) {
        Some(entries[key].0)
    } else {
        None
    }
}

/// The value of an optional text.
pub open spec fn text_option(r: Option<String>) -> Option<Seq<char>> {
    match r {
        Some(s) => Some(s@),
        None => None,
    }
}

/// A key-value store whose entries may expire.
pub trait KVStorage {
    /// Each key with its value and expiry instant (milliseconds since the UNIX epoch).
    spec fn entries(&self) -> Map<Seq<char>, (Seq<char>, Option<u64>)>;

    /// Stores `value` under `key`, replacing what was there.
    fn set(&mut self, key: String, value: String, ttl: Option<u64>)
        ensures
            final(self).entries() == old(self).entries().insert(key@, (value@, ttl)),
    ;

    /// The value under `key`, unless it is absent or expired at `now`. Nothing is removed.
    fn get(&self, key: &str, now: u64) -> (r: Option<String>)
        ensures
            text_option(r) == lookup(self.entries(), key@, now),
    ;
}

/// A read finds what was last stored under its key: after storing `v` under `k` with no
/// expiry, a read of `k` at any instant gives `v`, and before anything is stored under `k`
/// a read gives nothing.
pub proof fn lemma_set_then_get(
    entries: Map<Seq<char>, (Seq<char>, Option<u64>)>,
    k: Seq<char>,
    v: Seq<char>,
    now: u64,
)
    ensures
        lookup(entries.insert(k, (v, None)), k, now) == Some(v),
        !entries.contains_key(k) ==> lookup(entries, k, now) is None,
{
}

/// Storing twice under one key keeps the second value: a read after storing `v1` and then
/// `v2` under `k` gives `v2`.
pub proof fn lemma_overwrite(
    entries: Map<Seq<char>, (Seq<char>, Option<u64>)>,
    k: Seq<char>,
    v1: Seq<char>,
    ttl1: Option<u64>,
    v2: Seq<char>,
    now: u64,
)
    ensures
        lookup(entries.insert(k, (v1, ttl1)).insert(k, (v2, None)), k, now) == Some(v2),
{
}

/// Writes to two distinct keys do not disturb each other: in whichever order the two stores
/// happen, a read of each key then gives the value stored under it.
pub proof fn lemma_distinct_keys(
    entries: Map<Seq<char>, (Seq<char>, Option<u64>)>,
    k1: Seq<char>,
    v1: Seq<char>,
    k2: Seq<char>,
    v2: Seq<char>,
    now: u64,
)
    requires
        k1 != k2,
    ensures
        lookup(entries.insert(k1, (v1, None)).insert(k2, (v2, None)), k1, now) == Some(v1),
        lookup(entries.insert(k1, (v1, None)).insert(k2, (v2, None)), k2, now) == Some(v2),
        lookup(entries.insert(k2, (v2, None)).insert(k1, (v1, None)), k1, now) == Some(v1),
        lookup(entries.insert(k2, (v2, None)).insert(k1, (v1, None)), k2, now) == Some(v2),
{
}

} // verus!
