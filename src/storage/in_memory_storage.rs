use vstd::hash_map::StringHashMap;
use vstd::prelude::*;

use crate::data_item::DataItem;
use crate::storage::KVStorage;

verus! {

/// Entries held in a hash map, in memory.
pub struct InMemoryStorage {
    storage: StringHashMap<DataItem>,
}

impl InMemoryStorage {
    /// An empty storage.
    pub fn new() -> (r: Self)
        ensures
            r.entries() == Map::<Seq<char>, (Seq<char>, Option<u64>)>::empty(),
    {
        let r = InMemoryStorage { storage: StringHashMap::new() };
        assert(r.entries() =~= Map::<Seq<char>, (Seq<char>, Option<u64>)>::empty());
        r
    }
}

impl KVStorage for InMemoryStorage {
    closed spec fn entries(&self) -> Map<Seq<char>, (Seq<char>, Option<u64>)> {
        self.storage@.map_values(|d: DataItem| d@)
    }

    fn set(&mut self, key: String, value: String, ttl: Option<u64>) {
        let ghost k = key@;
        self.storage.insert(key, DataItem::new(value, ttl));
        assert(self.entries() =~= old(self).entries().insert(k, (value@, ttl)));
    }

    fn get(&self, key: &str, now: u64) -> (r: Option<String>) {
        match self.storage.get(key) {
            Some(item) => item.expired_or_return(now),
            None => None,
        }
    }
}

} // verus!
