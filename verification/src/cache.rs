//! The cache engine: reads, writes and deletes by key, and the prune that
//! reclaims stale entries by walking the order of writes from its front.

use crate::clock::is_older_than;
use crate::clock::read;
use crate::config::Config;
use crate::mem::get_size_of_string;
use crate::model::lemma_reaps_step;
use crate::model::lemma_scan_end_unique;
use crate::model::lemma_total_cost_remove;
use crate::model::CacheModel;
pub use crate::store::Entry;
use crate::store::Store;
use std::collections::VecDeque;
use std::time::Instant;
use vstd::prelude::*;

verus! {

/// Cache datastore with the order of its writes, its configuration and its
/// clock.
pub struct Cache {
    config: Config,
    data: Store,
    keys: VecDeque<String>,
    started: Instant,
}

impl View for Cache {
    type V = CacheModel;

    closed spec fn view(&self) -> CacheModel {
        CacheModel { entries: self.data@, order: self.keys.deep_view(), ttl: self.config.ttl() }
    }
}

/// Whether one of `keys` reads `key`.
spec fn marked(keys: Seq<String>, key: Seq<char>) -> bool {
    exists|k: int| 0 <= k < keys.len() && (#[trigger] keys[k])@ == key
}

/// With one more key at their end, `keys` read what they read before, and
/// that key.
proof fn lemma_marked_push(keys: Seq<String>, last: String, key: Seq<char>)
    ensures
        marked(keys.push(last), key) <==> marked(keys, key) || last@ == key,
{
    let more = keys.push(last);
    if marked(more, key) {
        let k = choose|k: int| 0 <= k < more.len() && (#[trigger] more[k])@ == key;
        if k < keys.len() {
            assert(keys[k]@ == key);
        }
    }
    if marked(keys, key) {
        let k = choose|k: int| 0 <= k < keys.len() && (#[trigger] keys[k])@ == key;
        assert(more[k]@ == key);
    }
    if last@ == key {
        assert(more[keys.len() as int]@ == key);
    }
}

impl Cache {
    /// The cache is in order: its store is consistent and its byte count is
    /// the total cost of its entries. Every cache that `new` builds is, and
    /// every operation keeps it so.
    pub closed spec fn wf(&self) -> bool {
        self.data.wf()
    }

    /// A cache that is in order holds finitely many entries.
    pub proof fn lemma_valid(&self)
        requires
            self.wf(),
        ensures
            self@.valid(),
    {
        self.data.lemma_finite();
    }

    /// Create new Cache from a cache configuration
    pub fn new(config: Config) -> (cache: Cache)
        ensures
            cache.wf(),
            cache@ == CacheModel::fresh(config.ttl()),
    {
        let cache = Cache {
            config,
            data: Store::new(),
            keys: VecDeque::new(),
            started: Instant::now(),
        };
        assert(cache.keys.deep_view() =~= Seq::<Seq<char>>::empty());
        cache
    }

    /// Empty cache
    pub fn empty(&mut self)
        ensures
            final(self).wf(),
            final(self)@ == old(self)@.emptied(),
    {
        self.data.clear();
        self.keys.clear();
        assert(self.keys.deep_view() =~= Seq::<Seq<char>>::empty());
    }

    /// The reading of this cache's clock: the nanoseconds since it was built.
    pub(crate) fn now(&self) -> u128 {
        read(&self.started)
    }

    /// Get an entry from cache by key, as of the time `now`: the value, unless
    /// the key is absent or was last written more than the time-to-live ago.
    /// The cache stays as it is.
    pub fn get_at(&self, key: &String, now: u128) -> (found: Option<&String>)
        requires
            self.wf(),
        ensures
            match found {
                Some(value) => self@.lookup(key@, now) == Some(value@),
                None => self@.lookup(key@, now).is_none(),
            },
    {
        match self.data.get(key.as_str()) {
            Some(entry) => {
                // Ensure entry isn't stale
                if is_older_than(entry.modified(), now, self.config.ttl()) {
                    None
                } else {
                    Some(entry.value())
                }
            },
            None => None,
        }
    }

    /// Get an entry from cache by key, as of the reading of the clock at the
    /// call.
    pub fn get(&self, key: &String) -> (found: Option<&String>)
        requires
            self.wf(),
        ensures
            exists|now: u128|
                match found {
                    Some(value) => #[trigger] self@.lookup(key@, now) == Some(value@),
                    None => self@.lookup(key@, now).is_none(),
                },
    {
        let now = self.now();
        self.get_at(key, now)
    }

    /// Whether a write of `value` under `key` keeps the byte count within
    /// what a `usize` holds, which `set` and `set_at` ask of their caller.
    pub fn can_set(&self, key: &String, value: &String) -> (fits: bool)
        requires
            self.wf(),
        ensures
            fits == (self@.size_with(key@, value@) <= usize::MAX),
    {
        proof {
            self.lemma_valid();
        }
        let total = self.data.bytes();
        let held = match self.data.get(key.as_str()) {
            Some(entry) => {
                proof {
                    lemma_total_cost_remove(self@.entries, key@);
                }
                get_size_of_string(key) + get_size_of_string(entry.value())
            },
            None => {
                assert(self@.entries.remove(key@) =~= self@.entries);
                0
            },
        };
        let others = total - held;
        let key_size = get_size_of_string(key);
        let value_size = get_size_of_string(value);
        key_size <= usize::MAX - others && value_size <= usize::MAX - others - key_size
    }

    /// Insert an entry into cache at the time `now`.
    pub fn set_at(&mut self, key: String, value: String, now: u128)
        requires
            old(self).wf(),
            old(self)@.size_with(key@, value@) <= usize::MAX,
        ensures
            final(self).wf(),
            final(self)@ == old(self)@.with_set(key@, value@, now),
    {
        let ghost before = self.keys.deep_view();
        self.keys.push_back(key.clone());
        self.data.put(key, value, now);
        assert(self.keys.deep_view() =~= before.push(key@));
    }

    /// Insert an entry into cache at the reading of the clock at the call.
    pub fn set(&mut self, key: String, value: String)
        requires
            old(self).wf(),
            old(self)@.size_with(key@, value@) <= usize::MAX,
        ensures
            final(self).wf(),
            exists|now: u128| final(self)@ == #[trigger] old(self)@.with_set(key@, value@, now),
    {
        let now = self.now();
        self.set_at(key, value, now);
    }

    /// Delete a cache entry
    pub fn delete(&mut self, key: &String)
        requires
            old(self).wf(),
        ensures
            final(self).wf(),
            final(self)@ == old(self)@.without(key@),
    {
        self.data.remove(key.as_str());
    }

    /// Retrieve all cache entries' keys: each key once, in no particular
    /// order.
    pub fn keys(&self) -> (keys: Vec<String>)
        requires
            self.wf(),
        ensures
            keys.deep_view().no_duplicates(),
            keys.deep_view().to_set() == self@.entries.dom(),
    {
        self.data.keys()
    }

    /// Purge old entries, as of the time `now`. The keys are walked in the
    /// order of their writes. A slot whose key is gone is passed over; one
    /// whose entry is stale marks its key for deletion; one whose entry is
    /// neither stale nor first written more than the time-to-live ago ends
    /// the walk. The marked keys are then deleted and the passed slots
    /// dropped.
    pub fn prune_at(&mut self, now: u128)
        requires
            old(self).wf(),
        ensures
            final(self).wf(),
            final(self)@ == old(self)@.pruned(now),
    {
        let ttl = self.config.ttl();
        let ghost before = self@;
        let mut keys_to_delete: Vec<String> = Vec::new();
        let mut i: usize = 0;

        while i < self.keys.len()
            invariant
                self.wf(),
                self@ == before,
                ttl == before.ttl,
                i <= before.order.len(),
                forall|j: int| 0 <= j < i ==> !before.halts(#[trigger] before.order[j], now),
                forall|key: Seq<char>|
                    marked(keys_to_delete@, key) <==> before.reaps(now, i as int, key),
            ensures
                before.scan_ends(now, i as int),
            decreases before.order.len() - i,
        {
            let key = &self.keys[i];
            let ghost earlier = keys_to_delete@;
            assert(before.order[i as int] == key@);
            match self.data.get(key.as_str()) {
                Some(entry) => {
                    if is_older_than(entry.modified(), now, ttl) {
                        keys_to_delete.push(key.clone());
                    } else if !is_older_than(entry.created(), now, ttl) {
                        break ;
                    }
                },
                None => {},
            }
            proof {
                assert forall|other: Seq<char>|
                    marked(keys_to_delete@, other) <==> before.reaps(
                        now,
                        i as int + 1,
                        other,
                    ) by {
                    lemma_reaps_step(before, now, i as int, other);
                    if keys_to_delete@.len() > earlier.len() {
                        lemma_marked_push(earlier, keys_to_delete@.last(), other);
                    }
                }
            }
            i += 1;
        }
        proof {
            lemma_scan_end_unique(before, now, i as int);
        }

        let mut j: usize = 0;
        while j < keys_to_delete.len()
            invariant
                self.wf(),
                j <= keys_to_delete@.len(),
                self@.order == before.order,
                self@.ttl == before.ttl,
                self@.entries == before.entries.remove_keys(
                    Set::new(|key: Seq<char>| marked(keys_to_delete@.take(j as int), key)),
                ),
            decreases keys_to_delete@.len() - j,
        {
            let key = &keys_to_delete[j];
            self.delete(key);
            proof {
                let done = keys_to_delete@.take(j as int);
                assert(keys_to_delete@.take(j as int + 1) =~= done.push(*key));
                assert forall|other: Seq<char>|
                    marked(done.push(*key), other) <==> marked(done, other) || key@ == other by {
                    lemma_marked_push(done, *key, other);
                }
                assert(self@.entries =~= before.entries.remove_keys(
                    Set::new(|other: Seq<char>| marked(done.push(*key), other)),
                ));
            }
            j += 1;
        }
        proof {
            assert(keys_to_delete@.take(j as int) =~= keys_to_delete@);
            assert(Set::new(|key: Seq<char>| marked(keys_to_delete@, key)) =~= before.reaped(now));
        }

        let ghost slots = self.keys.deep_view();
        self.keys = self.keys.split_off(i);
        assert(self.keys.deep_view() =~= slots.subrange(i as int, slots.len() as int));
    }

    /// Purge old entries, as of the reading of the clock at the call.
    pub fn prune(&mut self)
        requires
            old(self).wf(),
        ensures
            final(self).wf(),
            exists|now: u128| final(self)@ == #[trigger] old(self)@.pruned(now),
    {
        let now = self.now();
        self.prune_at(now);
    }

    /// Get number of cache entries
    pub fn count(&self) -> (n: usize)
        requires
            self.wf(),
        ensures
            n == self@.count(),
    {
        self.data.len()
    }

    /// Get approximate size of cache
    pub fn size(&self) -> (n: usize)
        requires
            self.wf(),
        ensures
            n == self@.size(),
    {
        self.data.bytes()
    }
}

} // verus!
