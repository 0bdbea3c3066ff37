//! The store behind the cache: entries found by key in constant time, kept
//! in a dense table so that the keys can be listed, with a running count of
//! the bytes they are charged for.

use crate::mem::get_size_of_string;
use crate::mem::size_of;
use crate::model::cost;
use crate::model::lemma_total_cost_insert;
use crate::model::lemma_total_cost_remove;
use crate::model::total_cost;
use crate::model::EntryModel;
use vstd::hash_map::StringHashMap;
use vstd::prelude::*;

verus! {

/// Cache entry
pub struct Entry {
    pub(crate) value: String,
    pub(crate) created: u128,
    pub(crate) modified: u128,
}

impl View for Entry {
    type V = EntryModel;

    closed spec fn view(&self) -> EntryModel {
        EntryModel { value: self.value@, created: self.created, modified: self.modified }
    }
}

impl Entry {
    /// The stored value.
    pub fn value(&self) -> (value: &String)
        ensures
            value@ == self@.value,
    {
        &self.value
    }

    /// The time of the first write.
    pub fn created(&self) -> (at: u128)
        ensures
            at == self@.created,
    {
        self.created
    }

    /// The time of the latest write.
    pub fn modified(&self) -> (at: u128)
        ensures
            at == self@.modified,
    {
        self.modified
    }
}

/// A place in the table: an entry and the key it is stored under.
pub(crate) struct Slot {
    pub(crate) key: String,
    pub(crate) entry: Entry,
}

/// The table of entries with its index by key and its byte count.
pub(crate) struct Store {
    slots: Vec<Slot>,
    places: StringHashMap<usize>,
    bytes: usize,
}

impl View for Store {
    type V = Map<Seq<char>, EntryModel>;

    closed spec fn view(&self) -> Map<Seq<char>, EntryModel> {
        Map::new(
            |key: Seq<char>| self.places@.contains_key(key),
            |key: Seq<char>| self.slots@[self.places@[key] as int].entry@,
        )
    }
}

impl Store {
    /// Every key has its place in the table and every place its key, and the
    /// byte count is the total cost of the entries.
    pub(crate) closed spec fn wf(&self) -> bool {
        &&& self.places@.dom().finite()
        &&& forall|key: Seq<char>| #[trigger]
            self.places@.contains_key(key) ==> {
                &&& self.places@[key] < self.slots@.len()
                &&& self.slots@[self.places@[key] as int].key@ == key
            }
        &&& forall|at: int|
            0 <= at < self.slots@.len() ==> {
                &&& self.places@.contains_key(#[trigger] self.slots@[at].key@)
                &&& self.places@[self.slots@[at].key@] == at
            }
        &&& self.bytes == total_cost(self@)
    }

    /// A well-formed store holds finitely many entries.
    pub(crate) proof fn lemma_finite(&self)
        requires
            self.wf(),
        ensures
            self@.dom().finite(),
    {
        assert(self@.dom() =~= self.places@.dom());
    }

    /// The store that holds nothing.
    pub(crate) fn new() -> (store: Store)
        ensures
            store.wf(),
            store@ == Map::<Seq<char>, EntryModel>::empty(),
    {
        let store = Store { slots: Vec::new(), places: StringHashMap::new(), bytes: 0 };
        assert(store@ =~= Map::<Seq<char>, EntryModel>::empty());
        store
    }

    /// Drops every entry.
    pub(crate) fn clear(&mut self)
        ensures
            final(self).wf(),
            final(self)@ == Map::<Seq<char>, EntryModel>::empty(),
    {
        self.slots.clear();
        self.places.clear();
        self.bytes = 0;
        assert(self@ =~= Map::<Seq<char>, EntryModel>::empty());
    }

    /// The entry stored under `key`, if there is one.
    pub(crate) fn get(&self, key: &str) -> (found: Option<&Entry>)
        requires
            self.wf(),
        ensures
            match found {
                Some(entry) => self@.contains_key(key@) && entry@ == self@[key@],
                None => !self@.contains_key(key@),
            },
    {
        match self.places.get(key) {
            Some(at) => Some(&self.slots[*at].entry),
            None => None,
        }
    }

    /// Writes `value` under `key` at `now`. A key that is present keeps the
    /// time of its first write and gives up the bytes of its previous value.
    pub(crate) fn put(&mut self, key: String, value: String, now: u128)
        requires
            old(self).wf(),
            total_cost(old(self)@.remove(key@)) + size_of(key@) + size_of(value@) <= usize::MAX,
        ensures
            final(self).wf(),
            final(self)@ == old(self)@.insert(
                key@,
                EntryModel {
                    value: value@,
                    created: if old(self)@.contains_key(key@) {
                        old(self)@[key@].created
                    } else {
                        now
                    },
                    modified: now,
                },
            ),
    {
        proof {
            self.lemma_finite();
        }
        let ghost before = self@;
        let ghost written = EntryModel {
            value: value@,
            created: if before.contains_key(key@) {
                before[key@].created
            } else {
                now
            },
            modified: now,
        };
        let value_size = get_size_of_string(&value);
        match self.places.get(key.as_str()) {
            Some(at) => {
                let at = *at;
                let created = self.slots[at].entry.created;
                let previous_size = get_size_of_string(&self.slots[at].entry.value);
                proof {
                    lemma_total_cost_remove(before, key@);
                }
                self.bytes = self.bytes - previous_size + value_size;
                self.slots.set(at, Slot { key, entry: Entry { value, created, modified: now } });
            },
            None => {
                assert(before.remove(key@) =~= before);
                self.bytes = self.bytes + get_size_of_string(&key) + value_size;
                let at = self.slots.len();
                self.places.insert(key.clone(), at);
                self.slots.push(Slot { key, entry: Entry { value, created: now, modified: now } });
            },
        }
        proof {
            assert(self@ =~= before.insert(key@, written));
            lemma_total_cost_insert(before, key@, written);
        }
    }

    /// Drops the entry stored under `key`, if there is one.
    pub(crate) fn remove(&mut self, key: &str)
        requires
            old(self).wf(),
        ensures
            final(self).wf(),
            final(self)@ == old(self)@.remove(key@),
    {
        proof {
            self.lemma_finite();
        }
        let ghost before = self@;
        match self.places.get(key) {
            Some(at) => {
                let at = *at;
                proof {
                    lemma_total_cost_remove(before, key@);
                }
                self.places.remove(key);
                let gone = self.slots.swap_remove(at);
                if at < self.slots.len() {
                    let moved = self.slots[at].key.clone();
                    self.places.insert(moved, at);
                }
                self.bytes = self.bytes - (get_size_of_string(&gone.entry.value)
                    + get_size_of_string(&gone.key));
                assert(self@ =~= before.remove(key@));
            },
            None => {
                assert(before.remove(key@) =~= before);
            },
        }
    }

    /// The keys of all entries, each once, in the order of the table.
    pub(crate) fn keys(&self) -> (keys: Vec<String>)
        requires
            self.wf(),
        ensures
            keys.deep_view().no_duplicates(),
            keys.deep_view().to_set() == self@.dom(),
    {
        let mut keys: Vec<String> = Vec::new();
        let mut at: usize = 0;
        while at < self.slots.len()
            invariant
                at <= self.slots@.len(),
                keys@.len() == at,
                forall|i: int| 0 <= i < at ==> (#[trigger] keys@[i])@ == self.slots@[i].key@,
            decreases self.slots@.len() - at,
        {
            keys.push(self.slots[at].key.clone());
            at += 1;
        }
        proof {
            let texts = keys.deep_view();
            assert forall|i: int| 0 <= i < texts.len() implies #[trigger] texts[i]
                == self.slots@[i].key@ by {
                assert(texts[i] == keys@[i]@);
            }
            assert forall|i: int, j: int|
                0 <= i < texts.len() && 0 <= j < texts.len() && i != j implies texts[i]
                != texts[j] by {
                assert(self.places@[self.slots@[i].key@] == i);
                assert(self.places@[self.slots@[j].key@] == j);
            }
            assert forall|key: Seq<char>| texts.to_set().contains(key) <==> self@.dom().contains(
                key,
            ) by {
                if texts.to_set().contains(key) {
                    let i = choose|i: int| 0 <= i < texts.len() && texts[i] == key;
                    assert(self.places@.contains_key(self.slots@[i].key@));
                }
                if self@.dom().contains(key) {
                    assert(self.places@.contains_key(key));
                    assert(texts[self.places@[key] as int] == key);
                }
            }
            assert(texts.to_set() =~= self@.dom());
        }
        keys
    }

    /// The number of entries.
    pub(crate) fn len(&self) -> (n: usize)
        requires
            self.wf(),
        ensures
            n == self@.dom().len(),
    {
        assert(self@.dom() =~= self.places@.dom());
        self.places.len()
    }

    /// The bytes charged for the entries.
    pub(crate) fn bytes(&self) -> (n: usize)
        requires
            self.wf(),
        ensures
            n == total_cost(self@),
    {
        self.bytes
    }
}

} // verus!
