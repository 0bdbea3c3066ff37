//! The mathematical model of the cache: what it holds and what each
//! operation makes of it.

use crate::clock::older_than;
use crate::mem::size_of;
use vstd::prelude::*;

verus! {

/// One stored value with the times of its first and its latest write.
pub struct EntryModel {
    pub value: Seq<char>,
    pub created: u128,
    pub modified: u128,
}

impl EntryModel {
    /// The entry was last written more than `ttl` seconds before `now`.
    pub open spec fn stale(self, now: u128, ttl: u64) -> bool {
        older_than(self.modified, now, ttl)
    }

    /// The entry was first written no more than `ttl` seconds before `now`.
    pub open spec fn young(self, now: u128, ttl: u64) -> bool {
        !older_than(self.created, now, ttl)
    }
}

/// The bytes charged for one entry: those of its key and those of its value.
pub open spec fn cost(key: Seq<char>, entry: EntryModel) -> nat {
    size_of(key) + size_of(entry.value)
}

/// The bytes charged for all entries of a finite store together.
pub open spec fn total_cost(entries: Map<Seq<char>, EntryModel>) -> nat
    decreases entries.dom().len(),
    when entries.dom().finite()
{
    if entries.dom().len() == 0 {
        0
    } else {
        let key = entries.dom().choose();
        cost(key, entries[key]) + total_cost(entries.remove(key))
    }
}

/// The total splits at any key of the store: what that key's entry costs,
/// and the total of the rest.
pub proof fn lemma_total_cost_remove(entries: Map<Seq<char>, EntryModel>, key: Seq<char>)
    requires
        entries.dom().finite(),
        entries.contains_key(key),
    ensures
        total_cost(entries) == cost(key, entries[key]) + total_cost(entries.remove(key)),
    decreases entries.dom().len(),
{
    let picked = entries.dom().choose();
    if picked != key {
        let rest = entries.remove(picked);
        lemma_total_cost_remove(rest, key);
        lemma_total_cost_remove(entries.remove(key), picked);
        assert(rest.remove(key) =~= entries.remove(key).remove(picked));
    }
}

/// Writing an entry under a key charges its cost on top of the total of the
/// other keys.
pub proof fn lemma_total_cost_insert(
    entries: Map<Seq<char>, EntryModel>,
    key: Seq<char>,
    entry: EntryModel,
)
    requires
        entries.dom().finite(),
    ensures
        total_cost(entries.insert(key, entry)) == cost(key, entry) + total_cost(
            entries.remove(key),
        ),
{
    lemma_total_cost_remove(entries.insert(key, entry), key);
    assert(entries.insert(key, entry).remove(key) =~= entries.remove(key));
}

/// What a cache holds: its entries by key, the keys in the order in which
/// they were written (one slot for every write), and the time-to-live.
pub struct CacheModel {
    pub entries: Map<Seq<char>, EntryModel>,
    pub order: Seq<Seq<char>>,
    pub ttl: u64,
}

impl CacheModel {
    /// A cache holds finitely many entries.
    pub open spec fn valid(self) -> bool {
        self.entries.dom().finite()
    }

    /// The cache that holds nothing.
    pub open spec fn fresh(ttl: u64) -> CacheModel {
        CacheModel { entries: Map::empty(), order: Seq::empty(), ttl }
    }

    /// The number of entries.
    pub open spec fn count(self) -> nat {
        self.entries.dom().len()
    }

    /// The bytes charged for the entries.
    pub open spec fn size(self) -> nat {
        total_cost(self.entries)
    }

    /// What a read of `key` at `now` gives: the value, unless the key is
    /// absent or its entry is stale.
    pub open spec fn lookup(self, key: Seq<char>, now: u128) -> Option<Seq<char>> {
        if self.entries.contains_key(key) && !self.entries[key].stale(now, self.ttl) {
            Some(self.entries[key].value)
        } else {
            None
        }
    }

    /// The entry that a write of `value` under `key` at `now` leaves: a
    /// present key keeps the time of its first write.
    pub open spec fn written(self, key: Seq<char>, value: Seq<char>, now: u128) -> EntryModel {
        EntryModel {
            value,
            created: if self.entries.contains_key(key) {
                self.entries[key].created
            } else {
                now
            },
            modified: now,
        }
    }

    /// The cache after a write: the entry is put in place and the key gets a
    /// new slot at the back of the order.
    pub open spec fn with_set(self, key: Seq<char>, value: Seq<char>, now: u128) -> CacheModel {
        CacheModel {
            entries: self.entries.insert(key, self.written(key, value, now)),
            order: self.order.push(key),
            ttl: self.ttl,
        }
    }

    /// The bytes charged after a write of `value` under `key`.
    pub open spec fn size_with(self, key: Seq<char>, value: Seq<char>) -> nat {
        total_cost(self.entries.remove(key)) + size_of(key) + size_of(value)
    }

    /// The cache after `key` is deleted: the entry goes, the key's slots stay.
    pub open spec fn without(self, key: Seq<char>) -> CacheModel {
        CacheModel { entries: self.entries.remove(key), order: self.order, ttl: self.ttl }
    }

    /// The cache after it is emptied.
    pub open spec fn emptied(self) -> CacheModel {
        CacheModel::fresh(self.ttl)
    }

    /// Whether a slot that names `key` ends the scan of a prune at `now`: its
    /// key is present, and its entry is neither stale nor first written more
    /// than the time-to-live ago.
    pub open spec fn halts(self, key: Seq<char>, now: u128) -> bool {
        &&& self.entries.contains_key(key)
        &&& !self.entries[key].stale(now, self.ttl)
        &&& self.entries[key].young(now, self.ttl)
    }

    /// Whether the scan of a prune at `now` passes exactly the first `n`
    /// slots: none of them halts it, and the next one does, if there is one.
    pub open spec fn scan_ends(self, now: u128, n: int) -> bool {
        &&& 0 <= n <= self.order.len()
        &&& forall|i: int| 0 <= i < n ==> !self.halts(#[trigger] self.order[i], now)
        &&& n < self.order.len() ==> self.halts(self.order[n], now)
    }

    /// The number of slots that a prune at `now` passes.
    pub open spec fn scanned(self, now: u128) -> int {
        choose|n: int| self.scan_ends(now, n)
    }

    /// Whether a prune at `now` whose scan passes the first `n` slots deletes
    /// `key`: one of those slots names it, and its entry is stale.
    pub open spec fn reaps(self, now: u128, n: int, key: Seq<char>) -> bool {
        &&& self.entries.contains_key(key)
        &&& self.entries[key].stale(now, self.ttl)
        &&& exists|i: int| 0 <= i < n && i < self.order.len() && #[trigger] self.order[i] == key
    }

    /// The keys that a prune at `now` deletes.
    pub open spec fn reaped(self, now: u128) -> Set<Seq<char>> {
        Set::new(|key: Seq<char>| self.reaps(now, self.scanned(now), key))
    }

    /// The cache after a prune at `now`: the stale entries that the scan met
    /// are gone, and so are the slots that it passed.
    pub open spec fn pruned(self, now: u128) -> CacheModel {
        CacheModel {
            entries: self.entries.remove_keys(self.reaped(now)),
            order: self.order.subrange(self.scanned(now), self.order.len() as int),
            ttl: self.ttl,
        }
    }
}

/// What a prune deletes grows with the slots that its scan passes: past one
/// more slot it deletes what it deleted before, and the key of that slot
/// where its entry is present and stale.
pub proof fn lemma_reaps_step(model: CacheModel, now: u128, n: int, key: Seq<char>)
    requires
        0 <= n < model.order.len(),
    ensures
        model.reaps(now, n + 1, key) <==> model.reaps(now, n, key) || {
            &&& model.order[n] == key
            &&& model.entries.contains_key(key)
            &&& model.entries[key].stale(now, model.ttl)
        },
{
    if model.reaps(now, n + 1, key) {
        let i = choose|i: int|
            0 <= i < n + 1 && i < model.order.len() && #[trigger] model.order[i] == key;
        if i < n {
            assert(model.reaps(now, n, key));
        }
    }
    if model.reaps(now, n, key) {
        let i = choose|i: int|
            0 <= i < n && i < model.order.len() && #[trigger] model.order[i] == key;
        assert(0 <= i < n + 1 && model.order[i] == key);
    }
    if model.order[n] == key {
        assert(0 <= n < n + 1 && model.order[n] == key);
    }
}

/// The scan of a prune ends at one place only, which `scanned` names.
pub proof fn lemma_scan_end_unique(model: CacheModel, now: u128, n: int)
    requires
        model.scan_ends(now, n),
    ensures
        model.scanned(now) == n,
{
    let m = model.scanned(now);
    assert(model.scan_ends(now, m));
    if m < n {
        assert(!model.halts(model.order[m], now));
    } else if n < m {
        assert(!model.halts(model.order[n], now));
    }
}

/// A value that was written under a key is read back under that key for as
/// long as no more than the time-to-live has passed since the write.
pub proof fn lemma_get_after_set(
    model: CacheModel,
    key: Seq<char>,
    value: Seq<char>,
    written_at: u128,
    read_at: u128,
)
    requires
        !older_than(written_at, read_at, model.ttl),
    ensures
        model.with_set(key, value, written_at).lookup(key, read_at) == Some(value),
{
}

/// A read at the very time of the write gives the written value, whatever
/// the time-to-live.
pub proof fn lemma_round_trip(model: CacheModel, key: Seq<char>, value: Seq<char>, now: u128)
    ensures
        model.with_set(key, value, now).lookup(key, now) == Some(value),
{
}

/// A write under one key leaves what is read under every other key.
pub proof fn lemma_set_keeps_others(
    model: CacheModel,
    key: Seq<char>,
    value: Seq<char>,
    now: u128,
    other: Seq<char>,
    read_at: u128,
)
    requires
        other != key,
    ensures
        model.with_set(key, value, now).lookup(other, read_at) == model.lookup(other, read_at),
{
}

/// A deleted key reads as absent, and the delete takes one entry off the
/// count where the key was present and none where it was not.
pub proof fn lemma_delete(model: CacheModel, key: Seq<char>, now: u128)
    requires
        model.valid(),
    ensures
        model.without(key).valid(),
        model.without(key).lookup(key, now).is_none(),
        model.entries.contains_key(key) ==> model.without(key).count() == model.count() - 1,
        !model.entries.contains_key(key) ==> model.without(key) == model,
{
    if !model.entries.contains_key(key) {
        assert(model.entries.remove(key) =~= model.entries);
    }
}

/// The bytes charged follow every operation: a write charges the key and
/// the new value on top of the other entries, a delete gives back what the
/// entry cost, and an emptied cache is charged nothing.
pub proof fn lemma_size_follows(model: CacheModel, key: Seq<char>, value: Seq<char>, now: u128)
    requires
        model.valid(),
    ensures
        model.with_set(key, value, now).valid(),
        model.with_set(key, value, now).size() == model.size_with(key, value),
        model.entries.contains_key(key) ==> model.size() == model.without(key).size() + cost(
            key,
            model.entries[key],
        ),
        !model.entries.contains_key(key) ==> model.without(key).size() == model.size(),
        !model.entries.contains_key(key) ==> model.size_with(key, value) == model.size()
            + size_of(key) + size_of(value),
        model.emptied().size() == 0,
{
    lemma_total_cost_insert(model.entries, key, model.written(key, value, now));
    if model.entries.contains_key(key) {
        lemma_total_cost_remove(model.entries, key);
    } else {
        assert(model.entries.remove(key) =~= model.entries);
    }
}

/// An emptied cache has no entries, is charged no bytes and has no slots,
/// whatever it held.
pub proof fn lemma_emptied(model: CacheModel)
    ensures
        model.emptied().valid(),
        model.emptied().count() == 0,
        model.emptied().size() == 0,
        model.emptied().order.len() == 0,
        model.emptied().emptied() == model.emptied(),
{
}

/// A prune deletes stale entries only and changes none that it keeps, so a
/// read at the time of the prune gives the same before and after it.
pub proof fn lemma_prune_spares_live(model: CacheModel, now: u128, key: Seq<char>)
    requires
        model.valid(),
    ensures
        model.pruned(now).valid(),
        model.pruned(now).entries.submap_of(model.entries),
        model.pruned(now).count() <= model.count(),
        model.entries.contains_key(key) && !model.entries[key].stale(now, model.ttl)
            ==> model.pruned(now).entries.contains_key(key),
        model.pruned(now).lookup(key, now) == model.lookup(key, now),
{
    let after = model.pruned(now);
    assert(after.entries.dom().subset_of(model.entries.dom()));
    vstd::set_lib::lemma_len_subset(after.entries.dom(), model.entries.dom());
}

/// Where the first slot names a present key whose entry is stale, a prune
/// deletes that entry.
pub proof fn lemma_prune_takes_front(model: CacheModel, now: u128)
    requires
        model.valid(),
        model.order.len() > 0,
        model.entries.contains_key(model.order[0]),
        model.entries[model.order[0]].stale(now, model.ttl),
    ensures
        !model.pruned(now).entries.contains_key(model.order[0]),
        model.pruned(now).count() < model.count(),
{
    let n = model.scanned(now);
    lemma_scan_exists(model, now);
    assert(model.scan_ends(now, n));
    assert(!model.halts(model.order[0], now));
    assert(n > 0);
    assert(model.order[0] == model.order[0]);
    assert(model.reaps(now, n, model.order[0]));
    let after = model.pruned(now);
    assert(after.entries.dom().subset_of(model.entries.dom().remove(model.order[0])));
    vstd::set_lib::lemma_len_subset(
        after.entries.dom(),
        model.entries.dom().remove(model.order[0]),
    );
}

impl CacheModel {
    /// Whether the cache is what writes of distinct keys, one each and at
    /// times that never go back, leave: every entry has one slot, was
    /// written once, and the slots stand in the order of the times.
    pub open spec fn written_in_order(self) -> bool {
        &&& self.order.no_duplicates()
        &&& forall|key: Seq<char>| self.entries.contains_key(key) <==> self.order.contains(key)
        &&& forall|i: int|
            0 <= i < self.order.len() ==> self.entries[#[trigger] self.order[i]].created
                == self.entries[self.order[i]].modified
        &&& forall|i: int, j: int|
            0 <= i <= j < self.order.len() ==> self.entries[#[trigger] self.order[i]].modified
                <= self.entries[#[trigger] self.order[j]].modified
    }
}

/// Writes of new keys at times that never go back keep the cache written in
/// order, from the empty cache on.
pub proof fn lemma_written_in_order(
    model: CacheModel,
    key: Seq<char>,
    value: Seq<char>,
    now: u128,
)
    requires
        model.written_in_order(),
        !model.entries.contains_key(key),
        forall|other: Seq<char>|
            model.entries.contains_key(other) ==> model.entries[other].modified <= now,
    ensures
        CacheModel::fresh(model.ttl).written_in_order(),
        model.with_set(key, value, now).written_in_order(),
{
    let after = model.with_set(key, value, now);
    let last = model.order.len() as int;
    assert forall|other: Seq<char>|
        after.entries.contains_key(other) <==> after.order.contains(other) by {
        if after.order.contains(other) {
            let i = choose|i: int| 0 <= i < after.order.len() && after.order[i] == other;
            if i < last {
                assert(model.order[i] == other);
                assert(model.order.contains(other));
            }
        }
        if after.entries.contains_key(other) {
            if other == key {
                assert(after.order[last] == other);
            } else {
                assert(model.order.contains(other));
                let i = choose|i: int| 0 <= i < model.order.len() && model.order[i] == other;
                assert(after.order[i] == other);
            }
        }
    }
    assert forall|i: int| 0 <= i < last implies #[trigger] after.order[i] != key
        && after.entries.contains_key(after.order[i]) by {
        assert(model.order[i] == after.order[i]);
        assert(model.order.contains(model.order[i]));
    }
    assert forall|i: int, j: int|
        0 <= i <= j < after.order.len() implies after.entries[#[trigger] after.order[i]].modified
        <= after.entries[#[trigger] after.order[j]].modified by {
        if j < last {
            let earlier = model.entries[model.order[i]];
            let later = model.entries[model.order[j]];
            assert(earlier.modified <= later.modified);
        }
    }
    assert forall|i: int|
        0 <= i < after.order.len() implies after.entries[#[trigger] after.order[i]].created
        == after.entries[after.order[i]].modified by {
        if i < last {
            let entry = model.entries[model.order[i]];
            assert(entry.created == entry.modified);
        }
    }
}

/// A prune of a cache that was written in order leaves exactly the entries
/// that are not stale.
pub proof fn lemma_prune_in_order(model: CacheModel, now: u128, key: Seq<char>)
    requires
        model.written_in_order(),
    ensures
        model.pruned(now).entries.contains_key(key) <==> model.entries.contains_key(key)
            && !model.entries[key].stale(now, model.ttl),
        model.pruned(now).entries.contains_key(key) ==> model.pruned(now).entries[key]
            == model.entries[key],
{
    lemma_scan_exists(model, now);
    let n = model.scanned(now);
    if model.entries.contains_key(key) && model.entries[key].stale(now, model.ttl) {
        assert(model.order.contains(key));
        let k = choose|k: int| 0 <= k < model.order.len() && model.order[k] == key;
        if n <= k {
            let halting = model.entries[model.order[n]];
            assert(model.halts(model.order[n], now));
            assert(halting.modified <= model.entries[model.order[k]].modified);
        }
        assert(model.reaps(now, n, key));
    }
}

/// The scan of a prune ends somewhere: `scanned` names a place that
/// `scan_ends` accepts.
pub proof fn lemma_scan_exists(model: CacheModel, now: u128)
    ensures
        model.scan_ends(now, model.scanned(now)),
{
    let n = lemma_scan_prefix(model, now, model.order.len() as int);
    assert(model.scan_ends(now, n));
}

/// Within the first `upto` slots the scan either halts at one or passes
/// them all; the result is where.
proof fn lemma_scan_prefix(model: CacheModel, now: u128, upto: int) -> (n: int)
    requires
        0 <= upto <= model.order.len(),
    ensures
        0 <= n <= upto,
        forall|i: int| 0 <= i < n ==> !model.halts(#[trigger] model.order[i], now),
        n < upto ==> model.halts(model.order[n], now),
    decreases upto,
{
    if upto == 0 {
        0
    } else {
        let n = lemma_scan_prefix(model, now, upto - 1);
        if n == upto - 1 && !model.halts(model.order[n], now) {
            upto
        } else {
            n
        }
    }
}

} // verus!
