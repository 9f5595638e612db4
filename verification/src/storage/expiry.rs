//! Active expiry: the periodic reaper and the full sweep.
//!
//! The reaper does not draw a random sample. Each cycle looks at the first
//! `batch_size` keys in the store's walking order, so which keys a cycle
//! reaches is a function of the store alone.

use crate::storage::db::{Store, StoreView};
use crate::text::texts;
use vstd::prelude::*;

verus! {

/// The reaper's default period: 100 milliseconds, in nanoseconds.
pub const DEFAULT_INTERVAL: u64 = 100_000_000;

/// The reaper's default number of keys per cycle.
pub const DEFAULT_BATCH_SIZE: usize = 20;

/// Configuration of the reaper.
#[derive(Clone, Copy, Debug)]
pub struct ExpiryConfig {
    /// Time between two cycles, in nanoseconds.
    pub interval: u64,
    /// The most keys that one cycle looks at.
    pub batch_size: usize,
}

impl Default for ExpiryConfig {
    fn default() -> (config: Self)
        ensures
            config.interval == DEFAULT_INTERVAL,
            config.batch_size == DEFAULT_BATCH_SIZE,
    {
        ExpiryConfig { interval: DEFAULT_INTERVAL, batch_size: DEFAULT_BATCH_SIZE }
    }
}

impl ExpiryConfig {
    /// The same configuration with another period.
    pub fn with_interval(self, interval: u64) -> (config: Self)
        ensures
            config.interval == interval,
            config.batch_size == self.batch_size,
    {
        ExpiryConfig { interval, batch_size: self.batch_size }
    }

    /// The same configuration with another batch size.
    pub fn with_batch_size(self, batch_size: usize) -> (config: Self)
        ensures
            config.interval == self.interval,
            config.batch_size == batch_size,
    {
        ExpiryConfig { interval: self.interval, batch_size }
    }
}

/// Running totals of the reaper.
#[derive(Debug)]
pub struct ExpiryStats {
    pub cycles_run: u64,
    pub keys_expired: u64,
}

impl Default for ExpiryStats {
    fn default() -> (stats: Self)
        ensures
            stats.cycles_run == 0,
            stats.keys_expired == 0,
    {
        ExpiryStats { cycles_run: 0, keys_expired: 0 }
    }
}

impl ExpiryStats {
    /// Whether the totals have room for one more cycle that evicts up to
    /// `batch_size` keys.
    pub open spec fn has_room(&self, batch_size: usize) -> bool {
        &&& self.cycles_run < u64::MAX
        &&& self.keys_expired + batch_size <= u64::MAX
    }

    /// Exec form of [`Self::has_room`].
    pub fn can_record(&self, batch_size: usize) -> (room: bool)
        ensures
            room == self.has_room(batch_size),
    {
        self.cycles_run < u64::MAX && batch_size as u128 + self.keys_expired as u128
            <= u64::MAX as u128
    }

    /// Counts one finished cycle that evicted `expired_count` keys.
    /// Returns whether the cycle is worth reporting, which is when it
    /// evicted anything.
    pub fn record_cycle(&mut self, expired_count: usize) -> (report: bool)
        requires
            old(self).has_room(expired_count),
        ensures
            final(self).cycles_run == old(self).cycles_run + 1,
            final(self).keys_expired == old(self).keys_expired + expired_count,
            report == (expired_count > 0),
    {
        let report = expired_count > 0;
        if report {
            self.keys_expired = self.keys_expired + expired_count as u64;
        }
        self.cycles_run = self.cycles_run + 1;
        report
    }
}

/// Goes through `keys` from first to last and removes from the store each
/// one whose entry is expired at `now`. Returns how many were removed.
pub fn evict_expired(store: &mut Store, keys: &Vec<String>, now: u64) -> (removed: usize)
    requires
        old(store).wf(),
    ensures
        final(store).wf(),
        final(store)@ == old(store)@.evict(texts(keys@), now),
        removed == old(store)@.expired_among(texts(keys@), now).len(),
        removed + final(store)@.len() == old(store)@.len(),
{
    let ghost start = store@;
    let ghost all = texts(keys@);
    let mut removed: usize = 0;
    let mut i: usize = 0;
    proof {
        assert(all.take(0) =~= Seq::<Seq<char>>::empty());
        store.lemma_view_wf();
    }
    while i < keys.len()
        invariant
            i <= keys@.len(),
            start.len() <= usize::MAX,
            all == texts(keys@),
            store.wf(),
            store@ == start.evict(all.take(i as int), now),
            removed + store@.len() == start.len(),
        decreases keys@.len() - i,
    {
        let key = keys[i].as_str();
        let expired = match store.get(key) {
            Some(entry) => entry.is_expired(now),
            None => false,
        };
        proof {
            assert(all.take(i + 1).drop_last() =~= all.take(i as int));
            assert(all.take(i + 1).last() == key@);
            store.lemma_view_wf();
            store@.lemma_remove(key@);
        }
        if expired {
            store.remove(key);
            removed = removed + 1;
        }
        i = i + 1;
    }
    proof {
        assert(all.take(i as int) =~= all);
        old(store).lemma_view_wf();
        start.lemma_evict(all, now);
    }
    removed
}

/// One reaper cycle: looks at the first `batch_size` keys of the store and
/// removes those whose entries are expired at `now`. Returns how many were
/// removed.
///
/// Every sampled entry that is expired is gone afterwards. Entries that
/// were not sampled, and sampled entries that are live, stay as they were.
pub fn cleanup_expired_keys(store: &mut Store, batch_size: usize, now: u64) -> (removed: usize)
    requires
        old(store).wf(),
    ensures
        final(store).wf(),
        final(store)@ == old(store)@.evict(old(store)@.sample(batch_size as nat), now),
        final(store)@.entries == old(store)@.entries.remove_keys(
            old(store)@.expired_among(old(store)@.sample(batch_size as nat), now),
        ),
        removed == old(store)@.expired_among(old(store)@.sample(batch_size as nat), now).len(),
        removed <= batch_size,
{
    let keys = store.sample(batch_size);
    proof {
        old(store).lemma_view_wf();
        old(store)@.lemma_evict(texts(keys@), now);
    }
    let removed = evict_expired(store, &keys, now);
    proof {
        lemma_expired_among_bound(old(store)@, texts(keys@), now);
    }
    removed
}

/// A full sweep: removes every entry that is expired at `now` and returns
/// how many there were. Live entries stay as they were.
pub fn cleanup_all_expired(store: &mut Store, now: u64) -> (removed: usize)
    requires
        old(store).wf(),
    ensures
        final(store).wf(),
        final(store)@ == old(store)@.sweep(now),
        final(store)@.entries == old(store)@.entries.remove_keys(old(store)@.expired_keys(now)),
        removed == old(store)@.expired_keys(now).len(),
        forall|key: Seq<char>| final(store)@.contains(key) <==> old(store)@.is_live(key, now),
{
    let keys = store.keys();
    proof {
        old(store).lemma_view_wf();
        old(store)@.lemma_sweep(now);
    }
    evict_expired(store, &keys, now)
}

/// One tick of the reaper: runs a cycle on the store and counts it in the
/// totals. Returns how many keys the cycle removed.
pub fn run_expiry_cycle(
    store: &mut Store,
    config: &ExpiryConfig,
    stats: &mut ExpiryStats,
    now: u64,
) -> (removed: usize)
    requires
        old(store).wf(),
        old(stats).has_room(config.batch_size),
    ensures
        final(store).wf(),
        final(store)@ == old(store)@.evict(old(store)@.sample(config.batch_size as nat), now),
        removed == old(store)@.expired_among(
            old(store)@.sample(config.batch_size as nat),
            now,
        ).len(),
        final(stats).cycles_run == old(stats).cycles_run + 1,
        final(stats).keys_expired == old(stats).keys_expired + removed,
{
    let removed = cleanup_expired_keys(store, config.batch_size, now);
    stats.record_cycle(removed);
    removed
}

/// What a reaper cycle does, key by key. A sampled key whose entry is
/// expired is gone after the cycle. Every other entry, live or not
/// sampled, is still there and unchanged, and the cycle adds no key.
pub proof fn reaper_cycle_evicts_sampled(store: StoreView, batch_size: usize, now: u64)
    requires
        store.wf(),
    ensures
        ({
            let sample = store.sample(batch_size as nat);
            let after = store.evict(sample, now);
            &&& after.wf()
            &&& sample.len() <= batch_size
            &&& forall|i: int| 0 <= i < sample.len() ==> sample[i] == store.order[i]
            &&& forall|key: Seq<char>|
                sample.contains(key) && store.is_expired(key, now) ==> !after.contains(key)
            &&& forall|key: Seq<char>|
                store.contains(key) && !(sample.contains(key) && store.is_expired(key, now))
                    ==> after.contains(key) && after.entries[key] == store.entries[key]
            &&& forall|key: Seq<char>| after.contains(key) ==> store.contains(key)
        }),
{
    store.lemma_evict(store.sample(batch_size as nat), now);
}

/// No more keys are expired among `keys` than `keys` is long.
proof fn lemma_expired_among_bound(store: StoreView, keys: Seq<Seq<char>>, now: u64)
    ensures
        store.expired_among(keys, now).finite(),
        store.expired_among(keys, now).len() <= keys.len(),
{
    broadcast use vstd::seq_lib::seq_to_set_is_finite;

    keys.to_set().lemma_len_filter(|key: Seq<char>| store.is_expired(key, now));
    keys.lemma_cardinality_of_set();
}

} // verus!
