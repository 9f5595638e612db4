//! Entries and the store that holds them.

use crate::text::texts;
use vstd::hash_map::StringHashMap;
use vstd::prelude::*;

verus! {

/// Nanoseconds in one millisecond.
pub const NANOS_PER_MILLI: u128 = 1_000_000;

/// Nanoseconds in one second.
pub const NANOS_PER_SEC: u128 = 1_000_000_000;

/// The mathematical content of an [`Entry`].
pub struct EntryView {
    pub value: Seq<char>,
    pub expires_at: Option<u128>,
}

impl EntryView {
    /// An entry is expired once the clock is strictly past its deadline.
    /// An entry without a deadline never expires.
    pub open spec fn is_expired(self, now: u64) -> bool {
        match self.expires_at {
            Some(at) => now > at,
            None => false,
        }
    }
}

/// A stored value with an optional absolute deadline.
///
/// Instants are nanoseconds on the caller's monotonic clock. Readings of
/// the clock are `u64`; deadlines are `u128`, wide enough that a reading
/// plus any 64-bit time-to-live is representable.
#[derive(Clone, Debug)]
pub struct Entry {
    pub value: String,
    pub expires_at: Option<u128>,
}

impl View for Entry {
    type V = EntryView;

    open spec fn view(&self) -> EntryView {
        EntryView { value: self.value@, expires_at: self.expires_at }
    }
}

impl Entry {
    /// Creates an entry that lives for `ttl_ms` milliseconds from `now`,
    /// or forever when `ttl_ms` is `None`.
    pub fn new(value: String, ttl_ms: Option<u64>, now: u64) -> (entry: Self)
        ensures
            entry.value == value,
            entry.expires_at == match ttl_ms {
                Some(ms) => Some((now + ms * NANOS_PER_MILLI) as u128),
                None => None,
            },
    {
        let expires_at = match ttl_ms {
            Some(ms) => Some(now as u128 + ms as u128 * NANOS_PER_MILLI),
            None => None,
        };
        Entry { value, expires_at }
    }

    /// Creates an entry with the given absolute deadline.
    pub fn with_expiry(value: String, expires_at: Option<u128>) -> (entry: Self)
        ensures
            entry.value == value,
            entry.expires_at == expires_at,
    {
        Entry { value, expires_at }
    }

    /// Whether the entry's deadline lies strictly before `now`.
    pub fn is_expired(&self, now: u64) -> (expired: bool)
        ensures
            expired == self@.is_expired(now),
    {
        match self.expires_at {
            Some(at) => now as u128 > at,
            None => false,
        }
    }
}

/// The mathematical content of a [`Store`]: the entries by key, and the
/// order in which the store walks its keys.
pub struct StoreView {
    pub entries: Map<Seq<char>, EntryView>,
    pub order: Seq<Seq<char>>,
}

impl StoreView {
    /// Every key stands exactly once in the walking order.
    pub open spec fn wf(self) -> bool {
        &&& self.order.no_duplicates()
        &&& forall|key: Seq<char>| self.entries.contains_key(key) <==> self.order.contains(key)
    }

    /// The store without entries.
    pub open spec fn empty() -> Self {
        StoreView { entries: Map::empty(), order: Seq::empty() }
    }

    /// The number of keys.
    pub open spec fn len(self) -> nat {
        self.order.len()
    }

    /// The key holds an entry, expired or not.
    pub open spec fn contains(self, key: Seq<char>) -> bool {
        self.entries.contains_key(key)
    }

    /// The key holds an entry whose deadline has passed.
    pub open spec fn is_expired(self, key: Seq<char>, now: u64) -> bool {
        self.contains(key) && self.entries[key].is_expired(now)
    }

    /// The key holds an entry whose deadline has not passed.
    pub open spec fn is_live(self, key: Seq<char>, now: u64) -> bool {
        self.contains(key) && !self.entries[key].is_expired(now)
    }

    /// Upsert. A new key goes to the end of the walking order; a key that
    /// is already present keeps its place.
    pub open spec fn insert(self, key: Seq<char>, entry: EntryView) -> Self {
        StoreView {
            entries: self.entries.insert(key, entry),
            order: if self.contains(key) {
                self.order
            } else {
                self.order.push(key)
            },
        }
    }

    /// Removal. The last key of the walking order takes the place of the
    /// removed one. Removing an absent key changes nothing.
    pub open spec fn remove(self, key: Seq<char>) -> Self {
        if self.contains(key) {
            StoreView {
                entries: self.entries.remove(key),
                order: self.order.update(self.order.index_of(key), self.order.last()).drop_last(),
            }
        } else {
            self
        }
    }

    /// The first `limit` keys of the walking order (all of them if there
    /// are fewer).
    pub open spec fn sample(self, limit: nat) -> Seq<Seq<char>> {
        if limit < self.order.len() {
            self.order.take(limit as int)
        } else {
            self.order
        }
    }

    /// Eviction: goes through `keys` from first to last and removes each
    /// one whose entry is expired at `now`.
    pub open spec fn evict(self, keys: Seq<Seq<char>>, now: u64) -> Self
        decreases keys.len(),
    {
        if keys.len() == 0 {
            self
        } else {
            let before = self.evict(keys.drop_last(), now);
            if before.is_expired(keys.last(), now) {
                before.remove(keys.last())
            } else {
                before
            }
        }
    }

    /// A full sweep: eviction over every key of the store.
    pub open spec fn sweep(self, now: u64) -> Self {
        self.evict(self.order, now)
    }

    /// The keys among `keys` whose entries are expired at `now`.
    pub open spec fn expired_among(self, keys: Seq<Seq<char>>, now: u64) -> Set<Seq<char>> {
        keys.to_set().filter(|key: Seq<char>| self.is_expired(key, now))
    }

    /// All keys whose entries are expired at `now`.
    pub open spec fn expired_keys(self, now: u64) -> Set<Seq<char>> {
        self.expired_among(self.order, now)
    }

    /// An upsert keeps the store well-formed. It adds one key if the key
    /// is new, and none otherwise.
    pub proof fn lemma_insert(self, key: Seq<char>, entry: EntryView)
        requires
            self.wf(),
        ensures
            self.insert(key, entry).wf(),
            self.insert(key, entry).len() == self.len() + if self.contains(key) {
                0nat
            } else {
                1nat
            },
    {
        let after = self.insert(key, entry);
        if !self.contains(key) {
            assert(!self.order.contains(key));
            assert forall|i: int, j: int|
                0 <= i < after.order.len() && 0 <= j < after.order.len() && i != j implies
                after.order[i] != after.order[j] by {
                if i < self.order.len() {
                    assert(self.order.contains(self.order[i]));
                }
                if j < self.order.len() {
                    assert(self.order.contains(self.order[j]));
                }
            }
            assert forall|k: Seq<char>| after.entries.contains_key(k) <==> after.order.contains(
                k,
            ) by {
                if after.order.contains(k) {
                    let i = choose|i: int| 0 <= i < after.order.len() && after.order[i] == k;
                    if i < self.order.len() {
                        assert(self.order[i] == k);
                        assert(self.order.contains(k));
                    }
                }
                if k != key && after.entries.contains_key(k) {
                    assert(self.entries.contains_key(k));
                    assert(self.order.contains(k));
                    let i = choose|i: int| 0 <= i < self.order.len() && self.order[i] == k;
                    assert(after.order[i] == k);
                }
                if k == key {
                    assert(after.order[self.order.len() as int] == key);
                }
            }
        } else {
            assert forall|k: Seq<char>| after.entries.contains_key(k) <==> after.order.contains(
                k,
            ) by {
                if k == key {
                    assert(self.entries.contains_key(k));
                } else if after.entries.contains_key(k) {
                    assert(self.entries.contains_key(k));
                }
            }
        }
    }

    /// A removal keeps the store well-formed. It takes away exactly the
    /// given key, and leaves every other entry as it was.
    pub proof fn lemma_remove(self, key: Seq<char>)
        requires
            self.wf(),
        ensures
            self.remove(key).wf(),
            !self.remove(key).contains(key),
            self.contains(key) ==> self.remove(key).len() + 1 == self.len(),
            !self.contains(key) ==> self.remove(key) == self,
            forall|k: Seq<char>|
                k != key ==> (self.remove(key).contains(k) <==> self.contains(k)) && (
                self.contains(k) ==> self.remove(key).entries[k] == self.entries[k]),
    {
        if self.contains(key) {
            let after = self.remove(key);
            let i = self.order.index_of(key);
            let last = self.order.len() - 1;
            assert(self.order.contains(key));
            assert(0 <= i <= last && self.order[i] == key);
            assert forall|a: int, b: int|
                0 <= a < after.order.len() && 0 <= b < after.order.len() && a != b implies
                after.order[a] != after.order[b] by {
                let from_a = if a == i {
                    last
                } else {
                    a
                };
                let from_b = if b == i {
                    last
                } else {
                    b
                };
                assert(after.order[a] == self.order[from_a]);
                assert(after.order[b] == self.order[from_b]);
            }
            assert forall|k: Seq<char>| after.entries.contains_key(k) <==> after.order.contains(
                k,
            ) by {
                if after.order.contains(k) {
                    let j = choose|j: int| 0 <= j < after.order.len() && after.order[j] == k;
                    if j == i {
                        assert(self.order[last] == k);
                    } else {
                        assert(self.order[j] == k);
                    }
                    assert(self.order.contains(k));
                    assert(self.entries.contains_key(k));
                }
                if after.entries.contains_key(k) {
                    assert(self.entries.contains_key(k) && k != key);
                    assert(self.order.contains(k));
                    let j = choose|j: int| 0 <= j < self.order.len() && self.order[j] == k;
                    if j == last {
                        assert(after.order[i] == k);
                    } else {
                        assert(after.order[j] == k);
                    }
                }
            }
        }
    }

    /// Eviction keeps the store well-formed, removes exactly the given
    /// keys that were expired, and leaves every other entry as it was.
    pub proof fn lemma_evict(self, keys: Seq<Seq<char>>, now: u64)
        requires
            self.wf(),
        ensures
            self.evict(keys, now).wf(),
            self.expired_among(keys, now).finite(),
            self.evict(keys, now).entries == self.entries.remove_keys(
                self.expired_among(keys, now),
            ),
            self.evict(keys, now).len() + self.expired_among(keys, now).len() == self.len(),
        decreases keys.len(),
    {
        broadcast use vstd::seq_lib::seq_to_set_is_finite;

        let gone = self.expired_among(keys, now);
        if keys.len() == 0 {
            assert(gone =~= Set::empty());
            assert(self.entries.remove_keys(gone) =~= self.entries);
        } else {
            let head = keys.drop_last();
            let key = keys.last();
            let before = self.evict(head, now);
            let gone_before = self.expired_among(head, now);
            self.lemma_evict(head, now);
            before.lemma_remove(key);
            assert(keys.to_set() =~= head.to_set().insert(key)) by {
                assert forall|k: Seq<char>| keys.to_set().contains(k) <==> head.to_set().insert(
                    key,
                ).contains(k) by {
                    if keys.contains(k) {
                        let i = choose|i: int| 0 <= i < keys.len() && keys[i] == k;
                        if i < head.len() {
                            assert(head[i] == k);
                        }
                    }
                    if head.contains(k) {
                        let i = choose|i: int| 0 <= i < head.len() && head[i] == k;
                        assert(keys[i] == k);
                    }
                    if k == key {
                        assert(keys[keys.len() - 1] == k);
                    }
                }
            }
            if before.is_expired(key, now) {
                assert(gone =~= gone_before.insert(key));
                assert(!gone_before.contains(key));
                assert(self.evict(keys, now).entries =~= self.entries.remove_keys(gone));
            } else {
                assert(gone =~= gone_before);
            }
        }
    }

    /// A full sweep removes exactly the expired entries: what is left is
    /// what was live, unchanged.
    pub proof fn lemma_sweep(self, now: u64)
        requires
            self.wf(),
        ensures
            self.sweep(now).wf(),
            self.expired_keys(now).finite(),
            self.sweep(now).entries == self.entries.remove_keys(self.expired_keys(now)),
            self.sweep(now).len() + self.expired_keys(now).len() == self.len(),
            forall|key: Seq<char>| self.sweep(now).contains(key) <==> self.is_live(key, now),
            forall|key: Seq<char>|
                self.is_live(key, now) ==> self.sweep(now).entries[key] == self.entries[key],
            forall|key: Seq<char>| !self.sweep(now).is_expired(key, now),
    {
        self.lemma_evict(self.order, now);
        assert forall|key: Seq<char>| self.sweep(now).contains(key) <==> self.is_live(
            key,
            now,
        ) by {
            if self.contains(key) {
                assert(self.order.contains(key));
            }
        }
    }
}

/// A key together with its entry, as the store keeps them.
struct Cell {
    key: String,
    entry: Entry,
}

/// A mapping from string keys to entries.
///
/// The entries lie densely in a vector, and a hash index maps each key to
/// the position of its cell, so lookup, upsert and removal each take
/// constant expected time. The vector's order is the order in which the
/// store walks its keys: insertion order, except that a removal moves the
/// last key into the gap.
///
/// The store does not look at deadlines: `get` hands out an expired entry
/// like any other, and callers decide what expiry means.
pub struct Store {
    cells: Vec<Cell>,
    slots: StringHashMap<usize>,
}

impl View for Store {
    type V = StoreView;

    closed spec fn view(&self) -> StoreView {
        StoreView {
            entries: Map::new(
                |key: Seq<char>| self.slots@.contains_key(key),
                |key: Seq<char>| self.cells@[self.slots@[key] as int].entry@,
            ),
            order: Seq::new(self.cells@.len(), |i: int| self.cells@[i].key@),
        }
    }
}

impl Store {
    /// The index and the cells agree: each cell's key maps to that cell,
    /// and each indexed key maps to a cell that carries it.
    pub closed spec fn wf(&self) -> bool {
        &&& forall|i: int|
            0 <= i < self.cells@.len() ==> {
                &&& self.slots@.contains_key(#[trigger] self.cells@[i].key@)
                &&& self.slots@[self.cells@[i].key@] == i
            }
        &&& forall|key: Seq<char>| #[trigger]
            self.slots@.contains_key(key) ==> {
                &&& self.slots@[key] < self.cells@.len()
                &&& self.cells@[self.slots@[key] as int].key@ == key
            }
    }

    /// A well-formed store has a well-formed view, of a size that the
    /// machine can count.
    pub proof fn lemma_view_wf(&self)
        requires
            self.wf(),
        ensures
            self@.wf(),
            self@.len() <= usize::MAX,
    {
        let order = self@.order;
        assert(order.len() == self.cells.len());
        assert forall|i: int, j: int|
            0 <= i < order.len() && 0 <= j < order.len() && i != j implies order[i] != order[j] by {
            assert(self.slots@[self.cells@[i].key@] == i);
            assert(self.slots@[self.cells@[j].key@] == j);
        }
        assert forall|key: Seq<char>| self@.entries.contains_key(key) <==> order.contains(key) by {
            if self@.entries.contains_key(key) {
                assert(order[self.slots@[key] as int] == key);
            }
            if order.contains(key) {
                let i = choose|i: int| 0 <= i < order.len() && order[i] == key;
                assert(self.slots@.contains_key(self.cells@[i].key@));
            }
        }
    }

    /// An empty store.
    pub fn new() -> (store: Self)
        ensures
            store.wf(),
            store@ == StoreView::empty(),
    {
        let store = Store { cells: Vec::new(), slots: StringHashMap::new() };
        assert(store@.entries =~= Map::empty());
        assert(store@.order =~= Seq::empty());
        store
    }

    /// The number of keys.
    pub fn len(&self) -> (n: usize)
        ensures
            n == self@.len(),
    {
        self.cells.len()
    }

    /// Whether the store holds no key.
    pub fn is_empty(&self) -> (empty: bool)
        ensures
            empty == (self@.len() == 0),
    {
        self.cells.len() == 0
    }

    /// Whether `key` holds an entry, expired or not.
    pub fn contains_key(&self, key: &str) -> (present: bool)
        ensures
            present == self@.contains(key@),
    {
        self.slots.contains_key(key)
    }

    /// The entry stored under `key`, expired or not.
    pub fn get(&self, key: &str) -> (found: Option<&Entry>)
        requires
            self.wf(),
        ensures
            match found {
                Some(entry) => self@.contains(key@) && entry@ == self@.entries[key@],
                None => !self@.contains(key@),
            },
    {
        match self.slots.get(key) {
            Some(slot) => Some(&self.cells[*slot].entry),
            None => None,
        }
    }

    /// Stores `entry` under `key`, replacing whatever was there.
    pub fn insert(&mut self, key: String, entry: Entry)
        requires
            old(self).wf(),
        ensures
            final(self).wf(),
            final(self)@ == old(self)@.insert(key@, entry@),
    {
        let found = match self.slots.get(key.as_str()) {
            Some(slot) => Some(*slot),
            None => None,
        };
        match found {
            Some(slot) => {
                self.cells.set(slot, Cell { key, entry });
            },
            None => {
                let slot = self.cells.len();
                self.slots.insert(key.clone(), slot);
                self.cells.push(Cell { key, entry });
            },
        }
        assert(self@.entries =~= old(self)@.insert(key@, entry@).entries);
        assert(self@.order =~= old(self)@.insert(key@, entry@).order);
    }

    /// Deletes `key` and hands back its entry, if it had one.
    pub fn remove(&mut self, key: &str) -> (removed: Option<Entry>)
        requires
            old(self).wf(),
        ensures
            final(self).wf(),
            final(self)@ == old(self)@.remove(key@),
            match removed {
                Some(entry) => old(self)@.contains(key@) && entry@ == old(self)@.entries[key@],
                None => !old(self)@.contains(key@),
            },
    {
        let found = match self.slots.get(key) {
            Some(slot) => Some(*slot),
            None => None,
        };
        match found {
            None => None,
            Some(slot) => {
                proof {
                    old(self).lemma_view_wf();
                    let order = old(self)@.order;
                    assert(order[slot as int] == key@);
                    assert(order.index_of(key@) == slot);
                }
                let last = self.cells.len() - 1;
                let cell = self.cells.swap_remove(slot);
                self.slots.remove(key);
                if slot != last {
                    let moved = self.cells[slot].key.clone();
                    self.slots.insert(moved, slot);
                }
                assert(self@.entries =~= old(self)@.remove(key@).entries);
                assert(self@.order =~= old(self)@.remove(key@).order);
                Some(cell.entry)
            },
        }
    }

    /// A snapshot of the first `limit` keys in walking order.
    pub fn sample(&self, limit: usize) -> (keys: Vec<String>)
        ensures
            texts(keys@) == self@.sample(limit as nat),
    {
        let count = if limit < self.cells.len() {
            limit
        } else {
            self.cells.len()
        };
        let mut keys: Vec<String> = Vec::new();
        let mut i: usize = 0;
        while i < count
            invariant
                i <= count <= self.cells@.len(),
                keys@.len() == i,
                forall|j: int| 0 <= j < i ==> keys@[j]@ == self.cells@[j].key@,
            decreases count - i,
        {
            keys.push(self.cells[i].key.clone());
            i += 1;
        }
        assert(texts(keys@) =~= self@.sample(limit as nat));
        keys
    }

    /// A snapshot of all keys in walking order.
    pub fn keys(&self) -> (keys: Vec<String>)
        ensures
            texts(keys@) == self@.order,
    {
        self.sample(self.cells.len())
    }
}

/// Creates a new empty store.
pub fn new() -> (store: Store)
    ensures
        store.wf(),
        store@ == StoreView::empty(),
{
    Store::new()
}

} // verus!
