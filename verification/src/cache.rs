//! A cache of lookups, and the form in which its keys are stored.

use vstd::prelude::*;

use crate::text::{same_text, view_of};

verus! {

/// What a lookup is known by: the title in lower case, and the year that was
/// asked for.
pub type CacheKey = (String, Option<u32>);

/// What a [`CacheKey`] holds.
pub open spec fn key_of(key: CacheKey) -> (Seq<char>, Option<u32>) {
    (key.0@, key.1)
}

/// What a lookup gave.
#[derive(Debug)]
pub struct Entry<V> {
    key: CacheKey,
    value: V,
}

/// The lookups made so far.
#[derive(Debug)]
pub struct Cache<V> {
    entries: Vec<Entry<V>>,
}

/// The map that entries stand for.
spec fn map_of<V>(entries: Seq<Entry<V>>) -> Map<(Seq<char>, Option<u32>), V>
    decreases entries.len(),
{
    if entries.len() == 0 {
        Map::empty()
    } else {
        map_of(entries.drop_last()).insert(key_of(entries.last().key), entries.last().value)
    }
}

impl<V> View for Cache<V> {
    type V = Map<(Seq<char>, Option<u32>), V>;

    closed spec fn view(&self) -> Map<(Seq<char>, Option<u32>), V> {
        map_of(self.entries@)
    }
}

/// A key that no entry has is not in the map.
proof fn lemma_absent<V>(entries: Seq<Entry<V>>, key: (Seq<char>, Option<u32>))
    requires
        forall|i: int| 0 <= i < entries.len() ==> key_of((#[trigger] entries[i]).key) != key,
    ensures
        !map_of(entries).dom().contains(key),
    decreases entries.len(),
{
    if entries.len() > 0 {
        assert forall|i: int| 0 <= i < entries.drop_last().len() implies key_of(
            (#[trigger] entries.drop_last()[i]).key,
        ) != key by {
            assert(entries[i] == entries.drop_last()[i]);
        }
        lemma_absent(entries.drop_last(), key);
        assert(key_of(entries[entries.len() - 1].key) != key);
    }
}

/// The last entry of a key is what the map has for it, and replacing that entry
/// replaces what the map has.
proof fn lemma_present<V>(entries: Seq<Entry<V>>, at: int, entry: Entry<V>)
    requires
        0 <= at < entries.len(),
        key_of(entries[at].key) == key_of(entry.key),
        forall|i: int|
            at < i < entries.len() ==> key_of((#[trigger] entries[i]).key) != key_of(entry.key),
    ensures
        map_of(entries).dom().contains(key_of(entry.key)),
        map_of(entries)[key_of(entry.key)] == entries[at].value,
        map_of(entries.update(at, entry)) == map_of(entries).insert(
            key_of(entry.key),
            entry.value,
        ),
    decreases entries.len(),
{
    let front = entries.drop_last();
    let key = key_of(entry.key);
    if at == entries.len() - 1 {
        assert(entries.update(at, entry).drop_last() =~= front);
        assert(map_of(entries.update(at, entry)) =~= map_of(entries).insert(key, entry.value));
    } else {
        assert forall|i: int| at < i < front.len() implies key_of((#[trigger] front[i]).key)
            != key by {
            assert(front[i] == entries[i]);
        }
        assert(front[at] == entries[at]);
        lemma_present(front, at, entry);
        assert(entries.update(at, entry).drop_last() =~= front.update(at, entry));
        assert(key_of(entries[entries.len() - 1].key) != key);
        assert(map_of(entries.update(at, entry)) =~= map_of(entries).insert(key, entry.value));
    }
}

impl<V> Cache<V> {
    /// A cache without entries.
    pub fn new() -> (r: Self)
        ensures
            r@ == Map::<(Seq<char>, Option<u32>), V>::empty(),
    {
        Cache { entries: Vec::new() }
    }

    /// Where the last entry of a key stands.
    fn find(&self, key: &CacheKey) -> (r: Option<usize>)
        ensures
            match r {
                Some(at) => at < self.entries@.len() && key_of(self.entries@[at as int].key)
                    == key_of(*key) && forall|i: int|
                    at < i < self.entries@.len() ==> key_of((#[trigger] self.entries@[i]).key)
                        != key_of(*key),
                None => forall|i: int|
                    0 <= i < self.entries@.len() ==> key_of((#[trigger] self.entries@[i]).key)
                        != key_of(*key),
            },
    {
        let mut left: usize = self.entries.len();
        while left > 0
            invariant
                left <= self.entries@.len(),
                forall|i: int|
                    left <= i < self.entries@.len() ==> key_of(
                        (#[trigger] self.entries@[i]).key,
                    ) != key_of(*key),
            decreases left,
        {
            left -= 1;
            let entry = &self.entries[left];
            if same_text(entry.key.0.as_str(), key.0.as_str()) && entry.key.1 == key.1 {
                return Some(left);
            }
        }
        None
    }

    /// What the cache has for a key.
    pub fn get(&self, key: &CacheKey) -> (r: Option<&V>)
        ensures
            r is Some <==> self@.dom().contains(key_of(*key)),
            r matches Some(v) ==> *v == self@[key_of(*key)],
    {
        match self.find(key) {
            Some(at) => {
                proof {
                    lemma_present(self.entries@, at as int, self.entries@[at as int]);
                }
                Some(&self.entries[at].value)
            },
            None => {
                proof {
                    lemma_absent(self.entries@, key_of(*key));
                }
                None
            },
        }
    }

    /// Puts a value under a key, in place of what was there.
    pub fn insert(&mut self, key: CacheKey, value: V)
        ensures
            final(self)@ == old(self)@.insert(key_of(key), value),
    {
        match self.find(&key) {
            Some(at) => {
                let entry = Entry { key, value };
                proof {
                    lemma_present(self.entries@, at as int, entry);
                }
                self.entries.set(at, entry);
            },
            None => {
                let ghost before = self.entries@;
                self.entries.push(Entry { key, value });
                assert(self.entries@.drop_last() =~= before);
            },
        }
    }
}

// ── storage ──────────────────────────────────────────────────────────────────

/// The key that `serde_json::from_slice` reads from bytes, where it can.
pub uninterp spec fn key_of_json(bytes: Seq<u8>) -> Option<(Seq<char>, Option<u32>)>;

/// The bytes that `serde_json::to_vec` writes a key as, where it can.
pub uninterp spec fn json_of_key(title: Seq<char>, year: Option<u32>) -> Option<Seq<u8>>;

/// Calls `serde_json::from_slice` for a pair of a string and an optional number.
/// The result depends on the bytes alone.
#[verifier::external_body]
pub(crate) fn decode_key(bytes: &Vec<u8>) -> (r: Option<CacheKey>)
    ensures
        (match r {
            Some(key) => Some(key_of(key)),
            None => None,
        }) == key_of_json(bytes@),
{
    serde_json::from_slice::<(String, Option<u32>)>(bytes).ok()
}

/// Calls `serde_json::to_vec` for a pair of a string and an optional number, which
/// fails for neither. The result depends on the key alone, and the bytes are read
/// back as that key.
#[verifier::external_body]
pub(crate) fn encode_key(key: &CacheKey) -> (r: Option<Vec<u8>>)
    ensures
        view_of(r) == json_of_key(key.0@, key.1),
        r is Some,
        r matches Some(bytes) ==> key_of_json(bytes@) == Some(key_of(*key)),
{
    serde_json::to_vec(key).ok()
}

/// What was read of a stored entry.
#[derive(Debug)]
pub enum StoredEntry<V> {
    /// The store could not give the entry.
    Unreadable,
    /// The bytes of the key, and the value if its bytes could be read.
    Read(Vec<u8>, Option<V>),
}

/// A cache to which a stored entry is added: one without a readable key or value
/// adds nothing.
pub open spec fn with_stored<V>(
    cache: Map<(Seq<char>, Option<u32>), V>,
    entry: StoredEntry<V>,
) -> Map<(Seq<char>, Option<u32>), V> {
    match entry {
        StoredEntry::Read(bytes, Some(value)) => match key_of_json(bytes@) {
            Some(key) => cache.insert(key, value),
            None => cache,
        },
        _ => cache,
    }
}

/// The cache that stored entries make, in their order.
pub open spec fn loaded<V>(entries: Seq<StoredEntry<V>>) -> Map<(Seq<char>, Option<u32>), V>
    decreases entries.len(),
{
    if entries.len() == 0 {
        Map::empty()
    } else {
        with_stored(loaded(entries.drop_last()), entries.last())
    }
}

/// Makes a cache of stored entries; those that cannot be read are left out. The
/// second result counts them.
pub fn load_tree<V>(entries: Vec<StoredEntry<V>>) -> (r: (Cache<V>, usize))
    ensures
        r.0@ == loaded(entries@),
        r.1 == skipped(entries@),
{
    let mut cache: Cache<V> = Cache::new();
    let mut unreadable: usize = 0;
    let ghost all = entries@;
    let count: usize = entries.len();
    assert(all.take(0) == Seq::<StoredEntry<V>>::empty());
    for entry in it: entries
        invariant
            it.seq() == all,
            cache@ == loaded(all.take(it.index())),
            unreadable == skipped(all.take(it.index())),
            unreadable <= it.index(),
            all.len() == count,
    {
        proof {
            let done = it.index();
            assert(all.take(done + 1).drop_last() == all.take(done));
        }
        match entry {
            StoredEntry::Read(bytes, Some(value)) => {
                match decode_key(&bytes) {
                    Some(key) => cache.insert(key, value),
                    None => unreadable += 1,
                }
            },
            _ => unreadable += 1,
        }
    }
    assert(all.take(all.len() as int) == all);
    (cache, unreadable)
}

/// How many stored entries cannot be read.
pub open spec fn skipped<V>(entries: Seq<StoredEntry<V>>) -> nat
    decreases entries.len(),
{
    if entries.len() == 0 {
        0
    } else {
        skipped(entries.drop_last()) + match entries.last() {
            StoredEntry::Read(bytes, Some(_)) if key_of_json(bytes@) is Some => 0nat,
            _ => 1nat,
        }
    }
}

/// The bytes to store for an entry whose value has been written as bytes; none,
/// if the value could not be written.
pub fn persist_entry(key: &CacheKey, value: Option<Vec<u8>>) -> (r: Option<(Vec<u8>, Vec<u8>)>)
    ensures
        match r {
            Some((k, v)) => json_of_key(key.0@, key.1) == Some(k@) && value == Some(v)
                && key_of_json(k@) == Some(key_of(*key)),
            None => value is None,
        },
{
    match (encode_key(key), value) {
        (Some(k), Some(v)) => Some((k, v)),
        _ => None,
    }
}

/// What was stored last under a key is what the cache has for it once it is
/// loaded, whatever else is stored.
pub proof fn stored_entry_is_loaded<V>(
    entries: Seq<StoredEntry<V>>,
    at: int,
    key: (Seq<char>, Option<u32>),
    bytes: Vec<u8>,
    value: V,
)
    requires
        0 <= at < entries.len(),
        entries[at] == StoredEntry::Read(bytes, Some(value)),
        key_of_json(bytes@) == Some(key),
        forall|i: int|
            at < i < entries.len() ==> (#[trigger] entries[i] matches StoredEntry::Read(other, _)
                ==> key_of_json(other@) != Some(key)),
    ensures
        loaded(entries).dom().contains(key),
        loaded(entries)[key] == value,
    decreases entries.len(),
{
    if at < entries.len() - 1 {
        let front = entries.drop_last();
        assert forall|i: int| at < i < front.len() implies (
        #[trigger] front[i] matches StoredEntry::Read(other, _) ==> key_of_json(other@) != Some(
            key,
        )) by {
            assert(front[i] == entries[i]);
        }
        assert(front[at] == entries[at]);
        stored_entry_is_loaded(front, at, key, bytes, value);
        assert(entries.last() == entries[entries.len() - 1]);
    }
}

/// What stands for a key leaves nothing out.
pub proof fn keys_show_everything(key: CacheKey)
    ensures
        key_of(key) == (key.0@, key.1),
{
}

/// Stored entries are loaded one after the other: one whose key and value can be read puts
/// its value under its key, in place of what was there; any other adds nothing, and is
/// counted.
pub proof fn entries_are_loaded_one_by_one<V>(
    entries: Seq<StoredEntry<V>>,
    bytes: Vec<u8>,
    value: V,
)
    ensures
        loaded(Seq::<StoredEntry<V>>::empty()) == Map::<(Seq<char>, Option<u32>), V>::empty(),
        skipped(Seq::<StoredEntry<V>>::empty()) == 0,
        key_of_json(bytes@) matches Some(key) ==> loaded(
            entries.push(StoredEntry::Read(bytes, Some(value))),
        ) == loaded(entries).insert(key, value) && skipped(
            entries.push(StoredEntry::Read(bytes, Some(value))),
        ) == skipped(entries),
        key_of_json(bytes@) is None ==> loaded(entries.push(StoredEntry::Read(bytes, Some(value))))
            == loaded(entries) && skipped(entries.push(StoredEntry::Read(bytes, Some(value))))
            == skipped(entries) + 1,
        loaded(entries.push(StoredEntry::Read(bytes, None))) == loaded(entries),
        skipped(entries.push(StoredEntry::Read(bytes, None))) == skipped(entries) + 1,
        loaded(entries.push(StoredEntry::Unreadable)) == loaded(entries),
        skipped(entries.push(StoredEntry::Unreadable)) == skipped(entries) + 1,
{
    assert(entries.push(StoredEntry::Read(bytes, Some(value))).drop_last() =~= entries);
    assert(entries.push(StoredEntry::Read(bytes, None)).drop_last() =~= entries);
    assert(entries.push(StoredEntry::Unreadable).drop_last() =~= entries);
}

} // verus!
