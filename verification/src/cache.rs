//! The cache: values under composite keys, each with the instant at which it
//! expires. The entries are kept in a hash map, keyed by the hash of the
//! id.
use vstd::prelude::*;
use std::collections::HashMap;
use std::sync::Arc;
use crate::endpoint::{Endpoint, EndpointWithId};
use crate::hashing::{hash_str, hash_unit, text_digest, unit_digest};
use crate::ids::EndpointId;
use crate::language::Language;
use crate::shared::share;

verus! {

/// What kind of value a key stands for.
#[derive(Clone, Copy, Debug, PartialEq, Eq, Structural, Hash)]
pub enum ValueKind {
    /// One resource, or the document of a fixed endpoint.
    Item,
    /// The list of all ids of an endpoint.
    IdList,
}

/// The key of a cached value.
///
/// `endpoint` is the hash of the endpoint's path and `kind` says what is
/// stored, so values of different types do not meet under one key. `id` is
/// the hash of the id. `language` is there exactly for locale-sensitive
/// endpoints.
#[derive(Clone, Copy, Debug, PartialEq, Eq, Structural, Hash)]
pub struct CacheKey {
    pub endpoint: u64,
    pub kind: ValueKind,
    pub id: u64,
    pub language: Option<Language>,
}

/// The language component of a key.
pub open spec fn key_language(locale: bool, language: Language) -> Option<Language> {
    if locale {
        Some(language)
    } else {
        None
    }
}

/// The key under which endpoint `T` stores a value of the given kind for the
/// id with the given hash.
pub open spec fn key_of<T: Endpoint>(kind: ValueKind, id: u64, language: Language) -> CacheKey {
    CacheKey {
        endpoint: text_digest(T::URL@),
        kind,
        id,
        language: key_language(T::LOCALE, language),
    }
}

/// The key of one resource of `T`.
pub open spec fn item_key_of<T: EndpointWithId>(id: T::IdType, language: Language) -> CacheKey {
    key_of::<T>(ValueKind::Item, id.digest(), language)
}

/// The key of what `T` stores without an id: its one document, or its list
/// of ids.
pub open spec fn unit_key_of<T: Endpoint>(kind: ValueKind, language: Language) -> CacheKey {
    key_of::<T>(kind, unit_digest(), language)
}

/// Computes the key of one resource of `T`.
pub fn item_key<T: EndpointWithId>(id: &T::IdType, language: Language) -> (key: CacheKey)
    ensures
        key == item_key_of::<T>(*id, language),
        key.language is Some <==> T::LOCALE,
{
    CacheKey {
        endpoint: hash_str(T::URL),
        kind: ValueKind::Item,
        id: id.hash64(),
        language: if T::LOCALE {
            Some(language)
        } else {
            None
        },
    }
}

/// Computes the key of what `T` stores without an id.
pub fn unit_key<T: Endpoint>(kind: ValueKind, language: Language) -> (key: CacheKey)
    ensures
        key == unit_key_of::<T>(kind, language),
        key.language is Some <==> T::LOCALE,
{
    CacheKey {
        endpoint: hash_str(T::URL),
        kind,
        id: hash_unit(),
        language: if T::LOCALE {
            Some(language)
        } else {
            None
        },
    }
}

/// A cached value and the instant at which it expires.
pub struct CacheEntry<T> {
    pub key: CacheKey,
    pub value: Arc<T>,
    pub expires_at: i64,
}

/// What a cache holds, as a map from keys to values and expiry instants.
pub open spec fn contents<T>(entries: Seq<CacheEntry<T>>) -> Map<CacheKey, (Arc<T>, i64)>
    decreases entries.len(),
{
    if entries.len() == 0 {
        Map::empty()
    } else {
        contents(entries.drop_last()).insert(
            entries.last().key,
            (entries.last().value, entries.last().expires_at),
        )
    }
}

/// What a lookup at `now` finds under `key`: the value, if there is one
/// and it expires after `now`.
pub open spec fn lookup<T>(held: Map<CacheKey, (Arc<T>, i64)>, key: CacheKey, now: i64) -> Option<
    Arc<T>,
> {
    if held.contains_key(key) && held[key].1 > now {
        Some(held[key].0)
    } else {
        None
    }
}

/// Entry `i` holds `key`, and no later entry does.
pub open spec fn is_latest<T>(entries: Seq<CacheEntry<T>>, i: int, key: CacheKey) -> bool {
    &&& 0 <= i < entries.len()
    &&& entries[i].key == key
    &&& forall|j: int| i < j < entries.len() ==> (#[trigger] entries[j]).key != key
}

proof fn lemma_contents_absent<T>(entries: Seq<CacheEntry<T>>, key: CacheKey)
    requires
        forall|j: int| 0 <= j < entries.len() ==> (#[trigger] entries[j]).key != key,
    ensures
        !contents(entries).contains_key(key),
    decreases entries.len(),
{
    if entries.len() > 0 {
        let front = entries.drop_last();
        assert forall|j: int| 0 <= j < front.len() implies (#[trigger] front[j]).key != key by {
            assert(front[j] == entries[j]);
        }
        lemma_contents_absent(front, key);
        assert(entries[entries.len() - 1].key != key);
    }
}

proof fn lemma_contents_latest<T>(entries: Seq<CacheEntry<T>>, i: int, key: CacheKey)
    requires
        is_latest(entries, i, key),
    ensures
        contents(entries).contains_key(key),
        contents(entries)[key] == (entries[i].value, entries[i].expires_at),
    decreases entries.len(),
{
    if i < entries.len() - 1 {
        let front = entries.drop_last();
        assert forall|j: int| i < j < front.len() implies (#[trigger] front[j]).key != key by {
            assert(front[j] == entries[j]);
        }
        assert(front[i] == entries[i]);
        lemma_contents_latest(front, i, key);
        assert(entries[entries.len() - 1].key != key);
    }
}

proof fn lemma_contents_update<T>(entries: Seq<CacheEntry<T>>, i: int, entry: CacheEntry<T>)
    requires
        is_latest(entries, i, entry.key),
    ensures
        contents(entries.update(i, entry)) == contents(entries).insert(
            entry.key,
            (entry.value, entry.expires_at),
        ),
    decreases entries.len(),
{
    let updated = entries.update(i, entry);
    let goal = contents(entries).insert(entry.key, (entry.value, entry.expires_at));
    if i == entries.len() - 1 {
        assert(updated.drop_last() =~= entries.drop_last());
        assert(contents(updated) =~= goal);
    } else {
        let front = entries.drop_last();
        assert forall|j: int| i < j < front.len() implies (#[trigger] front[j]).key
            != entry.key by {
            assert(front[j] == entries[j]);
        }
        assert(front[i] == entries[i]);
        lemma_contents_update(front, i, entry);
        assert(updated.drop_last() =~= front.update(i, entry));
        assert(updated.last() == entries.last());
        assert(entries[entries.len() - 1].key != entry.key);
        assert(contents(updated) =~= goal);
    }
}

/// What a cache holds whose entries lie in buckets, one bucket for each
/// hash of an id: under a key stands what its bucket holds under it.
pub open spec fn bucketed<T>(buckets: Map<u64, Vec<CacheEntry<T>>>) -> Map<
    CacheKey,
    (Arc<T>, i64),
> {
    Map::new(
        |k: CacheKey| buckets.contains_key(k.id) && contents(buckets[k.id]@).contains_key(k),
        |k: CacheKey| contents(buckets[k.id]@)[k],
    )
}

/// The place of the latest entry for `key` in a bucket.
fn latest<T>(bucket: &Vec<CacheEntry<T>>, key: &CacheKey) -> (r: Option<usize>)
    ensures
        match r {
            Some(i) => is_latest(bucket@, i as int, *key),
            None => !contents(bucket@).contains_key(*key),
        },
{
    let mut i: usize = bucket.len();
    while i > 0
        invariant
            i <= bucket@.len(),
            forall|j: int| i <= j < bucket@.len() ==> (#[trigger] bucket@[j]).key != *key,
        decreases i,
    {
        i -= 1;
        if bucket[i].key == *key {
            return Some(i);
        }
    }
    proof {
        lemma_contents_absent(bucket@, *key);
    }
    None
}

/// An in-memory cache: a hash map from the hash of an id to the entries
/// with that hash.
pub struct Cache<T> {
    buckets: HashMap<u64, Vec<CacheEntry<T>>>,
}

impl<T> Cache<T> {
    /// What the cache holds.
    pub closed spec fn view(&self) -> Map<CacheKey, (Arc<T>, i64)> {
        bucketed(self.buckets@)
    }

    /// An empty cache.
    pub fn new() -> (cache: Self)
        ensures
            cache@ == Map::<CacheKey, (Arc<T>, i64)>::empty(),
    {
        let cache = Cache { buckets: HashMap::new() };
        assert(cache@ =~= Map::<CacheKey, (Arc<T>, i64)>::empty());
        cache
    }

    /// The value under `key`, if there is one and it expires after `now`.
    pub fn get(&self, key: &CacheKey, now: i64) -> (r: Option<Arc<T>>)
        ensures
            r == lookup(self@, *key, now),
    {
        broadcast use vstd::std_specs::hash::group_hash_axioms;

        match self.buckets.get(&key.id) {
            Some(bucket) => match latest(bucket, key) {
                Some(i) => {
                    proof {
                        lemma_contents_latest(bucket@, i as int, *key);
                    }
                    if bucket[i].expires_at > now {
                        Some(share(&bucket[i].value))
                    } else {
                        None
                    }
                },
                None => None,
            },
            None => None,
        }
    }

    /// Stores `value` under `key` until `expires_at`, in place of whatever
    /// stood there.
    pub fn insert(&mut self, key: CacheKey, value: Arc<T>, expires_at: i64)
        ensures
            final(self)@ == old(self)@.insert(key, (value, expires_at)),
    {
        broadcast use vstd::std_specs::hash::group_hash_axioms;

        let ghost before = self.buckets@;
        let entry = CacheEntry { key, value, expires_at };
        let mut bucket = match self.buckets.remove(&key.id) {
            Some(bucket) => bucket,
            None => Vec::new(),
        };
        let ghost was = bucket@;
        match latest(&bucket, &key) {
            Some(i) => {
                proof {
                    lemma_contents_update(bucket@, i as int, entry);
                }
                bucket.set(i, entry);
            },
            None => {
                proof {
                    assert(bucket@.push(entry).drop_last() =~= bucket@);
                }
                bucket.push(entry);
            },
        }
        assert(contents(bucket@) == contents(was).insert(key, (value, expires_at)));
        self.buckets.insert(key.id, bucket);
        proof {
            let after = self.buckets@;
            let goal = bucketed(before).insert(key, (value, expires_at));
            assert(after.contains_key(key.id) && after[key.id]@ == bucket@);
            assert forall|k: CacheKey| bucketed(after).contains_key(k) == goal.contains_key(
                k,
            ) by {
                if k.id == key.id {
                    if before.contains_key(key.id) {
                        assert(before[key.id]@ == was);
                    } else {
                        assert(was =~= Seq::<CacheEntry<T>>::empty());
                    }
                } else {
                    assert(after.contains_key(k.id) == before.contains_key(k.id));
                    if before.contains_key(k.id) {
                        assert(after[k.id] == before[k.id]);
                    }
                }
            }
            assert forall|k: CacheKey| bucketed(after).contains_key(k) implies bucketed(after)[k]
                == goal[k] by {
                if k.id == key.id {
                    if before.contains_key(key.id) {
                        assert(before[key.id]@ == was);
                    }
                } else {
                    assert(after[k.id] == before[k.id]);
                }
            }
            assert(bucketed(after) =~= goal);
        }
    }
}

} // verus!
