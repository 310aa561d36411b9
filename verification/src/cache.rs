//! The bounded cache of chunk contents.
use crate::types::ChunkId;
use lru::LruCache;
use std::num::NonZeroUsize;
use std::sync::Arc;
use vstd::prelude::*;

verus! {

/// `lru::LruCache`, an opaque type.
#[verifier::external_type_specification]
#[verifier::external_body]
#[verifier::reject_recursive_types(K)]
#[verifier::reject_recursive_types(V)]
#[verifier::reject_recursive_types(S)]
pub struct ExLruCache<K, V, S>(LruCache<K, V, S>);

/// `lru::DefaultHasher`, an opaque type.
#[verifier::external_type_specification]
#[verifier::external_body]
pub struct ExDefaultHasher(lru::DefaultHasher);

/// The entries of a cache, the one used last first.
pub uninterp spec fn lru_entries(cache: LruCache<[u8; 32], Arc<Vec<u8>>>) -> Seq<
    ([u8; 32], Seq<u8>),
>;

/// How many entries a cache can hold.
pub uninterp spec fn lru_limit(cache: LruCache<[u8; 32], Arc<Vec<u8>>>) -> nat;

/// The largest number of entries that a cache is made for.
pub const MAX_CACHE_ENTRIES: usize = 0x1000_0000;

/// The place of a key among the entries.
pub open spec fn place_of(entries: Seq<([u8; 32], Seq<u8>)>, key: [u8; 32]) -> Option<int>
    decreases entries.len(),
{
    if entries.len() == 0 {
        None
    } else {
        match place_of(entries.drop_last(), key) {
            Some(i) => Some(i),
            None => if entries.last().0 == key {
                Some(entries.len() - 1)
            } else {
                None
            },
        }
    }
}

/// The entries with that of the key taken out.
pub open spec fn without(entries: Seq<([u8; 32], Seq<u8>)>, key: [u8; 32]) -> Seq<
    ([u8; 32], Seq<u8>),
> {
    match place_of(entries, key) {
        Some(i) => entries.remove(i),
        None => entries,
    }
}

/// The value under a key.
pub open spec fn value_of(entries: Seq<([u8; 32], Seq<u8>)>, key: [u8; 32]) -> Option<Seq<u8>> {
    match place_of(entries, key) {
        Some(i) => Some(entries[i].1),
        None => None,
    }
}

/// The entries after a lookup: the one found moves to the front.
pub open spec fn touched(entries: Seq<([u8; 32], Seq<u8>)>, key: [u8; 32]) -> Seq<
    ([u8; 32], Seq<u8>),
> {
    match place_of(entries, key) {
        Some(i) => seq![entries[i]] + entries.remove(i),
        None => entries,
    }
}

/// The entries after a value was stored: it stands in front, and where it was new and the cache
/// was full, the entry that had not been used for longest is gone.
pub open spec fn stored(
    entries: Seq<([u8; 32], Seq<u8>)>,
    limit: nat,
    key: [u8; 32],
    value: Seq<u8>,
) -> Seq<([u8; 32], Seq<u8>)> {
    if place_of(entries, key) is Some {
        seq![(key, value)] + without(entries, key)
    } else if entries.len() == limit {
        seq![(key, value)] + entries.drop_last()
    } else {
        seq![(key, value)] + entries
    }
}

/// `LruCache::new`: an empty cache for so many entries. Its table is allocated here, so the
/// number is kept where that cannot overflow.
#[verifier::external_body]
fn lru_new(limit: usize) -> (cache: LruCache<[u8; 32], Arc<Vec<u8>>>)
    requires
        1 <= limit <= MAX_CACHE_ENTRIES,
    ensures
        lru_entries(cache).len() == 0,
        lru_limit(cache) == limit,
{
    LruCache::new(NonZeroUsize::new(limit).unwrap())
}

/// `LruCache::get`, with a shared handle on the value: finds the value under the key and moves
/// its entry to the front.
#[verifier::external_body]
fn lru_get(cache: &mut LruCache<[u8; 32], Arc<Vec<u8>>>, key: &[u8; 32]) -> (r: Option<
    Arc<Vec<u8>>,
>)
    ensures
        lru_entries(*final(cache)) == touched(lru_entries(*old(cache)), *key),
        lru_limit(*final(cache)) == lru_limit(*old(cache)),
        match r {
            Some(v) => value_of(lru_entries(*old(cache)), *key) == Some((*v)@),
            None => value_of(lru_entries(*old(cache)), *key) is None,
        },
{
    cache.get(key).map(Arc::clone)
}

/// `LruCache::contains`: whether the key has an entry. The order of the entries stays.
#[verifier::external_body]
fn lru_contains(cache: &LruCache<[u8; 32], Arc<Vec<u8>>>, key: &[u8; 32]) -> (r: bool)
    ensures
        r == (place_of(lru_entries(*cache), *key) is Some),
{
    cache.contains(key)
}

/// `LruCache::put`: stores the value in front, in place of the key's old entry or, in a full
/// cache, of the entry that had not been used for longest.
#[verifier::external_body]
fn lru_put(cache: &mut LruCache<[u8; 32], Arc<Vec<u8>>>, key: [u8; 32], value: Arc<Vec<u8>>)
    ensures
        lru_entries(*final(cache)) == stored(
            lru_entries(*old(cache)),
            lru_limit(*old(cache)),
            key,
            (*value)@,
        ),
        lru_limit(*final(cache)) == lru_limit(*old(cache)),
{
    cache.put(key, value);
}

/// `LruCache::pop`: takes the key's entry out.
#[verifier::external_body]
fn lru_pop(cache: &mut LruCache<[u8; 32], Arc<Vec<u8>>>, key: &[u8; 32])
    ensures
        lru_entries(*final(cache)) == without(lru_entries(*old(cache)), *key),
        lru_limit(*final(cache)) == lru_limit(*old(cache)),
{
    cache.pop(key);
}

/// `LruCache::len`: the number of entries.
#[verifier::external_body]
fn lru_len(cache: &LruCache<[u8; 32], Arc<Vec<u8>>>) -> (n: usize)
    ensures
        n == lru_entries(*cache).len(),
{
    cache.len()
}

/// What a chunk cache holds.
pub ghost struct Cached {
    /// Identity and bytes of each chunk, the one used last first.
    pub entries: Seq<([u8; 32], Seq<u8>)>,
    pub limit: nat,
}

impl Cached {
    /// No chunk is held twice, and no more chunks than the limit.
    pub open spec fn sound(self) -> bool {
        &&& 1 <= self.limit
        &&& self.entries.len() <= self.limit
        &&& forall|i: int, j: int|
            0 <= i < j < self.entries.len() ==> (#[trigger] self.entries[i]).0 != (
            #[trigger] self.entries[j]).0
    }
}

/// A bounded cache of chunk contents. The chunk that has not been used for longest leaves first.
pub struct ChunkCache {
    cache: LruCache<[u8; 32], Arc<Vec<u8>>>,
}

impl View for ChunkCache {
    type V = Cached;

    closed spec fn view(&self) -> Cached {
        Cached { entries: lru_entries(self.cache), limit: lru_limit(self.cache) }
    }
}

pub(crate) proof fn place_of_is_place(entries: Seq<([u8; 32], Seq<u8>)>, key: [u8; 32])
    ensures
        match place_of(entries, key) {
            Some(i) => 0 <= i < entries.len() && entries[i].0 == key,
            None => forall|i: int| 0 <= i < entries.len() ==> (#[trigger] entries[i]).0 != key,
        },
    decreases entries.len(),
{
    if entries.len() > 0 {
        place_of_is_place(entries.drop_last(), key);
        assert forall|i: int| 0 <= i < entries.len() - 1 implies entries.drop_last()[i]
            == entries[i] by {}
        if place_of(entries, key) is None {
            assert forall|i: int| 0 <= i < entries.len() implies (#[trigger] entries[i]).0
                != key by {
                if i < entries.len() - 1 {
                    assert(entries.drop_last()[i].0 != key);
                }
            }
        }
    }
}

/// What a key's entry is, in entries that hold no key twice.
proof fn place_is_unique(entries: Seq<([u8; 32], Seq<u8>)>, key: [u8; 32], i: int)
    requires
        0 <= i < entries.len(),
        entries[i].0 == key,
        forall|i: int, j: int|
            0 <= i < j < entries.len() ==> (#[trigger] entries[i]).0 != (#[trigger] entries[j]).0,
    ensures
        place_of(entries, key) == Some(i),
{
    place_of_is_place(entries, key);
    let k = place_of(entries, key)->0;
    if k < i {
        assert(entries[k].0 != entries[i].0);
    }
    if i < k {
        assert(entries[i].0 != entries[k].0);
    }
}

/// What was stored is found again, and nothing else changed hands: another key that is found
/// afterwards is found with the value it had.
pub proof fn stored_value_is_found(c: Cached, key: [u8; 32], value: Seq<u8>, other: [u8; 32])
    requires
        c.sound(),
    ensures
        (Cached { entries: stored(c.entries, c.limit, key, value), limit: c.limit }).sound(),
        value_of(stored(c.entries, c.limit, key, value), key) == Some(value),
        other != key && value_of(stored(c.entries, c.limit, key, value), other) is Some ==> value_of(
            stored(c.entries, c.limit, key, value),
            other,
        ) == value_of(c.entries, other),
{
    let e = c.entries;
    let s = stored(e, c.limit, key, value);
    place_of_is_place(e, key);
    let rest = s.drop_first();
    assert(s =~= seq![(key, value)] + rest);
    assert forall|i: int| 0 <= i < rest.len() implies (#[trigger] rest[i]).0 != key && exists|j: int|
        0 <= j < e.len() && e[j] == rest[i] by {
        match place_of(e, key) {
            Some(p) => {
                let j = if i < p {
                    i
                } else {
                    i + 1
                };
                assert(rest[i] == e[j]);
                if j < p {
                    assert(e[j].0 != e[p].0);
                } else {
                    assert(e[p].0 != e[j].0);
                }
            },
            None => {
                assert(rest[i] == e[i]);
            },
        }
    }
    assert forall|i: int, j: int| 0 <= i < j < s.len() implies (#[trigger] s[i]).0 != (
    #[trigger] s[j]).0 by {
        assert(s[j] == rest[j - 1]);
        if i > 0 {
            assert(s[i] == rest[i - 1]);
            match place_of(e, key) {
                Some(p) => {
                    let a = if i - 1 < p {
                        i - 1
                    } else {
                        i
                    };
                    let b = if j - 1 < p {
                        j - 1
                    } else {
                        j
                    };
                    assert(rest[i - 1] == e[a]);
                    assert(rest[j - 1] == e[b]);
                    assert(e[a].0 != e[b].0);
                },
                None => {
                    assert(rest[i - 1] == e[i - 1]);
                    assert(rest[j - 1] == e[j - 1]);
                    assert(e[i - 1].0 != e[j - 1].0);
                },
            }
        }
    }
    place_is_unique(s, key, 0);
    if other != key && value_of(s, other) is Some {
        place_of_is_place(s, other);
        let i = place_of(s, other)->0;
        assert(s[i] == rest[i - 1]);
        let j = choose|j: int| 0 <= j < e.len() && e[j] == rest[i - 1];
        place_is_unique(e, other, j);
    }
}

proof fn removal_is_sound(c: Cached, key: [u8; 32])
    requires
        c.sound(),
    ensures
        (Cached { entries: without(c.entries, key), limit: c.limit }).sound(),
        value_of(without(c.entries, key), key) is None,
{
    let e = c.entries;
    let w = without(e, key);
    place_of_is_place(e, key);
    match place_of(e, key) {
        Some(p) => {
            assert forall|i: int| 0 <= i < w.len() implies (#[trigger] w[i]) == (if i < p {
                e[i]
            } else {
                e[i + 1]
            }) by {}
            assert forall|i: int| 0 <= i < w.len() implies (#[trigger] w[i]).0 != key by {
                if i < p {
                    assert(e[i].0 != e[p].0);
                } else {
                    assert(e[p].0 != e[i + 1].0);
                }
            }
            assert forall|i: int, j: int| 0 <= i < j < w.len() implies (#[trigger] w[i]).0 != (
            #[trigger] w[j]).0 by {
                let a = if i < p {
                    i
                } else {
                    i + 1
                };
                let b = if j < p {
                    j
                } else {
                    j + 1
                };
                assert(e[a].0 != e[b].0);
            }
        },
        None => {},
    }
    place_of_is_place(w, key);
}

proof fn touch_is_sound(c: Cached, key: [u8; 32])
    requires
        c.sound(),
    ensures
        (Cached { entries: touched(c.entries, key), limit: c.limit }).sound(),
{
    place_of_is_place(c.entries, key);
    match place_of(c.entries, key) {
        Some(p) => {
            stored_value_is_found(c, key, c.entries[p].1, key);
            assert(touched(c.entries, key) =~= stored(
                c.entries,
                c.limit,
                key,
                c.entries[p].1,
            ));
        },
        None => {},
    }
}

impl ChunkCache {
    /// An empty cache for `limit` chunks.
    pub fn new(limit: usize) -> (c: ChunkCache)
        requires
            1 <= limit <= MAX_CACHE_ENTRIES,
        ensures
            c@.sound(),
            c@.limit == limit,
            c@.entries.len() == 0,
    {
        ChunkCache { cache: lru_new(limit) }
    }

    /// The bytes of a chunk, if they are here. It counts as used.
    pub fn get(&mut self, chunk_id: &ChunkId) -> (r: Option<Arc<Vec<u8>>>)
        requires
            old(self)@.sound(),
        ensures
            final(self)@.sound(),
            final(self)@.entries == touched(old(self)@.entries, chunk_id.hash),
            final(self)@.limit == old(self)@.limit,
            match r {
                Some(v) => value_of(old(self)@.entries, chunk_id.hash) == Some((*v)@),
                None => value_of(old(self)@.entries, chunk_id.hash) is None,
            },
    {
        proof {
            touch_is_sound(self@, chunk_id.hash);
        }
        lru_get(&mut self.cache, &chunk_id.hash)
    }

    /// Whether the bytes of a chunk are here. This is no use of it.
    pub fn contains(&self, chunk_id: &ChunkId) -> (r: bool)
        ensures
            r == (value_of(self@.entries, chunk_id.hash) is Some),
    {
        lru_contains(&self.cache, &chunk_id.hash)
    }

    /// Keeps the bytes of a chunk.
    pub fn put(&mut self, chunk_id: ChunkId, data: Arc<Vec<u8>>)
        requires
            old(self)@.sound(),
        ensures
            final(self)@.sound(),
            final(self)@.entries == stored(
                old(self)@.entries,
                old(self)@.limit,
                chunk_id.hash,
                (*data)@,
            ),
            final(self)@.limit == old(self)@.limit,
            value_of(final(self)@.entries, chunk_id.hash) == Some((*data)@),
    {
        proof {
            stored_value_is_found(self@, chunk_id.hash, (*data)@, chunk_id.hash);
        }
        lru_put(&mut self.cache, chunk_id.hash, data);
    }

    /// Forgets the bytes of a chunk.
    pub fn pop(&mut self, chunk_id: &ChunkId)
        requires
            old(self)@.sound(),
        ensures
            final(self)@.sound(),
            final(self)@.entries == without(old(self)@.entries, chunk_id.hash),
            final(self)@.limit == old(self)@.limit,
            value_of(final(self)@.entries, chunk_id.hash) is None,
    {
        proof {
            removal_is_sound(self@, chunk_id.hash);
        }
        lru_pop(&mut self.cache, &chunk_id.hash);
    }

    /// The number of chunks held.
    pub fn len(&self) -> (n: usize)
        ensures
            n == self@.entries.len(),
    {
        lru_len(&self.cache)
    }

    /// Moves what is kept of a chunk on to the identity that a rewrite gave it, with its new
    /// bytes. A rewrite that left the identity as it was only makes the cache forget it.
    pub fn rekey(&mut self, old_chunk: ChunkId, new_chunk: ChunkId, content: Arc<Vec<u8>>)
        requires
            old(self)@.sound(),
        ensures
            final(self)@.sound(),
            final(self)@.limit == old(self)@.limit,
            final(self)@.entries == (if new_chunk != old_chunk {
                stored(
                    without(old(self)@.entries, old_chunk.hash),
                    old(self)@.limit,
                    new_chunk.hash,
                    (*content)@,
                )
            } else {
                without(old(self)@.entries, old_chunk.hash)
            }),
    {
        self.pop(&old_chunk);
        if new_chunk != old_chunk {
            self.put(new_chunk, content);
        }
    }
}

} // verus!
