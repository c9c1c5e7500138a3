//! The chunk store: a durable ordered map from (file id, chunk index) to the
//! chunk's bytes, kept in stable memory.
//!
//! The map itself is `ic_stable_structures::StableBTreeMap`. Verus does not
//! look inside it: what it holds is named by [`chunk_entries`], and the
//! private functions at the end of this file state, without proof, what each
//! of its methods does to that content. Everything else here is proved from
//! those statements.

use ic_stable_structures::memory_manager::{MemoryId, MemoryManager, VirtualMemory};
use ic_stable_structures::{DefaultMemoryImpl, StableBTreeMap};
use vstd::prelude::*;
use vstd::set_lib::*;

verus! {

/// The longest chunk the store keeps intact: it records a chunk's length in
/// 32 bits.
pub const MAX_CHUNK_BYTES: usize = 0xffff_ffff;

/// The chunk payloads of all files, keyed by (file id, chunk index): an
/// `ic_stable_structures::StableBTreeMap` in a virtual memory of the default
/// memory. Verus does not look into it.
#[verifier::external_body]
pub struct ChunkStore {
    map: StableBTreeMap<(u64, u64), Vec<u8>, VirtualMemory<DefaultMemoryImpl>>,
}

/// What a chunk store holds: the entries of its `StableBTreeMap`, each
/// value as the sequence of its bytes.
pub uninterp spec fn chunk_entries(store: ChunkStore) -> Map<(u64, u64), Seq<u8>>;

impl View for ChunkStore {
    type V = Map<(u64, u64), Seq<u8>>;

    open spec fn view(&self) -> Map<(u64, u64), Seq<u8>> {
        chunk_entries(*self)
    }
}

/// A store without chunks.
pub open spec fn empty_chunks() -> Map<(u64, u64), Seq<u8>> {
    Map::empty()
}

/// The order of the store's keys: by file id, then by chunk index.
pub open spec fn key_le(a: (u64, u64), b: (u64, u64)) -> bool {
    a.0 < b.0 || (a.0 == b.0 && a.1 <= b.1)
}

/// The keys of `chunks` from `lo` to `hi`, both included.
pub open spec fn keys_between(chunks: Map<(u64, u64), Seq<u8>>, lo: (u64, u64), hi: (u64, u64)) -> Set<
    (u64, u64),
> {
    chunks.dom().filter(|k: (u64, u64)| key_le(lo, k) && key_le(k, hi))
}

/// `chunks` has finitely many keys, and `count` of them lie from `lo` to
/// `hi`, both included.
pub open spec fn counts_keys_between(
    chunks: Map<(u64, u64), Seq<u8>>,
    lo: (u64, u64),
    hi: (u64, u64),
    count: nat,
) -> bool {
    &&& chunks.dom().finite()
    &&& keys_between(chunks, lo, hi).len() == count
}

/// The keys of the first `num_chunks` chunks of file `file_id`.
pub open spec fn file_keys(file_id: u64, num_chunks: nat) -> Set<(u64, u64)> {
    Set::new(|k: (u64, u64)| k.0 == file_id && k.1 < num_chunks)
}

/// Every one of the first `num_chunks` chunks of file `file_id` is stored.
pub open spec fn all_chunks_present(
    chunks: Map<(u64, u64), Seq<u8>>,
    file_id: u64,
    num_chunks: u64,
) -> bool {
    forall|c: u64| c < num_chunks ==> #[trigger] chunks.contains_key((file_id, c))
}

/// No chunk of file `file_id` is stored.
pub open spec fn no_chunk_of(chunks: Map<(u64, u64), Seq<u8>>, file_id: u64) -> bool {
    forall|c: u64| !#[trigger] chunks.contains_key((file_id, c))
}

/// How many of the first `num_chunks` chunks of file `file_id` are stored.
pub open spec fn stored_count(chunks: Map<(u64, u64), Seq<u8>>, file_id: u64, num_chunks: u64) -> nat {
    if num_chunks == 0 {
        0
    } else {
        keys_between(chunks, (file_id, 0), (file_id, (num_chunks - 1) as u64)).len()
    }
}

/// There are exactly `num_chunks` keys for the first `num_chunks` chunks of a
/// file.
pub proof fn lemma_file_keys_len(file_id: u64, num_chunks: nat)
    requires
        num_chunks <= u64::MAX + 1,
    ensures
        file_keys(file_id, num_chunks).finite(),
        file_keys(file_id, num_chunks).len() == num_chunks,
    decreases num_chunks,
{
    if num_chunks == 0 {
        assert(file_keys(file_id, num_chunks) =~= Set::empty());
    } else {
        let last: nat = (num_chunks - 1) as nat;
        lemma_file_keys_len(file_id, last);
        assert(file_keys(file_id, last).insert((file_id, last as u64)) =~= file_keys(
            file_id,
            num_chunks,
        ));
    }
}

/// A file's chunks are all stored exactly when as many of them are stored as
/// the file has.
pub proof fn lemma_count_reaches_total(
    chunks: Map<(u64, u64), Seq<u8>>,
    file_id: u64,
    num_chunks: u64,
)
    requires
        chunks.dom().finite(),
    ensures
        stored_count(chunks, file_id, num_chunks) <= num_chunks,
        stored_count(chunks, file_id, num_chunks) == num_chunks <==> all_chunks_present(
            chunks,
            file_id,
            num_chunks,
        ),
{
    if num_chunks >= 1 {
        let lo = (file_id, 0u64);
        let hi = (file_id, (num_chunks - 1) as u64);
        let stored = keys_between(chunks, lo, hi);
        let every = file_keys(file_id, num_chunks as nat);
        lemma_file_keys_len(file_id, num_chunks as nat);
        assert(stored.subset_of(every));
        lemma_len_subset(stored, every);
        if stored.len() == num_chunks {
            lemma_subset_equality(stored, every);
            assert forall|c: u64| c < num_chunks implies #[trigger] chunks.contains_key(
                (file_id, c),
            ) by {
                assert(every.contains((file_id, c)));
                assert(stored.contains((file_id, c)));
            }
        }
        if all_chunks_present(chunks, file_id, num_chunks) {
            assert forall|k: (u64, u64)| every.contains(k) implies stored.contains(k) by {
                assert(chunks.contains_key((file_id, k.1)));
            }
            assert(stored =~= every);
        }
    }
}

impl ChunkStore {
    /// An empty chunk store, in stable memory of its own where the host has
    /// more than one. On a canister all chunk stores share the one stable
    /// memory: it makes one, and only one.
    ///
    /// The store starts empty whatever its memory held: it is made with
    /// `StableBTreeMap::new`, not with `init`, which would load a map that
    /// is in the memory already. So the chunks of an earlier run are not
    /// taken over after a restart; neither are the file records, which a
    /// new state does not have.
    pub fn new() -> (store: ChunkStore)
        ensures
            store@ == empty_chunks(),
    {
        store_new()
    }

    /// The bytes stored under `key`, if any.
    pub fn get(&self, key: &(u64, u64)) -> (found: Option<Vec<u8>>)
        ensures
            found is Some <==> self@.contains_key(*key),
            found matches Some(bytes) ==> bytes@ == self@[*key],
    {
        store_get(self, key.0, key.1)
    }

    /// Whether a chunk is stored under `key`.
    pub fn contains_key(&self, key: &(u64, u64)) -> (present: bool)
        ensures
            present == self@.contains_key(*key),
    {
        store_contains(self, key.0, key.1)
    }

    /// Stores `bytes` under `key`, in place of what was stored there, which
    /// is returned.
    pub fn insert(&mut self, key: (u64, u64), bytes: Vec<u8>) -> (previous: Option<Vec<u8>>)
        requires
            bytes@.len() <= MAX_CHUNK_BYTES,
        ensures
            final(self)@ == old(self)@.insert(key, bytes@),
            previous is Some <==> old(self)@.contains_key(key),
            previous matches Some(p) ==> p@ == old(self)@[key],
    {
        store_insert(self, key.0, key.1, bytes)
    }

    /// Removes what is stored under `key` and returns it.
    pub fn remove(&mut self, key: &(u64, u64)) -> (previous: Option<Vec<u8>>)
        ensures
            final(self)@ == old(self)@.remove(*key),
            previous is Some <==> old(self)@.contains_key(*key),
            previous matches Some(p) ==> p@ == old(self)@[*key],
    {
        store_remove(self, key.0, key.1)
    }

    /// How many of the first `num_chunks` chunks of file `file_id` are
    /// stored; all of them are exactly when the count is `num_chunks`.
    pub fn count_chunks(&self, file_id: u64, num_chunks: u64) -> (count: u64)
        ensures
            count == stored_count(self@, file_id, num_chunks),
            count <= num_chunks,
            count == num_chunks <==> all_chunks_present(self@, file_id, num_chunks),
    {
        if num_chunks == 0 {
            return 0;
        }
        let count = store_count_range(self, file_id, 0, num_chunks - 1);
        proof {
            lemma_count_reaches_total(self@, file_id, num_chunks);
        }
        count
    }
}

/// `StableBTreeMap::new` on virtual memory 1 of a fresh
/// `MemoryManager` over `DefaultMemoryImpl::default()`: it writes a new
/// header and hands back a map without entries, whatever the memory held
/// (`StableBTreeMap::init` would load a map found there).
#[verifier::external_body]
fn store_new() -> (store: ChunkStore)
    ensures
        chunk_entries(store) == empty_chunks(),
{
    let manager = MemoryManager::init(DefaultMemoryImpl::default());
    ChunkStore { map: StableBTreeMap::new(manager.get(MemoryId::new(1))) }
}

/// `StableBTreeMap::get`: the value stored under the key, `None` when the
/// key is not in the map.
#[verifier::external_body]
fn store_get(store: &ChunkStore, file_id: u64, chunk_id: u64) -> (found: Option<Vec<u8>>)
    ensures
        found is Some <==> chunk_entries(*store).contains_key((file_id, chunk_id)),
        found matches Some(bytes) ==> bytes@ == chunk_entries(*store)[(file_id, chunk_id)],
{
    store.map.get(&(file_id, chunk_id))
}

/// `StableBTreeMap::contains_key`: whether the key is in the map.
#[verifier::external_body]
fn store_contains(store: &ChunkStore, file_id: u64, chunk_id: u64) -> (present: bool)
    ensures
        present == chunk_entries(*store).contains_key((file_id, chunk_id)),
{
    store.map.contains_key(&(file_id, chunk_id))
}

/// `StableBTreeMap::insert`: the map then holds the value under the key and
/// is otherwise unchanged; the value held there before is returned. The map
/// writes a value's length as a `u32`, so longer values are left out. It
/// panics when stable memory cannot grow any further.
#[verifier::external_body]
fn store_insert(store: &mut ChunkStore, file_id: u64, chunk_id: u64, bytes: Vec<u8>) -> (previous:
    Option<Vec<u8>>)
    requires
        bytes@.len() <= MAX_CHUNK_BYTES,
    ensures
        chunk_entries(*final(store)) == chunk_entries(*old(store)).insert(
            (file_id, chunk_id),
            bytes@,
        ),
        previous is Some <==> chunk_entries(*old(store)).contains_key((file_id, chunk_id)),
        previous matches Some(p) ==> p@ == chunk_entries(*old(store))[(file_id, chunk_id)],
{
    store.map.insert((file_id, chunk_id), bytes)
}

/// `StableBTreeMap::remove`: the key is then absent and the map otherwise
/// unchanged; the value held under it before is returned.
#[verifier::external_body]
fn store_remove(store: &mut ChunkStore, file_id: u64, chunk_id: u64) -> (previous: Option<Vec<u8>>)
    ensures
        chunk_entries(*final(store)) == chunk_entries(*old(store)).remove((file_id, chunk_id)),
        previous is Some <==> chunk_entries(*old(store)).contains_key((file_id, chunk_id)),
        previous matches Some(p) ==> p@ == chunk_entries(*old(store))[(file_id, chunk_id)],
{
    store.map.remove(&(file_id, chunk_id))
}

/// `StableBTreeMap::range(..).count()` over the keys from
/// `(file_id, first)` to `(file_id, last)`, both included: the number of
/// entries whose key lies in that range. The map has finitely many entries.
#[verifier::external_body]
fn store_count_range(store: &ChunkStore, file_id: u64, first: u64, last: u64) -> (count: u64)
    ensures
        counts_keys_between(
            chunk_entries(*store),
            (file_id, first),
            (file_id, last),
            count as nat,
        ),
{
    store.map.range((file_id, first)..=(file_id, last)).count() as u64
}

} // verus!
