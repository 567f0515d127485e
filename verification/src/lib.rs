//! A single-node, disk-backed key/value cache with a bounded storage budget
//! and least-recently-used eviction.
//!
//! The cache engine here is pure: it owns the metadata ledger, decides what
//! to evict, computes file paths and encodes everything to bytes, and hands
//! the resulting filesystem effects (files to write, files to delete) back
//! to its caller, which performs the actual I/O.

use vstd::prelude::*;

pub mod config;
pub mod encoding;
pub mod layout;
pub mod ledger;

use crate::config::CacheConfig;
use crate::encoding::DeserializeError;
use crate::encoding::SerializeError;
use crate::encoding::metadata_bytes;
use crate::encoding::value_bytes;
use crate::layout::relative_data_path;
use crate::layout::relative_path_spec;
use crate::ledger::CacheEntry;
use crate::ledger::EntryQueue;
use crate::ledger::distinct_keys;
use crate::ledger::entries_rows;
use crate::ledger::has_key;
use crate::ledger::lemma_lookup_at_index;
use crate::ledger::lemma_lookup_some_iff_has_key;
use crate::ledger::lemma_remove_key_properties;
use crate::ledger::lemma_remove_key_spec_index;
use crate::ledger::lemma_sum_sizes_drop_first;
use crate::ledger::lemma_sum_sizes_nonneg;
use crate::ledger::lemma_sum_sizes_remove_key;
use crate::ledger::lookup_spec;
use crate::ledger::remove_key_spec;
use crate::ledger::rows_to_entries;
use crate::ledger::sum_sizes;

verus! {

/// Declares the standard I/O error, so that the error variants can carry
/// the underlying OS error and the caller can hand read failures in.
#[verifier::external_type_specification]
#[verifier::external_body]
pub struct ExIoError(std::io::Error);

/// Various errors that can occur when operating a cache.
///
/// Filesystem errors carry the underlying OS error and, where a path is
/// implicated, the path itself; codec errors are kept apart from them
/// because the remediation differs. The last three variants surface
/// invariant violations: a bug in the caller's configuration or corrupt
/// bookkeeping, distinct from ordinary I/O and codec failures.
#[derive(Debug)]
pub enum CacheError {
    ReadMetadata(std::io::Error),
    DeserializeMetadata(DeserializeError),
    SerializeMetadata(SerializeError),
    ReadCacheFile(std::io::Error),
    DeserializeValue(DeserializeError),
    SerializeValue(SerializeError),
    CreateDir(std::io::Error),
    CreateFile(std::io::Error, String),
    WriteFile(std::io::Error, String),
    RemoveFile(std::io::Error, String),
    /// The configuration cannot be used: `subdirs_per_level` is zero, which
    /// would make the sharded layout divide by zero.
    InvalidConfiguration,
    /// A persisted ledger decoded cleanly but contradicts the ledger
    /// invariant (duplicate keys or ids, an id at or above the counter, or
    /// a running size that is not the sum of the entry sizes).
    CorruptMetadata,
    /// Every id of the 64-bit id space has been handed out.
    CounterExhausted,
}

/// The bookkeeping persisted as "metadata": the running size, the next
/// unused entry id, and the ordered key-to-descriptor queue.
struct Metadata {
    current_size: u64,
    counter: u64,
    entries: EntryQueue,
}

/// No entry id occurs twice.
pub open spec fn distinct_ids(s: Seq<(u32, CacheEntry)>) -> bool {
    forall|i: int, j: int| 0 <= i < j < s.len() ==> s[i].1.id != s[j].1.id
}

/// Every entry id lies below the counter.
pub open spec fn ids_below(s: Seq<(u32, CacheEntry)>, counter: u64) -> bool {
    forall|i: int| 0 <= i < s.len() ==> s[i].1.id < counter
}

/// What a decoded metadata triple must satisfy before it is adopted as the
/// cache's state: the ledger invariant, stated of the persisted rows.
pub open spec fn consistent_metadata(
    current_size: u64,
    counter: u64,
    rows: Seq<(u32, u64, u64)>,
) -> bool {
    let s = rows_to_entries(rows);
    &&& distinct_keys(s)
    &&& distinct_ids(s)
    &&& ids_below(s, counter)
    &&& current_size as int == sum_sizes(s)
}

/// How many entries eviction removes from the head of the queue: the
/// length of the shortest prefix whose removal brings the sum of the
/// remaining sizes within the budget.
pub open spec fn evict_count(s: Seq<(u32, CacheEntry)>, max: int) -> nat
    decreases s.len(),
{
    if sum_sizes(s) <= max {
        0
    } else if s.len() == 0 {
        0
    } else {
        (evict_count(s.drop_first(), max) + 1) as nat
    }
}

/// The id under which a `put` of the key stores its payload: the id of the
/// key's live entry where one exists (the file is overwritten in place),
/// else the next unused id.
pub open spec fn put_target_id(s: Seq<(u32, CacheEntry)>, counter: u64, key: u32) -> u64 {
    match lookup_spec(s, key) {
        Some(e) => e.id,
        None => counter,
    }
}

/// The queue as a `put` of the key leaves it before eviction: the key's
/// old pair removed, the new pair appended at the tail.
pub open spec fn staged_entries(
    s: Seq<(u32, CacheEntry)>,
    key: u32,
    id: u64,
    size: u64,
) -> Seq<(u32, CacheEntry)> {
    remove_key_spec(s, key).push((key, CacheEntry { size, id }))
}

/// How a completed `put` of `key`, whose payload encoded to `size` bytes,
/// carries the cache from `pre` to `post`: the key moves to the tail with
/// the new descriptor, the least recently used entries are evicted until
/// the budget is met, the counter advances exactly when the key was fresh,
/// and the running size is again the sum of the live entry sizes.
pub open spec fn put_transition(pre: SimpleCache, post: SimpleCache, key: u32, size: u64) -> bool {
    let id = put_target_id(pre.entries(), pre.counter(), key);
    let staged = staged_entries(pre.entries(), key, id, size);
    let k = evict_count(staged, pre.cfg().max_bytes as int) as int;
    &&& post.entries() == staged.skip(k)
    &&& post.counter() == if lookup_spec(pre.entries(), key) is Some {
        pre.counter() as int
    } else {
        pre.counter() + 1
    }
    &&& post.cfg() == pre.cfg()
    &&& post.size() as int == sum_sizes(post.entries())
}

/// The evicted prefix is minimal: removing it brings the queue within the
/// budget, and removing any shorter prefix does not.
pub proof fn lemma_eviction_minimal(s: Seq<(u32, CacheEntry)>, max: int)
    requires
        max >= 0,
    ensures
        evict_count(s, max) <= s.len(),
        sum_sizes(s.skip(evict_count(s, max) as int)) <= max,
        forall|k: int| 0 <= k < evict_count(s, max) as int ==> sum_sizes(s.skip(k)) > max,
    decreases s.len(),
{
    if sum_sizes(s) <= max {
        assert(s.skip(0) =~= s);
    } else if s.len() == 0 {
    } else {
        lemma_eviction_minimal(s.drop_first(), max);
        let ec1 = evict_count(s.drop_first(), max) as int;
        let ec = evict_count(s, max) as int;
        assert(s.skip(1) =~= s.drop_first());
        assert(s.skip(ec) =~= s.drop_first().skip(ec1));
        assert forall|k: int| 0 <= k < ec implies sum_sizes(s.skip(k)) > max by {
            if k == 0 {
                assert(s.skip(0) =~= s);
            } else {
                assert(s.skip(k) =~= s.drop_first().skip(k - 1));
            }
        }
    }
}

/// Any prefix length that reaches the budget, while every shorter prefix
/// leaves the queue over it, is the eviction count.
pub proof fn lemma_evict_count_unique(s: Seq<(u32, CacheEntry)>, max: int, k: int)
    requires
        max >= 0,
        0 <= k <= s.len(),
        sum_sizes(s.skip(k)) <= max,
        forall|j: int| 0 <= j < k ==> sum_sizes(s.skip(j)) > max,
    ensures
        evict_count(s, max) == k,
{
    lemma_eviction_minimal(s, max);
    let ec = evict_count(s, max) as int;
    if k < ec {
        assert(sum_sizes(s.skip(k)) > max);
    }
    if ec < k {
        assert(sum_sizes(s.skip(ec)) > max);
    }
}

/// Eviction respects the queue order: entries leave strictly from the
/// head, so whenever any entry survives eviction, the entry at the most
/// recently used position (the tail) survives. An entry refreshed by
/// `get` or `put` therefore outlives, under eviction pressure, every
/// entry not touched since.
pub proof fn lemma_eviction_respects_order(s: Seq<(u32, CacheEntry)>, max: int)
    requires
        max >= 0,
    ensures
        evict_count(s, max) < s.len() ==> s.skip(evict_count(s, max) as int).last() == s.last(),
{
    lemma_eviction_minimal(s, max);
    let ec = evict_count(s, max) as int;
    if ec < s.len() {
        assert(s.skip(ec).last() == s[s.len() - 1]);
    }
}

/// Overwriting a held key adjusts the staged sum by exactly the delta
/// between the new and the old payload size, and adds no second pair for
/// the key: the staged queue is no longer than the old one.
pub proof fn lemma_overwrite_size_delta(s: Seq<(u32, CacheEntry)>, key: u32, id: u64, size: u64)
    requires
        distinct_keys(s),
        has_key(s, key),
    ensures
        sum_sizes(staged_entries(s, key, id, size)) == sum_sizes(s) - lookup_spec(
            s,
            key,
        )->Some_0.size + size,
        staged_entries(s, key, id, size).len() == s.len(),
        !has_key(remove_key_spec(s, key), key),
{
    lemma_lookup_some_iff_has_key(s, key);
    lemma_sum_sizes_remove_key(s, key);
    lemma_remove_key_properties(s, key);
    let rem = remove_key_spec(s, key);
    let staged = staged_entries(s, key, id, size);
    assert(staged.drop_last() =~= rem);
    assert(sum_sizes(staged) == sum_sizes(rem) + size);
}

/// After a `put` whose new entry survived its own eviction round (some
/// entry is live, so in particular the tail is), the key is live, at the
/// most recently used position, bound to the descriptor just written.
pub proof fn lemma_put_key_live(pre: SimpleCache, post: SimpleCache, key: u32, size: u64)
    requires
        pre.wf(),
        post.wf(),
        put_transition(pre, post, key, size),
        post.entries().len() > 0,
    ensures
        post.entries().last() == (
            key,
            CacheEntry { size, id: put_target_id(pre.entries(), pre.counter(), key) },
        ),
        lookup_spec(post.entries(), key) == Some(
            CacheEntry { size, id: put_target_id(pre.entries(), pre.counter(), key) },
        ),
{
    let id = put_target_id(pre.entries(), pre.counter(), key);
    let staged = staged_entries(pre.entries(), key, id, size);
    let k = evict_count(staged, pre.cfg().max_bytes as int) as int;
    lemma_eviction_minimal(staged, pre.cfg().max_bytes as int);
    assert(post.entries() == staged.skip(k));
    assert(post.entries().last() == staged[staged.len() - 1]);
    lemma_lookup_at_index(post.entries(), key, post.entries().len() - 1);
}

/// What a well-formed cache persists passes the consistency check that
/// `initialize` applies, so a persisted ledger is adopted unchanged when
/// the cache directory is reopened.
pub proof fn lemma_wf_rows_consistent(c: SimpleCache)
    requires
        c.wf(),
    ensures
        consistent_metadata(c.size(), c.counter(), entries_rows(c.entries())),
        rows_to_entries(entries_rows(c.entries())) == c.entries(),
{
    let s = c.entries();
    let rows = entries_rows(s);
    let t = rows_to_entries(rows);
    assert forall|i: int| 0 <= i < s.len() implies t[i] == s[i] by {
        assert(rows[i] == (s[i].0, s[i].1.size, s[i].1.id));
        assert(t[i] == (rows[i].0, CacheEntry { size: rows[i].1, id: rows[i].2 }));
        assert(s[i].1 == CacheEntry { size: s[i].1.size, id: s[i].1.id });
        assert(s[i] == (s[i].0, s[i].1));
    }
    assert(t =~= s);
}

/// Dropping a prefix preserves distinctness of keys and ids and every
/// bound on the ids.
proof fn lemma_skip_structure(s: Seq<(u32, CacheEntry)>, k: int, counter: u64)
    requires
        0 <= k <= s.len(),
    ensures
        distinct_keys(s) ==> distinct_keys(s.skip(k)),
        distinct_ids(s) ==> distinct_ids(s.skip(k)),
        ids_below(s, counter) ==> ids_below(s.skip(k), counter),
{
    let t = s.skip(k);
    assert(forall|i: int| 0 <= i < t.len() ==> t[i] == s[i + k]);
    if distinct_keys(s) {
        assert forall|i: int, j: int| 0 <= i < j < t.len() implies t[i].0 != t[j].0 by {
            assert(t[i] == s[i + k]);
            assert(t[j] == s[j + k]);
        }
    }
    if distinct_ids(s) {
        assert forall|i: int, j: int| 0 <= i < j < t.len() implies t[i].1.id != t[j].1.id by {
            assert(t[i] == s[i + k]);
            assert(t[j] == s[j + k]);
        }
    }
    if ids_below(s, counter) {
        assert forall|i: int| 0 <= i < t.len() implies t[i].1.id < counter by {
            assert(t[i] == s[i + k]);
        }
    }
}

/// How a successful `get` of the key carries the cache from `pre` to
/// `post`: the key's pair moves to the tail unchanged, recording the
/// access; nothing else changes.
pub open spec fn refresh_transition(pre: SimpleCache, post: SimpleCache, key: u32) -> bool {
    &&& post.entries() == remove_key_spec(pre.entries(), key).push(
        (key, lookup_spec(pre.entries(), key)->Some_0),
    )
    &&& post.size() == pre.size()
    &&& post.counter() == pre.counter()
    &&& post.cfg() == pre.cfg()
}

/// How a failed read or decode of the key's payload carries the cache
/// from `pre` to `post`: the entry is treated as lost — dropped from the
/// queue, its size subtracted — rather than silently resurrected.
pub open spec fn drop_transition(pre: SimpleCache, post: SimpleCache, key: u32) -> bool {
    &&& post.entries() == remove_key_spec(pre.entries(), key)
    &&& post.size() == pre.size() - lookup_spec(pre.entries(), key)->Some_0.size
    &&& post.counter() == pre.counter()
    &&& post.cfg() == pre.cfg()
}

/// Removing a key keeps ids unique and keeps every bound on them.
proof fn lemma_remove_key_ids(s: Seq<(u32, CacheEntry)>, key: u32, counter: u64)
    requires
        distinct_keys(s),
        distinct_ids(s),
        ids_below(s, counter),
    ensures
        distinct_ids(remove_key_spec(s, key)),
        ids_below(remove_key_spec(s, key), counter),
{
    lemma_remove_key_properties(s, key);
    lemma_lookup_some_iff_has_key(s, key);
    let rem = remove_key_spec(s, key);
    if has_key(s, key) {
        lemma_remove_key_spec_index(s, key);
        let i = choose|i: int|
            0 <= i < s.len() && #[trigger] s[i].0 == key && (forall|j: int|
                0 <= j < i ==> s[j].0 != key) && remove_key_spec(s, key) == s.remove(i)
                && lookup_spec(s, key) == Some(s[i].1);
        s.remove_ensures(i);
        assert forall|p: int| 0 <= p < rem.len() implies rem[p].1.id < counter by {
            if p < i {
                assert(rem[p] == s[p]);
            } else {
                assert(rem[p] == s[p + 1]);
            }
        }
        assert forall|p: int, q: int| 0 <= p < q < rem.len() implies rem[p].1.id
            != rem[q].1.id by {
            if p < i {
                assert(rem[p] == s[p]);
            } else {
                assert(rem[p] == s[p + 1]);
            }
            if q < i {
                assert(rem[q] == s[q]);
            } else {
                assert(rem[q] == s[q + 1]);
            }
        }
    }
}

/// The staged queue of a `put` keeps ids unique and below the counter as
/// it stands after the operation.
proof fn lemma_staged_wf(s: Seq<(u32, CacheEntry)>, counter: u64, key: u32, size: u64)
    requires
        distinct_keys(s),
        distinct_ids(s),
        ids_below(s, counter),
    ensures
        distinct_ids(staged_entries(s, key, put_target_id(s, counter, key), size)),
        lookup_spec(s, key) is Some ==> ids_below(
            staged_entries(s, key, put_target_id(s, counter, key), size),
            counter,
        ),
        lookup_spec(s, key) is None && counter < u64::MAX ==> ids_below(
            staged_entries(s, key, put_target_id(s, counter, key), size),
            (counter + 1) as u64,
        ),
{
    lemma_remove_key_properties(s, key);
    lemma_lookup_some_iff_has_key(s, key);
    let id = put_target_id(s, counter, key);
    let rem = remove_key_spec(s, key);
    let staged = staged_entries(s, key, id, size);
    if lookup_spec(s, key) is Some {
        lemma_remove_key_spec_index(s, key);
        let i = choose|i: int|
            0 <= i < s.len() && #[trigger] s[i].0 == key && (forall|j: int|
                0 <= j < i ==> s[j].0 != key) && remove_key_spec(s, key) == s.remove(i)
                && lookup_spec(s, key) == Some(s[i].1);
        s.remove_ensures(i);
        assert(id == s[i].1.id);
        assert forall|p: int| 0 <= p < rem.len() implies rem[p].1.id != id && rem[p].1.id
            < counter by {
            if p < i {
                assert(rem[p] == s[p]);
            } else {
                assert(rem[p] == s[p + 1]);
            }
        }
        assert forall|p: int, q: int| 0 <= p < q < staged.len() implies staged[p].1.id
            != staged[q].1.id by {
            if q < rem.len() {
                if p < i {
                    assert(rem[p] == s[p]);
                } else {
                    assert(rem[p] == s[p + 1]);
                }
                if q < i {
                    assert(rem[q] == s[q]);
                } else {
                    assert(rem[q] == s[q + 1]);
                }
            }
        }
    } else {
        assert(rem == s);
        assert(id == counter);
        assert forall|p: int, q: int| 0 <= p < q < staged.len() implies staged[p].1.id
            != staged[q].1.id by {}
    }
}

/// A disk-backed key/value cache with a bounded storage budget and
/// least-recently-used eviction.
///
/// The engine holds the ledger in memory and mutates it in place; every
/// mutating operation reports, as plain values, the files its caller must
/// write or delete, and the freshly encoded ledger to persist.
pub struct SimpleCache {
    config: CacheConfig,
    metadata: Metadata,
}

/// The filesystem effects of one `put`: the data file to write, the files
/// of the evicted entries to delete (in eviction order), and the encoded
/// ledger to persist. All paths are relative to the cache's root.
pub struct PutOutcome {
    pub data_path: String,
    pub data_contents: Vec<u8>,
    pub evicted_paths: Vec<String>,
    pub ledger_contents: Vec<u8>,
}

/// The result of one successful `get`: the decoded value and the encoded
/// ledger to persist (the access refreshed the key's recency).
pub struct GetOutcome {
    pub value: u64,
    pub ledger_contents: Vec<u8>,
}

impl SimpleCache {
    /// The queue of live entries, head first.
    pub closed spec fn entries(&self) -> Seq<(u32, CacheEntry)> {
        self.metadata.entries@
    }

    /// The running total of live entry sizes.
    pub closed spec fn size(&self) -> u64 {
        self.metadata.current_size
    }

    /// The next unused entry id.
    pub closed spec fn counter(&self) -> u64 {
        self.metadata.counter
    }

    /// The configuration the cache was opened with.
    pub closed spec fn cfg(&self) -> CacheConfig {
        self.config
    }

    /// The cache's invariant: keys and ids are unique, ids lie below the
    /// counter, the running size is the exact sum of the live entry sizes,
    /// and the configuration is usable.
    pub open spec fn wf(&self) -> bool {
        &&& distinct_keys(self.entries())
        &&& distinct_ids(self.entries())
        &&& ids_below(self.entries(), self.counter())
        &&& self.size() as int == sum_sizes(self.entries())
        &&& self.cfg().valid()
    }

    /// The running total of live entry sizes.
    pub fn current_size(&self) -> (r: u64)
        ensures
            r == self.size(),
    {
        self.metadata.current_size
    }

    /// How many entries are live.
    pub fn entry_count(&self) -> (r: usize)
        ensures
            r == self.entries().len(),
    {
        self.metadata.entries.len()
    }

    /// Open a cache: adopt the persisted ledger if one was stored, start
    /// empty if none was.
    ///
    /// `stored` is the content of the ledger file, if that file existed. A
    /// configuration with no subdirectories is rejected; stored bytes that
    /// do not decode, or that decode to a ledger contradicting the ledger
    /// invariant, are rejected rather than repaired.
    pub fn initialize(config: CacheConfig, stored: Option<Vec<u8>>) -> (r: Result<
        SimpleCache,
        CacheError,
    >)
        ensures
            !config.valid() <==> (r is Err && r->Err_0 is InvalidConfiguration),
            r matches Ok(c) ==> c.wf() && c.cfg() == config,
            config.valid() && stored is None ==> r is Ok && r->Ok_0.entries() == Seq::<
                (u32, CacheEntry),
            >::empty() && r->Ok_0.size() == 0 && r->Ok_0.counter() == 0,
            forall|cs: u64, ct: u64, rows: Seq<(u32, u64, u64)>|
                (config.valid() && (stored matches Some(b) && b@ == metadata_bytes(
                    config.encoding,
                    cs,
                    ct,
                    rows,
                )) && consistent_metadata(cs, ct, rows)) ==> r is Ok && r->Ok_0.size() == cs
                    && r->Ok_0.counter() == ct && r->Ok_0.entries() == rows_to_entries(rows),
            forall|cs: u64, ct: u64, rows: Seq<(u32, u64, u64)>|
                (config.valid() && (stored matches Some(b) && b@ == metadata_bytes(
                    config.encoding,
                    cs,
                    ct,
                    rows,
                )) && !consistent_metadata(cs, ct, rows)) ==> r is Err
                    && r->Err_0 is CorruptMetadata,
            r is Err ==> r->Err_0 is InvalidConfiguration || r->Err_0 is DeserializeMetadata
                || r->Err_0 is CorruptMetadata,
    {
        if config.subdirs_per_level == 0 {
            return Err(CacheError::InvalidConfiguration);
        }
        match stored {
            None => Ok(
                SimpleCache {
                    config,
                    metadata: Metadata { current_size: 0, counter: 0, entries: EntryQueue::new() },
                },
            ),
            Some(bytes) => {
                let triple = match config.encoding.deserialize_metadata(bytes.as_slice()) {
                    Ok(t) => t,
                    Err(e) => {
                        return Err(CacheError::DeserializeMetadata(e));
                    },
                };
                let (current_size, counter, rows) = triple;
                if !rows_consistent(current_size, counter, &rows) {
                    return Err(CacheError::CorruptMetadata);
                }
                let entries = EntryQueue::from_rows(&rows);
                Ok(SimpleCache { config, metadata: Metadata { current_size, counter, entries } })
            },
        }
    }
    /// The relative path of the key's data file, if the key is held.
    ///
    /// A caller that wants the key's value reads this file and hands the
    /// outcome of the read to `get`.
    pub fn lookup(&self, key: u32) -> (r: Option<String>)
        requires
            self.wf(),
        ensures
            r is Some <==> has_key(self.entries(), key),
            r matches Some(p) ==> p@ == relative_path_spec(
                lookup_spec(self.entries(), key)->Some_0.id as nat,
                self.cfg().subdirs_per_level as nat,
                self.cfg().encoding,
            ),
    {
        proof {
            lemma_lookup_some_iff_has_key(self.entries(), key);
        }
        match self.metadata.entries.find(key) {
            Some(e) => Some(
                relative_data_path(e.id, self.config.subdirs_per_level, &self.config.encoding),
            ),
            None => None,
        }
    }

    /// Try getting a value from the cache.
    ///
    /// `loaded` is the caller's attempt to read the key's data file at the
    /// path `lookup` gave; it matters only when the key is held. Unless
    /// there is an error, this returns the value found, or nothing when no
    /// value for the key exists in the cache. A successful read moves the
    /// key to the most recently used position, and the caller must rewrite
    /// the ledger file with `ledger_contents`. After a failed read or
    /// decode the entry is gone: the payload is treated as lost.
    pub fn get(&mut self, key: u32, loaded: Result<Vec<u8>, std::io::Error>) -> (r: Result<
        Option<GetOutcome>,
        CacheError,
    >)
        requires
            old(self).wf(),
        ensures
            final(self).wf(),
            final(self).cfg() == old(self).cfg(),
            !has_key(old(self).entries(), key) ==> ({
                &&& final(self).entries() == old(self).entries()
                &&& final(self).size() == old(self).size()
                &&& final(self).counter() == old(self).counter()
                &&& r is Ok && r->Ok_0 is None
            }),
            has_key(old(self).entries(), key) ==> ({
                &&& loaded is Err ==> drop_transition(*old(self), *final(self), key) && r is Err
                    && r->Err_0 is ReadCacheFile && r->Err_0->ReadCacheFile_0 == loaded->Err_0
                &&& (r is Err && r->Err_0 is DeserializeValue) ==> drop_transition(
                    *old(self),
                    *final(self),
                    key,
                )
                &&& r is Err ==> r->Err_0 is ReadCacheFile || r->Err_0 is DeserializeValue
                &&& r is Ok ==> ({
                    &&& r->Ok_0 is Some
                    &&& refresh_transition(*old(self), *final(self), key)
                    &&& r->Ok_0->Some_0.ledger_contents@ == metadata_bytes(
                        old(self).cfg().encoding,
                        final(self).size(),
                        final(self).counter(),
                        entries_rows(final(self).entries()),
                    )
                })
                &&& (forall|v: u64|
                    (loaded matches Ok(b) && b@ == #[trigger] value_bytes(
                        old(self).cfg().encoding,
                        v,
                    )) ==> r is Ok && r->Ok_0->Some_0.value == v)
            }),
    {
        let ghost pre = *self;
        let looked = self.metadata.entries.remove_key(key);
        proof {
            lemma_remove_key_properties(pre.entries(), key);
            lemma_lookup_some_iff_has_key(pre.entries(), key);
        }
        let entry = match looked {
            None => {
                return Ok(None);
            },
            Some(e) => e,
        };
        proof {
            lemma_sum_sizes_remove_key(pre.entries(), key);
            lemma_sum_sizes_nonneg(remove_key_spec(pre.entries(), key));
            lemma_remove_key_ids(pre.entries(), key, pre.counter());
        }
        // While the pair is out of the queue its size leaves the running
        // total, so that a lost payload leaves the bookkeeping exact.
        self.metadata.current_size = self.metadata.current_size - entry.size;
        let bytes = match loaded {
            Ok(b) => b,
            Err(e) => {
                return Err(CacheError::ReadCacheFile(e));
            },
        };
        let value = match self.config.encoding.deserialize(bytes.as_slice()) {
            Ok(v) => v,
            Err(e) => {
                return Err(CacheError::DeserializeValue(e));
            },
        };
        self.metadata.entries.insert(key, entry);
        proof {
            lemma_remove_key_properties(remove_key_spec(pre.entries(), key), key);
            lemma_staged_wf(pre.entries(), pre.counter(), key, entry.size);
            let rem = remove_key_spec(pre.entries(), key);
            assert(entry == CacheEntry { size: entry.size, id: entry.id });
            assert(rem.push((key, entry)).drop_last() =~= rem);
            assert(sum_sizes(rem.push((key, entry))) == sum_sizes(rem) + entry.size);
        }
        self.metadata.current_size = self.metadata.current_size + entry.size;
        let rows = self.metadata.entries.rows();
        let ledger_contents = match self.config.encoding.serialize_metadata(
            self.metadata.current_size,
            self.metadata.counter,
            &rows,
        ) {
            Ok(b) => b,
            Err(e) => {
                return Err(CacheError::SerializeMetadata(e));
            },
        };
        Ok(Some(GetOutcome { value, ledger_contents }))
    }

    /// Insert a value into the cache.
    ///
    /// If the key already exists, the previous value is overwritten in
    /// place, under its old id, and the running size changes by the delta
    /// between the old and the new payload size. The key moves to the tail
    /// of the queue; then the least recently used entries are evicted, in
    /// queue order, until the running size is within the budget.
    ///
    /// On success the caller must write `data_path`, delete the
    /// `evicted_paths` and rewrite the ledger file with `ledger_contents`,
    /// in that order. The one failure is an exhausted id space: a fresh
    /// key while the counter already stands at the top of its range.
    #[verifier::rlimit(30)]
    #[verifier::loop_isolation(false)]
    pub fn put(&mut self, key: u32, value: u64) -> (r: Result<PutOutcome, CacheError>)
        requires
            old(self).wf(),
        ensures
            final(self).wf(),
            final(self).cfg() == old(self).cfg(),
            r matches Ok(out) ==> ({
                let enc = old(self).cfg().encoding;
                let sd = old(self).cfg().subdirs_per_level;
                let id = put_target_id(old(self).entries(), old(self).counter(), key);
                let staged = staged_entries(
                    old(self).entries(),
                    key,
                    id,
                    out.data_contents@.len() as u64,
                );
                let k = evict_count(staged, old(self).cfg().max_bytes as int) as int;
                &&& out.data_contents@ == value_bytes(enc, value)
                &&& out.data_path@ == relative_path_spec(id as nat, sd as nat, enc)
                &&& put_transition(*old(self), *final(self), key, out.data_contents@.len() as u64)
                &&& out.evicted_paths@.len() == k
                &&& (forall|i: int|
                    0 <= i < k ==> out.evicted_paths@[i]@ == relative_path_spec(
                        staged[i].1.id as nat,
                        sd as nat,
                        enc,
                    ))
                &&& out.ledger_contents@ == metadata_bytes(
                    enc,
                    final(self).size(),
                    final(self).counter(),
                    entries_rows(final(self).entries()),
                )
                &&& final(self).size() <= old(self).cfg().max_bytes
            }),
            r is Err <==> lookup_spec(old(self).entries(), key) is None && old(self).counter()
                == u64::MAX,
            r is Err ==> r->Err_0 is CounterExhausted && ({
                &&& final(self).entries() == old(self).entries()
                &&& final(self).size() == old(self).size()
                &&& final(self).counter() == old(self).counter()
            }),
    {
        let ghost pre = *self;
        let encoding = self.config.encoding;
        let data = match encoding.serialize(value) {
            Ok(b) => b,
            Err(e) => {
                return Err(CacheError::SerializeValue(e));
            },
        };
        let size: u64 = data.len() as u64;

        let old_entry = self.metadata.entries.remove_key(key);
        proof {
            lemma_remove_key_properties(pre.entries(), key);
            lemma_lookup_some_iff_has_key(pre.entries(), key);
        }
        let id: u64 = match old_entry {
            Some(e) => {
                proof {
                    lemma_sum_sizes_remove_key(pre.entries(), key);
                    lemma_sum_sizes_nonneg(remove_key_spec(pre.entries(), key));
                }
                self.metadata.current_size = self.metadata.current_size - e.size;
                e.id
            },
            None => {
                if self.metadata.counter == u64::MAX {
                    return Err(CacheError::CounterExhausted);
                }
                let fresh = self.metadata.counter;
                self.metadata.counter = self.metadata.counter + 1;
                fresh
            },
        };

        let entry = CacheEntry { size, id };
        self.metadata.entries.insert(key, entry);
        proof {
            lemma_remove_key_properties(remove_key_spec(pre.entries(), key), key);
            lemma_staged_wf(pre.entries(), pre.counter(), key, size);
        }
        let ghost staged = staged_entries(pre.entries(), key, id, size);
        assert(self.metadata.entries@ == staged);

        // The transient total may exceed the budget (and even the range of
        // the running size) until eviction has caught up, so it is kept
        // wide until the loop is done.
        let max = self.config.max_bytes;
        let mut total: u128 = self.metadata.current_size as u128 + size as u128;
        proof {
            lemma_sum_sizes_remove_key(pre.entries(), key);
            assert(staged.drop_last() =~= remove_key_spec(pre.entries(), key));
            assert(total as int == sum_sizes(staged));
        }
        let mut evicted_paths: Vec<String> = Vec::new();
        proof {
            assert(staged.skip(0) =~= staged);
        }
        while total > max as u128
            invariant
                self.metadata.entries@ == staged.skip(evicted_paths@.len() as int),
                self.metadata.counter == counter_after(pre, key),
                self.cfg() == pre.cfg(),
                evicted_paths@.len() <= staged.len(),
                total as int == sum_sizes(staged.skip(evicted_paths@.len() as int)),
                forall|j: int| 0 <= j < evicted_paths@.len() ==> sum_sizes(staged.skip(j)) > max,
                forall|j: int|
                    0 <= j < evicted_paths@.len() ==> evicted_paths@[j]@ == relative_path_spec(
                        staged[j].1.id as nat,
                        pre.cfg().subdirs_per_level as nat,
                        pre.cfg().encoding,
                    ),
            decreases self.metadata.entries@.len(),
        {
            let ghost k = evicted_paths@.len() as int;
            proof {
                lemma_sum_sizes_nonneg(staged.skip(k));
                if self.metadata.entries@.len() == 0 {
                    assert(sum_sizes(staged.skip(k)) == 0);
                }
                lemma_skip_structure(staged, k, 0);
            }
            let head = self.metadata.entries.remove_head();
            let pair = head.unwrap();
            proof {
                lemma_sum_sizes_drop_first(staged.skip(k));
                assert(staged.skip(k).drop_first() =~= staged.skip(k + 1));
                lemma_sum_sizes_nonneg(staged.skip(k + 1));
                assert(pair == staged[k]);
            }
            total = total - pair.1.size as u128;
            let path = relative_data_path(
                pair.1.id,
                self.config.subdirs_per_level,
                &self.config.encoding,
            );
            evicted_paths.push(path);
        }

        let ghost k = evicted_paths@.len() as int;
        proof {
            lemma_evict_count_unique(staged, max as int, k);
            lemma_skip_structure(staged, k, counter_after(pre, key) as u64);
        }
        self.metadata.current_size = total as u64;

        let rows = self.metadata.entries.rows();
        let ledger_contents = match self.config.encoding.serialize_metadata(
            self.metadata.current_size,
            self.metadata.counter,
            &rows,
        ) {
            Ok(b) => b,
            Err(e) => {
                return Err(CacheError::SerializeMetadata(e));
            },
        };
        let data_path = relative_data_path(
            id,
            self.config.subdirs_per_level,
            &self.config.encoding,
        );
        Ok(PutOutcome { data_path, data_contents: data, evicted_paths, ledger_contents })
    }
}

/// The counter as a completed `put` of the key leaves it: advanced exactly
/// when the key was fresh.
pub open spec fn counter_after(pre: SimpleCache, key: u32) -> int {
    if lookup_spec(pre.entries(), key) is Some {
        pre.counter() as int
    } else {
        pre.counter() + 1
    }
}

/// Check that a decoded metadata triple satisfies the ledger invariant.
fn rows_consistent(current_size: u64, counter: u64, rows: &Vec<(u32, u64, u64)>) -> (r: bool)
    ensures
        r == consistent_metadata(current_size, counter, rows@),
{
    let ghost s = rows_to_entries(rows@);
    let n = rows.len();
    let mut sum: u128 = 0;
    let mut i: usize = 0;
    while i < n
        invariant
            s == rows_to_entries(rows@),
            n == rows@.len(),
            0 <= i <= n,
            sum as int == sum_sizes(s.take(i as int)),
            sum as int <= i as int * 0xffff_ffff_ffff_ffff,
            forall|p: int| 0 <= p < i ==> s[p].1.id < counter,
            forall|p: int, q: int| 0 <= p < q < s.len() && p < i ==> s[p].0 != s[q].0,
            forall|p: int, q: int| 0 <= p < q < s.len() && p < i ==> s[p].1.id != s[q].1.id,
        decreases n - i,
    {
        let row = rows[i];
        proof {
            assert(s[i as int] == (row.0, CacheEntry { size: row.1, id: row.2 }));
        }
        if row.2 >= counter {
            assert(!ids_below(s, counter));
            return false;
        }
        let mut j: usize = i + 1;
        while j < n
            invariant
                s == rows_to_entries(rows@),
                n == rows@.len(),
                0 <= i < j <= n,
                row == rows@[i as int],
                forall|q: int| i < q < j ==> s[i as int].0 != s[q].0,
                forall|q: int| i < q < j ==> s[i as int].1.id != s[q].1.id,
            decreases n - j,
        {
            let other = rows[j];
            proof {
                assert(s[i as int] == (row.0, CacheEntry { size: row.1, id: row.2 }));
                assert(s[j as int] == (other.0, CacheEntry { size: other.1, id: other.2 }));
            }
            if other.0 == row.0 {
                assert(!distinct_keys(s));
                return false;
            }
            if other.2 == row.2 {
                assert(!distinct_ids(s));
                return false;
            }
            j = j + 1;
        }
        proof {
            assert(s.take(i + 1).drop_last() =~= s.take(i as int));
            assert(s.take(i + 1).last() == s[i as int]);
        }
        sum = sum + row.1 as u128;
        i = i + 1;
    }
    proof {
        assert(s.take(n as int) =~= s);
    }
    sum == current_size as u128
}

} // verus!
