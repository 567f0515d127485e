//! The LRU ledger: an ordered key-to-descriptor structure that is both the
//! access-order queue and the authoritative index of what is cached.
//!
//! The head of the queue is the least recently inserted-or-accessed key,
//! the tail the most recent. The model of a queue is the sequence of its
//! `(key, descriptor)` pairs in that order; all contracts are stated over
//! that sequence.

use vstd::prelude::*;

verus! {

/// The descriptor of one live cache entry: the byte size of its payload
/// file and the opaque identifier the file is named after.
#[derive(Clone, Copy, Debug, PartialEq, Eq, Structural)]
pub struct CacheEntry {
    pub size: u64,
    pub id: u64,
}

/// Whether some pair of the sequence carries the key.
pub open spec fn has_key(s: Seq<(u32, CacheEntry)>, key: u32) -> bool {
    exists|i: int| 0 <= i < s.len() && s[i].0 == key
}

/// The descriptor stored under the key, at its first occurrence.
pub open spec fn lookup_spec(s: Seq<(u32, CacheEntry)>, key: u32) -> Option<CacheEntry>
    decreases s.len(),
{
    if s.len() == 0 {
        None
    } else if s[0].0 == key {
        Some(s[0].1)
    } else {
        lookup_spec(s.drop_first(), key)
    }
}

/// The sequence with the key's first occurrence taken out, order kept.
pub open spec fn remove_key_spec(s: Seq<(u32, CacheEntry)>, key: u32) -> Seq<(u32, CacheEntry)>
    decreases s.len(),
{
    if s.len() == 0 {
        s
    } else if s[0].0 == key {
        s.drop_first()
    } else {
        seq![s[0]] + remove_key_spec(s.drop_first(), key)
    }
}

/// No key occurs twice.
pub open spec fn distinct_keys(s: Seq<(u32, CacheEntry)>) -> bool {
    forall|i: int, j: int| 0 <= i < j < s.len() ==> s[i].0 != s[j].0
}

/// The sum of the entry sizes of the sequence.
pub open spec fn sum_sizes(s: Seq<(u32, CacheEntry)>) -> int
    decreases s.len(),
{
    if s.len() == 0 {
        0
    } else {
        sum_sizes(s.drop_last()) + s.last().1.size
    }
}

pub proof fn lemma_sum_sizes_nonneg(s: Seq<(u32, CacheEntry)>)
    ensures
        sum_sizes(s) >= 0,
    decreases s.len(),
{
    if s.len() > 0 {
        lemma_sum_sizes_nonneg(s.drop_last());
    }
}

/// The sum distributes over concatenation.
pub proof fn lemma_sum_sizes_concat(a: Seq<(u32, CacheEntry)>, b: Seq<(u32, CacheEntry)>)
    ensures
        sum_sizes(a + b) == sum_sizes(a) + sum_sizes(b),
    decreases b.len(),
{
    if b.len() == 0 {
        assert(a + b =~= a);
    } else {
        lemma_sum_sizes_concat(a, b.drop_last());
        assert((a + b).drop_last() =~= a + b.drop_last());
        assert((a + b).last() == b.last());
        assert((a + b).len() > 0);
    }
}

/// The sum can also be unrolled from the head.
pub proof fn lemma_sum_sizes_drop_first(s: Seq<(u32, CacheEntry)>)
    requires
        s.len() > 0,
    ensures
        sum_sizes(s) == s[0].1.size + sum_sizes(s.drop_first()),
{
    let h = seq![s[0]];
    assert(s =~= h + s.drop_first());
    lemma_sum_sizes_concat(h, s.drop_first());
    assert(h.drop_last() =~= Seq::<(u32, CacheEntry)>::empty());
    assert(sum_sizes(h) == sum_sizes(h.drop_last()) + h.last().1.size);
}

/// Removing a key's pair lowers the sum by exactly that pair's size.
pub proof fn lemma_sum_sizes_remove_key(s: Seq<(u32, CacheEntry)>, key: u32)
    ensures
        sum_sizes(remove_key_spec(s, key)) == sum_sizes(s) - match lookup_spec(s, key) {
            Some(e) => e.size as int,
            None => 0,
        },
    decreases s.len(),
{
    if s.len() == 0 {
    } else if s[0].0 == key {
        lemma_sum_sizes_drop_first(s);
    } else {
        lemma_sum_sizes_remove_key(s.drop_first(), key);
        lemma_sum_sizes_drop_first(s);
        let t = remove_key_spec(s.drop_first(), key);
        let r = remove_key_spec(s, key);
        assert(r =~= seq![s[0]] + t);
        if (seq![s[0]] + t).len() > 0 {
            lemma_sum_sizes_drop_first(seq![s[0]] + t);
            assert((seq![s[0]] + t).drop_first() =~= t);
        }
    }
}

/// What removing a key leaves behind: the key is gone, every other key's
/// binding is untouched, and distinctness is kept.
pub proof fn lemma_remove_key_properties(s: Seq<(u32, CacheEntry)>, key: u32)
    requires
        distinct_keys(s),
    ensures
        distinct_keys(remove_key_spec(s, key)),
        !has_key(remove_key_spec(s, key), key),
        forall|k: u32| k != key ==> lookup_spec(remove_key_spec(s, key), k) == lookup_spec(s, k),
        forall|k: u32| k != key ==> has_key(remove_key_spec(s, key), k) == has_key(s, k),
        has_key(s, key) ==> remove_key_spec(s, key).len() == s.len() - 1,
        !has_key(s, key) ==> remove_key_spec(s, key) == s,
        lookup_spec(s, key) is Some <==> has_key(s, key),
    decreases s.len(),
{
    if s.len() == 0 {
    } else if s[0].0 == key {
        assert(remove_key_spec(s, key) == s.drop_first());
        assert forall|k: u32| k != key implies lookup_spec(s.drop_first(), k) == lookup_spec(
            s,
            k,
        ) by {}
        assert forall|k: u32| k != key implies has_key(s.drop_first(), k) == has_key(s, k) by {
            if has_key(s, k) {
                let i = choose|i: int| 0 <= i < s.len() && s[i].0 == k;
                assert(i >= 1);
                assert(s.drop_first()[i - 1].0 == k);
            }
            if has_key(s.drop_first(), k) {
                let j = choose|j: int| 0 <= j < s.drop_first().len() && s.drop_first()[j].0 == k;
                assert(s[j + 1].0 == k);
            }
        }
        assert forall|i: int| 0 <= i < s.drop_first().len() implies s.drop_first()[i].0
            != key by {
            assert(s.drop_first()[i] == s[i + 1]);
        }
    } else {
        lemma_remove_key_properties(s.drop_first(), key);
        let t = remove_key_spec(s.drop_first(), key);
        let r = seq![s[0]] + t;
        assert(remove_key_spec(s, key) == r);
        assert(r[0] == s[0]);
        assert(forall|i: int| 0 <= i < t.len() ==> r[i + 1] == t[i]);
        // distinctness of r: head differs from everything in t because t's
        // pairs all occur in s.drop_first()
        assert forall|i: int| 0 <= i < t.len() implies exists|j: int|
            0 <= j < s.drop_first().len() && s.drop_first()[j] == #[trigger] t[i] by {
            lemma_remove_key_membership(s.drop_first(), key, i);
        }
        assert forall|i: int, j: int| 0 <= i < j < r.len() implies r[i].0 != r[j].0 by {
            if i == 0 {
                let x = choose|m: int|
                    0 <= m < s.drop_first().len() && s.drop_first()[m] == t[j - 1];
                assert(s.drop_first()[x] == s[x + 1]);
            }
        }
        if !has_key(s, key) {
            assert(remove_key_spec(s.drop_first(), key) == s.drop_first());
            assert(r =~= s);
        }
        if has_key(s, key) {
            assert(exists|i: int| 0 <= i < s.len() && s[i].0 == key);
            let i = choose|i: int| 0 <= i < s.len() && s[i].0 == key;
            assert(s.drop_first()[i - 1].0 == key);
        }
        assert forall|k: u32| k != key implies lookup_spec(r, k) == lookup_spec(s, k) by {
            assert(r.drop_first() =~= t);
            assert(lookup_spec(t, k) == lookup_spec(s.drop_first(), k));
            if s[0].0 != k {
                assert(lookup_spec(r, k) == lookup_spec(t, k));
                assert(lookup_spec(s, k) == lookup_spec(s.drop_first(), k));
            } else {
                assert(lookup_spec(r, k) == Some(r[0].1));
                assert(lookup_spec(s, k) == Some(s[0].1));
            }
        }
        assert forall|k: u32| k != key implies has_key(r, k) == has_key(s, k) by {
            lemma_lookup_some_iff_has_key(r, k);
            lemma_lookup_some_iff_has_key(s, k);
        }
        if !has_key(s.drop_first(), key) {
            assert(lookup_spec(s.drop_first(), key) is None);
        }
    }
}

/// Every pair of the removal's result occurs in the original sequence.
pub proof fn lemma_remove_key_membership(s: Seq<(u32, CacheEntry)>, key: u32, i: int)
    requires
        0 <= i < remove_key_spec(s, key).len(),
    ensures
        exists|j: int| 0 <= j < s.len() && s[j] == remove_key_spec(s, key)[i],
    decreases s.len(),
{
    if s.len() == 0 {
    } else if s[0].0 == key {
        assert(s.drop_first()[i] == s[i + 1]);
    } else {
        let t = remove_key_spec(s.drop_first(), key);
        if i == 0 {
            assert(remove_key_spec(s, key)[0] == s[0]);
        } else {
            lemma_remove_key_membership(s.drop_first(), key, i - 1);
            let j = choose|j: int| 0 <= j < s.drop_first().len() && s.drop_first()[j] == t[i - 1];
            assert(s[j + 1] == t[i - 1]);
            assert(remove_key_spec(s, key)[i] == t[i - 1]);
        }
    }
}

/// A key is held exactly when looking it up yields a descriptor.
pub proof fn lemma_lookup_some_iff_has_key(s: Seq<(u32, CacheEntry)>, key: u32)
    ensures
        lookup_spec(s, key) is Some <==> has_key(s, key),
    decreases s.len(),
{
    if s.len() > 0 && s[0].0 != key {
        lemma_lookup_some_iff_has_key(s.drop_first(), key);
        if has_key(s, key) {
            let i = choose|i: int| 0 <= i < s.len() && s[i].0 == key;
            assert(s.drop_first()[i - 1].0 == key);
        }
    }
}

/// When the first occurrence of the key stands at index `i`, removal is the
/// deletion of that index and lookup yields that pair's descriptor.
pub proof fn lemma_remove_key_at_index(s: Seq<(u32, CacheEntry)>, key: u32, i: int)
    requires
        0 <= i < s.len(),
        forall|j: int| 0 <= j < i ==> s[j].0 != key,
        s[i].0 == key,
    ensures
        remove_key_spec(s, key) == s.remove(i),
        lookup_spec(s, key) == Some(s[i].1),
    decreases i,
{
    if i == 0 {
        assert(remove_key_spec(s, key) == s.drop_first());
        assert(s.drop_first() =~= s.remove(0));
    } else {
        lemma_remove_key_at_index(s.drop_first(), key, i - 1);
        assert(s.drop_first()[i - 1] == s[i]);
        assert(forall|j: int| 0 <= j < i - 1 ==> s.drop_first()[j] == s[j + 1]);
        assert(remove_key_spec(s, key) == seq![s[0]] + s.drop_first().remove(i - 1));
        assert(seq![s[0]] + s.drop_first().remove(i - 1) =~= s.remove(i));
    }
}

/// With distinct keys, lookup yields the descriptor of whichever index
/// holds the key.
pub proof fn lemma_lookup_at_index(s: Seq<(u32, CacheEntry)>, key: u32, i: int)
    requires
        distinct_keys(s),
        0 <= i < s.len(),
        s[i].0 == key,
    ensures
        lookup_spec(s, key) == Some(s[i].1),
{
    assert(has_key(s, key));
    lemma_remove_key_spec_index(s, key);
    let i0 = choose|i0: int|
        0 <= i0 < s.len() && #[trigger] s[i0].0 == key && (forall|j: int|
            0 <= j < i0 ==> s[j].0 != key) && remove_key_spec(s, key) == s.remove(i0)
            && lookup_spec(s, key) == Some(s[i0].1);
    assert(i0 == i);
}

/// When no index holds the key, removal changes nothing and lookup fails.
pub proof fn lemma_remove_key_absent(s: Seq<(u32, CacheEntry)>, key: u32)
    requires
        forall|j: int| 0 <= j < s.len() ==> s[j].0 != key,
    ensures
        remove_key_spec(s, key) == s,
        lookup_spec(s, key) is None,
    decreases s.len(),
{
    if s.len() > 0 {
        lemma_remove_key_absent(s.drop_first(), key);
        assert(remove_key_spec(s, key) =~= seq![s[0]] + s.drop_first());
        assert(seq![s[0]] + s.drop_first() =~= s);
    }
}

/// When the key is held, removal by key is the deletion of the key's first
/// index, and lookup yields that index's descriptor.
pub proof fn lemma_remove_key_spec_index(s: Seq<(u32, CacheEntry)>, key: u32)
    requires
        has_key(s, key),
    ensures
        exists|i: int|
            0 <= i < s.len() && #[trigger] s[i].0 == key && (forall|j: int|
                0 <= j < i ==> s[j].0 != key) && remove_key_spec(s, key) == s.remove(i)
                && lookup_spec(s, key) == Some(s[i].1),
    decreases s.len(),
{
    if s[0].0 == key {
        assert(s.remove(0) =~= s.drop_first());
        assert(s[0].0 == key && (forall|j: int| 0 <= j < 0 ==> s[j].0 != key) && remove_key_spec(
            s,
            key,
        ) == s.remove(0) && lookup_spec(s, key) == Some(s[0].1));
    } else {
        let w = choose|w: int| 0 <= w < s.len() && s[w].0 == key;
        assert(s.drop_first()[w - 1].0 == key);
        lemma_remove_key_spec_index(s.drop_first(), key);
        let i = choose|i: int|
            0 <= i < s.drop_first().len() && #[trigger] s.drop_first()[i].0 == key && (forall|
                j: int,
            |
                0 <= j < i ==> s.drop_first()[j].0 != key) && remove_key_spec(s.drop_first(), key)
                == s.drop_first().remove(i) && lookup_spec(s.drop_first(), key) == Some(
                s.drop_first()[i].1,
            );
        assert(forall|j: int| 0 <= j < i + 1 ==> s[j].0 != key) by {
            assert(forall|j: int| 1 <= j < i + 1 ==> s[j] == s.drop_first()[j - 1]);
        }
        assert(seq![s[0]] + s.drop_first().remove(i) =~= s.remove(i + 1));
        assert(s[i + 1].0 == key && (forall|j: int| 0 <= j < i + 1 ==> s[j].0 != key)
            && remove_key_spec(s, key) == s.remove(i + 1) && lookup_spec(s, key) == Some(
            s[i + 1].1,
        ));
    }
}

/// Appending a fresh key keeps keys distinct.
pub proof fn lemma_distinct_push(s: Seq<(u32, CacheEntry)>, key: u32, entry: CacheEntry)
    requires
        distinct_keys(s),
        !has_key(s, key),
    ensures
        distinct_keys(s.push((key, entry))),
{
    let r = s.push((key, entry));
    assert forall|i: int, j: int| 0 <= i < j < r.len() implies r[i].0 != r[j].0 by {
        if j == s.len() {
            assert(r[i] == s[i]);
        }
    }
}

/// The ordered key-to-descriptor queue backing the cache: supports append
/// at the tail, removal by key, removal of the head, and enumeration in
/// order for persistence.
pub struct EntryQueue {
    items: Vec<(u32, CacheEntry)>,
}

impl View for EntryQueue {
    type V = Seq<(u32, CacheEntry)>;

    closed spec fn view(&self) -> Seq<(u32, CacheEntry)> {
        self.items@
    }
}

impl EntryQueue {
    /// Well-formed: no key occurs twice.
    pub open spec fn wf(&self) -> bool {
        distinct_keys(self@)
    }

    pub fn new() -> (r: Self)
        ensures
            r@ == Seq::<(u32, CacheEntry)>::empty(),
            r.wf(),
    {
        EntryQueue { items: Vec::new() }
    }

    pub fn len(&self) -> (r: usize)
        ensures
            r == self@.len(),
    {
        self.items.len()
    }

    /// Remove the key's pair, wherever it stands, and hand its descriptor
    /// back; absence is signalled, not an error.
    pub fn remove_key(&mut self, key: u32) -> (r: Option<CacheEntry>)
        requires
            old(self).wf(),
        ensures
            final(self)@ == remove_key_spec(old(self)@, key),
            r == lookup_spec(old(self)@, key),
            final(self).wf(),
    {
        let ghost s = self.items@;
        let mut i: usize = 0;
        while i < self.items.len()
            invariant
                self.items@ == s,
                old(self)@ == s,
                distinct_keys(s),
                0 <= i <= s.len(),
                forall|j: int| 0 <= j < i ==> s[j].0 != key,
            decreases s.len() - i,
        {
            if self.items[i].0 == key {
                let pair = self.items.remove(i);
                proof {
                    lemma_remove_key_at_index(s, key, i as int);
                    lemma_remove_key_properties(s, key);
                }
                return Some(pair.1);
            }
            i = i + 1;
        }
        proof {
            lemma_remove_key_absent(s, key);
        }
        None
    }

    /// Append the pair at the tail; an existing pair under the same key is
    /// removed first, so a key is held at most once and insertion doubles
    /// as the move-to-tail of an access.
    pub fn insert(&mut self, key: u32, entry: CacheEntry)
        requires
            old(self).wf(),
        ensures
            final(self)@ == remove_key_spec(old(self)@, key).push((key, entry)),
            final(self).wf(),
    {
        let ghost s = self.items@;
        self.remove_key(key);
        self.items.push((key, entry));
        proof {
            lemma_remove_key_properties(s, key);
            lemma_distinct_push(remove_key_spec(s, key), key, entry);
        }
    }

    /// Remove and hand back the least recently used pair; absence is
    /// signalled, not an error.
    pub fn remove_head(&mut self) -> (r: Option<(u32, CacheEntry)>)
        requires
            old(self).wf(),
        ensures
            old(self)@.len() == 0 ==> r is None && final(self)@ == old(self)@,
            old(self)@.len() > 0 ==> r == Some(old(self)@[0]) && final(self)@ == old(
                self,
            )@.drop_first(),
            final(self).wf(),
    {
        if self.items.len() == 0 {
            None
        } else {
            let pair = self.items.remove(0);
            proof {
                assert(self.items@ =~= old(self)@.drop_first());
            }
            Some(pair)
        }
    }

    /// The key's descriptor, if the key is held, without disturbing the
    /// order.
    pub fn find(&self, key: u32) -> (r: Option<CacheEntry>)
        ensures
            r == lookup_spec(self@, key),
    {
        let mut i: usize = 0;
        while i < self.items.len()
            invariant
                0 <= i <= self@.len(),
                forall|j: int| 0 <= j < i ==> self@[j].0 != key,
            decreases self@.len() - i,
        {
            if self.items[i].0 == key {
                proof {
                    lemma_remove_key_at_index(self@, key, i as int);
                }
                return Some(self.items[i].1);
            }
            i = i + 1;
        }
        proof {
            lemma_remove_key_absent(self@, key);
        }
        None
    }

    /// The queue's pairs in order, each flattened to `(key, size, id)`,
    /// ready for persistence.
    pub fn rows(&self) -> (r: Vec<(u32, u64, u64)>)
        ensures
            r@ == entries_rows(self@),
    {
        let mut r: Vec<(u32, u64, u64)> = Vec::new();
        let mut i: usize = 0;
        while i < self.items.len()
            invariant
                0 <= i <= self@.len(),
                r@.len() == i,
                forall|j: int| 0 <= j < i ==> r@[j] == (self@[j].0, self@[j].1.size, self@[j].1.id),
            decreases self@.len() - i,
        {
            let pair = self.items[i];
            r.push((pair.0, pair.1.size, pair.1.id));
            i = i + 1;
        }
        proof {
            assert(r@ =~= entries_rows(self@));
        }
        r
    }

    /// Rebuild a queue from persisted rows, in order. Distinctness of the
    /// keys is the caller's concern: it is checked, not assumed, when a
    /// persisted ledger is loaded.
    pub fn from_rows(rows: &Vec<(u32, u64, u64)>) -> (r: Self)
        ensures
            r@ == rows_to_entries(rows@),
    {
        let mut items: Vec<(u32, CacheEntry)> = Vec::new();
        let mut i: usize = 0;
        while i < rows.len()
            invariant
                0 <= i <= rows@.len(),
                items@.len() == i,
                forall|j: int| 0 <= j < i ==> items@[j] == (
                    rows@[j].0,
                    CacheEntry { size: rows@[j].1, id: rows@[j].2 },
                ),
            decreases rows@.len() - i,
        {
            let row = rows[i];
            items.push((row.0, CacheEntry { size: row.1, id: row.2 }));
            i = i + 1;
        }
        proof {
            assert(items@ =~= rows_to_entries(rows@));
        }
        EntryQueue { items }
    }
}

/// The persisted form of the queue: each pair flattened to plain numbers.
pub open spec fn entries_rows(s: Seq<(u32, CacheEntry)>) -> Seq<(u32, u64, u64)> {
    s.map(|i: int, p: (u32, CacheEntry)| (p.0, p.1.size, p.1.id))
}

/// The queue a sequence of persisted rows stands for.
pub open spec fn rows_to_entries(rows: Seq<(u32, u64, u64)>) -> Seq<(u32, CacheEntry)> {
    rows.map(|i: int, row: (u32, u64, u64)| (row.0, CacheEntry { size: row.1, id: row.2 }))
}

} // verus!
