//! The least-recently-used cache of tree diffs, shared by the path filter and
//! the commit diffs.

use crate::git::diff::{ChangeModel, ChangeRecord};
use crate::model::ObjectId;
use crate::text::{first_from, first_of, lemma_first_from};
use vstd::prelude::*;

verus! {

/// Upper bound on the number of cached tree diffs.
pub const TREE_DIFF_CACHE_CAP: usize = 64;

/// The first parent, if there is one, and the commit that is compared with it.
#[derive(Clone, Copy, PartialEq, Eq, Structural, Debug)]
pub struct TreeDiffKey {
    pub parent: Option<ObjectId>,
    pub commit: ObjectId,
}

#[derive(Debug)]
pub struct CacheEntry {
    pub key: TreeDiffKey,
    pub records: Vec<ChangeRecord>,
}

/// What a `CacheEntry` holds.
#[verifier::ext_equal]
pub struct EntryModel {
    pub key: TreeDiffKey,
    pub records: Seq<ChangeModel>,
}

impl View for CacheEntry {
    type V = EntryModel;

    open spec fn view(&self) -> EntryModel {
        EntryModel { key: self.key, records: self.records.deep_view() }
    }
}

impl DeepView for CacheEntry {
    type V = EntryModel;

    open spec fn deep_view(&self) -> EntryModel {
        self@
    }
}

/// Tree diffs by key, from the least to the most recently used. An entry never gets stale:
/// the ids are those of contents.
#[derive(Debug)]
pub struct TreeDiffCache {
    pub entries: Vec<CacheEntry>,
}

/// The keys of `entries`.
pub open spec fn cache_keys(entries: Seq<EntryModel>) -> Seq<TreeDiffKey> {
    entries.map_values(|e: EntryModel| e.key)
}

/// Where `key` is found in `entries`; their number if it is not.
pub open spec fn cache_index(entries: Seq<EntryModel>, key: TreeDiffKey) -> nat {
    first_of(cache_keys(entries), key)
}

/// What is found under `key`.
pub open spec fn cache_lookup(entries: Seq<EntryModel>, key: TreeDiffKey) -> Option<
    Seq<ChangeModel>,
> {
    if cache_index(entries, key) < entries.len() {
        Some(entries[cache_index(entries, key) as int].records)
    } else {
        None
    }
}

/// `entries` after `key` was looked up: a hit becomes the most recently used.
pub open spec fn cache_touched(entries: Seq<EntryModel>, key: TreeDiffKey) -> Seq<EntryModel> {
    let at = cache_index(entries, key);
    if at < entries.len() {
        entries.remove(at as int).push(entries[at as int])
    } else {
        entries
    }
}

/// `entries` after an insertion: a full cache loses the least recently used entry.
pub open spec fn cache_inserted(entries: Seq<EntryModel>, entry: EntryModel) -> Seq<EntryModel> {
    if entries.len() >= TREE_DIFF_CACHE_CAP {
        entries.remove(0).push(entry)
    } else {
        entries.push(entry)
    }
}

impl TreeDiffCache {
    /// The cache keeps to its bound.
    pub open spec fn wf(self) -> bool {
        self.entries@.len() <= TREE_DIFF_CACHE_CAP
    }

    pub fn new() -> (r: TreeDiffCache)
        ensures
            r.wf(),
            r.entries@.len() == 0,
    {
        TreeDiffCache { entries: Vec::with_capacity(TREE_DIFF_CACHE_CAP) }
    }

    /// Looks `key` up. A hit becomes the most recently used entry.
    pub fn get(&mut self, key: &TreeDiffKey) -> (r: Option<&Vec<ChangeRecord>>)
        ensures
            old(self).wf() ==> final(self).wf(),
            final(self).entries.deep_view() == cache_touched(old(self).entries.deep_view(), *key),
            match r {
                Some(v) => cache_lookup(old(self).entries.deep_view(), *key) == Some(v.deep_view()),
                None => cache_lookup(old(self).entries.deep_view(), *key) is None,
            },
    {
        let ghost all = self.entries.deep_view();
        let mut i: usize = 0;
        proof {
            lemma_first_from(cache_keys(all), *key, 0);
        }
        while i < self.entries.len() && self.entries[i].key != *key
            invariant
                i <= self.entries@.len(),
                all == self.entries.deep_view(),
                cache_index(all, *key) == first_from(cache_keys(all), *key, i as nat),
            decreases self.entries@.len() - i,
        {
            i += 1;
        }
        if i == self.entries.len() {
            return None;
        }
        let entry: CacheEntry = self.entries.remove(i);
        self.entries.push(entry);
        assert(self.entries.deep_view() =~= cache_touched(all, *key));
        let last: usize = self.entries.len() - 1;
        Some(&self.entries[last].records)
    }

    /// Adds an entry as the most recently used one.
    pub fn insert(&mut self, key: TreeDiffKey, records: Vec<ChangeRecord>)
        requires
            old(self).wf(),
        ensures
            final(self).wf(),
            final(self).entries.deep_view() == cache_inserted(
                old(self).entries.deep_view(),
                (EntryModel { key, records: records.deep_view() }),
            ),
    {
        let ghost all = self.entries.deep_view();
        let ghost entry = EntryModel { key, records: records.deep_view() };
        if self.entries.len() >= TREE_DIFF_CACHE_CAP {
            let _oldest: CacheEntry = self.entries.remove(0);
        }
        self.entries.push(CacheEntry { key, records });
        assert(self.entries.deep_view() =~= cache_inserted(all, entry));
    }
}

impl Default for TreeDiffCache {
    fn default() -> (r: TreeDiffCache)
        ensures
            r.wf(),
            r.entries@.len() == 0,
    {
        TreeDiffCache::new()
    }
}

proof fn lemma_lookup_at(entries: Seq<EntryModel>, key: TreeDiffKey, at: int)
    requires
        0 <= at < entries.len(),
        entries[at].key == key,
        forall|j: int| 0 <= j < at ==> (#[trigger] entries[j]).key != key,
    ensures
        cache_index(entries, key) == at,
        cache_lookup(entries, key) == Some(entries[at].records),
{
    let keys = cache_keys(entries);
    lemma_first_from(keys, key, 0);
    let k = cache_index(entries, key) as int;
    if k < at {
        assert(entries[k].key == keys[k]);
    } else {
        assert(keys[at] == key);
    }
}

/// What was put in under a new key is found under it.
pub proof fn law_insert_then_lookup(entries: Seq<EntryModel>, entry: EntryModel)
    requires
        cache_lookup(entries, entry.key) is None,
    ensures
        cache_lookup(cache_inserted(entries, entry), entry.key) == Some(entry.records),
{
    lemma_first_from(cache_keys(entries), entry.key, 0);
    let after = cache_inserted(entries, entry);
    let at = after.len() - 1;
    assert forall|j: int| 0 <= j < at implies (#[trigger] after[j]).key != entry.key by {
        let k = if entries.len() >= TREE_DIFF_CACHE_CAP {
            j + 1
        } else {
            j
        };
        assert(after[j] == entries[k]);
        assert(cache_keys(entries)[k] == entries[k].key);
    }
    lemma_lookup_at(after, entry.key, at);
}

/// An insertion leaves every other key's entry, except the least recently used entry of a
/// full cache.
pub proof fn law_insert_keeps_others(entries: Seq<EntryModel>, entry: EntryModel, key: TreeDiffKey)
    requires
        key != entry.key,
        entries.len() < TREE_DIFF_CACHE_CAP || entries[0].key != key,
    ensures
        cache_lookup(cache_inserted(entries, entry), key) == cache_lookup(entries, key),
{
    let after = cache_inserted(entries, entry);
    let drop = if entries.len() >= TREE_DIFF_CACHE_CAP {
        1int
    } else {
        0int
    };
    lemma_first_from(cache_keys(entries), key, 0);
    lemma_first_from(cache_keys(after), key, 0);
    let k = cache_index(entries, key) as int;
    if k < entries.len() {
        assert(cache_keys(entries)[k] == entries[k].key);
        assert forall|j: int| 0 <= j < k - drop implies (#[trigger] after[j]).key != key by {
            assert(after[j] == entries[j + drop]);
            assert(cache_keys(entries)[j + drop] == entries[j + drop].key);
        }
        assert(after[k - drop] == entries[k]);
        lemma_lookup_at(after, key, k - drop);
    } else {
        let m = cache_index(after, key) as int;
        if m < after.len() {
            assert(cache_keys(after)[m] == after[m].key);
            if m < after.len() - 1 {
                assert(after[m] == entries[m + drop]);
                assert(cache_keys(entries)[m + drop] == entries[m + drop].key);
            }
        }
    }
}

/// A lookup changes nothing but the order, where keys are distinct.
pub proof fn law_lookup_keeps_contents(
    entries: Seq<EntryModel>,
    looked_up: TreeDiffKey,
    key: TreeDiffKey,
)
    requires
        forall|i: int, j: int|
            0 <= i < j < entries.len() ==> (#[trigger] entries[i]).key != (
            #[trigger] entries[j]).key,
    ensures
        cache_touched(entries, looked_up).len() == entries.len(),
        cache_lookup(cache_touched(entries, looked_up), key) == cache_lookup(entries, key),
{
    let after = cache_touched(entries, looked_up);
    let at = cache_index(entries, looked_up) as int;
    lemma_first_from(cache_keys(entries), looked_up, 0);
    lemma_first_from(cache_keys(entries), key, 0);
    lemma_first_from(cache_keys(after), key, 0);
    if at < entries.len() {
        assert(cache_keys(entries)[at] == entries[at].key);
        let k = cache_index(entries, key) as int;
        if k < entries.len() {
            assert(cache_keys(entries)[k] == entries[k].key);
            let pos = if k < at {
                k
            } else if k == at {
                entries.len() - 1
            } else {
                k - 1
            };
            assert(after[pos] == entries[k]);
            assert forall|j: int| 0 <= j < pos implies (#[trigger] after[j]).key != key by {
                let src = if j < at {
                    j
                } else {
                    j + 1
                };
                assert(after[j] == entries[src]);
                assert(src != k);
            }
            lemma_lookup_at(after, key, pos);
        } else {
            let m = cache_index(after, key) as int;
            if m < after.len() {
                assert(cache_keys(after)[m] == after[m].key);
                let src = if m == after.len() - 1 {
                    at
                } else if m < at {
                    m
                } else {
                    m + 1
                };
                assert(after[m] == entries[src]);
                assert(cache_keys(entries)[src] == entries[src].key);
            }
        }
    }
}

/// The cache holds sixty-four tree diffs at most. As long as there is room, a new one pushes
/// nothing out; a full cache loses the one in front, which is the one not used for longest.
pub proof fn law_the_cache_drops_what_was_not_used_for_longest(
    entries: Seq<EntryModel>,
    entry: EntryModel,
)
    requires
        entries.len() <= 64,
    ensures
        cache_inserted(entries, entry).len() <= 64,
        cache_inserted(entries, entry).last() == entry,
        entries.len() < 64 ==> cache_inserted(entries, entry).drop_last() == entries,
        entries.len() == 64 ==> cache_inserted(entries, entry).drop_last() == entries.skip(1),
{
    if entries.len() == 64 {
        assert(cache_inserted(entries, entry).drop_last() =~= entries.skip(1));
    } else {
        assert(cache_inserted(entries, entry).drop_last() =~= entries);
    }
}

/// What is looked up becomes the last to be pushed out; what comes behind it moves up one
/// place, and the rest stays in place.
pub proof fn law_a_lookup_makes_an_entry_the_last_to_go(
    front: Seq<EntryModel>,
    entry: EntryModel,
    back: Seq<EntryModel>,
)
    requires
        forall|i: int| 0 <= i < front.len() ==> (#[trigger] front[i]).key != entry.key,
    ensures
        cache_touched(front + seq![entry] + back, entry.key) == front + back + seq![entry],
        cache_lookup(front + seq![entry] + back, entry.key) == Some(entry.records),
        cache_touched(front, entry.key) == front,
        cache_lookup(front, entry.key) is None,
{
    let all = front + seq![entry] + back;
    let keys = cache_keys(all);
    let n = front.len();
    lemma_first_from(keys, entry.key, 0);
    assert(keys[n as int] == entry.key);
    assert forall|i: int| 0 <= i < n implies keys[i] != entry.key by {
        assert(all[i] == front[i]);
    }
    assert(first_of(keys, entry.key) == n);
    assert(all.remove(n as int).push(all[n as int]) =~= front + back + seq![entry]);
    lemma_first_from(cache_keys(front), entry.key, 0);
    assert forall|i: int| 0 <= i < n implies cache_keys(front)[i] != entry.key by {
        assert(cache_keys(front)[i] == front[i].key);
    }
}

} // verus!
