//! The size cache: best-known byte totals per cache key, shared by every
//! scan. Modelled as an association vector with unique keys, viewed as a
//! map from key identity to entry.

use vstd::prelude::*;

use crate::keys::spec_cache_key;
use crate::types::{CacheEntry, CacheKey, CacheKeyV};

verus! {

/// The map an association sequence denotes; later pairs win, though with
/// unique keys the order never matters.
pub open spec fn entries_map(s: Seq<(CacheKey, CacheEntry)>) -> Map<CacheKeyV, CacheEntry>
    decreases s.len(),
{
    if s.len() == 0 {
        Map::empty()
    } else {
        entries_map(s.drop_last()).insert(s.last().0@, s.last().1)
    }
}

/// No two pairs carry the same key identity.
pub open spec fn unique_keys(s: Seq<(CacheKey, CacheEntry)>) -> bool {
    forall|i: int, j: int| 0 <= i < j < s.len() ==> s[i].0@ != s[j].0@
}

/// How the denoted map relates to the pairs of the sequence.
proof fn lemma_entries_map(s: Seq<(CacheKey, CacheEntry)>)
    ensures
        forall|k: CacheKeyV| #[trigger]
            entries_map(s).contains_key(k) ==> exists|i: int| 0 <= i < s.len() && s[i].0@ == k,
        unique_keys(s) ==> forall|i: int|
            0 <= i < s.len() ==> entries_map(s).contains_key(#[trigger] s[i].0@)
                && entries_map(s)[s[i].0@] == s[i].1,
    decreases s.len(),
{
    if s.len() > 0 {
        lemma_entries_map(s.drop_last());
        assert(forall|i: int| 0 <= i < s.len() - 1 ==> s.drop_last()[i] == s[i]);
        if unique_keys(s) {
            assert(unique_keys(s.drop_last()));
        }
        assert forall|k: CacheKeyV| #[trigger]
            entries_map(s).contains_key(k) implies exists|i: int|
            0 <= i < s.len() && s[i].0@ == k by {
            if k == s.last().0@ {
                assert(s[s.len() - 1].0@ == k);
            } else {
                assert(entries_map(s.drop_last()).contains_key(k));
                let i = choose|i: int| 0 <= i < s.drop_last().len() && s.drop_last()[i].0@ == k;
                assert(s[i].0@ == k);
            }
        }
    }
}

/// Appending a fresh key denotes inserting it.
proof fn lemma_map_after_push(s: Seq<(CacheKey, CacheEntry)>, key: CacheKey, e: CacheEntry)
    requires
        unique_keys(s),
        forall|i: int| 0 <= i < s.len() ==> s[i].0@ != key@,
    ensures
        entries_map(s.push((key, e))) == entries_map(s).insert(key@, e),
        unique_keys(s.push((key, e))),
{
    assert(s.push((key, e)).drop_last() =~= s);
    assert(forall|i: int| 0 <= i < s.len() ==> s.push((key, e))[i] == s[i]);
}

/// Overwriting the entry of an existing key denotes inserting over it.
proof fn lemma_map_after_update(s: Seq<(CacheKey, CacheEntry)>, i: int, p: (CacheKey, CacheEntry))
    requires
        unique_keys(s),
        0 <= i < s.len(),
        p.0@ == s[i].0@,
    ensures
        entries_map(s.update(i, p)) == entries_map(s).insert(p.0@, p.1),
        unique_keys(s.update(i, p)),
    decreases s.len(),
{
    let s2 = s.update(i, p);
    assert(forall|j: int| 0 <= j < s.len() && j != i ==> s2[j] == s[j]);
    if i == s.len() - 1 {
        assert(s2.drop_last() =~= s.drop_last());
        assert(entries_map(s).insert(s.last().0@, s.last().1).insert(p.0@, p.1) =~= entries_map(
            s,
        ).insert(p.0@, p.1));
        assert(entries_map(s2) =~= entries_map(s).insert(p.0@, p.1)) by {
            assert(entries_map(s2) == entries_map(s2.drop_last()).insert(s2.last().0@, s2.last().1));
            assert(entries_map(s2.drop_last()).insert(p.0@, p.1) =~= entries_map(
                s.drop_last(),
            ).insert(s.last().0@, s.last().1).insert(p.0@, p.1));
        }
    } else {
        assert(unique_keys(s.drop_last())) by {
            assert(forall|j: int| 0 <= j < s.len() - 1 ==> s.drop_last()[j] == s[j]);
        }
        lemma_map_after_update(s.drop_last(), i, p);
        assert(s2.drop_last() =~= s.drop_last().update(i, p));
        assert(s2.last() == s.last());
        // The overwritten key differs from the last pair's key, so the two
        // inserts commute.
        assert(p.0@ != s.last().0@);
        assert(entries_map(s2) =~= entries_map(s).insert(p.0@, p.1)) by {
            assert(entries_map(s2) == entries_map(s.drop_last()).insert(p.0@, p.1).insert(
                s.last().0@,
                s.last().1,
            ));
        }
    }
}

/// The concurrent size cache of the engine, one entry per cache identity.
pub struct SizeCache {
    entries: Vec<(CacheKey, CacheEntry)>,
}

impl View for SizeCache {
    type V = Map<CacheKeyV, CacheEntry>;

    closed spec fn view(&self) -> Map<CacheKeyV, CacheEntry> {
        entries_map(self.entries@)
    }
}

impl SizeCache {
    /// Internal validity: stored keys are pairwise distinct.
    pub closed spec fn wf(&self) -> bool {
        unique_keys(self.entries@)
    }

    /// An empty cache.
    pub fn new() -> (r: Self)
        ensures
            r.wf(),
            r@ == Map::<CacheKeyV, CacheEntry>::empty(),
    {
        SizeCache { entries: Vec::new() }
    }

    /// The index holding `key`, when the cache holds it.
    fn find(&self, key: &CacheKey) -> (r: Option<usize>)
        ensures
            match r {
                Some(i) => i < self.entries@.len() && self.entries@[i as int].0@ == key@,
                None => forall|i: int|
                    0 <= i < self.entries@.len() ==> self.entries@[i].0@ != key@,
            },
    {
        let mut i: usize = 0;
        while i < self.entries.len()
            invariant
                i <= self.entries@.len(),
                forall|j: int| 0 <= j < i ==> self.entries@[j].0@ != key@,
            decreases self.entries@.len() - i,
        {
            if self.entries[i].0.key_eq(key) {
                return Some(i);
            }
            i += 1;
        }
        None
    }

    /// Concurrent-safe read of the best-known entry for `key`.
    pub fn get(&self, key: &CacheKey) -> (r: Option<CacheEntry>)
        requires
            self.wf(),
        ensures
            r == if self@.contains_key(key@) {
                Some(self@[key@])
            } else {
                None::<CacheEntry>
            },
    {
        proof {
            lemma_entries_map(self.entries@);
        }
        match self.find(key) {
            Some(i) => Some(self.entries[i].1),
            None => None,
        }
    }

    /// Writes a full entry for `key`, replacing any previous one.
    pub fn upsert(&mut self, key: &CacheKey, entry: CacheEntry)
        requires
            old(self).wf(),
        ensures
            final(self).wf(),
            final(self)@ == old(self)@.insert(key@, entry),
    {
        match self.find(key) {
            Some(i) => {
                proof {
                    lemma_map_after_update(
                        self.entries@,
                        i as int,
                        (self.entries@[i as int].0, entry),
                    );
                }
                let slot = &mut self.entries[i];
                slot.1 = entry;
            },
            None => {
                let owned = key.duplicate();
                proof {
                    lemma_map_after_push(self.entries@, owned, entry);
                }
                self.entries.push((owned, entry));
            },
        }
    }

    /// Batch read used to prefill a view: one optional
    /// `(bytes, items, completed)` triple per requested path, `None` where
    /// nothing is cached yet. Paths are expected already normalized, as for
    /// `make_cache_key`.
    pub fn get_cached_sizes(
        &self,
        paths: &Vec<String>,
        show_hidden: bool,
        ignores: &Vec<String>,
    ) -> (r: Vec<Option<(u64, u64, bool)>>)
        requires
            self.wf(),
        ensures
            r@.len() == paths@.len(),
            forall|i: int|
                0 <= i < paths@.len() ==> r@[i] == {
                    let k = spec_cache_key(
                        paths.deep_view()[i],
                        show_hidden,
                        ignores.deep_view(),
                    );
                    if self@.contains_key(k) {
                        Some((self@[k].bytes, self@[k].items, self@[k].completed))
                    } else {
                        None::<(u64, u64, bool)>
                    }
                },
    {
        let mut out: Vec<Option<(u64, u64, bool)>> = Vec::new();
        let mut i: usize = 0;
        while i < paths.len()
            invariant
                self.wf(),
                i <= paths@.len(),
                out@.len() == i,
                forall|j: int|
                    0 <= j < i ==> out@[j] == {
                        let k = spec_cache_key(
                            paths.deep_view()[j],
                            show_hidden,
                            ignores.deep_view(),
                        );
                        if self@.contains_key(k) {
                            Some((self@[k].bytes, self@[k].items, self@[k].completed))
                        } else {
                            None::<(u64, u64, bool)>
                        }
                    },
            decreases paths@.len() - i,
        {
            let k = crate::keys::make_cache_key(paths[i].as_str(), show_hidden, ignores);
            match self.get(&k) {
                Some(e) => out.push(Some((e.bytes, e.items, e.completed))),
                None => out.push(None),
            }
            i += 1;
        }
        out
    }
}

} // verus!
