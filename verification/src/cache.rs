//! The window cache: a bounded mapping from catalog index to decoded entry.
//! It stores completed decode results (including failure tombstones), evicts
//! everything outside the current retention window, and re-keys itself when a
//! catalog deletion shifts the indices above the deleted position.

use vstd::prelude::*;
use crate::entry::CacheEntry;

verus! {

/// Each key occurs at most once.
pub open spec fn unique_keys(s: Seq<(usize, CacheEntry)>) -> bool {
    forall|j1: int, j2: int| 0 <= j1 < j2 < s.len() ==> s[j1].0 != s[j2].0
}

/// Where a key lands after the catalog item at `removed` is deleted: keys
/// below stay, keys above shift down by one.
pub open spec fn shifted_key(key: usize, removed: usize) -> int {
    if key < removed {
        key as int
    } else {
        key as int - 1
    }
}

/// Some pair at position `start` or later equals `p`. Opaque so that the
/// existential is only opened where a proof needs it.
#[verifier::opaque]
pub open spec fn suffix_has_pair(
    s: Seq<(usize, CacheEntry)>,
    start: int,
    p: (usize, CacheEntry),
) -> bool {
    exists|jj: int| start <= jj < s.len() && s[jj] == p
}

/// Some pair of `s` equals `p`. Opaque for the same reason.
#[verifier::opaque]
pub open spec fn seq_has_pair(s: Seq<(usize, CacheEntry)>, p: (usize, CacheEntry)) -> bool {
    exists|k: int| 0 <= k < s.len() && s[k] == p
}

/// Some pair at position `start` or later survives the deletion of `removed`
/// and lands, key shifted, on `p`. Opaque for the same reason.
#[verifier::opaque]
pub open spec fn suffix_has_shifted(
    s: Seq<(usize, CacheEntry)>,
    start: int,
    removed: usize,
    p: (usize, CacheEntry),
) -> bool {
    exists|jj: int|
        start <= jj < s.len() && s[jj].0 != removed && p.1 == s[jj].1 && p.0 as int == shifted_key(
            s[jj].0,
            removed,
        )
}

/// Some pair of `s` is `q` with its key shifted by the deletion of `removed`.
/// Opaque for the same reason.
#[verifier::opaque]
pub open spec fn seq_has_shifted(
    s: Seq<(usize, CacheEntry)>,
    removed: usize,
    q: (usize, CacheEntry),
) -> bool {
    exists|k: int| 0 <= k < s.len() && s[k].1 == q.1 && s[k].0 as int == shifted_key(q.0, removed)
}

/// The mapping a sequence of key/entry pairs stands for.
pub open spec fn seq_view(s: Seq<(usize, CacheEntry)>) -> Map<int, CacheEntry> {
    Map::new(
        |k: int| exists|j: int| 0 <= j < s.len() && s[j].0 as int == k,
        |k: int| s[choose|j: int| 0 <= j < s.len() && s[j].0 as int == k].1,
    )
}

/// With unique keys, the pair at position `j` is what the mapping holds at its key.
proof fn lemma_seq_view_index(s: Seq<(usize, CacheEntry)>, j: int)
    requires
        unique_keys(s),
        0 <= j < s.len(),
    ensures
        seq_view(s).contains_key(s[j].0 as int),
        seq_view(s)[s[j].0 as int] == s[j].1,
{
    let k = s[j].0 as int;
    assert(seq_view(s).contains_key(k));
    let j2 = choose|j2: int| 0 <= j2 < s.len() && s[j2].0 as int == k;
    assert(j2 == j);
}

/// A bounded index-to-entry mapping with the retention policy of the photo window.
pub struct WindowCache {
    entries: Vec<(usize, CacheEntry)>,
}

impl WindowCache {
    /// The entries currently resident, by catalog index.
    pub closed spec fn view(&self) -> Map<int, CacheEntry> {
        seq_view(self.entries@)
    }

    /// The internal vector holds each index at most once.
    pub closed spec fn inv(&self) -> bool {
        unique_keys(self.entries@)
    }

    pub fn new() -> (r: WindowCache)
        ensures
            r@ == Map::<int, CacheEntry>::empty(),
            r.inv(),
    {
        let r = WindowCache { entries: Vec::new() };
        proof {
            assert(r@ =~= Map::<int, CacheEntry>::empty());
        }
        r
    }

    pub fn clear(&mut self)
        ensures
            final(self)@ == Map::<int, CacheEntry>::empty(),
            final(self).inv(),
    {
        self.entries.clear();
        proof {
            assert(self@ =~= Map::<int, CacheEntry>::empty());
        }
    }

    pub fn contains(&self, index: usize) -> (r: bool)
        ensures
            r == self@.contains_key(index as int),
    {
        let mut j: usize = 0;
        while j < self.entries.len()
            invariant
                j <= self.entries@.len(),
                forall|jj: int| 0 <= jj < j ==> self.entries@[jj].0 != index,
            decreases self.entries@.len() - j,
        {
            if self.entries[j].0 == index {
                return true;
            }
            j += 1;
        }
        false
    }

    /// The entry at `index`, or nothing when that index has not completed
    /// decoding (the presentation layer then shows a loading state).
    pub fn get(&self, index: usize) -> (r: Option<&CacheEntry>)
        requires
            self.inv(),
        ensures
            match r {
                Some(e) => self@.contains_key(index as int) && *e == self@[index as int],
                None => !self@.contains_key(index as int),
            },
    {
        let mut j: usize = 0;
        while j < self.entries.len()
            invariant
                self.inv(),
                j <= self.entries@.len(),
                forall|jj: int| 0 <= jj < j ==> self.entries@[jj].0 != index,
            decreases self.entries@.len() - j,
        {
            let pair = &self.entries[j];
            if pair.0 == index {
                proof {
                    lemma_seq_view_index(self.entries@, j as int);
                }
                return Some(&pair.1);
            }
            j += 1;
        }
        None
    }

    /// Stores `entry` under `index`, overwriting any previous entry there.
    pub fn insert(&mut self, index: usize, entry: CacheEntry)
        requires
            old(self).inv(),
        ensures
            final(self)@ == old(self)@.insert(index as int, entry),
            final(self).inv(),
    {
        self.remove(index);
        let ghost mid = self.entries@;
        self.entries.push((index, entry));
        proof {
            let pushed = self.entries@;
            assert forall|j: int| 0 <= j < mid.len() implies mid[j].0 != index by {
                if mid[j].0 == index {
                    assert(seq_view(mid).contains_key(index as int));
                }
            }
            assert(unique_keys(pushed));
            assert forall|k: int| self@.contains_key(k) implies old(self)@.insert(
                index as int,
                entry,
            ).contains_key(k) by {
                let j = choose|j: int| 0 <= j < pushed.len() && pushed[j].0 as int == k;
                if j < mid.len() {
                    assert(mid[j].0 as int == k);
                    assert(seq_view(mid).contains_key(k));
                } else {
                    assert(k == index as int);
                }
            }
            assert forall|k: int| old(self)@.insert(index as int, entry).contains_key(
                k,
            ) implies self@.contains_key(k) by {
                if k == index as int {
                    assert(pushed[pushed.len() - 1].0 as int == k);
                } else {
                    assert(seq_view(mid).contains_key(k));
                    let j = choose|j: int| 0 <= j < mid.len() && mid[j].0 as int == k;
                    assert(pushed[j].0 as int == k);
                }
            }
            assert forall|k: int| self@.contains_key(k) implies self@[k] == old(self)@.insert(
                index as int,
                entry,
            )[k] by {
                if k == index as int {
                    lemma_seq_view_index(pushed, pushed.len() - 1);
                } else {
                    assert(seq_view(mid).contains_key(k));
                    let j = choose|j: int| 0 <= j < mid.len() && mid[j].0 as int == k;
                    lemma_seq_view_index(pushed, j);
                    lemma_seq_view_index(mid, j);
                }
            }
            assert(self@ =~= old(self)@.insert(index as int, entry));
        }
    }

    /// Drops the entry at `index`, if any.
    pub fn remove(&mut self, index: usize)
        requires
            old(self).inv(),
        ensures
            final(self)@ == old(self)@.remove(index as int),
            final(self).inv(),
    {
        let mut j: usize = 0;
        while j < self.entries.len()
            invariant
                self.inv(),
                j <= self.entries@.len(),
                self.entries@ == old(self).entries@,
                forall|jj: int| 0 <= jj < j ==> self.entries@[jj].0 != index,
            decreases self.entries@.len() - j,
        {
            if self.entries[j].0 == index {
                let ghost pre = self.entries@;
                self.entries.remove(j);
                proof {
                    assert forall|k: int| self@.contains_key(k) implies old(self)@.remove(
                        index as int,
                    ).contains_key(k) by {
                        let jj = choose|jj: int|
                            0 <= jj < self.entries@.len() && self.entries@[jj].0 as int == k;
                        if jj < j {
                            assert(pre[jj].0 as int == k);
                        } else {
                            assert(pre[jj + 1].0 as int == k);
                        }
                    }
                    assert forall|k: int| old(self)@.remove(index as int).contains_key(
                        k,
                    ) implies self@.contains_key(k) by {
                        let jj = choose|jj: int| 0 <= jj < pre.len() && pre[jj].0 as int == k;
                        if jj < j {
                            assert(self.entries@[jj].0 as int == k);
                        } else {
                            assert(jj != j);
                            assert(self.entries@[jj - 1].0 as int == k);
                        }
                    }
                    assert forall|k: int| self@.contains_key(k) implies self@[k] == old(
                        self,
                    )@.remove(index as int)[k] by {
                        let jj = choose|jj: int|
                            0 <= jj < self.entries@.len() && self.entries@[jj].0 as int == k;
                        lemma_seq_view_index(self.entries@, jj);
                        if jj < j {
                            lemma_seq_view_index(pre, jj);
                        } else {
                            lemma_seq_view_index(pre, jj + 1);
                        }
                    }
                    assert(self@ =~= old(self)@.remove(index as int));
                }
                return ;
            }
            j += 1;
        }
        proof {
            assert(!old(self)@.contains_key(index as int));
            assert(self@ =~= old(self)@.remove(index as int));
        }
    }

    /// Evicts every entry whose index lies outside the inclusive window
    /// `[lo, hi]`: what remains is exactly the decoded part of the window.
    pub fn evict_outside(&mut self, lo: usize, hi: usize)
        requires
            old(self).inv(),
        ensures
            forall|k: int| #[trigger]
                final(self)@.contains_key(k) <==> old(self)@.contains_key(k) && lo <= k <= hi,
            forall|k: int| final(self)@.contains_key(k) ==> final(self)@[k] == old(self)@[k],
            final(self).inv(),
    {
        let ghost orig = self.entries@;
        let mut kept: Vec<(usize, CacheEntry)> = Vec::new();
        proof {
            assert(orig.subrange(0, orig.len() as int) =~= orig);
        }
        while self.entries.len() > 0
            invariant
                unique_keys(orig),
                orig == old(self).entries@,
                self.entries@.len() <= orig.len(),
                self.entries@ == orig.subrange(0, self.entries@.len() as int),
                unique_keys(kept@),
                forall|k: int|
                    0 <= k < kept@.len() ==> lo <= (#[trigger] kept@[k]).0 <= hi
                        && suffix_has_pair(orig, self.entries@.len() as int, kept@[k]),
                forall|jj: int|
                    self.entries@.len() <= jj < orig.len() && lo <= (#[trigger] orig[jj]).0 <= hi
                        ==> seq_has_pair(kept@, orig[jj]),
            decreases self.entries@.len(),
        {
            let ghost pre = self.entries@;
            let ghost kept_before = kept@;
            let pair = self.entries.pop().unwrap();
            proof {
                assert(pair == orig[pre.len() - 1]);
                assert(self.entries@ =~= orig.subrange(0, self.entries@.len() as int));
            }
            if lo <= pair.0 && pair.0 <= hi {
                proof {
                    reveal(suffix_has_pair);
                    assert forall|k: int| 0 <= k < kept_before.len() implies kept_before[k].0
                        != pair.0 by {
                        assert(suffix_has_pair(orig, pre.len() as int, kept_before[k]));
                        let jj = choose|jj: int|
                            pre.len() <= jj < orig.len() && orig[jj] == kept_before[k];
                        assert(0 <= pre.len() - 1 < jj < orig.len());
                        assert(orig[pre.len() - 1].0 != orig[jj].0);
                    }
                }
                kept.push(pair);
                proof {
                    reveal(suffix_has_pair);
                    reveal(seq_has_pair);
                    assert forall|k: int| 0 <= k < kept@.len() implies lo <= (
                    #[trigger] kept@[k]).0 <= hi && suffix_has_pair(
                        orig,
                        self.entries@.len() as int,
                        kept@[k],
                    ) by {
                        if k < kept_before.len() {
                            assert(kept@[k] == kept_before[k]);
                            assert(suffix_has_pair(orig, pre.len() as int, kept_before[k]));
                            let jj = choose|jj: int|
                                pre.len() <= jj < orig.len() && orig[jj] == kept_before[k];
                            assert(self.entries@.len() <= jj < orig.len() && orig[jj] == kept@[k]);
                        } else {
                            assert(kept@[k] == pair);
                            let jj = pre.len() - 1;
                            assert(self.entries@.len() <= jj < orig.len() && orig[jj] == kept@[k]);
                        }
                    }
                    assert forall|jj: int|
                        self.entries@.len() <= jj < orig.len() && lo <= (#[trigger] orig[jj]).0
                            <= hi implies seq_has_pair(kept@, orig[jj]) by {
                        if jj >= pre.len() {
                            assert(seq_has_pair(kept_before, orig[jj]));
                            let kk = choose|kk: int|
                                0 <= kk < kept_before.len() && kept_before[kk] == orig[jj];
                            assert(kept@[kk] == orig[jj]);
                        } else {
                            assert(kept@[kept@.len() - 1] == orig[jj]);
                        }
                    }
                }
            } else {
                proof {
                    reveal(suffix_has_pair);
                    reveal(seq_has_pair);
                    assert forall|k: int| 0 <= k < kept@.len() implies lo <= (
                    #[trigger] kept@[k]).0 <= hi && suffix_has_pair(
                        orig,
                        self.entries@.len() as int,
                        kept@[k],
                    ) by {
                        assert(suffix_has_pair(orig, pre.len() as int, kept@[k]));
                        let jj = choose|jj: int|
                            pre.len() <= jj < orig.len() && orig[jj] == kept@[k];
                        assert(self.entries@.len() <= jj < orig.len() && orig[jj] == kept@[k]);
                    }
                    assert forall|jj: int|
                        self.entries@.len() <= jj < orig.len() && lo <= (#[trigger] orig[jj]).0
                            <= hi implies seq_has_pair(kept@, orig[jj]) by {
                        assert(jj != pre.len() - 1);
                        assert(jj >= pre.len());
                        assert(seq_has_pair(kept_before, orig[jj]));
                    }
                }
            }
        }
        self.entries = kept;
        proof {
            reveal(suffix_has_pair);
            reveal(seq_has_pair);
            assert forall|k: int| #[trigger]
                self@.contains_key(k) implies old(self)@.contains_key(k) && lo <= k <= hi by {
                let j = choose|j: int| 0 <= j < self.entries@.len() && self.entries@[j].0 as int == k;
                assert(suffix_has_pair(orig, 0, self.entries@[j]));
                let jj = choose|jj: int| 0 <= jj < orig.len() && orig[jj] == self.entries@[j];
                assert(orig[jj].0 as int == k);
            }
            assert forall|k: int|
                old(self)@.contains_key(k) && lo <= k <= hi implies #[trigger] self@.contains_key(
                k,
            ) by {
                let jj = choose|jj: int| 0 <= jj < orig.len() && orig[jj].0 as int == k;
                assert(seq_has_pair(kept@, orig[jj]));
                let kk = choose|kk: int| 0 <= kk < kept@.len() && kept@[kk] == orig[jj];
                assert(self.entries@[kk].0 as int == k);
            }
            assert forall|k: int| self@.contains_key(k) implies self@[k] == old(self)@[k] by {
                let j = choose|j: int| 0 <= j < self.entries@.len() && self.entries@[j].0 as int == k;
                lemma_seq_view_index(self.entries@, j);
                assert(suffix_has_pair(orig, 0, self.entries@[j]));
                let jj = choose|jj: int| 0 <= jj < orig.len() && orig[jj] == self.entries@[j];
                lemma_seq_view_index(orig, jj);
            }
        }
    }

    /// Re-keys the cache after the catalog item at `removed` was deleted: the
    /// entry at `removed` is dropped and every entry above it shifts down by
    /// one, so no entry is left under a stale index.
    pub fn rekey_after_removal(&mut self, removed: usize)
        requires
            old(self).inv(),
        ensures
            forall|k: int| #[trigger]
                final(self)@.contains_key(k) <==> (0 <= k < removed && old(self)@.contains_key(k))
                    || (removed <= k && old(self)@.contains_key(k + 1)),
            forall|k: int|
                final(self)@.contains_key(k) && k < removed ==> final(self)@[k] == old(self)@[k],
            forall|k: int|
                final(self)@.contains_key(k) && k >= removed ==> final(self)@[k] == old(self)@[k
                    + 1],
            final(self).inv(),
    {
        let ghost orig = self.entries@;
        let mut kept: Vec<(usize, CacheEntry)> = Vec::new();
        proof {
            assert(orig.subrange(0, orig.len() as int) =~= orig);
        }
        while self.entries.len() > 0
            invariant
                unique_keys(orig),
                orig == old(self).entries@,
                self.entries@.len() <= orig.len(),
                self.entries@ == orig.subrange(0, self.entries@.len() as int),
                unique_keys(kept@),
                forall|k: int|
                    0 <= k < kept@.len() ==> suffix_has_shifted(
                        orig,
                        self.entries@.len() as int,
                        removed,
                        #[trigger] kept@[k],
                    ),
                forall|jj: int|
                    self.entries@.len() <= jj < orig.len() && (#[trigger] orig[jj]).0 != removed
                        ==> seq_has_shifted(kept@, removed, orig[jj]),
            decreases self.entries@.len(),
        {
            let ghost pre = self.entries@;
            let ghost kept_before = kept@;
            let pair = self.entries.pop().unwrap();
            proof {
                assert(pair == orig[pre.len() - 1]);
                assert(self.entries@ =~= orig.subrange(0, self.entries@.len() as int));
            }
            let (key, entry) = pair;
            if key != removed {
                let new_key = if key > removed {
                    key - 1
                } else {
                    key
                };
                proof {
                    reveal(suffix_has_shifted);
                    assert(new_key as int == shifted_key(key, removed));
                    assert forall|k: int| 0 <= k < kept_before.len() implies kept_before[k].0
                        != new_key by {
                        assert(suffix_has_shifted(orig, pre.len() as int, removed, kept_before[k]));
                        let jj = choose|jj: int|
                            pre.len() <= jj < orig.len() && orig[jj].0 != removed
                                && kept_before[k].1 == orig[jj].1 && kept_before[k].0 as int
                                == shifted_key(orig[jj].0, removed);
                        assert(0 <= pre.len() - 1 < jj < orig.len());
                        assert(orig[pre.len() - 1].0 != orig[jj].0);
                    }
                }
                kept.push((new_key, entry));
                proof {
                    reveal(suffix_has_shifted);
                    reveal(seq_has_shifted);
                    assert forall|k: int| 0 <= k < kept@.len() implies suffix_has_shifted(
                        orig,
                        self.entries@.len() as int,
                        removed,
                        #[trigger] kept@[k],
                    ) by {
                        if k < kept_before.len() {
                            assert(kept@[k] == kept_before[k]);
                            assert(suffix_has_shifted(
                                orig,
                                pre.len() as int,
                                removed,
                                kept_before[k],
                            ));
                            let jj = choose|jj: int|
                                pre.len() <= jj < orig.len() && orig[jj].0 != removed
                                    && kept_before[k].1 == orig[jj].1 && kept_before[k].0 as int
                                    == shifted_key(orig[jj].0, removed);
                            assert(self.entries@.len() <= jj < orig.len() && orig[jj].0 != removed
                                && kept@[k].1 == orig[jj].1 && kept@[k].0 as int == shifted_key(
                                orig[jj].0,
                                removed,
                            ));
                        } else {
                            assert(kept@[k] == (new_key, entry));
                            let jj = pre.len() - 1;
                            assert(self.entries@.len() <= jj < orig.len() && orig[jj].0 != removed
                                && kept@[k].1 == orig[jj].1 && kept@[k].0 as int == shifted_key(
                                orig[jj].0,
                                removed,
                            ));
                        }
                    }
                    assert forall|jj: int|
                        self.entries@.len() <= jj < orig.len() && (#[trigger] orig[jj]).0
                            != removed implies seq_has_shifted(kept@, removed, orig[jj]) by {
                        if jj >= pre.len() {
                            assert(seq_has_shifted(kept_before, removed, orig[jj]));
                            let kk = choose|kk: int|
                                0 <= kk < kept_before.len() && kept_before[kk].1 == orig[jj].1
                                    && kept_before[kk].0 as int == shifted_key(orig[jj].0, removed);
                            assert(0 <= kk < kept@.len() && kept@[kk].1 == orig[jj].1
                                && kept@[kk].0 as int == shifted_key(orig[jj].0, removed));
                        } else {
                            let kk = kept@.len() - 1;
                            assert(0 <= kk < kept@.len() && kept@[kk].1 == orig[jj].1
                                && kept@[kk].0 as int == shifted_key(orig[jj].0, removed));
                        }
                    }
                }
            } else {
                proof {
                    reveal(suffix_has_shifted);
                    reveal(seq_has_shifted);
                    assert forall|k: int| 0 <= k < kept@.len() implies suffix_has_shifted(
                        orig,
                        self.entries@.len() as int,
                        removed,
                        #[trigger] kept@[k],
                    ) by {
                        assert(suffix_has_shifted(orig, pre.len() as int, removed, kept@[k]));
                        let jj = choose|jj: int|
                            pre.len() <= jj < orig.len() && orig[jj].0 != removed && kept@[k].1
                                == orig[jj].1 && kept@[k].0 as int == shifted_key(
                                orig[jj].0,
                                removed,
                            );
                        assert(self.entries@.len() <= jj < orig.len() && orig[jj].0 != removed
                            && kept@[k].1 == orig[jj].1 && kept@[k].0 as int == shifted_key(
                            orig[jj].0,
                            removed,
                        ));
                    }
                    assert forall|jj: int|
                        self.entries@.len() <= jj < orig.len() && (#[trigger] orig[jj]).0
                            != removed implies seq_has_shifted(kept@, removed, orig[jj]) by {
                        assert(jj != pre.len() - 1);
                        assert(jj >= pre.len());
                        assert(seq_has_shifted(kept_before, removed, orig[jj]));
                    }
                }
            }
        }
        self.entries = kept;
        proof {
            reveal(suffix_has_shifted);
            reveal(seq_has_shifted);
            assert forall|k: int| #[trigger]
                self@.contains_key(k) implies (0 <= k < removed && old(self)@.contains_key(k)) || (
            removed <= k && old(self)@.contains_key(k + 1)) by {
                let j = choose|j: int| 0 <= j < self.entries@.len() && self.entries@[j].0 as int == k;
                assert(suffix_has_shifted(orig, 0, removed, self.entries@[j]));
                let jj = choose|jj: int|
                    0 <= jj < orig.len() && orig[jj].0 != removed && self.entries@[j].1 == orig[jj].1
                        && self.entries@[j].0 as int == shifted_key(orig[jj].0, removed);
                if orig[jj].0 < removed {
                    assert(orig[jj].0 as int == k);
                    assert(old(self)@.contains_key(k));
                } else {
                    assert(orig[jj].0 as int == k + 1);
                    assert(old(self)@.contains_key(k + 1));
                }
            }
            assert forall|k: int|
                (0 <= k < removed && old(self)@.contains_key(k)) || (removed <= k && old(
                    self,
                )@.contains_key(k + 1)) implies #[trigger] self@.contains_key(k) by {
                let kk0: int = if k < removed {
                    k
                } else {
                    k + 1
                };
                let jj = choose|jj: int| 0 <= jj < orig.len() && orig[jj].0 as int == kk0;
                assert(orig[jj].0 != removed);
                assert(seq_has_shifted(kept@, removed, orig[jj]));
                let kk = choose|kk: int|
                    0 <= kk < kept@.len() && kept@[kk].1 == orig[jj].1 && kept@[kk].0 as int
                        == shifted_key(orig[jj].0, removed);
                assert(self.entries@[kk].0 as int == k);
            }
            assert forall|k: int|
                self@.contains_key(k) && k < removed implies self@[k] == old(self)@[k] by {
                let j = choose|j: int| 0 <= j < self.entries@.len() && self.entries@[j].0 as int == k;
                lemma_seq_view_index(self.entries@, j);
                assert(suffix_has_shifted(orig, 0, removed, self.entries@[j]));
                let jj = choose|jj: int|
                    0 <= jj < orig.len() && orig[jj].0 != removed && self.entries@[j].1 == orig[jj].1
                        && self.entries@[j].0 as int == shifted_key(orig[jj].0, removed);
                assert(orig[jj].0 as int == k);
                lemma_seq_view_index(orig, jj);
            }
            assert forall|k: int|
                self@.contains_key(k) && k >= removed implies self@[k] == old(self)@[k + 1] by {
                let j = choose|j: int| 0 <= j < self.entries@.len() && self.entries@[j].0 as int == k;
                lemma_seq_view_index(self.entries@, j);
                assert(suffix_has_shifted(orig, 0, removed, self.entries@[j]));
                let jj = choose|jj: int|
                    0 <= jj < orig.len() && orig[jj].0 != removed && self.entries@[j].1 == orig[jj].1
                        && self.entries@[j].0 as int == shifted_key(orig[jj].0, removed);
                assert(orig[jj].0 as int == k + 1);
                lemma_seq_view_index(orig, jj);
            }
        }
    }
}

} // verus!
