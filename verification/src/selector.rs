//! The orchestrator: a navigation cursor over the catalog, the retention
//! window around it, the window cache and the in-flight set, and the state
//! transitions for every intent the presentation layer can issue. All shared
//! state is mutated here and nowhere else; decode tasks only compute and hand
//! their result back as a `DecodeCompleted` intent.

use vstd::prelude::*;
use crate::cache::WindowCache;
use crate::entry::CacheEntry;
use crate::inflight::InFlightSet;
use crate::scheduler;

verus! {

/// An order to decode one catalog item, returned by a state transition. The
/// caller runs the decode off the interactive path and reports completion
/// through `DecodeCompleted`.
pub struct DecodeRequest {
    pub index: usize,
    pub identifier: String,
}

/// An order to remove the file behind one catalog item. The caller performs
/// the removal and, on success, reports it through `FileRemoved`.
pub struct DeleteRequest {
    pub index: usize,
    pub identifier: String,
}

/// The indices of a dispatch list.
pub open spec fn req_indices(d: Seq<DecodeRequest>) -> Seq<usize> {
    d.map_values(|r: DecodeRequest| r.index)
}

/// Whether some element of `s` has view `x`.
pub open spec fn seq_has_str(s: Seq<String>, x: Seq<char>) -> bool {
    exists|j: int| 0 <= j < s.len() && (#[trigger] s[j])@ == x
}

/// Everything the presentation layer can ask of the orchestrator.
pub enum Intent {
    CatalogLoaded { identifiers: Vec<String> },
    Next,
    Previous,
    SelectAndAdvance,
    DeleteAt { index: usize },
    FileRemoved { index: usize },
    DecodeCompleted { index: usize, entry: CacheEntry },
}

/// The default retention window's lower bound: one below the cursor.
pub open spec fn base_lo(cursor: int) -> int {
    if cursor >= 1 {
        cursor - 1
    } else {
        0
    }
}

/// The default retention window's upper bound: one above the cursor, clamped.
pub open spec fn base_hi(cursor: int, n: int) -> int {
    if cursor + 1 <= n - 1 {
        cursor + 1
    } else {
        n - 1
    }
}

/// The window's upper bound when the look-ahead rule may extend it through the
/// next decode batch.
pub open spec fn lookahead_hi(cursor: int, n: int, batch: int, cache: Map<int, CacheEntry>) -> int {
    let start = scheduler::next_batch_start(cursor, batch);
    if scheduler::lookahead_trigger(cursor, batch) && start < n && !cache.contains_key(start) {
        if start + batch <= n {
            start + batch - 1
        } else {
            n - 1
        }
    } else {
        base_hi(cursor, n)
    }
}

/// The windowed photo browser state: catalog, cache, in-flight set, selection
/// marks, cursor and the current retention window.
pub struct PhotoSelector {
    pub catalog: Vec<String>,
    pub cache: WindowCache,
    pub inflight: InFlightSet,
    pub selected: Vec<String>,
    pub cursor: usize,
    pub win_lo: usize,
    pub win_hi: usize,
    pub batch_size: usize,
}

impl PhotoSelector {
    /// The catalog length.
    pub open spec fn n(&self) -> int {
        self.catalog@.len() as int
    }

    /// Whether index `k` lies in the current retention window.
    pub open spec fn retained(&self, k: int) -> bool {
        self.n() > 0 && self.win_lo <= k <= self.win_hi
    }

    /// Every resident entry lies in the retention window and is well formed.
    pub open spec fn cache_within_window(&self) -> bool {
        forall|k: int| #[trigger] self.cache@.contains_key(k) ==> self.retained(k)
            && self.cache@[k].wf()
    }

    /// Every window index is accounted for: decoded (or tombstoned) in the
    /// cache, or in flight.
    pub open spec fn window_covered(&self) -> bool {
        forall|k: int|
            self.retained(k) ==> (#[trigger] self.cache@.contains_key(k)) || self.inflight@.contains(
                k as usize,
            )
    }

    /// Every in-flight index names a catalog item.
    pub open spec fn inflight_in_catalog(&self) -> bool {
        forall|i: usize| #[trigger] self.inflight@.contains(i) ==> (i as int) < self.n()
    }

    /// The orchestrator's invariant.
    pub open spec fn wf(&self) -> bool {
        &&& self.batch_size >= 1
        &&& self.catalog@.len() < usize::MAX
        &&& self.cache.inv()
        &&& self.inflight.inv()
        &&& (self.n() == 0 ==> self.cursor == 0 && self.win_lo == 0 && self.win_hi == 0)
        &&& (self.n() > 0 ==> self.win_lo <= self.cursor <= self.win_hi < self.n())
        &&& self.cache_within_window()
        &&& self.window_covered()
        &&& self.inflight_in_catalog()
    }

    /// An empty browser with no catalog: the cursor shows nothing and nothing
    /// is cached or in flight.
    pub fn new(batch_size: usize) -> (r: PhotoSelector)
        requires
            batch_size >= 1,
        ensures
            r.wf(),
            r.n() == 0,
            r.batch_size == batch_size,
            r.cursor == 0,
            r.selected@.len() == 0,
            r.cache@ == Map::<int, CacheEntry>::empty(),
            r.inflight@ == Set::<usize>::empty(),
    {
        PhotoSelector {
            catalog: Vec::new(),
            cache: WindowCache::new(),
            inflight: InFlightSet::new(),
            selected: Vec::new(),
            cursor: 0,
            win_lo: 0,
            win_hi: 0,
            batch_size,
        }
    }
}

/// What loading a catalog does: the cursor resets to the first item, nothing
/// stays cached or in flight from the previous catalog, and the first batch
/// (clamped to the catalog length) is dispatched; the retention window spans
/// exactly that initial batch.
pub open spec fn loaded_post(
    pre: PhotoSelector,
    post: PhotoSelector,
    identifiers: Seq<String>,
    d: Seq<DecodeRequest>,
) -> bool {
    let n = identifiers.len() as int;
    let m = if pre.batch_size <= n {
        pre.batch_size as int
    } else {
        n
    };
    &&& post.catalog@ == identifiers
    &&& post.batch_size == pre.batch_size
    &&& post.selected == pre.selected
    &&& post.cursor == 0
    &&& forall|k: int| !(#[trigger] post.cache@.contains_key(k))
    &&& (n == 0 ==> post.win_lo == 0 && post.win_hi == 0 && d.len() == 0 && forall|i: usize|
        !(#[trigger] post.inflight@.contains(i)))
    &&& (n > 0 ==> {
        &&& post.win_lo == 0 && post.win_hi == m - 1
        &&& d.len() == m
        &&& forall|j: int| 0 <= j < d.len() ==> (#[trigger] d[j]).index == j
        &&& forall|j: int|
            0 <= j < d.len() ==> (#[trigger] d[j]).identifier@ == identifiers[j]@
        &&& forall|i: usize| #[trigger] post.inflight@.contains(i) <==> (i as int) < m
    })
}

impl PhotoSelector {
    /// Replaces the catalog (a new folder was chosen), resets the cursor to
    /// the first item, drops all cached and in-flight work, and dispatches the
    /// initial decode batch.
    pub fn load_catalog(&mut self, identifiers: Vec<String>) -> (d: Vec<DecodeRequest>)
        requires
            old(self).wf(),
            identifiers@.len() < usize::MAX,
        ensures
            final(self).wf(),
            loaded_post(*old(self), *final(self), identifiers@, d@),
    {
        self.catalog = identifiers;
        self.cursor = 0;
        self.cache.clear();
        self.inflight.clear();
        let n = self.catalog.len();
        if n == 0 {
            self.win_lo = 0;
            self.win_hi = 0;
            return Vec::new();
        }
        let idxs = scheduler::initial_batch(n, self.batch_size);
        let m = idxs.len();
        self.win_lo = 0;
        self.win_hi = m - 1;
        let mut d: Vec<DecodeRequest> = Vec::new();
        let mut j: usize = 0;
        while j < m
            invariant
                j <= m,
                m == idxs@.len(),
                forall|jj: int| 0 <= jj < m ==> #[trigger] idxs@[jj] == jj,
                1 <= m <= self.catalog@.len(),
                m == if old(self).batch_size <= self.catalog@.len() {
                    old(self).batch_size as int
                } else {
                    self.catalog@.len() as int
                },
                self.catalog@ == identifiers@,
                self.catalog@.len() < usize::MAX,
                self.batch_size == old(self).batch_size,
                self.selected == old(self).selected,
                self.cursor == 0,
                self.win_lo == 0,
                self.win_hi == m - 1,
                self.cache.inv(),
                self.inflight.inv(),
                forall|k: int| !(#[trigger] self.cache@.contains_key(k)),
                d@.len() == j,
                forall|jj: int| 0 <= jj < j ==> (#[trigger] d@[jj]).index == jj,
                forall|jj: int|
                    0 <= jj < j ==> (#[trigger] d@[jj]).identifier@ == self.catalog@[jj]@,
                forall|i: usize| #[trigger] self.inflight@.contains(i) <==> (i as int) < j,
            decreases m - j,
        {
            let idx = idxs[j];
            let ident = self.catalog[idx].clone();
            d.push(DecodeRequest { index: idx, identifier: ident });
            self.inflight.insert(idx);
            j += 1;
        }
        d
    }
}

/// Everything except the selection marks is unchanged.
pub open spec fn frame_except_selected(pre: PhotoSelector, post: PhotoSelector) -> bool {
    &&& post.catalog == pre.catalog
    &&& post.cache == pre.cache
    &&& post.inflight == pre.inflight
    &&& post.cursor == pre.cursor
    &&& post.win_lo == pre.win_lo
    &&& post.win_hi == pre.win_hi
    &&& post.batch_size == pre.batch_size
}

/// What recomputing the retention window at cursor `c` does: the window
/// becomes `[lo, hi]`, the cache keeps exactly its entries inside the window,
/// and exactly the window indices that are neither cached nor in flight are
/// dispatched (each once, with its catalog identifier) and recorded in flight.
pub open spec fn refreshed(
    pre: PhotoSelector,
    post: PhotoSelector,
    d: Seq<DecodeRequest>,
    c: int,
    lo: int,
    hi: int,
) -> bool {
    &&& post.catalog == pre.catalog
    &&& post.batch_size == pre.batch_size
    &&& post.cursor == c
    &&& post.win_lo == lo
    &&& post.win_hi == hi
    &&& forall|k: int| #[trigger]
        post.cache@.contains_key(k) <==> pre.cache@.contains_key(k) && lo <= k <= hi
    &&& forall|k: int| #[trigger] post.cache@.contains_key(k) ==> post.cache@[k] == pre.cache@[k]
    &&& forall|j1: int, j2: int|
        0 <= j1 < j2 < d.len() ==> (#[trigger] d[j1]).index != (#[trigger] d[j2]).index
    &&& forall|j: int|
        0 <= j < d.len() ==> ((#[trigger] d[j]).index as int) < pre.n() && d[j].identifier@
            == pre.catalog@[d[j].index as int]@
    &&& forall|i: usize| #[trigger]
        req_indices(d).contains(i) <==> lo <= i <= hi && !pre.cache@.contains_key(i as int)
            && !pre.inflight@.contains(i)
    &&& forall|i: usize| #[trigger]
        post.inflight@.contains(i) <==> pre.inflight@.contains(i) || req_indices(d).contains(i)
}

/// What `next` does: a no-op at the last index (and on an empty catalog), else
/// the cursor advances and the window is recomputed around it, extended
/// through the next batch when the look-ahead rule fires.
pub open spec fn next_post(pre: PhotoSelector, post: PhotoSelector, d: Seq<DecodeRequest>) -> bool {
    if pre.n() == 0 || pre.cursor as int == pre.n() - 1 {
        post == pre && d.len() == 0
    } else {
        let c = pre.cursor as int + 1;
        refreshed(
            pre,
            post,
            d,
            c,
            base_lo(c),
            lookahead_hi(c, pre.n(), pre.batch_size as int, pre.cache@),
        )
    }
}

/// What `previous` does: a no-op at the first index (and on an empty catalog),
/// else the cursor retreats and the window is recomputed around it.
pub open spec fn previous_post(pre: PhotoSelector, post: PhotoSelector, d: Seq<DecodeRequest>) -> bool {
    if pre.n() == 0 || pre.cursor == 0 {
        post == pre && d.len() == 0
    } else {
        let c = pre.cursor as int - 1;
        refreshed(pre, post, d, c, base_lo(c), base_hi(c, pre.n()))
    }
}

/// What the selection marks become when the current item is marked: its
/// identifier is added once.
pub open spec fn marked_selected(pre: PhotoSelector) -> Seq<String> {
    if seq_has_str(pre.selected@, pre.catalog@[pre.cursor as int]@) {
        pre.selected@
    } else {
        pre.selected@.push(pre.catalog@[pre.cursor as int])
    }
}

/// What `select-and-advance` does: when the current item is decoded, it is
/// marked selected and the cursor then advances as `next` does; when it is not
/// decoded (or the catalog is empty), nothing happens.
pub open spec fn select_post(pre: PhotoSelector, post: PhotoSelector, d: Seq<DecodeRequest>) -> bool {
    if pre.n() > 0 && pre.cache@.contains_key(pre.cursor as int) {
        &&& post.selected@ == marked_selected(pre)
        &&& if pre.cursor as int == pre.n() - 1 {
            frame_except_selected(pre, post) && d.len() == 0
        } else {
            refreshed(
                pre,
                post,
                d,
                pre.cursor as int + 1,
                base_lo(pre.cursor as int + 1),
                lookahead_hi(
                    pre.cursor as int + 1,
                    pre.n(),
                    pre.batch_size as int,
                    pre.cache@,
                ),
            )
        }
    } else {
        post == pre && d.len() == 0
    }
}

impl PhotoSelector {
    /// Recomputes the retention window around the (already moved) cursor,
    /// evicts everything outside it, and dispatches the window indices that
    /// are neither cached nor in flight. With `allow_lookahead`, the window is
    /// extended through the next decode batch when the look-ahead rule fires.
    #[verifier::loop_isolation(false)]
    fn refresh_window(&mut self, allow_lookahead: bool) -> (d: Vec<DecodeRequest>)
        requires
            old(self).batch_size >= 1,
            old(self).catalog@.len() < usize::MAX,
            old(self).n() > 0,
            (old(self).cursor as int) < old(self).n(),
            old(self).cache.inv(),
            old(self).inflight.inv(),
            forall|k: int| #[trigger]
                old(self).cache@.contains_key(k) ==> old(self).cache@[k].wf(),
            old(self).inflight_in_catalog(),
        ensures
            final(self).wf(),
            final(self).selected == old(self).selected,
            refreshed(
                *old(self),
                *final(self),
                d@,
                old(self).cursor as int,
                base_lo(old(self).cursor as int),
                if allow_lookahead {
                    lookahead_hi(
                        old(self).cursor as int,
                        old(self).n(),
                        old(self).batch_size as int,
                        old(self).cache@,
                    )
                } else {
                    base_hi(old(self).cursor as int, old(self).n())
                },
            ),
    {
        let n = self.catalog.len();
        let lo = if self.cursor >= 1 {
            self.cursor - 1
        } else {
            0
        };
        let mut hi = if self.cursor + 1 <= n - 1 {
            self.cursor + 1
        } else {
            n - 1
        };
        if allow_lookahead {
            match scheduler::lookahead_start(self.cursor, n, self.batch_size, &self.cache) {
                Some(start) => {
                    let end = if self.batch_size <= n - start {
                        start + self.batch_size
                    } else {
                        n
                    };
                    hi = end - 1;
                },
                None => {},
            }
        }
        proof {
            assert(lo <= self.cursor <= hi < n);
        }
        self.win_lo = lo;
        self.win_hi = hi;
        self.cache.evict_outside(lo, hi);
        let ghost cache_v = self.cache@;
        let ghost infl0 = self.inflight@;
        let missing = scheduler::missing_in_window(&self.cache, &self.inflight, lo, hi);
        proof {
            assert forall|jj: int| 0 <= jj < missing@.len() implies lo <= #[trigger] missing@[jj]
                <= hi by {
                assert(missing@.contains(missing@[jj]));
            }
        }
        let mut d: Vec<DecodeRequest> = Vec::new();
        let mut j: usize = 0;
        while j < missing.len()
            invariant
                j <= missing@.len(),
                self.catalog == old(self).catalog,
                self.selected == old(self).selected,
                self.cursor == old(self).cursor,
                self.batch_size == old(self).batch_size,
                self.win_lo == lo,
                self.win_hi == hi,
                self.cache@ == cache_v,
                self.cache.inv(),
                self.inflight.inv(),
                d@.len() == j,
                forall|jj: int| 0 <= jj < j ==> (#[trigger] d@[jj]).index == missing@[jj],
                forall|jj: int|
                    0 <= jj < j ==> (#[trigger] d@[jj]).identifier@ == self.catalog@[missing@[jj] as int]@,
                forall|i: usize| #[trigger]
                    self.inflight@.contains(i) <==> infl0.contains(i) || exists|jj: int|
                        0 <= jj < j && missing@[jj] == i,
            decreases missing@.len() - j,
        {
            let idx = missing[j];
            let ghost infl_before = self.inflight@;
            let ident = self.catalog[idx].clone();
            d.push(DecodeRequest { index: idx, identifier: ident });
            self.inflight.insert(idx);
            proof {
                assert forall|i: usize| #[trigger]
                    self.inflight@.contains(i) <==> infl0.contains(i) || exists|jj: int|
                        0 <= jj < j + 1 && missing@[jj] == i by {
                    if self.inflight@.contains(i) {
                        if i == idx {
                            assert(missing@[j as int] == i);
                        }
                    }
                    if infl0.contains(i) {
                        assert(infl_before.contains(i));
                    }
                    if exists|jj: int| 0 <= jj < j + 1 && missing@[jj] == i {
                        let jj = choose|jj: int| 0 <= jj < j + 1 && missing@[jj] == i;
                        if jj < j {
                            assert(infl_before.contains(i));
                        }
                    }
                }
            }
            j += 1;
        }
        proof {
            assert(req_indices(d@) =~= missing@);
            assert forall|i: usize| #[trigger]
                req_indices(d@).contains(i) <==> lo <= i <= hi && !old(self).cache@.contains_key(
                i as int,
            ) && !old(self).inflight@.contains(i) by {
                if lo <= i <= hi {
                    assert(cache_v.contains_key(i as int) <==> old(self).cache@.contains_key(
                        i as int,
                    ) && lo <= i as int <= hi);
                }
            }
            assert forall|i: usize| #[trigger]
                self.inflight@.contains(i) <==> old(self).inflight@.contains(i) || req_indices(
                d@,
            ).contains(i) by {
                if exists|jj: int| 0 <= jj < missing@.len() && missing@[jj] == i {
                    assert(missing@.contains(i));
                }
                if missing@.contains(i) {
                    let jj = choose|jj: int| 0 <= jj < missing@.len() && missing@[jj] == i;
                    assert(exists|jj2: int| 0 <= jj2 < missing@.len() && missing@[jj2] == i);
                }
            }
            assert forall|k: int| self.retained(k) implies (
            #[trigger] self.cache@.contains_key(k)) || self.inflight@.contains(k as usize) by {
                if !self.cache@.contains_key(k) {
                    let i = k as usize;
                    if !old(self).inflight@.contains(i) {
                        assert(!old(self).cache@.contains_key(i as int));
                        assert(req_indices(d@).contains(i));
                    }
                }
            }
        }
        d
    }

    /// Marks the item under the cursor as selected (once; marking an already
    /// selected item changes nothing).
    #[verifier::loop_isolation(false)]
    fn mark_current_selected(&mut self)
        requires
            old(self).n() > 0,
            (old(self).cursor as int) < old(self).n(),
        ensures
            frame_except_selected(*old(self), *final(self)),
            final(self).selected@ == marked_selected(*old(self)),
    {
        let ident = self.catalog[self.cursor].clone();
        let mut j: usize = 0;
        while j < self.selected.len()
            invariant
                j <= self.selected@.len(),
                forall|jj: int| 0 <= jj < j ==> (#[trigger] self.selected@[jj])@ != ident@,
            decreases self.selected@.len() - j,
        {
            if self.selected[j] == ident {
                return ;
            }
            j += 1;
        }
        proof {
            assert(!seq_has_str(self.selected@, old(self).catalog@[old(self).cursor as int]@));
        }
        self.selected.push(ident);
    }

    /// Advances the cursor to the next item; a no-op at the last index. The
    /// retention window follows the cursor and missing window indices are
    /// dispatched, with the look-ahead rule prefetching the next batch.
    pub fn next(&mut self) -> (d: Vec<DecodeRequest>)
        requires
            old(self).wf(),
        ensures
            final(self).wf(),
            next_post(*old(self), *final(self), d@),
            final(self).selected == old(self).selected,
    {
        let n = self.catalog.len();
        if n == 0 || self.cursor == n - 1 {
            return Vec::new();
        }
        self.cursor = self.cursor + 1;
        self.refresh_window(true)
    }

    /// Retreats the cursor to the previous item; a no-op at the first index.
    /// The retention window follows the cursor and missing window indices are
    /// dispatched.
    pub fn previous(&mut self) -> (d: Vec<DecodeRequest>)
        requires
            old(self).wf(),
        ensures
            final(self).wf(),
            previous_post(*old(self), *final(self), d@),
            final(self).selected == old(self).selected,
    {
        if self.catalog.len() == 0 || self.cursor == 0 {
            return Vec::new();
        }
        self.cursor = self.cursor - 1;
        self.refresh_window(false)
    }

    /// Marks the current item selected (only possible once it is decoded) and
    /// then advances like `next`. When the current item is not decoded yet, or
    /// the catalog is empty, nothing happens.
    pub fn select_and_advance(&mut self) -> (d: Vec<DecodeRequest>)
        requires
            old(self).wf(),
        ensures
            final(self).wf(),
            select_post(*old(self), *final(self), d@),
    {
        let n = self.catalog.len();
        if n == 0 {
            return Vec::new();
        }
        if !self.cache.contains(self.cursor) {
            return Vec::new();
        }
        self.mark_current_selected();
        if self.cursor == n - 1 {
            return Vec::new();
        }
        self.cursor = self.cursor + 1;
        self.refresh_window(true)
    }
}

/// Whether the re-keyed cache (after deleting `removed`) holds key `k`: keys
/// below the deleted index are untouched, keys above shifted down by one.
pub open spec fn rekeyed_contains(pre: Map<int, CacheEntry>, removed: int, k: int) -> bool {
    (0 <= k < removed && pre.contains_key(k)) || (removed <= k && pre.contains_key(k + 1))
}

/// The entry the re-keyed cache holds at `k`.
pub open spec fn rekeyed_at(pre: Map<int, CacheEntry>, removed: int, k: int) -> CacheEntry {
    if k < removed {
        pre[k]
    } else {
        pre[k + 1]
    }
}

/// What confirming a file removal does: the catalog shrinks by one with every
/// surviving item keeping its order (old index if below the deleted one, old
/// index minus one otherwise), the cache is re-keyed the same way with no
/// entry left under a stale index, the cursor clamps into the new bounds, the
/// in-flight records at or above the deleted index are dropped (their results
/// will be discarded), and the window around the clamped cursor is refreshed.
pub open spec fn removed_post(
    pre: PhotoSelector,
    post: PhotoSelector,
    index: usize,
    d: Seq<DecodeRequest>,
) -> bool {
    if index as int >= pre.n() {
        post == pre && d.len() == 0
    } else {
        let n2 = pre.n() - 1;
        &&& post.catalog@.len() == n2
        &&& forall|i: int| 0 <= i < index ==> post.catalog@[i] == pre.catalog@[i]
        &&& forall|i: int| index <= i < n2 ==> post.catalog@[i] == pre.catalog@[i + 1]
        &&& post.batch_size == pre.batch_size
        &&& post.selected == pre.selected
        &&& if n2 == 0 {
            &&& post.cursor == 0
            &&& post.win_lo == 0
            &&& post.win_hi == 0
            &&& (forall|k: int| !(#[trigger] post.cache@.contains_key(k)))
            &&& (forall|i: usize| !(#[trigger] post.inflight@.contains(i)))
            &&& d.len() == 0
        } else {
            let c = if pre.cursor as int >= n2 {
                n2 - 1
            } else {
                pre.cursor as int
            };
            let lo = base_lo(c);
            let hi = base_hi(c, n2);
            &&& post.cursor == c
            &&& post.win_lo == lo
            &&& post.win_hi == hi
            &&& forall|k: int| #[trigger]
                post.cache@.contains_key(k) <==> rekeyed_contains(pre.cache@, index as int, k)
                    && lo <= k <= hi
            &&& forall|k: int| #[trigger]
                post.cache@.contains_key(k) ==> post.cache@[k] == rekeyed_at(
                    pre.cache@,
                    index as int,
                    k,
                )
            &&& forall|j1: int, j2: int|
                0 <= j1 < j2 < d.len() ==> (#[trigger] d[j1]).index != (#[trigger] d[j2]).index
            &&& forall|j: int|
                0 <= j < d.len() ==> ((#[trigger] d[j]).index as int) < n2 && d[j].identifier@
                    == post.catalog@[d[j].index as int]@
            &&& forall|i: usize| #[trigger]
                req_indices(d).contains(i) <==> lo <= i <= hi && !rekeyed_contains(
                    pre.cache@,
                    index as int,
                    i as int,
                ) && !(pre.inflight@.contains(i) && i < index)
            &&& forall|i: usize| #[trigger]
                post.inflight@.contains(i) <==> (pre.inflight@.contains(i) && i < index)
                    || req_indices(d).contains(i)
        }
    }
}

impl PhotoSelector {
    /// The removal order for the item at `index`, when it exists: the caller
    /// removes the file and reports back through `FileRemoved`. The catalog is
    /// not touched until then, so a failed removal leaves the item in place.
    pub fn request_delete(&self, index: usize) -> (r: Option<DeleteRequest>)
        requires
            self.wf(),
        ensures
            match r {
                Some(req) => (index as int) < self.n() && req.index == index && req.identifier@
                    == self.catalog@[index as int]@,
                None => (index as int) >= self.n(),
            },
    {
        if index < self.catalog.len() {
            let ident = self.catalog[index].clone();
            Some(DeleteRequest { index, identifier: ident })
        } else {
            None
        }
    }

    /// Applies a confirmed file removal to the state; a no-op when `index` no
    /// longer names a catalog item.
    pub fn confirm_removed(&mut self, index: usize) -> (d: Vec<DecodeRequest>)
        requires
            old(self).wf(),
        ensures
            final(self).wf(),
            removed_post(*old(self), *final(self), index, d@),
    {
        let n = self.catalog.len();
        if index >= n {
            return Vec::new();
        }
        self.catalog.remove(index);
        let n2 = self.catalog.len();
        if n2 == 0 {
            self.cursor = 0;
            self.win_lo = 0;
            self.win_hi = 0;
            self.cache.clear();
            self.inflight.clear();
            return Vec::new();
        }
        if self.cursor >= n2 {
            self.cursor = n2 - 1;
        }
        self.cache.rekey_after_removal(index);
        self.inflight.drop_at_or_above(index);
        let ghost mid = *self;
        proof {
            assert forall|k: int| #[trigger] mid.cache@.contains_key(k) implies mid.cache@[k].wf() by {
                if k < index {
                    assert(old(self).cache@.contains_key(k));
                } else {
                    assert(old(self).cache@.contains_key(k + 1));
                }
            }
        }
        let d = self.refresh_window(false);
        d
    }
}

/// Whether a completion belongs to the in-flight record of its index: the
/// index is in flight and the entry was decoded from the identifier the
/// catalog holds there now. After a deletion, a still-running task for an
/// invalidated index fails this test, because its index names another item.
pub open spec fn completion_matches(pre: PhotoSelector, index: usize, entry: CacheEntry) -> bool {
    &&& pre.inflight@.contains(index)
    &&& (index as int) < pre.n()
    &&& entry.identifier@ == pre.catalog@[index as int]@
}

/// What a decode completion does. A completion that matches its in-flight
/// record (same index, same identifier) consumes the record; it is inserted
/// only when the index is still in the retention window, else discarded. A
/// completion that does not match — never dispatched, or a leftover task from
/// before a deletion whose index now names another item — changes nothing, so
/// the record keeps waiting for the genuine task's result.
pub open spec fn completed_post(
    pre: PhotoSelector,
    post: PhotoSelector,
    index: usize,
    entry: CacheEntry,
    accepted: bool,
) -> bool {
    &&& accepted == (completion_matches(pre, index, entry) && pre.retained(index as int))
    &&& (completion_matches(pre, index, entry) ==> post.inflight@ == pre.inflight@.remove(index))
    &&& (!completion_matches(pre, index, entry) ==> post.inflight@ == pre.inflight@)
    &&& (accepted ==> post.cache@ == pre.cache@.insert(index as int, entry))
    &&& (!accepted ==> post.cache@ == pre.cache@)
    &&& post.catalog == pre.catalog
    &&& post.selected == pre.selected
    &&& post.cursor == pre.cursor
    &&& post.win_lo == pre.win_lo
    &&& post.win_hi == pre.win_hi
    &&& post.batch_size == pre.batch_size
}

impl PhotoSelector {
    /// Records the result of a decode task. Returns whether the entry was
    /// inserted (true) or discarded (false: never dispatched, superseded by a
    /// deletion, or no longer in the retention window).
    pub fn decode_completed(&mut self, index: usize, entry: CacheEntry) -> (accepted: bool)
        requires
            old(self).wf(),
            entry.wf(),
        ensures
            final(self).wf(),
            completed_post(*old(self), *final(self), index, entry, accepted),
    {
        if !self.inflight.contains(index) {
            return false;
        }
        if !(entry.identifier == self.catalog[index]) {
            return false;
        }
        self.inflight.remove(index);
        let within = self.win_lo <= index && index <= self.win_hi;
        if within {
            self.cache.insert(index, entry);
            true
        } else {
            false
        }
    }

    /// The catalog length.
    pub fn catalog_len(&self) -> (r: usize)
        ensures
            r as int == self.n(),
    {
        self.catalog.len()
    }

    /// The current cursor position; meaningless when the catalog is empty.
    pub fn cursor_index(&self) -> (r: usize)
        ensures
            r == self.cursor,
    {
        self.cursor
    }

    /// The current retention window, inclusive on both ends.
    pub fn window_bounds(&self) -> (r: (usize, usize))
        ensures
            r.0 == self.win_lo,
            r.1 == self.win_hi,
    {
        (self.win_lo, self.win_hi)
    }

    /// The identifier of the item at `index`.
    pub fn identifier_at(&self, index: usize) -> (r: String)
        requires
            (index as int) < self.n(),
        ensures
            r@ == self.catalog@[index as int]@,
    {
        self.catalog[index].clone()
    }

    /// The decoded entry (or failure tombstone) under the cursor, or nothing
    /// when it has not completed decoding: the presentation layer then shows a
    /// loading state instead of blocking.
    pub fn current_entry(&self) -> (r: Option<&CacheEntry>)
        requires
            self.wf(),
        ensures
            match r {
                Some(e) => self.cache@.contains_key(self.cursor as int) && *e
                    == self.cache@[self.cursor as int],
                None => !self.cache@.contains_key(self.cursor as int),
            },
    {
        self.cache.get(self.cursor)
    }

    /// The decoded entry at `index`, when it has completed.
    pub fn entry_at(&self, index: usize) -> (r: Option<&CacheEntry>)
        requires
            self.wf(),
        ensures
            match r {
                Some(e) => self.cache@.contains_key(index as int) && *e == self.cache@[
                    index as int],
                None => !self.cache@.contains_key(index as int),
            },
    {
        self.cache.get(index)
    }

    /// The identifiers marked selected so far.
    pub fn selected_identifiers(&self) -> (r: &Vec<String>)
        ensures
            r@ == self.selected@,
    {
        &self.selected
    }

    /// The single state-transition function: applies one intent and returns
    /// the follow-up effects, as decode orders plus at most one removal order.
    pub fn update(&mut self, intent: Intent) -> (r: (Vec<DecodeRequest>, Option<DeleteRequest>))
        requires
            old(self).wf(),
            match intent {
                Intent::CatalogLoaded { identifiers } => identifiers@.len() < usize::MAX,
                Intent::DecodeCompleted { index, entry } => entry.wf(),
                _ => true,
            },
        ensures
            final(self).wf(),
            match intent {
                Intent::CatalogLoaded { identifiers } => loaded_post(
                    *old(self),
                    *final(self),
                    identifiers@,
                    r.0@,
                ) && r.1 is None,
                Intent::Next => next_post(*old(self), *final(self), r.0@) && final(self).selected
                    == old(self).selected && r.1 is None,
                Intent::Previous => previous_post(*old(self), *final(self), r.0@)
                    && final(self).selected == old(self).selected && r.1 is None,
                Intent::SelectAndAdvance => select_post(*old(self), *final(self), r.0@) && r.1
                    is None,
                Intent::DeleteAt { index } => *final(self) == *old(self) && r.0@.len() == 0
                    && (match r.1 {
                    Some(req) => (index as int) < old(self).n() && req.index == index
                        && req.identifier@ == old(self).catalog@[index as int]@,
                    None => (index as int) >= old(self).n(),
                }),
                Intent::FileRemoved { index } => removed_post(*old(self), *final(self), index, r.0@)
                    && r.1 is None,
                Intent::DecodeCompleted { index, entry } => (exists|accepted: bool|
                    completed_post(*old(self), *final(self), index, entry, accepted)) && r.1
                    is None && r.0@.len() == 0,
            },
    {
        match intent {
            Intent::CatalogLoaded { identifiers } => (self.load_catalog(identifiers), None),
            Intent::Next => (self.next(), None),
            Intent::Previous => (self.previous(), None),
            Intent::SelectAndAdvance => (self.select_and_advance(), None),
            Intent::DeleteAt { index } => {
                let req = self.request_delete(index);
                (Vec::new(), req)
            },
            Intent::FileRemoved { index } => (self.confirm_removed(index), None),
            Intent::DecodeCompleted { index, entry } => {
                let ghost pre = *self;
                let accepted = self.decode_completed(index, entry);
                proof {
                    assert(completed_post(pre, *self, index, entry, accepted));
                }
                (Vec::new(), None)
            },
        }
    }
}

} // verus!
