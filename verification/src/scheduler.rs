//! The prefetch scheduler: pure decisions about which catalog indices need a
//! decode task, given the cursor's retention window, the cache contents and
//! the in-flight set. It never mutates either collection; the orchestrator
//! records the dispatches it returns.

use vstd::prelude::*;
use crate::cache::WindowCache;
use crate::inflight::InFlightSet;

verus! {

/// The look-ahead rule fires once the cursor has crossed the midpoint of its
/// current decode batch.
pub open spec fn lookahead_trigger(cursor: int, batch: int) -> bool {
    cursor % batch >= batch / 2
}

/// The first index of the batch after the one the cursor is in.
pub open spec fn next_batch_start(cursor: int, batch: int) -> int {
    (cursor / batch + 1) * batch
}

/// The first `batch` indices (clamped to the catalog length): the initial
/// dispatch set when a catalog loads.
pub fn initial_batch(n: usize, batch: usize) -> (r: Vec<usize>)
    requires
        batch >= 1,
    ensures
        r@.len() == if batch <= n {
            batch as int
        } else {
            n as int
        },
        forall|j: int| 0 <= j < r@.len() ==> r@[j] == j,
{
    let m = if batch <= n {
        batch
    } else {
        n
    };
    let mut r: Vec<usize> = Vec::new();
    let mut k: usize = 0;
    while k < m
        invariant
            k <= m,
            r@.len() == k,
            forall|j: int| 0 <= j < r@.len() ==> r@[j] == j,
        decreases m - k,
    {
        r.push(k);
        k += 1;
    }
    r
}

/// The indices inside the inclusive window `[lo, hi]` that still need a decode
/// task: not yet cached (a tombstone counts as cached) and not in flight.
/// Returned in increasing order, each at most once.
pub fn missing_in_window(cache: &WindowCache, inflight: &InFlightSet, lo: usize, hi: usize) -> (r:
    Vec<usize>)
    requires
        lo <= hi,
        hi < usize::MAX,
    ensures
        forall|j1: int, j2: int| 0 <= j1 < j2 < r@.len() ==> r@[j1] < r@[j2],
        forall|i: usize| #[trigger]
            r@.contains(i) <==> lo <= i <= hi && !cache@.contains_key(i as int)
                && !inflight@.contains(i),
{
    let mut r: Vec<usize> = Vec::new();
    let mut k = lo;
    while k <= hi
        invariant
            lo <= k <= hi + 1,
            hi < usize::MAX,
            forall|j1: int, j2: int| 0 <= j1 < j2 < r@.len() ==> r@[j1] < r@[j2],
            forall|j: int| 0 <= j < r@.len() ==> lo <= #[trigger] r@[j] < k,
            forall|i: usize|
                lo <= i < k ==> (#[trigger] r@.contains(i) <==> !cache@.contains_key(i as int)
                    && !inflight@.contains(i)),
            forall|i: usize| r@.contains(i) ==> lo <= i < k,
        decreases hi + 1 - k,
    {
        let ghost r_before = r@;
        if !cache.contains(k) && !inflight.contains(k) {
            r.push(k);
            proof {
                assert forall|i: usize|
                    lo <= i < k + 1 implies (#[trigger] r@.contains(i) <==> !cache@.contains_key(
                    i as int,
                ) && !inflight@.contains(i)) by {
                    if i < k {
                        if r_before.contains(i) {
                            let j = choose|j: int| 0 <= j < r_before.len() && r_before[j] == i;
                            assert(r@[j] == i);
                        }
                        if r@.contains(i) {
                            let j = choose|j: int| 0 <= j < r@.len() && r@[j] == i;
                            assert(j < r_before.len());
                            assert(r_before[j] == i);
                        }
                    } else {
                        assert(r@[r@.len() - 1] == k);
                    }
                }
                assert forall|i: usize| r@.contains(i) implies lo <= i < k + 1 by {
                    let j = choose|j: int| 0 <= j < r@.len() && r@[j] == i;
                    if j < r_before.len() {
                        assert(r_before[j] == i);
                        assert(r_before.contains(i));
                    }
                }
            }
        } else {
            proof {
                assert forall|i: usize|
                    lo <= i < k + 1 implies (#[trigger] r@.contains(i) <==> !cache@.contains_key(
                    i as int,
                ) && !inflight@.contains(i)) by {
                    if i == k {
                        if r@.contains(i) {
                            assert(lo <= i < k);
                        }
                    }
                }
            }
        }
        k += 1;
    }
    r
}

/// The start of the next batch to prefetch, when the look-ahead rule fires:
/// the cursor has crossed the midpoint of its batch, the next batch's first
/// index is still inside the catalog, and that index is not already cached.
pub fn lookahead_start(cursor: usize, n: usize, batch: usize, cache: &WindowCache) -> (r: Option<
    usize,
>)
    requires
        batch >= 1,
        cursor < n,
    ensures
        match r {
            Some(start) => lookahead_trigger(cursor as int, batch as int) && start as int
                == next_batch_start(cursor as int, batch as int) && start < n
                && !cache@.contains_key(start as int) && cursor < start,
            None => !(lookahead_trigger(cursor as int, batch as int) && next_batch_start(
                cursor as int,
                batch as int,
            ) < n && !cache@.contains_key(next_batch_start(cursor as int, batch as int))),
        },
{
    let pos = cursor % batch;
    if pos >= batch / 2 {
        let q = cursor / batch;
        proof {
            vstd::arithmetic::div_mod::lemma_fundamental_div_mod(cursor as int, batch as int);
            assert(q * batch <= cursor) by (nonlinear_arith)
                requires
                    q == cursor as int / batch as int,
                    batch >= 1,
                    cursor >= 0,
                    cursor as int == batch as int * (cursor as int / batch as int) + cursor as int
                        % batch as int,
                    cursor as int % batch as int >= 0,
            ;
        }
        let base = q * batch;
        proof {
            assert((q + 1) * batch == base + batch) by (nonlinear_arith)
                requires
                    base == q * batch,
            ;
        }
        if batch < n - base {
            let start = base + batch;
            if !cache.contains(start) {
                proof {
                    assert(cursor < start) by (nonlinear_arith)
                        requires
                            base == q * batch,
                            q == cursor as int / batch as int,
                            batch >= 1,
                            cursor >= 0,
                            cursor as int == batch as int * q + cursor as int % batch as int,
                            (cursor as int % batch as int) < batch as int,
                            start == base + batch,
                    ;
                }
                return Some(start);
            }
        }
    }
    None
}

} // verus!
