//! The library's global guarantees, stated and proved over the orchestrator's
//! contracts: the settled window invariant, freedom from duplicate dispatch,
//! cursor clamping, and the tombstone rule that a failed index is never
//! re-requested.

use vstd::prelude::*;
use crate::entry::CacheEntry;
use crate::selector::{
    completed_post, next_post, previous_post, req_indices, select_post, DecodeRequest,
    PhotoSelector,
};

verus! {

/// One navigation operation: next, previous, or select-and-advance, relating
/// the state before, the state after, and the decode orders it returned.
pub open spec fn navigation_step(
    pre: PhotoSelector,
    post: PhotoSelector,
    d: Seq<DecodeRequest>,
) -> bool {
    ||| next_post(pre, post, d)
    ||| previous_post(pre, post, d)
    ||| select_post(pre, post, d)
}

/// Window invariant: once all in-flight decodes have drained, the cache holds
/// an entry (decoded pixels or a failure tombstone) for exactly the indices of
/// the current retention window — nothing outside it stays resident, and
/// nothing inside it is missing.
pub proof fn lemma_settled_window_exact(s: PhotoSelector)
    requires
        s.wf(),
        forall|i: usize| !(#[trigger] s.inflight@.contains(i)),
    ensures
        forall|k: int| #[trigger] s.cache@.contains_key(k) <==> s.retained(k),
{
    assert forall|k: int| s.retained(k) implies #[trigger] s.cache@.contains_key(k) by {
        if !s.cache@.contains_key(k) {
            assert(s.inflight@.contains(k as usize));
        }
    }
}

/// No duplicate dispatch: an index dispatched by one navigation step is still
/// in flight at the next, so the next step never dispatches it again — for
/// any index, at most one decode task runs at a time.
pub proof fn lemma_no_duplicate_dispatch(
    s0: PhotoSelector,
    s1: PhotoSelector,
    s2: PhotoSelector,
    d1: Seq<DecodeRequest>,
    d2: Seq<DecodeRequest>,
    i: usize,
)
    requires
        navigation_step(s0, s1, d1),
        navigation_step(s1, s2, d2),
        req_indices(d1).contains(i),
    ensures
        !req_indices(d2).contains(i),
{
    assert(s1.inflight@.contains(i));
}

/// Cursor clamp: in a well-formed state with a non-empty catalog, the cursor
/// lies inside the catalog bounds. Together with the no-op clauses of
/// `next_post` and `previous_post` (navigation past either end changes
/// nothing), the cursor stays in `[0, N-1]` under any sequence of operations.
pub proof fn lemma_cursor_in_bounds(s: PhotoSelector)
    requires
        s.wf(),
        s.n() > 0,
    ensures
        0 <= s.cursor < s.n(),
{
}

/// Tombstone idempotence: an index that already holds a cache entry — a
/// decoded image or a failure tombstone alike — is never dispatched again by
/// a navigation step, so a permanently unreadable file is decoded at most
/// once.
pub proof fn lemma_cached_never_redispatched(
    pre: PhotoSelector,
    post: PhotoSelector,
    d: Seq<DecodeRequest>,
    i: usize,
)
    requires
        navigation_step(pre, post, d),
        pre.cache@.contains_key(i as int),
    ensures
        !req_indices(d).contains(i),
{
}

/// A failed decode settles as a tombstone: once the failure's completion is
/// accepted (which requires its index to still be inside the retention window
/// when it arrives), the cache records the failure at that index, and a
/// navigation step from that state dispatches no new decode task for it.
pub proof fn lemma_failed_decode_settles(
    pre: PhotoSelector,
    mid: PhotoSelector,
    post: PhotoSelector,
    index: usize,
    entry: CacheEntry,
    d: Seq<DecodeRequest>,
)
    requires
        completed_post(pre, mid, index, entry, true),
        entry.outcome is Failed,
        navigation_step(mid, post, d),
    ensures
        mid.cache@.contains_key(index as int),
        mid.cache@[index as int].outcome is Failed,
        !req_indices(d).contains(index),
{
    assert(mid.cache@ == pre.cache@.insert(index as int, entry));
    lemma_cached_never_redispatched(mid, post, d, index);
}

} // verus!
