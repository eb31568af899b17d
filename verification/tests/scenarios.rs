//! End-to-end scenarios: a small catalog driven through load, navigation,
//! deletion, and decode completions (including failures), checking the cache
//! and cursor at each settled point.

use photo_selector::entry::{CacheEntry, DecodeOutcome, PixelBuffer};
use photo_selector::selector::{DecodeRequest, PhotoSelector};

fn ready_entry(identifier: &str) -> CacheEntry {
    let pixels = PixelBuffer::new(1, 1, vec![0, 0, 0, 255]);
    CacheEntry::ready(identifier.to_string(), pixels, String::new())
}

fn catalog(names: &[&str]) -> Vec<String> {
    names.iter().map(|n| n.to_string()).collect()
}

fn indices(d: &[DecodeRequest]) -> Vec<usize> {
    d.iter().map(|r| r.index).collect()
}

/// Settles every outstanding decode with a ready entry, returning how many
/// completed.
fn settle(s: &mut PhotoSelector, pending: &mut Vec<DecodeRequest>) -> usize {
    let mut done = 0;
    while let Some(req) = pending.pop() {
        s.decode_completed(req.index, ready_entry(&req.identifier));
        done += 1;
    }
    done
}

#[test]
fn scenario_initial_batch_of_two() {
    // Catalog of 3, batch size 2: the initial dispatch set is {0, 1}; after
    // both complete, the cache holds exactly {0, 1} and the cursor is 0.
    let mut s = PhotoSelector::new(2);
    let mut pending = s.load_catalog(catalog(&["a.jpg", "b.jpg", "c.jpg"]));
    assert_eq!(indices(&pending), vec![0, 1]);
    settle(&mut s, &mut pending);
    assert!(s.inflight.is_empty());
    assert!(s.entry_at(0).is_some());
    assert!(s.entry_at(1).is_some());
    assert!(s.entry_at(2).is_none());
    assert_eq!(s.cursor_index(), 0);
}

#[test]
fn scenario_next_to_end_settles_window() {
    // Cursor moves 0 -> 1 -> 2 on a 3-item catalog; after settling at 2 the
    // cache window is {1, 2} and index 0 has been evicted.
    let mut s = PhotoSelector::new(10);
    let mut pending = s.load_catalog(catalog(&["a.jpg", "b.jpg", "c.jpg"]));
    settle(&mut s, &mut pending);
    let mut pending = s.next();
    settle(&mut s, &mut pending);
    assert_eq!(s.cursor_index(), 1);
    let mut pending = s.next();
    settle(&mut s, &mut pending);
    assert_eq!(s.cursor_index(), 2);
    assert!(s.inflight.is_empty());
    assert!(s.entry_at(0).is_none());
    assert!(s.entry_at(1).is_some());
    assert!(s.entry_at(2).is_some());
}

#[test]
fn scenario_delete_middle_reindexes() {
    // Deleting index 1 of a 3-item catalog while the cursor is at 1: the new
    // catalog has 2 items, the cursor stays at 1 (still valid), and the cache
    // is re-keyed with no entry under the old index 2.
    let mut s = PhotoSelector::new(10);
    let mut pending = s.load_catalog(catalog(&["a.jpg", "b.jpg", "c.jpg"]));
    settle(&mut s, &mut pending);
    let mut pending = s.next();
    settle(&mut s, &mut pending);
    assert_eq!(s.cursor_index(), 1);

    let req = s.request_delete(1).expect("index 1 exists");
    assert_eq!(req.index, 1);
    assert_eq!(req.identifier, "b.jpg");
    let mut pending = s.confirm_removed(1);
    assert_eq!(s.catalog_len(), 2);
    assert_eq!(s.cursor_index(), 1);
    assert_eq!(s.identifier_at(0), "a.jpg");
    assert_eq!(s.identifier_at(1), "c.jpg");
    // The entry decoded from c.jpg now sits at index 1; index 2 is stale and gone.
    assert!(s.entry_at(2).is_none());
    let shifted = s.entry_at(1).expect("re-keyed entry survives");
    assert_eq!(shifted.identifier, "c.jpg");
    settle(&mut s, &mut pending);
}

/// Settles outstanding decodes, failing the one at `bad` with a tombstone.
fn settle_with_failure(s: &mut PhotoSelector, pending: Vec<DecodeRequest>, bad: usize) {
    for req in pending {
        if req.index == bad {
            let tomb = CacheEntry::tombstone(req.identifier, "corrupt file".to_string());
            assert!(s.decode_completed(bad, tomb));
        } else {
            s.decode_completed(req.index, ready_entry(&req.identifier));
        }
    }
}

#[test]
fn scenario_failed_decode_leaves_tombstone() {
    // The decode of index 5 fails (corrupt file): the cache holds a tombstone
    // at 5, and while it is resident, cursor visits to 5 and its neighborhood
    // never dispatch another decode task for it.
    let names: Vec<String> = (0..7).map(|i| format!("{i}.jpg")).collect();
    let mut s = PhotoSelector::new(2);
    let pending = s.load_catalog(names);
    assert_eq!(indices(&pending), vec![0, 1]);
    settle_with_failure(&mut s, pending, 5);
    // Walk towards 5; the look-ahead at cursor 3 dispatches {4, 5} and the
    // decode of 5 fails.
    for _ in 0..3 {
        let pending = s.next();
        settle_with_failure(&mut s, pending, 5);
    }
    assert_eq!(s.cursor_index(), 3);
    let tomb = s.entry_at(5).expect("tombstone is resident");
    assert!(tomb.pixels.is_none());
    match &tomb.outcome {
        DecodeOutcome::Failed { reason } => assert_eq!(reason, "corrupt file"),
        DecodeOutcome::Ready => panic!("expected a failure tombstone"),
    }
    // Visit 5 repeatedly (4 -> 5 -> 6 -> 5 -> 4 -> 5): no dispatch names 5.
    for _ in 0..2 {
        let d = s.next();
        assert!(d.iter().all(|r| r.index != 5));
        settle_with_failure(&mut s, d, 5);
    }
    assert_eq!(s.cursor_index(), 5);
    let d = s.next();
    assert!(d.iter().all(|r| r.index != 5));
    settle_with_failure(&mut s, d, 5);
    for _ in 0..2 {
        let d = s.previous();
        assert!(d.iter().all(|r| r.index != 5));
        settle_with_failure(&mut s, d, 5);
    }
    assert_eq!(s.cursor_index(), 4);
    let d = s.next();
    assert!(d.iter().all(|r| r.index != 5));
    assert_eq!(s.cursor_index(), 5);
    assert!(s.entry_at(5).expect("tombstone still resident").pixels.is_none());
}
