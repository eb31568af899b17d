//! Behavior of the orchestrator's single operations: cursor clamping at both
//! ends, duplicate-dispatch prevention, stale-completion discarding, selection
//! marks, deletion edge cases, and the intent-based transition function.

use photo_selector::entry::{CacheEntry, PixelBuffer};
use photo_selector::selector::{DecodeRequest, Intent, PhotoSelector};

fn ready_entry(identifier: &str) -> CacheEntry {
    let pixels = PixelBuffer::new(2, 1, vec![9, 9, 9, 255, 1, 2, 3, 255]);
    CacheEntry::ready(identifier.to_string(), pixels, "ISO: 100\n".to_string())
}

fn catalog(names: &[&str]) -> Vec<String> {
    names.iter().map(|n| n.to_string()).collect()
}

fn settle(s: &mut PhotoSelector, pending: Vec<DecodeRequest>) {
    for req in pending {
        s.decode_completed(req.index, ready_entry(&req.identifier));
    }
}

#[test]
fn next_at_last_index_is_noop() {
    let mut s = PhotoSelector::new(10);
    let pending = s.load_catalog(catalog(&["a.jpg", "b.jpg"]));
    settle(&mut s, pending);
    let pending = s.next();
    settle(&mut s, pending);
    assert_eq!(s.cursor_index(), 1);
    let d = s.next();
    assert!(d.is_empty());
    assert_eq!(s.cursor_index(), 1);
}

#[test]
fn previous_at_first_index_is_noop() {
    let mut s = PhotoSelector::new(10);
    let pending = s.load_catalog(catalog(&["a.jpg", "b.jpg"]));
    settle(&mut s, pending);
    let d = s.previous();
    assert!(d.is_empty());
    assert_eq!(s.cursor_index(), 0);
}

#[test]
fn navigation_on_empty_catalog_is_noop() {
    let mut s = PhotoSelector::new(10);
    assert!(s.next().is_empty());
    assert!(s.previous().is_empty());
    assert!(s.select_and_advance().is_empty());
    assert!(s.request_delete(0).is_none());
    assert_eq!(s.catalog_len(), 0);
}

#[test]
fn inflight_index_is_not_redispatched() {
    // Without completing anything, moving back and forth never dispatches an
    // index twice: the first move's dispatches are all still in flight.
    let mut s = PhotoSelector::new(2);
    let first = s.load_catalog(catalog(&["a.jpg", "b.jpg", "c.jpg", "d.jpg"]));
    let first_indices: Vec<usize> = first.iter().map(|r| r.index).collect();
    assert_eq!(first_indices, vec![0, 1]);
    let second = s.next();
    for req in &second {
        assert!(!first_indices.contains(&req.index));
    }
    let third = s.previous();
    for req in &third {
        assert!(!first_indices.contains(&req.index));
        assert!(second.iter().all(|r| r.index != req.index));
    }
}

#[test]
fn stale_completion_is_discarded() {
    // A result for an index that has left the retention window is dropped.
    let mut s = PhotoSelector::new(2);
    let pending = s.load_catalog(catalog(&["a.jpg", "b.jpg", "c.jpg", "d.jpg", "e.jpg"]));
    settle(&mut s, pending);
    // Window is [0, 1]; a completion for 4 was never dispatched: discarded.
    assert!(!s.decode_completed(4, ready_entry("e.jpg")));
    assert!(s.entry_at(4).is_none());
}

#[test]
fn mismatched_completion_leaves_task_pending() {
    // A completion whose entry was decoded from another identifier does not
    // consume the in-flight record; the genuine task's result still lands.
    let mut s = PhotoSelector::new(2);
    let _ = s.load_catalog(catalog(&["a.jpg", "b.jpg"]));
    assert!(!s.decode_completed(0, ready_entry("other.jpg")));
    assert!(s.entry_at(0).is_none());
    assert!(s.decode_completed(0, ready_entry("a.jpg")));
    assert_eq!(s.entry_at(0).expect("genuine result lands").identifier, "a.jpg");
}

#[test]
fn stale_task_after_deletion_cannot_poison_cache() {
    // Index 1 is in flight for b.jpg; deleting index 1 re-indexes c.jpg to 1
    // and dispatches a fresh task for it. The leftover task's result for b.jpg
    // arrives first, tagged 1: it must be ignored, and the fresh result for
    // c.jpg accepted afterwards.
    let mut s = PhotoSelector::new(10);
    let pending = s.load_catalog(catalog(&["a.jpg", "b.jpg", "c.jpg"]));
    let stale = pending.iter().find(|r| r.index == 1).expect("1 dispatched");
    let stale_identifier = stale.identifier.clone();
    assert_eq!(stale_identifier, "b.jpg");
    // Only a.jpg completes before the deletion.
    assert!(s.decode_completed(0, ready_entry("a.jpg")));
    let fresh = s.confirm_removed(1);
    assert_eq!(s.identifier_at(1), "c.jpg");
    assert!(fresh.iter().any(|r| r.index == 1 && r.identifier == "c.jpg"));
    // The stale completion is ignored and keeps nothing under index 1.
    assert!(!s.decode_completed(1, ready_entry(&stale_identifier)));
    assert!(s.entry_at(1).is_none());
    // The fresh completion is the one that lands.
    assert!(s.decode_completed(1, ready_entry("c.jpg")));
    assert_eq!(s.entry_at(1).expect("fresh result lands").identifier, "c.jpg");
}

#[test]
fn completion_for_unknown_index_is_discarded() {
    let mut s = PhotoSelector::new(2);
    let _ = s.load_catalog(catalog(&["a.jpg"]));
    assert!(!s.decode_completed(9, ready_entry("ghost.jpg")));
    assert!(s.entry_at(9).is_none());
}

#[test]
fn select_requires_decoded_entry() {
    let mut s = PhotoSelector::new(10);
    let pending = s.load_catalog(catalog(&["a.jpg", "b.jpg"]));
    // Nothing decoded yet: selecting does nothing.
    let d = s.select_and_advance();
    assert!(d.is_empty());
    assert_eq!(s.cursor_index(), 0);
    assert!(s.selected_identifiers().is_empty());
    settle(&mut s, pending);
    // Now the current item is decoded: it is marked and the cursor advances.
    let _ = s.select_and_advance();
    assert_eq!(s.selected_identifiers(), &vec!["a.jpg".to_string()]);
    assert_eq!(s.cursor_index(), 1);
}

#[test]
fn select_at_last_index_marks_without_advancing() {
    let mut s = PhotoSelector::new(10);
    let pending = s.load_catalog(catalog(&["a.jpg"]));
    settle(&mut s, pending);
    let d = s.select_and_advance();
    assert!(d.is_empty());
    assert_eq!(s.cursor_index(), 0);
    assert_eq!(s.selected_identifiers(), &vec!["a.jpg".to_string()]);
    // Selecting the same item again does not duplicate the mark.
    let _ = s.select_and_advance();
    assert_eq!(s.selected_identifiers().len(), 1);
}

#[test]
fn delete_last_item_empties_catalog() {
    let mut s = PhotoSelector::new(10);
    let pending = s.load_catalog(catalog(&["a.jpg"]));
    settle(&mut s, pending);
    let req = s.request_delete(0).expect("item exists");
    assert_eq!(req.identifier, "a.jpg");
    let d = s.confirm_removed(0);
    assert!(d.is_empty());
    assert_eq!(s.catalog_len(), 0);
    assert!(s.current_entry().is_none());
}

#[test]
fn delete_before_cursor_keeps_position_value() {
    // Deleting below the cursor leaves the cursor value unchanged: it now
    // shows the item that followed the one it was on.
    let mut s = PhotoSelector::new(10);
    let pending = s.load_catalog(catalog(&["a.jpg", "b.jpg", "c.jpg"]));
    settle(&mut s, pending);
    let pending = s.next();
    settle(&mut s, pending);
    assert_eq!(s.cursor_index(), 1);
    let _ = s.confirm_removed(0);
    assert_eq!(s.cursor_index(), 1);
    assert_eq!(s.identifier_at(0), "b.jpg");
    assert_eq!(s.identifier_at(1), "c.jpg");
}

#[test]
fn delete_at_end_clamps_cursor() {
    let mut s = PhotoSelector::new(10);
    let pending = s.load_catalog(catalog(&["a.jpg", "b.jpg", "c.jpg"]));
    settle(&mut s, pending);
    let pending = s.next();
    settle(&mut s, pending);
    let pending = s.next();
    settle(&mut s, pending);
    assert_eq!(s.cursor_index(), 2);
    let _ = s.confirm_removed(2);
    assert_eq!(s.catalog_len(), 2);
    assert_eq!(s.cursor_index(), 1);
}

#[test]
fn delete_of_missing_index_is_noop() {
    let mut s = PhotoSelector::new(10);
    let pending = s.load_catalog(catalog(&["a.jpg"]));
    settle(&mut s, pending);
    assert!(s.request_delete(3).is_none());
    let d = s.confirm_removed(3);
    assert!(d.is_empty());
    assert_eq!(s.catalog_len(), 1);
}

#[test]
fn lookahead_prefetches_next_batch() {
    // Batch size 2: advancing to index 1 crosses the batch midpoint, so the
    // window extends through the next batch and its indices are dispatched.
    let mut s = PhotoSelector::new(2);
    let pending = s.load_catalog(catalog(&["a.jpg", "b.jpg", "c.jpg", "d.jpg", "e.jpg"]));
    settle(&mut s, pending);
    let d = s.next();
    let idx: Vec<usize> = d.iter().map(|r| r.index).collect();
    assert_eq!(idx, vec![2, 3]);
    let (lo, hi) = s.window_bounds();
    assert_eq!((lo, hi), (0, 3));
}

#[test]
fn update_routes_intents() {
    let mut s = PhotoSelector::new(2);
    let (d, del) = s.update(Intent::CatalogLoaded {
        identifiers: catalog(&["a.jpg", "b.jpg", "c.jpg"]),
    });
    assert!(del.is_none());
    assert_eq!(d.len(), 2);
    for req in d {
        let entry = ready_entry(&req.identifier);
        let (dd, del) = s.update(Intent::DecodeCompleted { index: req.index, entry });
        assert!(dd.is_empty() && del.is_none());
    }
    let (_, del) = s.update(Intent::Next);
    assert!(del.is_none());
    assert_eq!(s.cursor_index(), 1);
    let (d, del) = s.update(Intent::DeleteAt { index: 1 });
    assert!(d.is_empty());
    let del = del.expect("delete order for a valid index");
    assert_eq!(del.identifier, "b.jpg");
    let (_, _) = s.update(Intent::FileRemoved { index: 1 });
    assert_eq!(s.catalog_len(), 2);
    let (_, del) = s.update(Intent::Previous);
    assert!(del.is_none());
    assert_eq!(s.cursor_index(), 0);
    let (_, del) = s.update(Intent::SelectAndAdvance);
    assert!(del.is_none());
}
