use image_viewer::coordinator::{LoadCoordinator, LoadOutcome};
use image_viewer::cache::CacheStore;
use image_viewer::entry::{DisplayState, LoadedImage};
use image_viewer::viewer::ViewerCore;

fn loaded_image() -> LoadedImage {
    LoadedImage { pixels: vec![0u8; 4], width: 1, height: 1 }
}

#[test]
fn duplicate_ensure_loaded_spawns_once() {
    let cache = CacheStore::new(10, 5);
    let mut coord = LoadCoordinator::new();
    // the first request for a path spawns its one decode
    assert!(coord.ensure_loaded(&cache, 7));
    // duplicates before completion spawn nothing
    assert!(!coord.ensure_loaded(&cache, 7));
    assert!(!coord.ensure_loaded(&cache, 7));
    // another path gets its own decode
    assert!(coord.ensure_loaded(&cache, 8));
}

#[test]
fn completion_commits_and_clears_in_flight() {
    let mut cache = CacheStore::new(10, 5);
    let mut coord = LoadCoordinator::new();
    assert!(coord.ensure_loaded(&cache, 7));
    assert!(coord.is_in_flight(7));
    coord.complete(&mut cache, 7, LoadOutcome::Completed(loaded_image()));
    assert!(!coord.is_in_flight(7));
    assert!(cache.contains(7));
    // once resident, a new request spawns nothing
    assert!(!coord.ensure_loaded(&cache, 7));
}

#[test]
fn failure_clears_in_flight_without_commit() {
    let mut cache = CacheStore::new(10, 5);
    let mut coord = LoadCoordinator::new();
    assert!(coord.ensure_loaded(&cache, 7));
    coord.complete(&mut cache, 7, LoadOutcome::Failed);
    assert!(!coord.is_in_flight(7));
    assert!(!cache.contains(7));
    // the path is loadable again after a failure
    assert!(coord.ensure_loaded(&cache, 7));
}

#[test]
fn completed_after_cancel_still_commits() {
    let mut cache = CacheStore::new(10, 5);
    let mut coord = LoadCoordinator::new();
    assert!(coord.ensure_loaded(&cache, 7));
    assert!(coord.cancel(7));
    // the task had already finished: its late commit is benign and kept
    coord.complete(&mut cache, 7, LoadOutcome::Completed(loaded_image()));
    assert!(cache.contains(7));
}

#[test]
fn next_wraps_from_last_to_first() {
    let mut v = ViewerCore::new(vec![10, 11, 12], 100, 80);
    assert_eq!(v.snapshot_index(), 0);
    v.next();
    assert_eq!(v.snapshot_index(), 1);
    v.next();
    assert_eq!(v.snapshot_index(), 2);
    v.next();
    assert_eq!(v.snapshot_index(), 0);
}

#[test]
fn prev_wraps_from_first_to_last() {
    let mut v = ViewerCore::new(vec![10, 11, 12], 100, 80);
    v.prev();
    assert_eq!(v.snapshot_index(), 2);
    v.prev();
    assert_eq!(v.snapshot_index(), 1);
}

#[test]
fn navigation_on_empty_list_is_a_no_op() {
    let mut v = ViewerCore::new(Vec::new(), 100, 80);
    let eff = v.next();
    assert!(eff.cancel.is_none());
    assert!(eff.spawn.is_empty());
    let eff = v.prev();
    assert!(eff.cancel.is_none());
    assert!(eff.spawn.is_empty());
}

#[test]
fn navigation_spawns_current_and_window() {
    let mut v = ViewerCore::new(vec![0, 1, 2, 3, 4, 5, 6, 7, 8, 9], 100, 80);
    let spawns = v.refresh_current();
    // current path 0, five ahead (1..=5), three behind (7, 8, 9)
    let mut got = spawns.clone();
    got.sort();
    assert_eq!(got, vec![0, 1, 2, 3, 4, 5, 7, 8, 9]);
    // everything is now in flight: a navigation step re-spawns only the
    // outgoing path it cancelled and the newly uncovered window member
    let eff = v.next();
    assert_eq!(eff.cancel, Some(0));
    let mut got = eff.spawn.clone();
    got.sort();
    assert_eq!(got, vec![0, 6]);
}

#[test]
fn delete_current_selects_following_image() {
    // Given list [A,B,C] with current index 1 (B): deleting B yields [A,C],
    // index 1 (now C)
    let mut v = ViewerCore::new(vec![100, 101, 102], 10, 5);
    v.next();
    assert_eq!(v.snapshot_index(), 1);
    v.request_delete(0);
    let armed = v.request_delete(500);
    assert!(armed);
    let _eff = v.confirm_delete();
    assert_eq!(v.snapshot_images(), vec![100, 102]);
    assert_eq!(v.snapshot_index(), 1);
}

#[test]
fn delete_before_current_shifts_index_down() {
    // deleting A while current index is 1 (B) yields [B,C], index 0:
    // the deletion of A is armed at A, then a navigation step moves on to B
    // before the confirmation lands
    let mut v = ViewerCore::new(vec![100, 101, 102], 10, 5);
    v.request_delete(0);
    assert!(v.request_delete(1));
    v.next();
    assert_eq!(v.snapshot_index(), 1);
    let _eff = v.confirm_delete();
    assert_eq!(v.snapshot_images(), vec![101, 102]);
    assert_eq!(v.snapshot_index(), 0);
}

#[test]
fn delete_last_image_empties_state() {
    let mut v = ViewerCore::new(vec![100], 10, 5);
    v.request_delete(0);
    assert!(v.request_delete(10));
    let eff = v.confirm_delete();
    assert!(v.snapshot_images().is_empty());
    assert_eq!(v.snapshot_index(), 0);
    assert!(eff.spawn.is_empty());
    match v.current_display_state() {
        DisplayState::Empty => {},
        _ => panic!("expected an empty display"),
    }
}

#[test]
fn two_presses_within_window_arm_confirmation() {
    let mut v = ViewerCore::new(vec![100, 101], 10, 5);
    assert!(!v.request_delete(1000));
    assert!(v.request_delete(1999));
}

#[test]
fn lone_press_never_arms_confirmation() {
    let mut v = ViewerCore::new(vec![100, 101], 10, 5);
    assert!(!v.request_delete(0));
    // the window elapses with no second press
    v.tick(2000);
    // a later press is a fresh first press again
    assert!(!v.request_delete(3000));
}

#[test]
fn presses_spaced_beyond_window_never_arm() {
    let mut v = ViewerCore::new(vec![100, 101], 10, 5);
    assert!(!v.request_delete(0));
    assert!(!v.request_delete(1000));
    // the stale press disarmed the protocol: the next pair must be fresh
    assert!(!v.request_delete(1100));
    assert!(v.request_delete(1200));
}

#[test]
fn display_state_reports_loading_and_loaded() {
    let mut v = ViewerCore::new(vec![7], 10, 5);
    match v.current_display_state() {
        DisplayState::Empty => {},
        _ => panic!("nothing is in flight yet"),
    }
    let spawns = v.refresh_current();
    assert_eq!(spawns, vec![7]);
    match v.current_display_state() {
        DisplayState::Loading => {},
        _ => panic!("the decode is in flight"),
    }
    v.complete_load(7, LoadOutcome::Completed(LoadedImage {
        pixels: vec![0u8; 4 * 6 * 3],
        width: 6,
        height: 3,
    }));
    match v.current_display_state() {
        DisplayState::Loaded { entry, display_width, display_height } => {
            assert_eq!(entry.width, 6);
            assert_eq!(entry.height, 3);
            assert_eq!(display_width, 6);
            assert_eq!(display_height, 3);
        },
        _ => panic!("the image is resident"),
    }
    // a rotation swaps the on-screen dimensions
    v.rotate();
    match v.current_display_state() {
        DisplayState::Loaded { display_width, display_height, .. } => {
            assert_eq!(display_width, 3);
            assert_eq!(display_height, 6);
        },
        _ => panic!("the image is still resident"),
    }
}
