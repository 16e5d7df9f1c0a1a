use storage_core::buffer::replacer::lru_k_replacer::LruKReplacer;
use storage_core::buffer::replacer::replacer::Replacer;

#[test]
fn no_victim() {
    let mut replacer = LruKReplacer::new(2);

    assert_eq!(replacer.evict(), None);
}

#[test]
fn evictable_frame_is_the_victim() {
    let mut replacer = LruKReplacer::new(2);
    replacer.record_access(1);
    replacer.set_evictable(1, true);
    assert_eq!(replacer.evict(), Some(1));
    assert_eq!(replacer.evict(), None);
}

#[test]
fn non_evictable_frames_are_never_victims() {
    let mut replacer = LruKReplacer::new(2);
    replacer.record_access(1);
    replacer.record_access(2);
    replacer.record_access(2);
    replacer.record_access(3);
    replacer.set_evictable(1, false);
    replacer.set_evictable(2, false);
    replacer.set_evictable(3, false);
    assert_eq!(replacer.evict(), None);
    replacer.set_evictable(2, true);
    assert_eq!(replacer.evict(), Some(2));
    assert_eq!(replacer.evict(), None);
}

#[test]
fn short_history_goes_before_full_history() {
    let (a, b, c) = (10, 20, 30);
    let mut replacer = LruKReplacer::new(2);
    for frame in [a, b, a, b, a] {
        replacer.record_access(frame);
    }
    replacer.record_access(c);
    replacer.set_evictable(a, true);
    replacer.set_evictable(b, true);
    replacer.set_evictable(c, true);
    assert_eq!(replacer.evict(), Some(c));
    // b's two kept accesses are at times 1 and 3, a's at 2 and 4.
    assert_eq!(replacer.evict(), Some(b));
    assert_eq!(replacer.evict(), Some(a));
    assert_eq!(replacer.evict(), None);
}

#[test]
fn of_two_short_histories_the_older_goes_first() {
    let mut replacer = LruKReplacer::new(3);
    replacer.record_access(5);
    replacer.record_access(4);
    replacer.record_access(4);
    assert_eq!(replacer.evict(), Some(5));
    assert_eq!(replacer.evict(), Some(4));
}

#[test]
fn full_histories_go_by_their_oldest_kept_access() {
    let mut replacer = LruKReplacer::new(2);
    // Frame 1 at times 0, 1, 4; frame 2 at times 2, 3.
    for frame in [1, 1, 2, 2, 1] {
        replacer.record_access(frame);
    }
    // Frame 1 keeps 1 and 4, frame 2 keeps 2 and 3: distances 4 and 3.
    assert_eq!(replacer.evict(), Some(1));
    assert_eq!(replacer.evict(), Some(2));
}

#[test]
fn eviction_consumes_history() {
    let mut replacer = LruKReplacer::new(2);
    for frame in [1, 2, 1, 2] {
        replacer.record_access(frame);
    }
    assert_eq!(replacer.evict(), Some(1));
    // With its old history frame 1 would now rank behind frame 2.
    replacer.record_access(1);
    assert_eq!(replacer.evict(), Some(1));
    assert_eq!(replacer.evict(), Some(2));
}

#[test]
fn history_keeps_only_the_last_k_accesses() {
    let mut replacer = LruKReplacer::new(1);
    replacer.record_access(1);
    replacer.record_access(2);
    replacer.record_access(1);
    // Frame 1 keeps time 2 only, frame 2 keeps time 1.
    assert_eq!(replacer.evict(), Some(2));
    assert_eq!(replacer.evict(), Some(1));
}

#[test]
fn eviction_clears_the_non_evictable_mark_only_of_the_victim() {
    let mut replacer = LruKReplacer::new(2);
    replacer.record_access(1);
    replacer.record_access(2);
    replacer.set_evictable(2, false);
    assert_eq!(replacer.evict(), Some(1));
    assert_eq!(replacer.evict(), None);
    replacer.record_access(1);
    assert_eq!(replacer.evict(), Some(1));
}
