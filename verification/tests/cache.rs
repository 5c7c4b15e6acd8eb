use pic_core::limits::ResourceLimits;
use pic_core::project::cache::{
    can_serialize, checkpoint_usable, layered_prefixes, replay_batches, snapshot_read_limit, DerivedKind,
    ImageSize, MemoryCache,
};

#[test]
fn memory_cache_returns_what_was_put_and_evicts_oldest_first() {
    let mut cache: MemoryCache<u32> = MemoryCache::new();
    assert!(cache.put(DerivedKind::Checkpoint, "a".into(), 1, 40, 100));
    assert!(cache.put(DerivedKind::Checkpoint, "b".into(), 2, 40, 100));
    assert_eq!(cache.retained_bytes(), 80);
    assert_eq!(cache.get(DerivedKind::Checkpoint, "a"), Some(1));
    // "a" was used last, so "b" is the oldest and goes first.
    assert!(cache.put(DerivedKind::Preview, "c".into(), 3, 40, 100));
    assert_eq!(cache.get(DerivedKind::Checkpoint, "b"), None);
    assert_eq!(cache.get(DerivedKind::Checkpoint, "a"), Some(1));
    assert_eq!(cache.get(DerivedKind::Preview, "c"), Some(3));
    assert_eq!(cache.get(DerivedKind::Checkpoint, "c"), None);
    assert_eq!(cache.retained_bytes(), 80);
    assert!(!cache.put(DerivedKind::Preview, "huge".into(), 9, 101, 100));
    assert_eq!(cache.retained_bytes(), 80);
    assert!(cache.put(DerivedKind::Checkpoint, "a".into(), 5, 10, 100));
    assert_eq!(cache.get(DerivedKind::Checkpoint, "a"), Some(5));
    assert_eq!(cache.retained_bytes(), 50);
    cache.trim(0);
    assert_eq!(cache.retained_bytes(), 0);
    assert_eq!(cache.get(DerivedKind::Preview, "c"), None);
}

#[test]
fn snapshot_budgets_follow_the_smallest_limit() {
    let limits = ResourceLimits::default();
    assert_eq!(snapshot_read_limit(&limits), 128 * 1024 * 1024);
    let disk = ResourceLimits { max_cache_disk_bytes: 1000, ..ResourceLimits::default() };
    assert_eq!(snapshot_read_limit(&disk), 1000);
    assert!(can_serialize(1000, &disk));
    assert!(!can_serialize(1001, &disk));
    let memory = ResourceLimits { max_cache_memory_bytes: 1000, ..ResourceLimits::default() };
    assert!(can_serialize(500, &memory));
    assert!(!can_serialize(501, &memory));
}

#[test]
fn checkpoints_resume_only_complete_canvases_of_the_same_shape() {
    let size = ImageSize { width: 4, height: 3 };
    assert!(checkpoint_usable(size, size, false, false, false));
    assert!(checkpoint_usable(size, size, true, true, false));
    assert!(!checkpoint_usable(size, ImageSize { width: 2, height: 3 }, false, false, false));
    assert!(!checkpoint_usable(size, size, false, true, false));
    assert!(!checkpoint_usable(size, size, false, false, true));
    assert_eq!(layered_prefixes(&vec![false, true, false]), vec![false, false, true, true]);
    assert_eq!(layered_prefixes(&vec![]), vec![false]);
}

#[test]
fn replay_runs_the_remaining_steps_in_bounded_batches() {
    assert_eq!(replay_batches(2, 9, 3), vec![(2, 5), (5, 8), (8, 9)]);
    assert_eq!(replay_batches(0, 2, 0), vec![(0, 1), (1, 2)]);
    assert_eq!(replay_batches(4, 4, 3), vec![]);
    assert_eq!(replay_batches(0, 6, 10), vec![(0, 6)]);
}
