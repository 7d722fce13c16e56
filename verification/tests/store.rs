use fscache::{BaseFsCache, DiskImage, FsCacheErrorKind, SaveOutcome};

fn key(s: &str) -> String {
    s.to_string()
}

fn open_empty(threshold: u32, path: &str) -> BaseFsCache {
    BaseFsCache::new(threshold, key(path), DiskImage::Missing).unwrap()
}

#[test]
fn absent_file_yields_empty_store() {
    let cache = open_empty(1, "/tmp/cache-dir/cache.bin");
    assert_eq!(cache.len(), 0);
    assert!(cache.keys().is_empty());
    assert!(!cache.contains_key(&key("/bin/ls")));
}

#[test]
fn unreadable_file_is_an_io_error() {
    let r = BaseFsCache::new(1, key("cache.bin"), DiskImage::Unreadable(key("boom")));
    match r {
        Err(FsCacheErrorKind::CacheFileIoError { src, path }) => {
            assert_eq!(src, "boom");
            assert_eq!(path, "cache.bin");
        }
        other => panic!("expected CacheFileIoError, got {:?}", other.map(|_| ())),
    }
}

#[test]
fn corrupt_bytes_yield_deserialization_error() {
    let r = BaseFsCache::new(1, key("cache.bin"), DiskImage::Present(vec![0xff, 0xee, 0xdd]));
    match r {
        Err(FsCacheErrorKind::DeserializationError { path, .. }) => {
            assert_eq!(path, "cache.bin");
        }
        other => panic!("expected DeserializationError, got {:?}", other.map(|_| ())),
    }
}

#[test]
fn round_trip_after_mutations() {
    let mut cache = open_empty(100, "snap.bin");
    cache.insert(key("/a"), 1).unwrap();
    cache.insert(key("/b"), 2).unwrap();
    cache.insert(key("/c"), 3).unwrap();
    cache.remove(&key("/b")).unwrap();
    let plan = cache.save().unwrap().expect("mutations exist, a plan is owed");
    assert_eq!(plan.target_path, "snap.bin");

    let reloaded = BaseFsCache::new(100, key("snap.bin"), DiskImage::Present(plan.bytes)).unwrap();
    assert_eq!(reloaded.len(), 2);
    assert_eq!(reloaded.get(&key("/a")).unwrap(), 1);
    assert_eq!(reloaded.get(&key("/c")).unwrap(), 3);
    assert_eq!(
        reloaded.get(&key("/b")),
        Err(FsCacheErrorKind::KeyMissingError(key("/b")))
    );
}

#[test]
fn crash_before_rename_preserves_target() {
    // A first store saves a snapshot; those bytes sit at the target path.
    let mut first = open_empty(100, "cache.bin");
    first.insert(key("/old"), 42).unwrap();
    let old_bytes = first.save().unwrap().unwrap().bytes;

    // A simulated directory: path -> contents.
    let mut disk: Vec<(String, Vec<u8>)> = vec![(key("cache.bin"), old_bytes)];

    // A second store prepares a new snapshot; the protocol writes the
    // temporary file first. The crash happens here, before the rename.
    let mut second = open_empty(100, "cache.bin");
    second.insert(key("/new"), 7).unwrap();
    let plan = second.save().unwrap().unwrap();
    assert_eq!(plan.temp_path, "cache.tmp");
    assert_ne!(plan.temp_path, plan.target_path);
    disk.push((plan.temp_path.clone(), plan.bytes.clone()));

    // The target's contents are untouched and load exactly as before.
    let target_bytes = disk
        .iter()
        .find(|(p, _)| p == "cache.bin")
        .map(|(_, b)| b.clone())
        .unwrap();
    let loaded =
        BaseFsCache::new(100, key("cache.bin"), DiskImage::Present(target_bytes)).unwrap();
    assert_eq!(loaded.len(), 1);
    assert_eq!(loaded.get(&key("/old")).unwrap(), 42);
    assert!(!loaded.contains_key(&key("/new")));
}

#[test]
fn threshold_fires_once_after_three_inserts() {
    let mut cache = open_empty(3, "cache.bin");
    assert!(cache.insert(key("/a"), 10).unwrap().is_none());
    assert!(cache.insert(key("/b"), 20).unwrap().is_none());
    let plan = cache
        .insert(key("/c"), 30)
        .unwrap()
        .expect("the third mutation crosses the threshold");

    // The counter is zero again: an explicit save now is a no-op.
    assert!(cache.save().unwrap().is_none());

    // The persisted snapshot holds exactly the three entries.
    let entries: Vec<(String, u64)> = bincode::deserialize(&plan.bytes).unwrap();
    assert_eq!(entries.len(), 3);
    assert!(entries.contains(&(key("/a"), 10)));
    assert!(entries.contains(&(key("/b"), 20)));
    assert!(entries.contains(&(key("/c"), 30)));
}

#[test]
fn end_to_end_restart() {
    let mut cache = open_empty(3, "f.bin");
    assert!(cache.insert(key("A"), 10).unwrap().is_none());
    assert!(cache.insert(key("B"), 20).unwrap().is_none());
    let plan = cache.insert(key("C"), 30).unwrap().expect("autosave fires");

    // A process restarted against the file the plan wrote finds B without
    // recomputation.
    let restarted = BaseFsCache::new(3, key("f.bin"), DiskImage::Present(plan.bytes)).unwrap();
    assert_eq!(restarted.get(&key("B")).unwrap(), 20);
    assert_eq!(restarted.len(), 3);
}

#[test]
fn missing_key_reported_with_its_path() {
    let mut cache = open_empty(10, "cache.bin");
    cache.insert(key("/present"), 1).unwrap();
    let before = cache.len();
    assert_eq!(
        cache.get(&key("/never")),
        Err(FsCacheErrorKind::KeyMissingError(key("/never")))
    );
    assert_eq!(cache.len(), before);

    cache.remove(&key("/present")).unwrap();
    assert_eq!(
        cache.get(&key("/present")),
        Err(FsCacheErrorKind::KeyMissingError(key("/present")))
    );
}

#[test]
fn explicit_save_does_not_reset_counter() {
    let mut cache = open_empty(5, "cache.bin");
    cache.insert(key("/a"), 1).unwrap();
    let first = cache.save().unwrap();
    assert!(first.is_some());
    // The counter was not reset: a second explicit save still produces a plan.
    let second = cache.save().unwrap();
    assert!(second.is_some());
    assert_eq!(first.unwrap().bytes, second.unwrap().bytes);
}

#[test]
fn remove_counts_toward_threshold() {
    let mut cache = open_empty(2, "cache.bin");
    assert!(cache.insert(key("/a"), 1).unwrap().is_none());
    let plan = cache
        .remove(&key("/a"))
        .unwrap()
        .expect("the removal is the second mutation");
    let loaded = BaseFsCache::new(2, key("cache.bin"), DiskImage::Present(plan.bytes)).unwrap();
    assert_eq!(loaded.len(), 0);
}

#[test]
fn removing_an_absent_key_is_not_an_error() {
    let mut cache = open_empty(10, "cache.bin");
    cache.insert(key("/a"), 1).unwrap();
    cache.remove(&key("/nope")).unwrap();
    assert_eq!(cache.len(), 1);
    assert_eq!(cache.get(&key("/a")).unwrap(), 1);
}

#[test]
fn insert_overwrites_value() {
    let mut cache = open_empty(10, "cache.bin");
    cache.insert(key("/a"), 1).unwrap();
    cache.insert(key("/a"), 2).unwrap();
    assert_eq!(cache.len(), 1);
    assert_eq!(cache.get(&key("/a")).unwrap(), 2);
}

#[test]
fn duplicate_keys_in_a_snapshot_collapse_to_the_last() {
    let raw: Vec<(String, u64)> = vec![(key("/k"), 1), (key("/k"), 2)];
    let bytes = bincode::serialize(&raw).unwrap();
    let loaded = BaseFsCache::new(1, key("cache.bin"), DiskImage::Present(bytes)).unwrap();
    assert_eq!(loaded.len(), 1);
    assert_eq!(loaded.get(&key("/k")).unwrap(), 2);
}

#[test]
fn keys_returns_a_point_in_time_snapshot() {
    let mut cache = open_empty(10, "cache.bin");
    cache.insert(key("/a"), 1).unwrap();
    cache.insert(key("/b"), 2).unwrap();
    let ks = cache.keys();
    assert_eq!(ks.len(), 2);
    assert!(ks.contains(&key("/a")));
    assert!(ks.contains(&key("/b")));
    cache.insert(key("/c"), 3).unwrap();
    assert_eq!(ks.len(), 2);
    assert_eq!(cache.keys().len(), 3);
}

#[test]
fn temp_path_replaces_the_final_extension() {
    let cases = [
        ("/tmp/dir/cache.bin", "/tmp/dir/cache.tmp"),
        ("cache", "cache.tmp"),
        ("a.b.c", "a.b.tmp"),
        (".hidden", ".hidden.tmp"),
        ("dir.d/cache", "dir.d/cache.tmp"),
    ];
    for (target, temp) in cases {
        let mut cache = open_empty(1, target);
        let plan = cache
            .insert(key("/k"), 1)
            .unwrap()
            .expect("threshold 1 saves on every mutation");
        assert_eq!(plan.target_path, target);
        assert_eq!(plan.temp_path, temp);
    }
}

#[test]
fn save_on_clean_store_is_a_noop() {
    let cache = open_empty(3, "cache.bin");
    assert!(cache.save().unwrap().is_none());
}

#[test]
fn save_outcomes_map_to_the_error_taxonomy() {
    let path = key("cache.bin");
    assert!(fscache::save_result(&path, SaveOutcome::Saved).is_ok());
    assert_eq!(
        fscache::save_result(&path, SaveOutcome::DirCreateFailed(key("denied"))),
        Err(FsCacheErrorKind::CacheFileIoError {
            src: key("denied"),
            path: path.clone(),
        })
    );
    assert_eq!(
        fscache::save_result(&path, SaveOutcome::FileCreateFailed(key("full"))),
        Err(FsCacheErrorKind::CacheFileIoError {
            src: key("full"),
            path: path.clone(),
        })
    );
    assert_eq!(
        fscache::save_result(&path, SaveOutcome::WriteFailed(key("short write"))),
        Err(FsCacheErrorKind::SerializationError {
            src: key("short write"),
            path: path.clone(),
        })
    );
    assert_eq!(
        fscache::save_result(&path, SaveOutcome::RenameFailed(key("busy"))),
        Err(FsCacheErrorKind::CacheFileIoError {
            src: key("busy"),
            path: path.clone(),
        })
    );
}
