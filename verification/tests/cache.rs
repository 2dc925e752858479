use dupefind::cache::{
    now_secs, system_time_ns, CacheEntry, CacheLoad, CacheRecord, CachedHashes, HashCache,
    CACHE_VERSION, MAX_AGE_SECS,
};
use dupefind::path::FilePath;
use dupefind::time::FileTime;

fn path(text: &str) -> FilePath {
    FilePath::from_text(text)
}

fn hashes(prefix: u8, full: u8) -> CachedHashes {
    CachedHashes {
        prefix: [prefix; 32],
        full: [full; 32],
    }
}

/// What a file written from this cache would hold when it is read again.
fn written(cache: &HashCache) -> CacheLoad {
    CacheLoad::Decoded {
        version: CACHE_VERSION,
        records: cache
            .records()
            .iter()
            .map(|r| CacheRecord {
                path: r.path.clone(),
                entry: r.entry,
            })
            .collect(),
    }
}

#[test]
fn a_cache_hit_requires_matching_metadata() {
    let file = path("/d/file.bin");
    let modified = FileTime::from_secs(123);
    let (mut cache, warning) = HashCache::open_at(path("/d/cache.bin"), 0, CacheLoad::Missing);
    assert!(warning.is_none());
    cache.insert(file.clone(), 10, Some(modified), hashes(1, 2), 5);
    assert_eq!(
        cache.lookup(&file, 10, Some(modified), 6),
        Some(hashes(1, 2))
    );
    assert_eq!(cache.lookup(&file, 11, Some(modified), 6), None);
}

#[test]
fn corrupt_cache_is_ignored() {
    let load = CacheLoad::Undecodable("not bincode".to_string());
    let (cache, warning) = HashCache::open_at(path("/d/cache.bin"), 0, load);
    assert!(warning.is_some());
    assert!(cache.records().is_empty());
}

#[test]
fn cache_round_trips() {
    let file = path("/d/file.bin");
    let modified = FileTime::from_secs(456);
    let (mut cache, _) = HashCache::open_at(path("/d/cache.bin"), 0, CacheLoad::Missing);
    cache.insert(file.clone(), 20, Some(modified), hashes(3, 4), 9);
    assert!(cache.prepare_save(9));
    let disk = written(&cache);
    cache.saved();
    let (mut loaded, warning) = HashCache::open_at(path("/d/cache.bin"), 0, disk);
    assert!(warning.is_none());
    assert_eq!(
        loaded.lookup(&file, 20, Some(modified), 10),
        Some(hashes(3, 4))
    );
}

#[test]
fn saving_again_replaces_the_previous_cache_file() {
    let file = path("/d/file.bin");
    let modified = FileTime::from_secs(789);
    let (mut cache, _) = HashCache::open_at(path("/d/cache.bin"), 0, CacheLoad::Missing);
    cache.insert(file.clone(), 30, Some(modified), hashes(5, 6), 9);
    assert!(cache.prepare_save(9));
    cache.saved();
    assert!(!cache.prepare_save(9), "nothing changed since");
    cache.insert(file.clone(), 30, Some(modified), hashes(7, 8), 9);
    assert!(cache.prepare_save(9));
    let disk = written(&cache);

    let (mut loaded, warning) = HashCache::open_at(path("/d/cache.bin"), 0, disk);
    assert!(warning.is_none());
    assert_eq!(
        loaded.lookup(&file, 30, Some(modified), 9),
        Some(hashes(7, 8))
    );
    assert_eq!(loaded.records().len(), 1);
}

#[test]
fn a_disabled_cache_remembers_nothing() {
    let (mut cache, warning) =
        HashCache::open(false, 0, Some(path("/d/cache.bin")), CacheLoad::Missing);
    assert!(warning.is_none());
    let modified = Some(FileTime::from_secs(1));
    cache.insert(path("/f"), 1, modified, hashes(1, 1), 1);
    assert_eq!(cache.lookup(&path("/f"), 1, modified, 1), None);
    assert!(!cache.prepare_save(1));
}

#[test]
fn a_cache_without_a_place_is_off_with_a_warning() {
    let (mut cache, warning) = HashCache::open(true, 0, None, CacheLoad::Missing);
    assert_eq!(
        warning.unwrap(),
        "cache disabled: cannot determine the platform cache directory"
    );
    let modified = Some(FileTime::from_secs(1));
    cache.insert(path("/f"), 1, modified, hashes(1, 1), 1);
    assert!(cache.records().is_empty());
}

#[test]
fn every_way_a_cache_file_can_be_unusable_is_named() {
    let place = || path("/d/cache.bin");
    let (_, warning) = HashCache::open_at(place(), 0, CacheLoad::Unreadable("denied".to_string()));
    assert_eq!(warning.unwrap(), "cannot read hash cache: denied");
    let (_, warning) = HashCache::open_at(place(), 0, CacheLoad::Undecodable("eof".to_string()));
    assert_eq!(warning.unwrap(), "ignoring an unreadable hash cache: eof");
    let load = CacheLoad::Decoded {
        version: CACHE_VERSION + 1,
        records: Vec::new(),
    };
    let (_, warning) = HashCache::open_at(place(), 0, load);
    assert_eq!(warning.unwrap(), "ignoring an incompatible hash cache");
}

#[test]
fn small_and_untimed_files_are_not_cached() {
    let (mut cache, _) = HashCache::open_at(path("/d/cache.bin"), 100, CacheLoad::Missing);
    cache.insert(path("/small"), 99, Some(FileTime::from_secs(1)), hashes(1, 1), 1);
    cache.insert(path("/untimed"), 100, None, hashes(1, 1), 1);
    let early = FileTime { secs: -5, nanos: 0 };
    cache.insert(path("/early"), 100, Some(early), hashes(1, 1), 1);
    assert!(cache.records().is_empty());
    cache.insert(path("/large"), 100, Some(FileTime::from_secs(1)), hashes(1, 1), 1);
    assert_eq!(cache.records().len(), 1);
}

#[test]
fn paths_are_told_apart_by_their_components() {
    let (mut cache, _) = HashCache::open_at(path("/d/cache.bin"), 0, CacheLoad::Missing);
    let modified = Some(FileTime::from_secs(1));
    cache.insert(path("/a/b"), 1, modified, hashes(1, 1), 1);
    assert_eq!(
        cache.lookup(&path("/a//b/"), 1, modified, 1),
        Some(hashes(1, 1))
    );
    assert_eq!(cache.lookup(&path("/a/c"), 1, modified, 1), None);
    for n in 0..200 {
        cache.insert(path(&format!("/many/{n}")), 1, modified, hashes(n as u8, 0), 1);
    }
    for n in 0..200 {
        assert_eq!(
            cache.lookup(&path(&format!("/many/{n}")), 1, modified, 1),
            Some(hashes(n as u8, 0))
        );
    }
}

#[test]
fn old_records_are_pruned() {
    let (mut cache, _) = HashCache::open_at(path("/d/cache.bin"), 0, CacheLoad::Missing);
    let modified = Some(FileTime::from_secs(1));
    let now = 10 * MAX_AGE_SECS;
    cache.insert(path("/old"), 1, modified, hashes(1, 1), now - MAX_AGE_SECS - 1);
    cache.insert(path("/edge"), 1, modified, hashes(2, 2), now - MAX_AGE_SECS);
    cache.insert(path("/new"), 1, modified, hashes(3, 3), now);
    cache.prune(now);
    assert_eq!(cache.records().len(), 2);
    assert_eq!(cache.lookup(&path("/old"), 1, modified, now), None);
    assert_eq!(
        cache.lookup(&path("/edge"), 1, modified, now),
        Some(hashes(2, 2))
    );
}

#[test]
fn a_lookup_renews_a_record() {
    let (mut cache, _) = HashCache::open_at(path("/d/cache.bin"), 0, CacheLoad::Missing);
    let modified = Some(FileTime::from_secs(1));
    cache.insert(path("/f"), 1, modified, hashes(1, 1), 5);
    cache.saved();
    cache.lookup(&path("/f"), 1, modified, 77);
    let entry: CacheEntry = cache.records()[0].entry;
    assert_eq!(entry.last_seen, 77);
    assert!(cache.prepare_save(77), "a used record has to be written back");
}

#[test]
fn stamps_count_from_the_epoch() {
    let t = FileTime {
        secs: 2,
        nanos: 7,
    };
    assert_eq!(system_time_ns(t), Some(2_000_000_007));
    assert_eq!(system_time_ns(FileTime { secs: -1, nanos: 0 }), None);
    assert_eq!(now_secs(t), 2);
    assert_eq!(now_secs(FileTime { secs: -1, nanos: 0 }), 0);
}

#[test]
fn a_save_keeps_what_is_recent_and_knows_its_place() {
    let (mut cache, _) = HashCache::open_at(path("/d/cache.bin"), 0, CacheLoad::Missing);
    assert_eq!(cache.kept_at(), Some(&path("/d/cache.bin")));
    assert_eq!(HashCache::disabled(0).kept_at(), None);
    let modified = Some(FileTime::from_secs(1));
    let now = 2 * MAX_AGE_SECS;
    cache.insert(path("/old"), 1, modified, hashes(1, 1), now - MAX_AGE_SECS - 1);
    cache.insert(path("/new"), 1, modified, hashes(2, 2), now);
    assert!(cache.prepare_save(now));
    let (mut loaded, _) = HashCache::open_at(path("/d/cache.bin"), 0, written(&cache));
    assert_eq!(loaded.lookup(&path("/old"), 1, modified, now), None);
    assert_eq!(
        loaded.lookup(&path("/new"), 1, modified, now),
        Some(hashes(2, 2))
    );
    assert!(loaded.prepare_save(now), "a used record is written back");
}

#[test]
fn a_file_has_one_record_however_it_is_spelled() {
    let modified = Some(FileTime::from_secs(7));
    let (mut cache, _) = HashCache::open_at(path("/d/cache.bin"), 4, CacheLoad::Missing);
    cache.insert(path("/d/a"), 10, modified, hashes(1, 1), 1);
    cache.insert(path("/d/b"), 10, modified, hashes(2, 2), 1);
    assert_eq!(cache.records().len(), 2);
    // Another spelling, another size: still the same file.
    cache.insert(path("//d/./a/"), 11, modified, hashes(3, 3), 2);
    assert_eq!(cache.records().len(), 2);
    // Too small, or without a time: no record.
    cache.insert(path("/d/c"), 3, modified, hashes(4, 4), 2);
    cache.insert(path("/d/e"), 10, None, hashes(5, 5), 2);
    assert_eq!(cache.records().len(), 2);
    // Neither a lookup nor a save adds or drops any.
    assert_eq!(cache.lookup(&path("/d/b"), 10, modified, 3), Some(hashes(2, 2)));
    cache.saved();
    assert_eq!(cache.records().len(), 2);
    let first = &cache.records()[0].path;
    assert!(!first.starts_with(&cache.records()[1].path));
}
