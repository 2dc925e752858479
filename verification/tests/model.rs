use dupefind::model::{
    groups_fit, DupeGroup, FileEntry, KeepStrategy, Phase, ScanError, ScanOptions, ScanState,
    SortKey, DEFAULT_CACHE_MIN_SIZE, DEFAULT_HEAD_HASH_MIN,
};
use dupefind::path::FilePath;
use dupefind::time::{Duration, FileTime};

fn at(secs: u32) -> Option<FileTime> {
    Some(FileTime::from_secs(secs))
}

fn path(text: &str) -> FilePath {
    FilePath::from_text(text)
}

/// Three copies, 100 bytes each, with distinct mtimes and path lengths.
fn group() -> DupeGroup {
    DupeGroup::new(
        [7u8; 32],
        100,
        vec![
            FileEntry::new(path("/aaa/bbb/middle.bin"), 100, at(2_000)),
            FileEntry::new(path("/z.bin"), 100, at(3_000)),
            FileEntry::new(path("/aaa/bbb/ccc/oldest.bin"), 100, at(1_000)),
        ],
    )
}

#[test]
fn a_new_group_keeps_exactly_the_first_entry() {
    let g = group();
    assert_eq!(g.keeper_count(), 1);
    assert!(g.files[0].keep);
}

#[test]
fn wasted_counts_every_copy_but_one() {
    let g = group();
    assert_eq!(g.wasted(), 200);
}

#[test]
fn reclaimable_tracks_the_marks() {
    let mut g = group();
    assert_eq!(g.reclaimable(), 200);
    // Keeping a second copy reduces what deletion would free.
    assert!(g.toggle_mark(1));
    assert_eq!(g.reclaimable(), 100);
}

#[test]
fn a_skipped_group_reclaims_nothing() {
    let mut g = group();
    g.skipped = true;
    assert_eq!(g.marked(), 0);
    assert_eq!(g.reclaimable(), 0);
}

#[test]
fn the_last_keeper_cannot_be_cleared() {
    let mut g = group();
    assert_eq!(g.keeper_count(), 1);
    // Index 0 is the only keeper, so this must be refused.
    assert!(!g.toggle_mark(0));
    assert_eq!(g.keeper_count(), 1);
    assert!(g.files[0].keep);
}

#[test]
fn marking_every_copy_for_deletion_is_impossible() {
    let mut g = group();
    // Hammer every index repeatedly; the invariant must always hold.
    for _ in 0..10 {
        for i in 0..g.files.len() {
            g.toggle_mark(i);
            assert!(
                g.keeper_count() >= 1,
                "a group must never reach zero keepers"
            );
        }
    }
}

#[test]
fn keep_only_leaves_one_keeper() {
    let mut g = group();
    g.keep_only(2);
    assert_eq!(g.keeper_count(), 1);
    assert!(g.files[2].keep);
    assert!(!g.files[0].keep);
}

#[test]
fn keep_only_ignores_out_of_range_indices() {
    let mut g = group();
    g.keep_only(99);
    assert_eq!(g.keeper_count(), 1, "state must be left untouched");
}

#[test]
fn every_strategy_selects_the_intended_copy() {
    let cases = [
        (KeepStrategy::First, "middle.bin"),
        (KeepStrategy::Newest, "z.bin"),
        (KeepStrategy::Oldest, "oldest.bin"),
        (KeepStrategy::ShortestPath, "z.bin"),
    ];
    for (strategy, expected) in cases {
        let mut g = group();
        g.apply_strategy(strategy);
        assert_eq!(g.keeper_count(), 1, "{strategy:?} must keep exactly one");
        let kept = g.files.iter().find(|f| f.keep).unwrap();
        assert_eq!(kept.file_name(), expected, "for {strategy:?}");
    }
}

#[test]
fn time_strategies_fall_back_when_no_mtime_is_available() {
    let mut g = DupeGroup::new(
        [0u8; 32],
        10,
        vec![
            FileEntry::new(path("/a.bin"), 10, None),
            FileEntry::new(path("/b.bin"), 10, None),
        ],
    );
    g.apply_strategy(KeepStrategy::Newest);
    assert_eq!(g.keeper_count(), 1);
    assert!(g.files[0].keep, "with no timestamps, keep the first entry");
}

#[test]
fn a_group_with_one_untimed_copy_still_picks_a_timed_one() {
    let mut g = DupeGroup::new(
        [0u8; 32],
        10,
        vec![
            FileEntry::new(path("/untimed.bin"), 10, None),
            FileEntry::new(path("/timed.bin"), 10, at(500)),
        ],
    );
    g.apply_strategy(KeepStrategy::Newest);
    let kept = g.files.iter().find(|f| f.keep).unwrap();
    assert_eq!(kept.file_name(), "timed.bin");
}

#[test]
fn sort_keys_cycle_back_around() {
    let mut key = SortKey::Wasted;
    for _ in 0..4 {
        key = key.next();
    }
    assert_eq!(key, SortKey::Wasted);
}

#[test]
fn hash_prefix_is_stable_hex() {
    let g = DupeGroup::new([0xABu8; 32], 1, vec![]);
    assert_eq!(g.hash_prefix(), "ababababab ab".replace(' ', ""));
}

#[test]
fn default_options_match_the_documented_defaults() {
    let o = ScanOptions::default();
    assert!(o.skip_hidden);
    assert!(o.respect_gitignore);
    assert!(o.skip_empty);
    assert!(o.collapse_hardlinks);
    assert!(!o.follow_links);
    assert_eq!(o.min_size, 0);
}

#[test]
fn lossy_names_do_not_panic_on_odd_paths() {
    let f = FileEntry::new(path("/"), 0, None);
    // "/" has no file name; the display must still produce something.
    assert!(!f.file_name().is_empty());
}

#[test]
fn the_documented_thresholds_are_the_defaults() {
    let o = ScanOptions::default();
    assert_eq!(o.head_hash_min, 1024 * 1024);
    assert_eq!(o.head_hash_min, DEFAULT_HEAD_HASH_MIN);
    assert_eq!(o.cache_min_size, 256 * 1024);
    assert_eq!(o.cache_min_size, DEFAULT_CACHE_MIN_SIZE);
    assert!(!o.use_cache);
    assert!(!o.same_file_system);
    assert!(o.reference_roots.is_empty());
}

#[test]
fn a_protected_copy_is_kept_whatever_the_strategy() {
    let mut g = DupeGroup::new(
        [3u8; 32],
        10,
        vec![
            FileEntry::new(path("/a"), 10, at(1)),
            FileEntry::new_protected(path("/ref/b"), 10, at(2), true),
            FileEntry::new(path("/c"), 10, at(3)),
        ],
    );
    assert!(g.files[1].keep);
    for strategy in [
        KeepStrategy::First,
        KeepStrategy::Newest,
        KeepStrategy::Oldest,
        KeepStrategy::ShortestPath,
    ] {
        g.apply_strategy(strategy);
        assert!(g.files[1].keep, "{strategy:?}");
    }
    g.keep_only(2);
    assert!(g.files[1].keep && g.files[2].keep && !g.files[0].keep);
    assert!(!g.toggle_mark(1), "a protected copy cannot be marked");
    assert_eq!(g.marked(), 1);
}

#[test]
fn equal_times_and_lengths_keep_the_earlier_entry() {
    let mut g = DupeGroup::new(
        [1u8; 32],
        1,
        vec![
            FileEntry::new(path("/bb"), 1, at(9)),
            FileEntry::new(path("/aa"), 1, at(9)),
        ],
    );
    for strategy in [
        KeepStrategy::Newest,
        KeepStrategy::Oldest,
        KeepStrategy::ShortestPath,
    ] {
        g.apply_strategy(strategy);
        assert!(g.files[0].keep && !g.files[1].keep);
    }
}

#[test]
fn extensions_are_matched_whatever_their_case() {
    let o = ScanOptions {
        exclude_exts: vec!["dll".to_string()],
        ..Default::default()
    };
    assert!(o.excluded_by_extension(&path("/a/FOO.DLL")));
    assert!(o.excluded_by_extension(&path("/a/foo.dll")));
    assert!(!o.excluded_by_extension(&path("/a/foo.exe")));
    assert!(!o.excluded_by_extension(&path("/a/dll")));
    assert!(!o.excluded_by_extension(&path("/a/.dll")));
    // An extension that is not UTF-8 matches nothing.
    let odd = FilePath::from_bytes(vec![b'a', b'.', 0xff]);
    assert!(!o.excluded_by_extension(&odd));
}

#[test]
fn reference_directories_protect_what_lies_in_them() {
    let o = ScanOptions {
        reference_roots: vec![path("/data/ref")],
        ..Default::default()
    };
    assert!(o.is_protected(&path("/data/ref/a.txt")));
    assert!(o.is_protected(&path("/data/ref")));
    assert!(!o.is_protected(&path("/data/reference/a.txt")));
}

#[test]
fn a_scan_error_names_its_path() {
    let e = ScanError::new(Some(path("/x")), "denied".to_string());
    assert_eq!(e.display(), "/x: denied");
    let e = ScanError::new(None, "loop".to_string());
    assert_eq!(e.display(), "loop");
}

#[test]
fn counters_and_labels() {
    let mut s = ScanState::default();
    ScanState::bump(&mut s.files_seen, 3);
    ScanState::bump(&mut s.files_seen, 4);
    assert_eq!(ScanState::get(&s.files_seen), 7);
    s.set_current("/a/b");
    assert_eq!(s.current_path(), "/a/b");
    assert!(!s.is_cancelled());
    s.request_cancel();
    assert!(s.is_cancelled());
    assert_eq!(Phase::HeadHashing.label(), "Hashing file heads");
    assert_eq!(KeepStrategy::ShortestPath.label(), "shortest path");
    assert_eq!(SortKey::Count.label(), "count");
    let mut n: u64 = u64::MAX;
    ScanState::bump(&mut n, 1);
    assert_eq!(n, 0, "a full counter starts over");
}

#[test]
fn reading_time_runs_from_the_first_read_to_the_last() {
    let mut s = ScanState::default();
    assert_eq!(s.hashing_elapsed(Duration::from_secs(9)), None);
    s.hashing_began = Some(Duration::from_secs(2));
    assert_eq!(
        s.hashing_elapsed(Duration::from_secs(9)),
        Some(Duration::from_secs(7))
    );
    s.hashing_ended = Some(Duration::from_millis(3_500));
    assert_eq!(
        s.hashing_elapsed(Duration::from_secs(9)),
        Some(Duration::from_millis(1_500))
    );
}

#[test]
fn unsound_groups_are_told_apart() {
    assert!(groups_fit(&vec![group()]));
    let mut g = group();
    g.files[0].size = 99;
    assert!(!groups_fit(&vec![g]), "sizes differ");
    let mut g = group();
    g.files[0].keep = false;
    assert!(!groups_fit(&vec![g]), "no copy is kept");
    let mut g = group();
    g.files[1].protected = true;
    assert!(!groups_fit(&vec![g]), "a protected copy is marked");
    let big = |hash: u8| {
        DupeGroup::new(
            [hash; 32],
            u64::MAX / 2,
            vec![
                FileEntry::new(path("/a"), u64::MAX / 2, None),
                FileEntry::new(path("/b"), u64::MAX / 2, None),
            ],
        )
    };
    assert!(groups_fit(&vec![big(1)]));
    assert!(!groups_fit(&vec![big(1), big(2)]), "too many bytes to count");
}
