use dupefind::format::{
    bytes, civil_from_days, count, duration, relative_to, throughput, timestamp, truncate,
    truncate_path,
};
use dupefind::path::FilePath;
use dupefind::time::{Duration, FileTime};

fn path(text: &str) -> FilePath {
    FilePath::from_text(text)
}

#[test]
fn counts_get_thousands_separators() {
    assert_eq!(count(0), "0");
    assert_eq!(count(999), "999");
    assert_eq!(count(1_000), "1,000");
    assert_eq!(count(12_481), "12,481");
    assert_eq!(count(1_234_567), "1,234,567");
}

#[test]
fn civil_dates_match_known_values() {
    assert_eq!(civil_from_days(0), (1970, 1, 1));
    assert_eq!(civil_from_days(19_723), (2024, 1, 1));
    // A leap day, to exercise the era arithmetic.
    assert_eq!(civil_from_days(19_784), (2024, 3, 2));
}

#[test]
fn truncation_keeps_the_informative_end_of_a_path() {
    assert_eq!(truncate_path("/a/b/c.txt", 20), "/a/b/c.txt");
    // 16 chars trimmed to 8: an ellipsis plus the last 7 characters.
    assert_eq!(truncate_path("/aaaa/bbbb/c.txt", 8), "…b/c.txt");
}

#[test]
fn paths_are_shown_relative_to_the_scan_root() {
    let root = path("/home/me/pictures");
    assert_eq!(
        relative_to(&path("/home/me/pictures/2019/a.jpg"), Some(&root)),
        "2019/a.jpg"
    );
    // The root itself.
    assert_eq!(relative_to(&path("/home/me/pictures"), Some(&root)), ".");
    // Outside the root: fall back to the absolute path.
    assert_eq!(
        relative_to(&path("/mnt/other/a.jpg"), Some(&root)),
        "/mnt/other/a.jpg"
    );
    // No root at all.
    assert_eq!(relative_to(&path("/a/b.jpg"), None), "/a/b.jpg");
}

#[test]
fn truncation_never_exceeds_the_width() {
    for w in 1..12 {
        assert!(truncate_path("/some/long/path/file.bin", w).chars().count() <= w);
        assert!(truncate("a-long-label-here", w).chars().count() <= w);
    }
}

#[test]
fn truncation_keeps_the_head_of_a_label() {
    assert_eq!(truncate("abcdef", 6), "abcdef");
    assert_eq!(truncate("abcdef", 4), "abc…");
    assert_eq!(truncate("abcdef", 1), "…");
    assert_eq!(truncate_path("abcdef", 1), "…");
}

#[test]
fn no_width_leaves_no_text() {
    assert_eq!(truncate_path("/a", 0), "");
    assert_eq!(truncate("label", 0), "");
    assert_eq!(truncate("", 0), "");
}

#[test]
fn a_shown_path_leads_back_from_the_root() {
    for (file, root) in [
        ("/home/me/pictures/2019/a.jpg", "/home/me/pictures"),
        ("/home/me//pictures/./2019/é.jpg/", "/home/me/pictures/"),
        ("/home/me/pictures", "/home/me/pictures"),
        ("/home/me/pictures2/a", "/home/me/pictures"),
        ("/a", "/"),
        ("/a", ""),
        ("/", "/"),
        ("/", ""),
    ] {
        let (file, root) = (path(file), path(root));
        let shown = relative_to(&file, Some(&root));
        assert_eq!(root.join(&path(&shown)), file, "{shown}");
        assert_eq!(shown == ".", file == root, "{shown}");
    }
}

#[test]
fn sizes_use_binary_units() {
    assert_eq!(bytes(0), "0 B");
    assert_eq!(bytes(1024), "1 KiB");
    assert_eq!(bytes(3 * 1024 * 1024), "3 MiB");
}

#[test]
fn durations_use_the_units_that_matter() {
    assert_eq!(duration(Duration::from_millis(250)), "0.2s");
    assert_eq!(duration(Duration::from_millis(59_990)), "59.9s");
    assert_eq!(duration(Duration::from_secs(64)), "1m 04s");
    assert_eq!(duration(Duration::from_secs(3_661)), "1h 01m 01s");
}

#[test]
fn a_rate_needs_time_and_bytes() {
    assert_eq!(throughput(0, Duration::from_secs(1), 0), "—");
    assert_eq!(throughput(10, Duration::zero(), 0), "—");
    assert_eq!(throughput(2048, Duration::from_secs(2), 1024), "1 KiB/s");
}

#[test]
fn timestamps_are_shown_to_the_minute_in_utc() {
    assert_eq!(timestamp(None), "—");
    assert_eq!(timestamp(Some(FileTime { secs: -1, nanos: 0 })), "—");
    assert_eq!(timestamp(Some(FileTime::from_secs(0))), "1970-01-01 00:00");
    assert_eq!(
        timestamp(Some(FileTime::from_secs(1_560_511_920))),
        "2019-06-14 11:32"
    );
    assert_eq!(
        timestamp(Some(FileTime::from_secs(951_782_400))),
        "2000-02-29 00:00"
    );
}

#[test]
fn dates_before_the_epoch_and_at_century_ends() {
    assert_eq!(civil_from_days(-1), (1969, 12, 31));
    assert_eq!(civil_from_days(-719_468), (0, 3, 1));
    assert_eq!(civil_from_days(-719_469), (0, 2, 29));
    assert_eq!(civil_from_days(11_016), (2000, 2, 29));
    assert_eq!(civil_from_days(47_540), (2100, 2, 28));
    assert_eq!(civil_from_days(47_541), (2100, 3, 1));
}
