use dupefind::export::{
    available_paths, build_document, build_text, now_ms, outcome_line, system_time_ms,
    ExportOutcome, RawPath,
};
use dupefind::model::{DupeGroup, FileEntry, ScanOptions};
use dupefind::path::FilePath;
use dupefind::selection::Selection;
use dupefind::time::{Duration, FileTime};

fn path(text: &str) -> FilePath {
    FilePath::from_text(text)
}

fn pair() -> DupeGroup {
    DupeGroup::new(
        [7; 32],
        3,
        vec![
            FileEntry::new(path("a"), 3, None),
            FileEntry::new(path("b"), 3, None),
        ],
    )
}

#[test]
fn writes_both_formats_without_overwriting() {
    let dir = path("/out");
    let mut present: Vec<FilePath> = Vec::new();
    let (first_json, first_text) = available_paths(&dir, 99, &present).unwrap();
    assert_eq!(first_json.display(), "/out/dupefind-results-99.json");
    assert_eq!(first_text.display(), "/out/dupefind-results-99.txt");
    present.push(first_json.clone());
    present.push(first_text.clone());
    let (second_json, second_text) = available_paths(&dir, 99, &present).unwrap();
    assert_ne!(first_json, second_json);
    assert_eq!(second_json.display(), "/out/dupefind-results-99-1.json");
    // One of the two being there is enough.
    present.push(second_text);
    let (third_json, _) = available_paths(&dir, 99, &present).unwrap();
    assert_eq!(third_json.display(), "/out/dupefind-results-99-2.json");
}

#[test]
fn json_contains_review_dispositions() {
    let mut protected = FileEntry::new_protected(path("reference"), 3, None, true);
    protected.keep = true;
    let group = DupeGroup::new(
        [1; 32],
        3,
        vec![protected, FileEntry::new(path("copy"), 3, None)],
    );
    let document = build_document(
        &path("root"),
        &ScanOptions::default(),
        Duration::zero(),
        &vec![group],
        &Selection::new(),
        0,
    );
    assert_eq!(document.groups[0].files[0].disposition, "protected");
    assert_eq!(document.groups[0].files[1].disposition, "delete");
}

#[test]
fn a_document_holds_options_totals_and_raw_paths() {
    let mut selected = Selection::new();
    selected.insert([7; 32]);
    let options = ScanOptions {
        reference_roots: vec![path("/ref")],
        exclude_exts: vec!["dll".to_string()],
        use_cache: true,
        ..Default::default()
    };
    let doc = build_document(
        &path("/root"),
        &options,
        Duration::from_millis(1_234),
        &vec![pair()],
        &selected,
        42,
    );
    assert_eq!(doc.schema_version, 1);
    assert_eq!(doc.generated_at_unix_ms, 42);
    assert_eq!(doc.elapsed_ms, 1_234);
    assert_eq!(doc.totals.groups, 1);
    assert_eq!(doc.totals.files, 2);
    assert_eq!(doc.totals.marked, 1);
    assert_eq!(doc.totals.reclaimable_bytes, 3);
    assert!(!doc.filters.include_hidden && doc.filters.cache_enabled);
    assert_eq!(doc.filters.excluded_extensions, vec!["dll"]);
    assert_eq!(doc.reference_roots[0].display, "/ref");
    let RawPath::UnixBytesBase64(raw) = &doc.scan_root.raw;
    assert_eq!(raw, "L3Jvb3Q=");
    assert!(doc.groups[0].selected);
    assert_eq!(doc.groups[0].hash, "07".repeat(32));
}

#[test]
fn paths_that_are_not_text_survive_without_loss() {
    let odd = FilePath::from_bytes(vec![b'/', 0xff, 0x00]);
    let doc = build_document(
        &odd,
        &ScanOptions::default(),
        Duration::zero(),
        &Vec::new(),
        &Selection::new(),
        0,
    );
    let RawPath::UnixBytesBase64(raw) = &doc.scan_root.raw;
    assert_eq!(raw, "L/8A");
    assert!(doc.scan_root.display.starts_with('/'));
}

#[test]
fn the_text_export_lists_every_file_under_its_group() {
    let mut group = pair();
    group.skipped = true;
    let mut second = DupeGroup::new(
        [1; 32],
        10,
        vec![
            FileEntry::new_protected(path("/ref/x"), 10, None, true),
            FileEntry::new(path("/y"), 10, None),
        ],
    );
    second.keep_only(0);
    let mut selected = Selection::new();
    selected.insert([1; 32]);
    let doc = build_document(
        &path("/root"),
        &ScanOptions::default(),
        Duration::zero(),
        &vec![group, second],
        &selected,
        0,
    );
    let text = build_text(&doc);
    let expected = [
        "dupefind results",
        "root: /root",
        "groups: 2",
        "files: 4",
        "marked: 1",
        "reclaimable bytes: 10",
        "",
        &format!(
            "group 1: size=3 hash={} wasted=3 reclaimable=0 skipped",
            "07".repeat(32)
        ),
        "  [KEEP     ] a",
        "  [DELETE   ] b",
        "",
        &format!(
            "group 2: size=10 hash={} wasted=10 reclaimable=10 selected",
            "01".repeat(32)
        ),
        "  [PROTECTED] /ref/x",
        "  [DELETE   ] /y",
        "",
        "",
    ]
    .join("\n");
    assert_eq!(text, expected);
}

#[test]
fn every_outcome_of_an_export_is_told() {
    let ok = |name: &str| Ok(path(name));
    let err = |text: &str| Err(text.to_string());
    let line = |json, text| outcome_line(&ExportOutcome { json, text });
    assert_eq!(
        line(ok("/o/a.json"), ok("/o/a.txt")),
        "Exported a.json and a.txt"
    );
    assert_eq!(
        line(ok("/o/a.json"), err("full")),
        "Exported a.json; text export failed: full"
    );
    assert_eq!(
        line(err("full"), ok("/o/a.txt")),
        "JSON export failed: full; exported a.txt"
    );
    assert_eq!(
        line(err("x"), err("y")),
        "Export failed: JSON: x; text: y"
    );
}

#[test]
fn milliseconds_count_from_the_epoch() {
    let t = FileTime {
        secs: 3,
        nanos: 5_999_999,
    };
    assert_eq!(system_time_ms(t), Some(3_005));
    assert_eq!(now_ms(t), 3_005);
    let early = FileTime { secs: -3, nanos: 0 };
    assert_eq!(system_time_ms(early), None);
    assert_eq!(now_ms(early), 0);
    let late = FileTime {
        secs: i64::MAX,
        nanos: 0,
    };
    assert_eq!(system_time_ms(late), Some(u64::MAX));
}
