use dupefind::app::picker::{available_drives, ListedEntry, Listing};
use dupefind::app::{App, DeletePlan, Pane, Screen};
use dupefind::delete::{DeleteFailure, DeleteMode, DeleteReport};
use dupefind::model::{DupeGroup, FileEntry, Phase, ScanOptions, ScanState};
use dupefind::path::FilePath;
use dupefind::time::Duration;
use dupefind::ui::footer::{
    footer_content, footer_height, footer_keys, header_height, header_title, pack_keys,
};
use dupefind::ui::results::visible_window;
use dupefind::ui::{centered, modal, pack_stats, picker, results, scanning, Area, Line, Tone};

fn path(text: &str) -> FilePath {
    FilePath::from_text(text)
}

fn fresh(dir: &str) -> App {
    App::new(
        path(dir),
        ScanOptions::default(),
        DeleteMode::Trash,
        path("/out"),
    )
}

fn copy(text: &str, size: u64) -> FileEntry {
    FileEntry::new(path(text), size, None)
}

fn app_with_results() -> App {
    let mut app = fresh("/tmp");
    app.scan_root = Some(path("/home/example/pictures"));
    app.groups = vec![
        DupeGroup::new(
            [1u8; 32],
            4 * 1024 * 1024,
            vec![
                copy("/home/example/pictures/2019/IMG_0421.JPG", 4 * 1024 * 1024),
                copy("/home/example/downloads/IMG_0421.JPG", 4 * 1024 * 1024),
                copy("/home/example/backup/old/IMG_0421.JPG", 4 * 1024 * 1024),
            ],
        ),
        DupeGroup::new(
            [2u8; 32],
            118 * 1024 * 1024,
            vec![
                copy("/home/example/backup.tar.gz", 118 * 1024 * 1024),
                copy("/mnt/spare/backup.tar.gz", 118 * 1024 * 1024),
            ],
        ),
    ];
    app.screen = Screen::Results;
    app
}

fn report() -> DeleteReport {
    DeleteReport {
        deleted: 3,
        bytes_freed: 1024,
        failures: vec![DeleteFailure {
            path: path("/locked/file.bin"),
            message: "permission denied".into(),
        }],
        mode_label: "Trash".into(),
        deleted_paths: vec![path("/gone/a.bin")],
    }
}

/// A browser in `/tmp/dir`, which holds these entries.
fn browsing(entries: &[(&str, Option<u64>)]) -> App {
    let mut app = fresh("/tmp/dir");
    let listing = Listing::Entries(
        entries
            .iter()
            .map(|(name, size)| ListedEntry {
                path: path("/tmp/dir").join(&path(name)),
                is_dir: size.is_none(),
                size: *size,
                hidden: false,
            })
            .collect(),
    );
    app.refresh_entries(listing, &available_drives());
    app
}

fn text_of(line: &Line) -> String {
    line.spans.iter().map(|s| s.text.as_str()).collect()
}

fn width_of(line: &Line) -> usize {
    text_of(line).chars().count()
}

/// Everything a screen says in a terminal of this width and height.
fn screen_text(app: &mut App, width: u16, height: u16) -> String {
    let mut out: Vec<String> = Vec::new();
    let elapsed = app.elapsed(Duration::zero());
    let keys = pack_keys(&footer_keys(app), width.saturating_sub(2) as usize);
    match app.screen {
        Screen::Picker => {
            out.extend(picker::header_lines(app, width).iter().map(text_of));
            out.push(picker::contents_title(app));
            out.extend(picker::body_lines(app, width).iter().map(text_of));
        }
        Screen::Scanning => {
            out.push(text_of(&scanning::scanning_header(app)));
            out.push(scanning::progress_label(app));
            let reading = app.scan_state.hashing_elapsed(elapsed);
            out.extend(
                scanning::scan_stat_lines(&app.scan_state, elapsed, reading, 0)
                    .iter()
                    .map(text_of),
            );
            out.push(text_of(&scanning::current_line("/a/b", width)));
            out.push(scanning::error_title(app));
            out.extend(
                scanning::error_lines(&app.errors, width, height)
                    .iter()
                    .map(text_of),
            );
        }
        Screen::Results => {
            out.push(results::header_title_text(app, width));
            out.extend(results::header_lines(app, elapsed).iter().map(text_of));
            out.push(results::groups_title(app));
            out.extend(
                results::group_lines(app, width / 2, height)
                    .iter()
                    .map(text_of),
            );
            out.push(results::files_title(app));
            match app.selected_group() {
                Some(group) => {
                    out.extend(results::file_lines(app, group, width).iter().map(text_of));
                    out.extend(
                        results::detail_lines(group, app.file_selected, width.saturating_sub(2) as usize)
                            .iter()
                            .map(text_of),
                    );
                }
                None => out.push(text_of(&results::no_groups_line())),
            }
        }
        Screen::Confirm => {
            let title = match app.plan {
                DeletePlan::Marked => modal::confirm_title(app.delete_mode),
                DeletePlan::Single { .. } => modal::single_confirm_title(app.delete_mode),
            };
            out.push(title.to_string());
            out.extend(
                modal::plan_lines(app)
                    .unwrap_or_default()
                    .iter()
                    .map(text_of),
            );
        }
        Screen::Deleting => {
            out.push(text_of(&scanning::deleting_header(app)));
            out.push(scanning::deleting_label(&app.delete_state));
            out.extend(scanning::deleting_lines(app).iter().map(text_of));
        }
        Screen::Done => {
            let report = app.report.as_ref().unwrap();
            out.push(text_of(&modal::done_header(report)));
            out.extend(
                modal::done_lines(report, app.groups.len())
                    .iter()
                    .map(text_of),
            );
            out.push(modal::failure_title(report));
            for failure in &report.failures {
                out.extend(modal::failure_lines(failure, width).iter().map(text_of));
            }
        }
    }
    out.extend(footer_content(&app.status, keys).iter().map(text_of));
    out.join("\n")
}

const SCREENS: [Screen; 6] = [
    Screen::Picker,
    Screen::Scanning,
    Screen::Results,
    Screen::Confirm,
    Screen::Deleting,
    Screen::Done,
];

#[test]
fn every_screen_renders_without_panicking() {
    for screen in SCREENS {
        let mut app = app_with_results();
        app.screen = screen;
        app.report = Some(report());
        let text = screen_text(&mut app, 100, 30);
        assert!(!text.is_empty(), "{screen:?}");
    }
}

/// Terminals get resized to absurd shapes; nothing may overflow at any of them.
#[test]
fn extreme_terminal_sizes_do_not_panic() {
    let sizes = [(1u16, 1u16), (4, 3), (12, 6), (40, 10), (200, 60), (300, 8)];
    for screen in SCREENS {
        for (w, h) in sizes {
            let mut app = app_with_results();
            app.screen = screen;
            app.report = Some(DeleteReport {
                deleted: 0,
                bytes_freed: 0,
                failures: Vec::new(),
                mode_label: String::new(),
                deleted_paths: Vec::new(),
            });
            let text = screen_text(&mut app, w, h);
            assert!(!text.is_empty(), "{screen:?} at {w}x{h}");

            // What is cut to a pane fits it, and what is listed fits its rows.
            let (inner, room) = (w.saturating_sub(4) as usize, h.saturating_sub(2) as usize);
            let current = scanning::current_line("/some/long/path/file.bin", w);
            assert!(width_of(&current) <= inner, "{screen:?} at {w}x{h}");
            let rows = results::group_lines(&mut app, w, h);
            assert_eq!(rows.len(), room.min(app.groups.len()), "{screen:?} at {w}x{h}");
            if let Some(cursor) = results::group_cursor(&app) {
                assert!(cursor < rows.len().max(1), "{screen:?} at {w}x{h}");
            }

            // Every key and every statistic has a row in a box that holds it.
            let keys = pack_keys(&footer_keys(&app), w.saturating_sub(2) as usize);
            assert!(footer_height(keys.len()) as usize >= keys.len() + 2);
            let detail = results::detail_lines(&app.groups[0], 0, w.saturating_sub(2) as usize);
            assert!(results::detail_height(detail.len()) as usize >= detail.len() + 2);
            let place = centered(
                Area {
                    x: 0,
                    y: 0,
                    width: w,
                    height: h,
                },
                68,
                13,
            );
            assert!(place.x + place.width <= w && place.y + place.height <= h);
        }
    }
}

#[test]
fn the_results_screen_shows_paths_sizes_and_marks() {
    let mut app = app_with_results();
    let text = screen_text(&mut app, 120, 30);

    // The dashboard must show the group sizes and the reclaimable total.
    assert!(text.contains("118"), "group size missing:\n{text}");
    assert!(text.contains("groups"), "group count label missing");
    assert!(text.contains("reclaims"), "reclaimable total missing");
    // And the keep/delete decision for the selected group.
    assert!(text.contains("KEEP"), "keep marker missing:\n{text}");
    assert!(text.contains("DELETE"), "delete marker missing:\n{text}");
}

#[test]
fn the_files_pane_shows_the_full_path_of_each_duplicate() {
    let mut app = app_with_results();
    app.group_selected = 1;
    let text = screen_text(&mut app, 120, 30);
    // Both copies of the selected group must be visible by path.
    assert!(text.contains("backup.tar.gz"), "paths missing:\n{text}");
    assert!(text.contains("/mnt/spare"), "second path missing:\n{text}");
}

#[test]
fn permanent_mode_is_called_out_in_the_confirmation() {
    let mut app = app_with_results();
    app.delete_mode = DeleteMode::Permanent;
    app.screen = Screen::Confirm;
    let text = screen_text(&mut app, 100, 30);
    assert!(
        text.contains("PERMANENT") || text.contains("permanently"),
        "a permanent delete must be labelled as such:\n{text}"
    );
    assert_eq!(modal::confirm_tone(app.delete_mode), Tone::Delete);
}

/// The single-file confirmation must name the file, since which file it is
/// is the only thing the user needs to check.
#[test]
fn the_single_delete_confirmation_names_the_file() {
    let mut app = app_with_results();
    app.plan = DeletePlan::Single { group: 0, file: 1 };
    app.screen = Screen::Confirm;
    let text = screen_text(&mut app, 100, 30);

    assert!(
        text.contains("this one file"),
        "should be worded as a single delete:\n{text}"
    );
    assert!(
        text.contains("IMG_0421.JPG"),
        "the target file must be named:\n{text}"
    );
    assert!(
        text.contains("would remain"),
        "should say how many copies survive:\n{text}"
    );
}

#[test]
fn a_permanent_single_delete_is_called_out() {
    let mut app = app_with_results();
    app.plan = DeletePlan::Single { group: 0, file: 1 };
    app.delete_mode = DeleteMode::Permanent;
    app.screen = Screen::Confirm;
    let text = screen_text(&mut app, 100, 30);
    assert!(
        text.contains("PERMANENTLY") || text.contains("permanently"),
        "permanent single deletes must be labelled:\n{text}"
    );
}

#[test]
fn trash_mode_promises_recoverability() {
    let mut app = app_with_results();
    app.screen = Screen::Confirm;
    let text = screen_text(&mut app, 100, 30);
    assert!(
        text.contains("restored") || text.contains("Recycle"),
        "trash mode should say the files can come back:\n{text}"
    );
}

#[test]
fn an_empty_result_set_renders_a_message_not_a_crash() {
    let mut app = app_with_results();
    app.groups.clear();
    let text = screen_text(&mut app, 80, 20);
    assert!(
        text.contains("no duplicate"),
        "expected an empty state:\n{text}"
    );
}

#[test]
fn the_scanning_screen_reports_live_counters() {
    let mut app = app_with_results();
    app.screen = Screen::Scanning;
    app.phase = Phase::FullHashing;
    ScanState::bump(&mut app.scan_state.files_seen, 12_481);
    let text = screen_text(&mut app, 100, 30);
    assert!(text.contains("12,481"), "file count missing:\n{text}");
    assert!(text.contains("Hashing"), "phase label missing:\n{text}");
}

/// The results cheatsheet is longer than one line at any sane width, so the
/// footer must wrap rather than clip the trailing keys.
#[test]
fn the_footer_shows_every_keybinding_including_the_last() {
    for width in [80u16, 100, 120, 160] {
        let mut app = app_with_results();
        let text = screen_text(&mut app, width, 34);
        assert!(
            text.contains("quit"),
            "the last keybinding is clipped at width {width}:\n{text}"
        );
        assert!(
            text.contains("delete marked"),
            "the delete keybinding is clipped at width {width}:\n{text}"
        );
        let lines = pack_keys(&footer_keys(&app), width as usize - 2);
        assert!(lines.iter().all(|l| width_of(l) <= width as usize - 2));
        assert_eq!(footer_height(lines.len()) as usize, lines.len() + 2);
    }
}

#[test]
fn a_narrow_terminal_gets_a_footer_for_every_key() {
    let app = app_with_results();
    let lines = pack_keys(&footer_keys(&app), 38);
    assert!(lines.len() > 4, "the keys need more rows than a wide footer has");
    assert_eq!(footer_height(lines.len()) as usize, lines.len() + 2);
    assert!(text_of(lines.last().unwrap()).ends_with("q quit"));
    assert_eq!(footer_height(0), 3);
    assert_eq!(footer_height(usize::MAX), u16::MAX);
}

#[test]
fn a_narrow_pane_shows_every_statistic() {
    let mut app = app_with_results();
    app.groups[0].files[1].protected = true;
    app.groups[0].files[1].keep = true;
    let lines = results::detail_lines(&app.groups[0], 1, 12);
    assert_eq!(lines.len(), 6);
    assert_eq!(results::detail_height(lines.len()), 8);
}

/// Every panel must reflow rather than clip at the narrowest width people
/// actually use.
#[test]
fn nothing_is_clipped_at_eighty_columns() {
    let app = app_with_results();
    // The files pane has 58% of the columns.
    let pane = 80 * 58 / 100;
    let detail = results::detail_lines(&app.groups[0], 0, pane - 2);
    let keys = pack_keys(&footer_keys(&app), 80 - 2);
    assert!(detail.iter().all(|l| width_of(l) <= pane - 2));
    assert!(keys.iter().all(|l| width_of(l) <= 80 - 2));
    assert_eq!(results::detail_height(detail.len()) as usize, detail.len() + 2);
    assert_eq!(footer_height(keys.len()) as usize, keys.len() + 2);

    let shown: Vec<String> = detail.iter().chain(keys.iter()).map(text_of).collect();
    let text = shown.join("\n");
    for needle in ["blake3", "wasted", "modified", "quit", "delete marked"] {
        assert!(
            text.contains(needle),
            "{needle:?} was clipped at 80 columns:\n{text}"
        );
    }
}

/// The footer advertises keys for the scan filters, so their current state has
/// to be on screen.
#[test]
fn the_picker_shows_the_filter_states_it_lets_you_toggle() {
    let mut app = app_with_results();
    app.screen = Screen::Picker;
    let text = screen_text(&mut app, 100, 20);
    for needle in ["hidden", "gitignore", "empty", "hardlinks"] {
        assert!(
            text.contains(needle),
            "the {needle:?} filter state is not visible:\n{text}"
        );
    }
}

/// Footer key labels must not use glyphs whose rendered width is unreliable.
/// Plain ASCII cannot misalign; the bare arrows are allowed because they render
/// narrow in practice.
#[test]
fn footer_key_labels_avoid_ambiguous_width_glyphs() {
    const ALLOWED_NON_ASCII: &[char] = &['\u{2191}', '\u{2193}'];

    for screen in SCREENS {
        let mut app = app_with_results();
        app.screen = screen;
        for (key, desc) in footer_keys(&app) {
            for c in key.chars().chain(desc.chars()) {
                assert!(
                    c.is_ascii() || ALLOWED_NON_ASCII.contains(&c),
                    "{screen:?}: key label {key:?}/{desc:?} uses U+{:04X}, whose \
                     rendered width is unreliable",
                    c as u32
                );
            }
        }
    }
}

#[test]
fn the_picker_footer_names_the_scan_target() {
    let mut app = browsing(&[("holidays", None)]);
    app.picker_selected = app
        .entries
        .iter()
        .position(|r| r.name == "holidays")
        .unwrap();

    let text = screen_text(&mut app, 100, 20);
    assert!(
        text.contains("SCAN holidays"),
        "the footer should name the highlighted directory:\n{text}"
    );
}

/// Files are listed for context, with their size, so you can see what you
/// are about to point the scanner at.
#[test]
fn the_picker_lists_files_with_their_sizes() {
    let mut app = browsing(&[("photos", None), ("holiday.mp4", Some(3 * 1024 * 1024))]);
    let text = screen_text(&mut app, 100, 20);

    assert!(text.contains("photos"), "directory missing:\n{text}");
    assert!(text.contains("holiday.mp4"), "file missing:\n{text}");
    assert!(text.contains("3 MiB"), "file size missing:\n{text}");
    assert!(
        text.contains("1 directories") && text.contains("1 files"),
        "the title should count both:\n{text}"
    );
}

/// Drive rows must be visually distinct from subdirectories, since entering
/// one moves to another disk rather than descending the current tree.
#[test]
fn drive_rows_render_as_drives() {
    let mut app = fresh("/tmp/dir");
    app.entries = App::drive_rows(&vec![path("C:\\"), path("D:\\")], &path("C:\\"));
    let text = screen_text(&mut app, 100, 20);
    assert!(
        text.contains("D:"),
        "the other drive should be listed:\n{text}"
    );
    assert!(
        text.contains("(drive)"),
        "a drive should be labelled as one:\n{text}"
    );
    assert!(
        text.contains("1 drives"),
        "the title should count drives:\n{text}"
    );
}

#[test]
fn the_parent_row_explains_what_s_does_there() {
    let mut app = browsing(&[]);
    let text = screen_text(&mut app, 100, 20);
    assert!(
        text.contains("current directory"),
        "the .. row should say that s scans where you are:\n{text}"
    );
}

#[test]
fn the_focused_pane_is_visually_distinct() {
    let mut app = app_with_results();
    app.pane = Pane::Groups;
    let groups_focused = (
        results::pane_tone(&app, Pane::Groups),
        results::pane_tone(&app, Pane::Files),
    );
    app.pane = Pane::Files;
    let files_focused = (
        results::pane_tone(&app, Pane::Groups),
        results::pane_tone(&app, Pane::Files),
    );
    assert_ne!(
        groups_focused, files_focused,
        "switching panes must change the rendered styles"
    );
}

#[test]
fn the_focused_pane_border_uses_the_accent_colour() {
    let mut app = app_with_results();
    app.pane = Pane::Groups;
    assert_eq!(
        results::pane_tone(&app, Pane::Groups),
        Tone::Accent,
        "the focused pane border should be drawn in the accent colour"
    );
    assert_eq!(results::pane_tone(&app, Pane::Files), Tone::Dim);
}

#[test]
fn a_large_list_only_exposes_one_viewport() {
    let range = visible_window(106_235, 50_000, 0, 40, 2);
    assert_eq!(range.len(), 40);
    assert!(range.contains(&50_000));
}

#[test]
fn retained_offset_moves_only_at_the_padding() {
    assert_eq!(visible_window(100, 11, 10, 10, 2), 9..19);
    assert_eq!(visible_window(100, 16, 10, 10, 2), 10..20);
    assert_eq!(visible_window(100, 18, 10, 10, 2), 11..21);
}

#[test]
fn tiny_and_empty_viewports_are_safe() {
    assert_eq!(visible_window(100, 99, 0, 0, 2), 0..0);
    assert_eq!(visible_window(100, 99, 0, 1, 2), 99..100);
    assert_eq!(visible_window(0, 0, 0, 20, 2), 0..0);
}

#[test]
fn packed_statistics_wrap_instead_of_running_out_of_the_frame() {
    let pair = |a: &str, b: &str| (a.to_string(), b.to_string());
    let pairs = || vec![pair("size", "1 KiB"), pair("files", "12"), pair("dirs", "3")];
    let wide = pack_stats(pairs(), 60);
    assert_eq!(wide.len(), 1);
    assert_eq!(text_of(&wide[0]), "size 1 KiB · files 12 · dirs 3");
    let narrow = pack_stats(pairs(), 14);
    assert_eq!(narrow.len(), 3);
    assert_eq!(text_of(&narrow[2]), "dirs 3");
}

#[test]
fn an_overlay_sits_in_the_middle_and_inside() {
    let screen = Area {
        x: 0,
        y: 0,
        width: 100,
        height: 30,
    };
    let r = centered(screen, 68, 13);
    assert_eq!((r.x, r.y, r.width, r.height), (16, 8, 68, 13));
    let r = centered(
        Area {
            x: 2,
            y: 3,
            width: 10,
            height: 4,
        },
        68,
        13,
    );
    assert_eq!((r.x, r.y, r.width, r.height), (2, 3, 10, 4));
}

#[test]
fn headers_and_reports_read_as_written() {
    assert_eq!(text_of(&header_title("scanning")), " dupefind — scanning ");
    assert_eq!(header_height(Screen::Results), 4);
    let text = modal::farewell_text(&report());
    assert!(text.contains('3') && text.contains("1 KiB"), "{text}");
    let text = modal::farewell_failure(&report().failures[0]);
    assert!(text.contains("/locked/file.bin") && text.contains("permission denied"));
    let mut app = app_with_results();
    app.report = Some(report());
    app.screen = Screen::Done;
    let text = screen_text(&mut app, 100, 30);
    assert!(text.contains("1 file could not be deleted"), "{text}");
    assert!(text.contains("press t on the dashboard"), "{text}");
}

#[test]
fn a_long_path_is_cut_from_the_left_and_a_reference_is_marked() {
    let mut app = app_with_results();
    app.groups[0].files[1].protected = true;
    app.groups[0].files[1].keep = true;
    let lines = results::file_lines(&app, &app.groups[0], 34);
    assert!(lines.iter().all(|l| width_of(l) <= 34));
    let text = text_of(&lines[2]);
    assert!(text.contains('…') && text.ends_with("IMG_0421.JPG"), "{text}");
    let wide = results::file_lines(&app, &app.groups[0], 120);
    assert_eq!(text_of(&wide[0]).contains("2019/IMG_0421.JPG"), true);
    assert_ne!(wide[0].spans[0].text, wide[1].spans[0].text);
}
