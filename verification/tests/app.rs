use dupefind::app::picker::{attrs_are_hidden, available_drives, ListedEntry, Listing};
use dupefind::app::{
    Action, App, DeletePlan, DirEntryRow, Key, KeyCode, Pane, RowKind, Screen,
};
use dupefind::delete::{pending_in, DeleteFailure, DeleteMode, DeleteMsg, DeleteReport};
use dupefind::model::{
    DupeGroup, FileEntry, Phase, ScanError, ScanMsg, ScanOptions, SortKey,
};
use dupefind::path::FilePath;
use dupefind::time::{Duration, FileTime};

fn path(text: &str) -> FilePath {
    FilePath::from_text(text)
}

fn fresh(dir: &str) -> App {
    App::new(
        path(dir),
        ScanOptions::default(),
        DeleteMode::Trash,
        path("/out"),
    )
}

fn press(app: &mut App, code: KeyCode) -> Action {
    app.on_key(
        Key {
            code,
            shift: false,
            control: false,
        },
        Duration::zero(),
    )
}

fn shifted(app: &mut App, code: KeyCode) {
    app.on_key(
        Key {
            code,
            shift: true,
            control: false,
        },
        Duration::zero(),
    );
}

fn entry(text: &str, size: u64, mtime: Option<u32>) -> FileEntry {
    FileEntry::new(path(text), size, mtime.map(FileTime::from_secs))
}

/// Two groups: a three-copy group and a two-copy group.
fn app_with_results() -> App {
    let mut app = fresh("/tmp");
    app.scan_root = Some(path("/scan/root"));
    app.groups = vec![
        DupeGroup::new(
            [1u8; 32],
            1000,
            vec![
                entry("/aaa/first.jpg", 1000, Some(100)),
                entry("/b.jpg", 1000, Some(300)),
                entry("/aaa/bbb/third.jpg", 1000, Some(200)),
            ],
        ),
        DupeGroup::new(
            [2u8; 32],
            50,
            vec![
                entry("/x/doc.pdf", 50, Some(10)),
                entry("/y/doc.pdf", 50, Some(20)),
            ],
        ),
    ];
    app.screen = Screen::Results;
    app.sort = SortKey::Wasted;
    app.sort_groups();
    app
}

/// `n` groups of two copies each, with distinct hashes and descending sizes
/// so the default sort order is stable and predictable.
fn app_with_results_of(n: usize) -> App {
    let mut app = fresh("/tmp");
    app.scan_root = Some(path("/scan/root"));
    app.groups = (0..n)
        .map(|i| {
            let size = ((n - i) * 1000) as u64;
            DupeGroup::new(
                [i as u8 + 1; 32],
                size,
                vec![
                    entry(&format!("/g{i}/a.bin"), size, Some(100)),
                    entry(&format!("/g{i}/b.bin"), size, Some(200)),
                ],
            )
        })
        .collect();
    app.screen = Screen::Results;
    app.sort_groups();
    app
}

/// The names of the rows that are directory contents, skipping the
/// current-directory, parent and drive rows, which are navigation.
fn content_names(app: &App) -> Vec<&str> {
    app.entries
        .iter()
        .filter(|r| matches!(r.kind, RowKind::Directory | RowKind::File))
        .map(|r| r.name.as_str())
        .collect()
}

/// Index of the row with this name, so picker tests never hard-code a
/// position. A wrong index would assert against the wrong row in silence.
fn row(app: &App, name: &str) -> usize {
    app.entries
        .iter()
        .position(|r| r.name == name)
        .unwrap_or_else(|| panic!("no row named {name:?}"))
}

/// A browser over directories and files that exist only here. A file has a size.
struct Browser {
    app: App,
    disk: Vec<(FilePath, Option<u64>)>,
}

impl Browser {
    fn open(dir: &str, disk: &[(&str, Option<u64>)]) -> Browser {
        let mut listed: Vec<(FilePath, Option<u64>)> = disk
            .iter()
            .map(|(name, size)| (path(dir).join(&path(name)), *size))
            .collect();
        let mut above = Some(path(dir));
        while let Some(p) = above {
            above = p.parent();
            listed.push((p, None));
        }
        let mut browser = Browser {
            app: fresh(dir),
            disk: listed,
        };
        browser.list();
        browser
    }

    fn list(&mut self) {
        let known = self
            .disk
            .iter()
            .any(|(p, size)| *p == self.app.cwd && size.is_none());
        let listing = if known {
            Listing::Entries(
                self.disk
                    .iter()
                    .filter(|(p, _)| p.parent().is_some_and(|up| up == self.app.cwd))
                    .map(|(p, size)| ListedEntry {
                        path: p.clone(),
                        is_dir: size.is_none(),
                        size: *size,
                        hidden: false,
                    })
                    .collect(),
            )
        } else {
            Listing::Unreadable("no such directory".to_string())
        };
        self.app.refresh_entries(listing, &available_drives());
    }

    fn press(&mut self, code: KeyCode) {
        match press(&mut self.app, code) {
            Action::List => self.list(),
            Action::ResolveReference(target) => {
                let resolved = Some(target.clone());
                self.app.toggle_reference(&target, resolved);
            }
            _ => {}
        }
    }
}

#[test]
fn a_fresh_app_starts_in_the_picker() {
    let app = fresh("/tmp");
    assert_eq!(app.screen, Screen::Picker);
    assert!(!app.should_quit);
}

#[test]
fn quick_select_keeps_the_first_copy_in_every_group() {
    let mut app = app_with_results();
    // Disturb the marks first so the assertion is meaningful.
    app.groups[0].keep_only(2);
    app.groups[1].keep_only(1);

    press(&mut app, KeyCode::Char('1'));

    for group in &app.groups {
        assert_eq!(group.keeper_count(), 1);
        assert!(group.files[0].keep, "the first copy should be the keeper");
    }
}

#[test]
fn every_bulk_strategy_leaves_one_keeper_per_group() {
    for code in ['1', '2', '3', '4'] {
        let mut app = app_with_results();
        press(&mut app, KeyCode::Char(code));
        for group in &app.groups {
            assert_eq!(
                group.keeper_count(),
                1,
                "strategy key {code} broke the one-keeper invariant"
            );
        }
    }
}

#[test]
fn keep_newest_selects_by_mtime() {
    let mut app = app_with_results();
    press(&mut app, KeyCode::Char('2'));
    let kept = app.groups[0].files.iter().find(|f| f.keep).unwrap();
    assert_eq!(kept.file_name(), "b.jpg", "b.jpg has the latest mtime");
}

#[test]
fn space_makes_the_highlighted_file_the_keeper() {
    let mut app = app_with_results();
    app.pane = Pane::Files;
    app.file_selected = 2;
    press(&mut app, KeyCode::Char(' '));
    assert!(app.groups[0].files[2].keep);
    assert_eq!(app.groups[0].keeper_count(), 1);
}

#[test]
fn space_un_skips_a_group_so_the_choice_takes_effect() {
    let mut app = app_with_results();
    app.groups[0].skipped = true;
    app.pane = Pane::Files;
    app.file_selected = 1;
    press(&mut app, KeyCode::Char(' '));
    assert!(!app.groups[0].skipped);
    assert!(app.groups[0].files[1].keep);
}

#[test]
fn toggling_the_last_keeper_is_refused_with_an_explanation() {
    let mut app = app_with_results();
    app.pane = Pane::Files;
    // Index 0 is the sole keeper after the default strategy.
    app.file_selected = 0;
    press(&mut app, KeyCode::Char('d'));

    assert_eq!(app.groups[0].keeper_count(), 1);
    assert!(
        app.status
            .as_deref()
            .unwrap_or_default()
            .contains("must be kept"),
        "the user should be told why nothing happened"
    );
}

#[test]
fn no_sequence_of_keys_can_mark_a_whole_group_for_deletion() {
    let mut app = app_with_results();
    app.pane = Pane::Files;
    // Walk the pane marking everything, several times over.
    for _ in 0..5 {
        for i in 0..app.groups[0].files.len() {
            app.file_selected = i;
            press(&mut app, KeyCode::Char('d'));
            assert!(app.groups[0].keeper_count() >= 1);
        }
    }
}

#[test]
fn skipping_a_group_excludes_it_from_the_plan() {
    let mut app = app_with_results();
    let before = app.total_marked();
    press(&mut app, KeyCode::Char('x'));
    assert!(app.groups[app.group_selected].skipped);
    assert!(app.total_marked() < before);
    // And toggling back restores it.
    press(&mut app, KeyCode::Char('x'));
    assert_eq!(app.total_marked(), before);
}

#[test]
fn tab_switches_panes() {
    let mut app = app_with_results();
    assert_eq!(app.pane, Pane::Groups);
    press(&mut app, KeyCode::Tab);
    assert_eq!(app.pane, Pane::Files);
    press(&mut app, KeyCode::Tab);
    assert_eq!(app.pane, Pane::Groups);
}

#[test]
fn navigation_stays_within_bounds() {
    let mut app = app_with_results();
    for _ in 0..50 {
        press(&mut app, KeyCode::Down);
    }
    assert_eq!(app.group_selected, app.groups.len() - 1);
    for _ in 0..50 {
        press(&mut app, KeyCode::Up);
    }
    assert_eq!(app.group_selected, 0);
}

#[test]
fn moving_between_groups_resets_the_file_cursor() {
    let mut app = app_with_results();
    app.pane = Pane::Files;
    app.file_selected = 2;
    app.pane = Pane::Groups;
    press(&mut app, KeyCode::Down);
    assert_eq!(app.file_selected, 0, "a new group starts at its first file");
}

#[test]
fn the_file_cursor_never_exceeds_the_smaller_group() {
    let mut app = app_with_results();
    // Group 0 has three files, group 1 has two.
    app.group_selected = 0;
    app.pane = Pane::Files;
    app.file_selected = 2;
    app.group_selected = 1;
    app.clamp_selection();
    assert!(app.file_selected < app.groups[1].files.len());
}

#[test]
fn navigating_an_empty_result_set_is_harmless() {
    let mut app = app_with_results();
    app.groups.clear();
    for code in [KeyCode::Down, KeyCode::Up, KeyCode::Home, KeyCode::End] {
        press(&mut app, code);
    }
    assert_eq!(app.group_selected, 0);
    assert_eq!(app.total_marked(), 0);
}

#[test]
fn sorting_keeps_the_cursor_on_the_same_group() {
    let mut app = app_with_results();
    app.group_selected = 1;
    let hash_before = app.groups[1].hash;
    press(&mut app, KeyCode::Char('s'));
    assert_eq!(
        app.groups[app.group_selected].hash, hash_before,
        "the highlighted group should follow the sort"
    );
}

#[test]
fn sorting_cycles_through_every_key() {
    let mut app = app_with_results();
    let mut seen = vec![app.sort];
    for _ in 0..3 {
        press(&mut app, KeyCode::Char('s'));
        seen.push(app.sort);
    }
    assert_eq!(seen.len(), 4);
    press(&mut app, KeyCode::Char('s'));
    assert_eq!(app.sort, seen[0], "sorting should cycle back around");
}

#[test]
fn t_toggles_the_delete_mode() {
    let mut app = app_with_results();
    assert_eq!(app.delete_mode, DeleteMode::Trash);
    press(&mut app, KeyCode::Char('t'));
    assert_eq!(app.delete_mode, DeleteMode::Permanent);
    press(&mut app, KeyCode::Char('t'));
    assert_eq!(app.delete_mode, DeleteMode::Trash);
}

#[test]
fn delete_needs_something_marked() {
    let mut app = app_with_results();
    // Skip every group so nothing is marked.
    for group in &mut app.groups {
        group.skipped = true;
    }
    press(&mut app, KeyCode::Char('D'));
    assert_eq!(
        app.screen,
        Screen::Results,
        "should not reach the confirmation"
    );
    assert!(app.status.is_some(), "the user should be told why");
}

#[test]
fn delete_opens_the_confirmation_when_files_are_marked() {
    let mut app = app_with_results();
    assert!(app.total_marked() > 0);
    press(&mut app, KeyCode::Char('D'));
    assert_eq!(app.screen, Screen::Confirm);
}

#[test]
fn escape_backs_out_of_the_confirmation_without_deleting() {
    let mut app = app_with_results();
    press(&mut app, KeyCode::Char('D'));
    assert_eq!(app.screen, Screen::Confirm);
    press(&mut app, KeyCode::Esc);
    assert_eq!(app.screen, Screen::Results);
}

#[test]
fn the_confirmation_can_switch_delete_mode_in_place() {
    let mut app = app_with_results();
    press(&mut app, KeyCode::Char('D'));
    press(&mut app, KeyCode::Char('t'));
    assert_eq!(app.screen, Screen::Confirm, "still confirming");
    assert_eq!(app.delete_mode, DeleteMode::Permanent);
}

#[test]
fn ctrl_c_quits_from_any_screen() {
    for screen in [
        Screen::Picker,
        Screen::Scanning,
        Screen::Results,
        Screen::Confirm,
        Screen::Deleting,
        Screen::Done,
    ] {
        let mut app = app_with_results();
        app.screen = screen;
        app.on_key(
            Key {
                code: KeyCode::Char('c'),
                shift: false,
                control: true,
            },
            Duration::zero(),
        );
        assert!(app.should_quit, "Ctrl-C should quit from {screen:?}");
    }
}

#[test]
fn escape_during_a_scan_requests_cancellation() {
    let mut app = app_with_results();
    app.screen = Screen::Scanning;
    press(&mut app, KeyCode::Esc);
    assert!(app.scan_state.is_cancelled());
    assert!(
        !app.should_quit,
        "cancelling a scan should not quit the app"
    );
}

#[test]
fn reclaimable_totals_reflect_the_current_marks() {
    let mut app = app_with_results();
    // Group 0: 3 copies of 1000 bytes -> 2000 reclaimable.
    // Group 1: 2 copies of 50 bytes   ->   50 reclaimable.
    assert_eq!(app.total_reclaimable(), 2_050);
    assert_eq!(app.total_marked(), 3);
    assert_eq!(app.total_duplicates(), 3);

    press(&mut app, KeyCode::Char('x')); // skip the selected group
    assert!(app.total_reclaimable() < 2_050);
}

#[test]
fn a_successful_delete_removes_the_entries_from_the_dashboard() {
    let mut app = app_with_results();
    // Everything that was marked actually went.
    let gone: Vec<FilePath> = pending_in(&app.groups.iter().collect())
        .into_iter()
        .map(|(p, _)| p)
        .collect();
    app.handle_delete_msg(DeleteMsg::Done(DeleteReport {
        deleted: gone.len() as u64,
        bytes_freed: 2_050,
        failures: Vec::new(),
        mode_label: "Trash".into(),
        deleted_paths: gone,
    }));

    assert_eq!(app.screen, Screen::Done);
    assert!(
        app.groups.is_empty(),
        "with one copy left per group there are no duplicates to show"
    );
}

#[test]
fn files_that_failed_to_delete_stay_listed() {
    let mut app = app_with_results();
    // The second copy of group 0 could not be removed; the third could.
    let stuck = app.groups[0].files[1].path.clone();
    let went = app.groups[0].files[2].path.clone();
    app.handle_delete_msg(DeleteMsg::Done(DeleteReport {
        deleted: 1,
        bytes_freed: 1_000,
        failures: vec![DeleteFailure {
            path: stuck.clone(),
            message: "permission denied".into(),
        }],
        mode_label: "Trash".into(),
        deleted_paths: vec![went.clone()],
    }));

    let still_there = app
        .groups
        .iter()
        .flat_map(|g| g.files.iter())
        .any(|f| f.path == stuck);
    assert!(
        still_there,
        "a file that is still on disk must still be shown"
    );
    let removed = app
        .groups
        .iter()
        .flat_map(|g| g.files.iter())
        .all(|f| f.path != went);
    assert!(
        removed,
        "the file that was deleted must be gone from the list"
    );
}

#[test]
fn a_skipped_group_survives_deletion_intact() {
    let mut app = app_with_results();
    app.groups[0].skipped = true;
    let before = app.groups[0].files.len();
    // Only the other group's marked copy was deleted.
    let gone: Vec<FilePath> = pending_in(&app.groups.iter().collect())
        .into_iter()
        .map(|(p, _)| p)
        .collect();
    assert!(
        gone.iter()
            .all(|p| !p.starts_with(&path("/aaa")) && p != &path("/b.jpg")),
        "a skipped group contributes no targets"
    );
    app.handle_delete_msg(DeleteMsg::Done(DeleteReport {
        deleted: gone.len() as u64,
        bytes_freed: 50,
        failures: Vec::new(),
        mode_label: "Trash".into(),
        deleted_paths: gone,
    }));
    let group = app
        .groups
        .iter()
        .find(|g| g.hash == [1u8; 32])
        .expect("the skipped group should still be listed");
    assert_eq!(group.files.len(), before);
}

// Single-file delete: the files pane needs a way to remove exactly the
// highlighted copy, without unmarking everything else first.
#[test]
fn delete_key_targets_only_the_highlighted_file() {
    let mut app = app_with_results();
    app.pane = Pane::Files;
    app.file_selected = 2;
    let target = app.groups[0].files[2].path.clone();

    press(&mut app, KeyCode::Delete);
    assert_eq!(app.screen, Screen::Confirm);
    assert_eq!(
        app.plan,
        DeletePlan::Single { group: 0, file: 2 },
        "the plan should name the highlighted file"
    );

    let targets = app.planned_targets();
    assert_eq!(targets.len(), 1, "exactly one file");
    assert_eq!(targets[0].0, target);
}

#[test]
fn delete_key_can_remove_a_copy_that_is_the_keeper() {
    let mut app = app_with_results();
    app.pane = Pane::Files;
    // Index 0 is the keeper after the default strategy.
    app.file_selected = 0;
    assert!(app.groups[0].files[0].keep);

    press(&mut app, KeyCode::Delete);
    let targets = app.planned_targets();
    assert_eq!(targets.len(), 1);
    assert_eq!(
        targets[0].0, app.groups[0].files[0].path,
        "the user may delete the keeper if that is what they highlighted"
    );
}

#[test]
fn deleting_the_keeper_leaves_the_group_with_a_new_one() {
    let mut app = app_with_results();
    let keeper = app.groups[0].files[0].path.clone();
    assert!(app.groups[0].files[0].keep);

    app.plan = DeletePlan::Single { group: 0, file: 0 };
    app.handle_delete_msg(DeleteMsg::Done(DeleteReport {
        deleted: 1,
        bytes_freed: 1_000,
        failures: Vec::new(),
        mode_label: "Trash".into(),
        deleted_paths: vec![keeper.clone()],
    }));

    let group = app
        .groups
        .iter()
        .find(|g| g.hash == [1u8; 32])
        .expect("two copies remain, so the group stands");
    assert!(
        group.files.iter().all(|f| f.path != keeper),
        "keeper removed"
    );
    assert_eq!(
        group.keeper_count(),
        1,
        "the one-keeper invariant must be restored, not left at zero"
    );
}

#[test]
fn a_single_delete_that_empties_a_group_drops_the_group() {
    let mut app = app_with_results();
    // Group 1 has exactly two copies; removing one leaves no duplicate.
    let victim = app.groups[1].files[0].path.clone();
    app.handle_delete_msg(DeleteMsg::Done(DeleteReport {
        deleted: 1,
        bytes_freed: 50,
        failures: Vec::new(),
        mode_label: "Trash".into(),
        deleted_paths: vec![victim],
    }));
    assert!(
        !app.groups.iter().any(|g| g.hash == [2u8; 32]),
        "a lone remaining copy is not a duplicate any more"
    );
}

#[test]
fn delete_key_refuses_when_only_one_copy_is_left() {
    let mut app = app_with_results();
    app.groups[0].files.truncate(1);
    app.group_selected = 0;
    app.pane = Pane::Files;
    app.file_selected = 0;

    press(&mut app, KeyCode::Delete);
    assert_eq!(app.screen, Screen::Results, "no confirmation should open");
    assert!(
        app.status
            .as_deref()
            .unwrap_or_default()
            .contains("last copy"),
        "the user should be told why: {:?}",
        app.status
    );
}

#[test]
fn delete_key_on_an_empty_result_set_is_harmless() {
    let mut app = app_with_results();
    app.groups.clear();
    press(&mut app, KeyCode::Delete);
    assert_eq!(app.screen, Screen::Results);
}

#[test]
fn escaping_a_single_delete_confirmation_deletes_nothing() {
    let mut app = app_with_results();
    app.pane = Pane::Files;
    app.file_selected = 1;
    press(&mut app, KeyCode::Delete);
    assert_eq!(app.screen, Screen::Confirm);
    press(&mut app, KeyCode::Esc);
    assert_eq!(app.screen, Screen::Results);
    assert_eq!(app.groups[0].files.len(), 3, "nothing removed");
}

#[test]
fn the_plan_resets_to_marked_after_a_single_delete() {
    let mut app = app_with_results();
    let victim = app.groups[0].files[1].path.clone();
    app.plan = DeletePlan::Single { group: 0, file: 1 };
    app.handle_delete_msg(DeleteMsg::Done(DeleteReport {
        deleted: 1,
        bytes_freed: 1_000,
        failures: Vec::new(),
        mode_label: "Trash".into(),
        deleted_paths: vec![victim],
    }));
    assert_eq!(
        app.plan,
        DeletePlan::Marked,
        "a later D must not reuse the stale single-file plan"
    );
}

#[test]
fn bulk_delete_still_plans_every_marked_copy() {
    let mut app = app_with_results();
    press(&mut app, KeyCode::Char('D'));
    assert_eq!(app.plan, DeletePlan::Marked);
    assert_eq!(app.planned_targets().len(), app.total_marked());
}

// ------------------------------------------------------ group selection

/// The selection is keyed by content hash, not row index: sorting reorders
/// the list, and an index-keyed set would silently point at other groups.
#[test]
fn a_selection_survives_re_sorting() {
    let mut app = app_with_results();
    app.group_selected = 0;
    press(&mut app, KeyCode::Char('m'));
    let picked = app.groups[0].hash;
    assert!(app.selected.contains(&picked));

    // Cycle through every sort order; the same group stays selected.
    for _ in 0..4 {
        press(&mut app, KeyCode::Char('s'));
        assert_eq!(app.selected.len(), 1, "selection size must not change");
        assert!(
            app.selected.contains(&picked),
            "the same group must stay selected after sorting"
        );
        let idx = app.groups.iter().position(|g| g.hash == picked).unwrap();
        assert!(app.is_selected(idx));
    }
}

#[test]
fn m_toggles_a_group_in_and_out() {
    let mut app = app_with_results();
    press(&mut app, KeyCode::Char('m'));
    assert_eq!(app.selected_count(), 1);
    press(&mut app, KeyCode::Char('m'));
    assert_eq!(app.selected_count(), 0);
}

#[test]
fn a_selects_all_then_clears() {
    let mut app = app_with_results();
    press(&mut app, KeyCode::Char('a'));
    assert_eq!(app.selected_count(), app.groups.len());
    press(&mut app, KeyCode::Char('a'));
    assert_eq!(app.selected_count(), 0);
}

#[test]
fn shift_down_extends_a_contiguous_block() {
    let mut app = app_with_results_of(5);
    app.group_selected = 1;
    for _ in 0..2 {
        shifted(&mut app, KeyCode::Down);
    }
    assert_eq!(app.group_selected, 3);
    assert_eq!(app.selected_count(), 3, "rows 1..=3");
    for idx in 1..=3 {
        assert!(app.is_selected(idx), "row {idx} should be selected");
    }
    assert!(!app.is_selected(0) && !app.is_selected(4));
}

/// Reversing direction must shrink the block, not leave rows behind.
#[test]
fn reversing_a_shift_extension_shrinks_the_block() {
    let mut app = app_with_results_of(5);
    app.group_selected = 0;
    for _ in 0..3 {
        shifted(&mut app, KeyCode::Down);
    }
    assert_eq!(app.selected_count(), 4, "rows 0..=3");

    shifted(&mut app, KeyCode::Up);
    assert_eq!(
        app.selected_count(),
        3,
        "coming back up must deselect the row we left"
    );
    assert!(!app.is_selected(3), "row 3 should no longer be selected");
}

#[test]
fn shift_extension_preserves_an_earlier_manual_selection() {
    let mut app = app_with_results_of(5);
    app.group_selected = 4;
    press(&mut app, KeyCode::Char('m')); // mark the last row
    let manual = app.groups[4].hash;

    app.group_selected = 0;
    shifted(&mut app, KeyCode::Down);
    assert!(
        app.selected.contains(&manual),
        "an extension must not discard what was already marked"
    );
    assert_eq!(app.selected_count(), 3, "rows 0..=1 plus the manual row 4");
}

#[test]
fn jk_extend_the_block_like_shift_arrows() {
    let mut app = app_with_results_of(5);
    app.group_selected = 0;
    press(&mut app, KeyCode::Char('J'));
    press(&mut app, KeyCode::Char('J'));
    assert_eq!(app.selected_count(), 3);
    press(&mut app, KeyCode::Char('K'));
    assert_eq!(app.selected_count(), 2, "K shrinks it again");
}

#[test]
fn a_plain_arrow_ends_the_block() {
    let mut app = app_with_results_of(5);
    app.group_selected = 0;
    shifted(&mut app, KeyCode::Down);
    assert_eq!(app.selected_count(), 2);

    press(&mut app, KeyCode::Down); // ends the extension
    shifted(&mut app, KeyCode::Down);
    // A new anchor started at row 2, so rows 2..=3 join the existing two.
    assert!(app.is_selected(2) && app.is_selected(3));
    assert_eq!(app.selected_count(), 4);
}

#[test]
fn escape_clears_a_selection_before_leaving_the_screen() {
    let mut app = app_with_results();
    press(&mut app, KeyCode::Char('a'));
    press(&mut app, KeyCode::Esc);
    assert_eq!(app.selected_count(), 0);
    assert_eq!(app.screen, Screen::Results, "first Esc only clears");

    press(&mut app, KeyCode::Esc);
    assert_eq!(app.screen, Screen::Picker, "second Esc leaves");
}

// --------------------------------------------------- selection scoping

/// The whole point: a batch delete must not touch groups outside the
/// selection. The user's case is a DLL shared by two applications.
#[test]
fn a_batch_delete_ignores_unselected_groups() {
    let mut app = app_with_results_of(3);
    // Select groups 0 and 2, leaving 1 alone.
    app.group_selected = 0;
    press(&mut app, KeyCode::Char('m'));
    app.group_selected = 2;
    press(&mut app, KeyCode::Char('m'));

    let protected: Vec<FilePath> = app.groups[1].files.iter().map(|f| f.path.clone()).collect();
    let targets = app.planned_targets();

    assert!(!targets.is_empty(), "the selected groups still have marks");
    for (path, _) in &targets {
        assert!(
            !protected.contains(path),
            "{path:?} is in an unselected group and must be spared"
        );
    }
}

/// The header number must equal what D will act on, or it misleads about an
/// irreversible action.
#[test]
fn the_totals_match_the_scoped_target_list() {
    let mut app = app_with_results_of(4);
    assert_eq!(app.total_marked(), app.planned_targets().len());

    app.group_selected = 1;
    press(&mut app, KeyCode::Char('m'));

    let targets = app.planned_targets();
    assert_eq!(app.total_marked(), targets.len());
    assert_eq!(
        app.total_reclaimable(),
        targets.iter().map(|(_, s)| s).sum::<u64>()
    );
    assert_eq!(targets.len(), 1, "one group of two copies, one marked");
}

#[test]
fn an_empty_selection_still_covers_every_group() {
    let mut app = app_with_results_of(4);
    let all_marked = app.total_marked();
    let all_bytes = app.total_reclaimable();
    let all_targets = app.planned_targets().len();

    // Select then clear: the scope must return to everything.
    press(&mut app, KeyCode::Char('a'));
    press(&mut app, KeyCode::Esc);
    assert_eq!(app.selected_count(), 0);
    assert_eq!(app.total_marked(), all_marked);
    assert_eq!(app.total_reclaimable(), all_bytes);
    assert_eq!(app.planned_targets().len(), all_targets);
}

#[test]
fn a_keeper_strategy_only_touches_selected_groups() {
    let mut app = app_with_results_of(3);
    app.group_selected = 0;
    press(&mut app, KeyCode::Char('m'));

    // Group 1 is unselected; note which copy it keeps.
    let untouched = app.groups[1]
        .files
        .iter()
        .position(|f| f.keep)
        .expect("a keeper exists");

    press(&mut app, KeyCode::Char('2')); // keep newest, in scope only

    assert_eq!(
        app.groups[1].files.iter().position(|f| f.keep),
        Some(untouched),
        "an unselected group must keep the copy it had"
    );
    // The selected group followed the strategy (b.bin is newer).
    assert_eq!(
        app.groups[0].files.iter().position(|f| f.keep),
        Some(1),
        "the selected group should now keep the newest copy"
    );
}

#[test]
fn x_skips_every_selected_group_at_once() {
    let mut app = app_with_results_of(4);
    app.group_selected = 0;
    shifted(&mut app, KeyCode::Down);
    shifted(&mut app, KeyCode::Down);
    assert_eq!(app.selected_count(), 3);

    press(&mut app, KeyCode::Char('x'));
    for idx in 0..3 {
        assert!(app.groups[idx].skipped, "group {idx} should be skipped");
    }
    assert!(!app.groups[3].skipped, "the unselected group is untouched");

    // A second press moves them all back, rather than flipping each.
    press(&mut app, KeyCode::Char('x'));
    assert!(app.groups[..3].iter().all(|g| !g.skipped));
}

#[test]
fn a_mixed_selection_skips_rather_than_flipping() {
    let mut app = app_with_results_of(3);
    app.groups[0].skipped = true;
    for group in &app.groups {
        app.selected.insert(group.hash);
    }

    // One is already skipped: the whole selection should end up skipped,
    // not have that one toggled back on.
    press(&mut app, KeyCode::Char('x'));
    assert!(
        app.groups.iter().all(|g| g.skipped),
        "a mixed selection resolves to all-skipped"
    );
}

#[test]
fn scoping_never_leaves_a_group_without_a_keeper() {
    let mut app = app_with_results_of(4);
    press(&mut app, KeyCode::Char('a'));
    for code in ['1', '2', '3', '4'] {
        press(&mut app, KeyCode::Char(code));
        for (i, g) in app.groups.iter().enumerate() {
            assert_eq!(g.keeper_count(), 1, "group {i} after {code}");
        }
    }
}

#[test]
fn a_completed_delete_clears_the_selection() {
    let mut app = app_with_results_of(3);
    press(&mut app, KeyCode::Char('a'));
    assert!(app.selected_count() > 0);

    let gone = vec![app.groups[0].files[1].path.clone()];
    app.handle_delete_msg(DeleteMsg::Done(DeleteReport {
        deleted: 1,
        bytes_freed: 10,
        failures: Vec::new(),
        mode_label: "Trash".into(),
        deleted_paths: gone,
    }));
    assert_eq!(
        app.selected_count(),
        0,
        "a stale selection would silently scope the next action"
    );
}

#[test]
fn the_picker_reads_real_directories() {
    let browser = Browser::open(
        "/tmp/dir",
        &[("beta", None), ("alpha", None), ("a-file.txt", Some(1))],
    );
    let app = &browser.app;
    assert_eq!(
        content_names(app),
        vec!["alpha", "beta", "a-file.txt"],
        "directories before files, each group sorted"
    );
    // Navigation rows lead the list: the scan-this-directory row, then `..`.
    assert_eq!(
        app.entries
            .iter()
            .map(|r| r.kind)
            .take(2)
            .collect::<Vec<_>>(),
        vec![RowKind::Current, RowKind::Parent]
    );
}

#[test]
fn files_are_listed_with_their_size() {
    let browser = Browser::open("/tmp/dir", &[("data.bin", Some(4096)), ("sub", None)]);
    let app = &browser.app;
    let file = app
        .entries
        .iter()
        .find(|e| e.name == "data.bin")
        .expect("the file should be listed");
    assert_eq!(file.kind, RowKind::File);
    assert_eq!(file.size, Some(4096));

    let sub = app.entries.iter().find(|e| e.name == "sub").unwrap();
    assert_eq!(sub.kind, RowKind::Directory);
    assert_eq!(sub.size, None, "directories carry no size");
}

#[test]
fn directories_always_sort_before_files() {
    // Names chosen so alphabetical order alone would interleave them.
    let browser = Browser::open("/tmp/dir", &[("aaa.txt", Some(1)), ("zzz", None)]);
    assert_eq!(content_names(&browser.app), vec!["zzz", "aaa.txt"]);
}

#[test]
fn a_highlighted_file_is_never_the_scan_target() {
    let mut browser = Browser::open("/tmp/dir", &[("note.txt", Some(1))]);
    let idx = row(&browser.app, "note.txt");
    browser.app.picker_selected = idx;

    // A file cannot be scanned, so the target falls back to its directory.
    assert_eq!(browser.app.scan_target(), path("/tmp/dir"));
    browser.press(KeyCode::Char('s'));
    assert_eq!(browser.app.scan_root, Some(path("/tmp/dir")));
}

#[test]
fn enter_on_a_file_does_nothing() {
    let mut browser = Browser::open("/tmp/dir", &[("note.txt", Some(1))]);
    let idx = row(&browser.app, "note.txt");
    browser.app.picker_selected = idx;

    browser.press(KeyCode::Enter);
    assert_eq!(browser.app.cwd, path("/tmp/dir"), "a file is not navigable");
    assert_eq!(browser.app.screen, Screen::Picker);
    assert_eq!(
        browser.app.picker_selected, idx,
        "the highlight should not move"
    );
}

#[test]
fn hidden_files_respect_the_same_toggle_as_hidden_directories() {
    let mut browser = Browser::open("/tmp/dir", &[(".secret.txt", Some(1))]);
    assert!(!browser.app.entries.iter().any(|e| e.name == ".secret.txt"));
    browser.press(KeyCode::Char('.'));
    assert!(browser.app.entries.iter().any(|e| e.name == ".secret.txt"));
}

#[test]
fn the_picker_toggles_hidden_directories() {
    let mut browser = Browser::open("/tmp/dir", &[(".secret", None)]);
    assert!(!browser.app.entries.iter().any(|e| e.name == ".secret"));
    browser.press(KeyCode::Char('.'));
    assert!(browser.app.entries.iter().any(|e| e.name == ".secret"));
}

#[test]
fn the_picker_navigates_into_and_back_out_of_directories() {
    let mut browser = Browser::open("/tmp/dir", &[("child", None)]);
    browser.app.picker_selected = row(&browser.app, "child");
    browser.press(KeyCode::Enter);
    assert_eq!(browser.app.cwd, path("/tmp/dir/child"));

    browser.press(KeyCode::Backspace);
    assert_eq!(browser.app.cwd, path("/tmp/dir"));
}

/// The highlight is the scan target, which is what the highlight looks like
/// it means. Pressing `s` on a subdirectory must not scan its parent.
#[test]
fn s_scans_the_highlighted_directory() {
    let mut browser = Browser::open("/tmp/dir", &[("alpha", None), ("beta", None)]);
    browser.app.picker_selected = row(&browser.app, "beta");
    assert_eq!(browser.app.scan_target(), path("/tmp/dir/beta"));
    assert_eq!(browser.app.scan_target_label(), "beta");

    browser.press(KeyCode::Char('s'));
    assert_eq!(browser.app.screen, Screen::Scanning);
    assert_eq!(
        browser.app.scan_root,
        Some(path("/tmp/dir/beta")),
        "s must scan the highlighted directory, not its parent"
    );
}

#[test]
fn s_on_the_parent_row_scans_the_current_directory() {
    let mut browser = Browser::open("/tmp/dir", &[("child", None)]);
    browser.app.picker_selected = 0;
    assert_eq!(browser.app.scan_target(), path("/tmp/dir"));

    browser.press(KeyCode::Char('s'));
    assert_eq!(browser.app.scan_root, Some(path("/tmp/dir")));
}

#[test]
fn the_scan_target_falls_back_to_the_current_directory() {
    let mut browser = Browser::open("/tmp", &[]);
    // An unreadable directory leaves no navigable rows.
    browser.app.cwd = path("/definitely/does/not/exist");
    browser.list();
    browser.app.entries.clear();
    assert_eq!(browser.app.scan_target(), browser.app.cwd);
}

#[test]
fn the_scan_target_follows_the_highlight() {
    let mut browser = Browser::open("/tmp/dir", &[("one", None), ("two", None)]);
    // Rows: scan-this-directory, "..", then the two subdirectories.
    browser.app.picker_selected = row(&browser.app, "one");
    assert_eq!(browser.app.scan_target_label(), "one");
    browser.press(KeyCode::Down);
    assert_eq!(browser.app.scan_target_label(), "two");
    browser.press(KeyCode::Up);
    assert_eq!(browser.app.scan_target_label(), "one");
}

// Windows has no parent above C:\, so drives must be reachable some other
// way. These exercise the pure row builder, so they run on any platform.
#[test]
fn drive_rows_offer_the_other_drives() {
    let drives = vec![path("C:\\"), path("D:\\"), path("E:\\")];
    let rows = App::drive_rows(&drives, &path("C:\\"));
    let names: Vec<&str> = rows.iter().map(|r| r.name.as_str()).collect();
    assert_eq!(
        names,
        vec!["D:\\", "E:\\"],
        "the current drive is not offered"
    );
    assert!(rows.iter().all(|r| r.kind == RowKind::Drive));
    assert!(rows.iter().all(|r| r.is_navigable()));
}

#[test]
fn drive_rows_are_empty_when_there_is_one_drive() {
    let drives = vec![path("C:\\")];
    assert!(App::drive_rows(&drives, &path("C:\\")).is_empty());
}

#[test]
fn drive_rows_are_empty_on_a_system_without_drives() {
    // available_drives() returns nothing on Unix.
    assert!(App::drive_rows(&vec![], &path("/")).is_empty());
}

#[test]
fn a_drive_row_is_a_valid_scan_target() {
    let mut app = fresh("/tmp");
    app.entries = App::drive_rows(&vec![path("C:\\"), path("D:\\")], &path("C:\\"));
    app.picker_selected = 0;
    // Drives are directories, so `s` scans the whole disk.
    assert_eq!(app.scan_target(), path("D:\\"));
}

#[test]
fn d_jumps_to_the_top_of_the_current_tree() {
    let nested = path("/tmp/dir/a/b/c");
    let mut browser = Browser::open("/tmp/dir/a/b/c", &[]);
    browser.press(KeyCode::Char('d'));
    assert!(
        browser.app.cwd.parent().is_none(),
        "d should land on a root, got {:?}",
        browser.app.cwd
    );
    assert!(
        nested.starts_with(&browser.app.cwd),
        "the root should be an ancestor of where we started"
    );
    assert_eq!(browser.app.picker_selected, 0);
}

#[test]
fn hidden_attribute_bits_are_read_correctly() {
    const NORMAL: u32 = 0x80;
    const HIDDEN: u32 = 0x2;
    const SYSTEM: u32 = 0x4;
    const DIRECTORY: u32 = 0x10;

    assert!(attrs_are_hidden(HIDDEN), "a hidden file is hidden");
    assert!(
        attrs_are_hidden(HIDDEN | SYSTEM | DIRECTORY),
        "$Recycle.Bin and System Volume Information are hidden+system dirs"
    );
    assert!(!attrs_are_hidden(NORMAL), "an ordinary file is not hidden");
    assert!(
        !attrs_are_hidden(SYSTEM | DIRECTORY),
        "system-only is deliberately NOT hidden: that would suppress \
         directories a user may want"
    );
    assert!(!attrs_are_hidden(0), "no attributes means not hidden");
}

#[test]
fn available_drives_is_empty_on_unix() {
    assert!(available_drives().is_empty());
}

#[test]
fn the_filesystem_root_lists_no_parent_row() {
    let mut browser = Browser::open("/tmp", &[]);
    browser.app.cwd = browser.app.cwd.top();
    assert!(
        browser.app.cwd.parent().is_none(),
        "precondition: {:?}",
        browser.app.cwd
    );
    browser.list();
    assert!(
        !browser.app.entries.iter().any(|e| e.kind == RowKind::Parent),
        "the root has no parent to offer"
    );
    // But it must still offer itself, or the drive is unscannable.
    assert_eq!(
        browser.app.entries.first().map(|e| e.kind),
        Some(RowKind::Current)
    );
}

/// At a drive root there is no `..`, so if the directory held no files nothing
/// would denote the drive without a row of its own.
#[test]
fn a_parentless_directory_with_no_files_is_still_scannable() {
    let mut app = fresh("/tmp");
    let drive = path("C:\\");
    app.cwd = drive.clone();
    // Exactly what a bare Windows drive root looks like: no parent row, no
    // files, only subdirectories.
    app.entries = vec![
        DirEntryRow {
            name: drive.display(),
            path: drive.clone(),
            kind: RowKind::Current,
            size: None,
        },
        DirEntryRow {
            name: "Windows".into(),
            path: drive.join(&path("Windows")),
            kind: RowKind::Directory,
            size: None,
        },
    ];

    assert!(
        !app.entries.iter().any(|r| r.kind == RowKind::Parent),
        "precondition: a drive root has no parent row"
    );
    assert!(
        !app.entries.iter().any(|r| r.kind == RowKind::File),
        "precondition: no file row to fall back on"
    );

    app.picker_selected = 0;
    assert_eq!(
        app.scan_target(),
        drive,
        "the first row must target the drive itself"
    );
}

/// Every kind spelled out, so the match cannot quietly regress into a
/// catch-all.
#[test]
fn scan_target_is_defined_for_every_row_kind() {
    let mut app = fresh("/tmp");
    let cwd = path("/scan/here");
    let parent = path("/scan");
    app.cwd = cwd.clone();
    app.entries = vec![
        DirEntryRow {
            name: "cur".into(),
            path: cwd.clone(),
            kind: RowKind::Current,
            size: None,
        },
        DirEntryRow {
            name: "..".into(),
            path: parent.clone(),
            kind: RowKind::Parent,
            size: None,
        },
        DirEntryRow {
            name: "D:\\".into(),
            path: path("D:\\"),
            kind: RowKind::Drive,
            size: None,
        },
        DirEntryRow {
            name: "sub".into(),
            path: cwd.join(&path("sub")),
            kind: RowKind::Directory,
            size: None,
        },
        DirEntryRow {
            name: "f.bin".into(),
            path: cwd.join(&path("f.bin")),
            kind: RowKind::File,
            size: Some(1),
        },
    ];

    let expected = [
        (RowKind::Current, cwd.clone()),
        // The parent row denotes the parent, so that is what it scans.
        (RowKind::Parent, parent),
        (RowKind::Drive, path("D:\\")),
        (RowKind::Directory, cwd.join(&path("sub"))),
        // A file cannot be scanned; its containing directory is the target.
        (RowKind::File, cwd.clone()),
    ];
    for (idx, (kind, want)) in expected.iter().enumerate() {
        app.picker_selected = idx;
        assert_eq!(app.scan_target(), *want, "for {kind:?}");
    }
}

#[test]
fn the_action_row_is_first_in_every_listing() {
    let mut browser = Browser::open("/tmp/dir", &[("sub", None), ("f.txt", Some(1))]);
    assert_eq!(
        browser.app.entries.first().map(|r| r.kind),
        Some(RowKind::Current)
    );
    assert_eq!(browser.app.picker_selected, 0, "and starts highlighted");
    assert_eq!(browser.app.scan_target(), path("/tmp/dir"));

    // Still first after descending.
    browser.app.picker_selected = row(&browser.app, "sub");
    browser.press(KeyCode::Enter);
    assert_eq!(
        browser.app.entries.first().map(|r| r.kind),
        Some(RowKind::Current)
    );
    assert_eq!(browser.app.scan_target(), path("/tmp/dir/sub"));
}

#[test]
fn enter_on_the_action_row_goes_nowhere() {
    let mut browser = Browser::open("/tmp/dir", &[("sub", None)]);
    browser.app.picker_selected = 0;
    browser.press(KeyCode::Enter);
    assert_eq!(
        browser.app.cwd,
        path("/tmp/dir"),
        "there is nothing to descend into"
    );
    assert_eq!(browser.app.screen, Screen::Picker);
}

#[test]
fn s_on_the_action_row_scans_the_current_directory() {
    let mut browser = Browser::open("/tmp/dir", &[("sub", None)]);
    browser.app.picker_selected = 0;
    browser.press(KeyCode::Char('s'));
    assert_eq!(browser.app.screen, Screen::Scanning);
    assert_eq!(browser.app.scan_root, Some(path("/tmp/dir")));
}

#[test]
fn the_picker_toggles_scan_filters() {
    let mut browser = Browser::open("/tmp", &[]);
    assert!(browser.app.options.skip_hidden);
    browser.press(KeyCode::Char('1'));
    assert!(!browser.app.options.skip_hidden);
    assert!(browser.app.options.respect_gitignore);
    browser.press(KeyCode::Char('2'));
    assert!(!browser.app.options.respect_gitignore);
    assert!(!browser.app.options.use_cache);
    browser.press(KeyCode::Char('5'));
    assert!(browser.app.options.use_cache);
}

#[test]
fn the_picker_can_toggle_a_reference_directory() {
    let mut browser = Browser::open("/tmp/dir", &[("reference", None)]);
    let reference = path("/tmp/dir/reference");
    browser.app.picker_selected = browser
        .app
        .entries
        .iter()
        .position(|row| row.path == reference)
        .unwrap();

    browser.press(KeyCode::Char('R'));
    assert_eq!(browser.app.options.reference_roots, vec![reference]);
    browser.press(KeyCode::Char('R'));
    assert!(browser.app.options.reference_roots.is_empty());
}

#[test]
fn an_unreadable_directory_surfaces_an_error_instead_of_panicking() {
    let mut browser = Browser::open("/tmp", &[]);
    browser.app.cwd = path("/definitely/does/not/exist");
    browser.list();
    assert!(browser.app.picker_error.is_some());
    // The parent row is still offered so the user is not stranded.
    assert!(browser
        .app
        .entries
        .iter()
        .any(|e| e.kind == RowKind::Parent));
}

#[test]
fn busy_only_while_a_worker_runs() {
    let mut app = app_with_results();
    assert!(!app.is_busy());
    app.screen = Screen::Scanning;
    assert!(app.is_busy());
    app.screen = Screen::Deleting;
    assert!(app.is_busy());
    app.screen = Screen::Done;
    assert!(!app.is_busy());
}

#[test]
fn a_root_inside_a_reference_is_not_scanned() {
    let mut browser = Browser::open("/tmp/dir", &[("sub", None)]);
    browser.app.options.reference_roots = vec![path("/tmp")];
    browser.press(KeyCode::Char('s'));
    assert_eq!(browser.app.screen, Screen::Picker);
    assert!(browser.app.scan_root.is_none());
    assert!(browser.app.status.is_some(), "the user should be told why");
}

#[test]
fn a_confirmed_deletion_hands_out_exactly_the_planned_files() {
    let mut app = app_with_results();
    press(&mut app, KeyCode::Char('D'));
    let planned = app.planned_targets();
    let action = press(&mut app, KeyCode::Char('y'));
    let Action::Delete(targets) = action else {
        panic!("{action:?}");
    };
    assert_eq!(targets, planned);
    assert_eq!(app.screen, Screen::Deleting);
    assert_eq!(targets.len(), 3);
}

#[test]
fn a_stopped_scan_goes_back_to_the_browser() {
    let mut app = fresh("/tmp");
    app.start_scan(path("/tmp"), Duration::from_secs(1));
    app.handle_scan_msg(ScanMsg::Cancelled, Duration::from_secs(4));
    assert_eq!(app.screen, Screen::Picker);
    assert_eq!(app.elapsed(Duration::from_secs(9)), Duration::from_secs(3));
    assert!(app.status.is_some());
}

#[test]
fn a_finished_scan_shows_its_groups_in_order() {
    let mut app = fresh("/tmp");
    app.start_scan(path("/tmp"), Duration::from_secs(1));
    app.handle_scan_msg(ScanMsg::Phase(Phase::FullHashing), Duration::from_secs(2));
    assert_eq!(app.phase, Phase::FullHashing);
    app.handle_scan_msg(
        ScanMsg::Error(ScanError::new(None, "loop".to_string())),
        Duration::from_secs(2),
    );
    assert_eq!(app.errors.len(), 1);
    let small = DupeGroup::new([1; 32], 5, vec![entry("/a", 5, None), entry("/b", 5, None)]);
    let large = DupeGroup::new([2; 32], 9, vec![entry("/c", 9, None), entry("/d", 9, None)]);
    app.handle_scan_msg(ScanMsg::Done(vec![small, large]), Duration::from_secs(3));
    assert_eq!(app.screen, Screen::Results);
    assert_eq!(app.groups[0].hash, [2; 32]);
    assert_eq!(app.elapsed(Duration::from_secs(99)), Duration::from_secs(2));
}

#[test]
fn problems_are_kept_up_to_a_bound() {
    let mut app = fresh("/tmp");
    for n in 0..1_005 {
        app.handle_scan_msg(
            ScanMsg::Error(ScanError::new(None, format!("{n}"))),
            Duration::zero(),
        );
    }
    assert_eq!(app.errors.len(), 1_000);
    assert_eq!(app.errors[0].message, "0");
}

#[test]
fn an_export_needs_a_scan_and_is_reported() {
    let mut app = app_with_results();
    let action = press(&mut app, KeyCode::Char('e'));
    assert!(matches!(action, Action::Export), "{action:?}");
    app.note_export(&dupefind::export::ExportOutcome {
        json: Ok(path("/out/a.json")),
        text: Err("full".to_string()),
    });
    assert_eq!(
        app.status.as_deref(),
        Some("Exported a.json; text export failed: full")
    );
}

#[test]
fn a_protected_copy_cannot_be_deleted_alone() {
    let mut app = app_with_results();
    app.groups[0].files[1].protected = true;
    app.groups[0].files[1].keep = true;
    app.pane = Pane::Files;
    app.file_selected = 1;
    press(&mut app, KeyCode::Delete);
    assert_eq!(app.screen, Screen::Results, "no confirmation should open");
    app.plan = DeletePlan::Single { group: 0, file: 1 };
    assert!(app.planned_targets().is_empty());
}

#[test]
fn each_sort_order_lists_its_own_first_group() {
    let mut app = fresh("/tmp");
    app.groups = vec![
        DupeGroup::new([9; 32], 4, vec![entry("/b", 4, None), entry("/c", 4, None)]),
        DupeGroup::new(
            [8; 32],
            2,
            vec![entry("/a", 2, None), entry("/d", 2, None), entry("/e", 2, None)],
        ),
    ];
    app.sort = SortKey::Count;
    app.sort_groups();
    assert_eq!(app.groups[0].hash, [8; 32]);
    app.sort = SortKey::Size;
    app.sort_groups();
    assert_eq!(app.groups[0].hash, [9; 32]);
    app.sort = SortKey::Name;
    app.sort_groups();
    assert_eq!(app.groups[0].hash, [8; 32]);
}

#[test]
fn references_are_sorted_and_listed_once_when_a_scan_starts() {
    let mut app = fresh("/tmp");
    app.options.reference_roots = vec![path("/b"), path("/a"), path("/b/"), path("/a/c")];
    let action = app.start_scan(path("/tmp"), Duration::zero());
    assert!(matches!(action, Action::Scan(_)), "{action:?}");
    assert_eq!(
        app.options.reference_roots,
        vec![path("/a"), path("/a/c"), path("/b")]
    );
}

#[test]
fn a_reference_that_cannot_be_resolved_is_not_added() {
    let mut app = fresh("/tmp");
    app.toggle_reference(&path("/gone"), None);
    assert!(app.options.reference_roots.is_empty());
    assert_eq!(
        app.status.as_deref(),
        Some("Cannot resolve reference /gone")
    );
}

#[test]
fn selecting_all_goes_by_the_groups_that_are_listed() {
    let mut app = fresh("/nx");
    app.groups = vec![DupeGroup::new(
        [1; 32],
        5,
        vec![entry("/a", 5, None), entry("/b", 5, None)],
    )];
    app.selected.insert([9; 32]);
    app.toggle_select_all();
    assert!(app.selected.contains(&[1; 32]) && app.selected.len() == 1);

    // With every group in, the selection is cleared, whatever else it holds.
    app.selected.insert([9; 32]);
    app.toggle_select_all();
    assert!(app.selected.is_empty());
}

#[test]
fn d_keeps_a_root_as_it_is_spelled() {
    for text in ["//", "/."] {
        let mut browser = Browser::open(text, &[]);
        browser.press(KeyCode::Char('d'));
        assert_eq!(browser.app.cwd.display(), text);
        assert!(browser.app.cwd.parent().is_none());
    }
}
