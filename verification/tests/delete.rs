use dupefind::delete::{
    pending_in, DeleteMode, DeleteMsg, DeleteReport, DeleteRun, DeleteState,
};
use dupefind::model::{DupeGroup, FileEntry, KeepStrategy};
use dupefind::path::FilePath;

/// The files that exist, by their text.
struct Disk {
    files: Vec<String>,
}

impl Disk {
    fn holds(&self, path: &str) -> bool {
        self.files.iter().any(|f| f == path)
    }

    fn remove(&mut self, path: &FilePath) -> Result<(), String> {
        let text = path.display();
        match self.files.iter().position(|f| *f == text) {
            Some(at) => {
                self.files.remove(at);
                Ok(())
            }
            None => Err("no such file".to_string()),
        }
    }
}

/// A group of three identical files in `dir`, the first kept.
fn group_in(disk: &mut Disk, dir: &str) -> DupeGroup {
    let size = b"duplicate payload".len() as u64;
    let files = ["keep.bin", "drop1.bin", "drop2.bin"]
        .iter()
        .map(|name| {
            let path = format!("{dir}/{name}");
            disk.files.push(path.clone());
            FileEntry::new(FilePath::from_text(&path), size, None)
        })
        .collect();
    DupeGroup::new([9u8; 32], size, files)
}

fn run_with(
    disk: &mut Disk,
    targets: Vec<(FilePath, u64)>,
    mode: DeleteMode,
    state: &mut DeleteState,
) -> DeleteReport {
    let mut run = DeleteRun::start(targets, mode, state);
    while let Some(path) = run.next_target(state) {
        let outcome = disk.remove(&path);
        run.record(outcome, state);
    }
    let DeleteMsg::Done(report) = run.finish();
    report
}

fn run_sync(disk: &mut Disk, targets: Vec<(FilePath, u64)>, mode: DeleteMode) -> DeleteReport {
    run_with(disk, targets, mode, &mut DeleteState::default())
}

fn empty_disk() -> Disk {
    Disk { files: Vec::new() }
}

#[test]
fn pending_lists_only_the_unkept_copies() {
    let group = group_in(&mut empty_disk(), "/d");
    let targets = pending_in(&vec![&group]);

    assert_eq!(targets.len(), 2);
    assert!(
        !targets.iter().any(|(p, _)| p.name_text() == "keep.bin"),
        "the keeper must never be a deletion target"
    );
}

#[test]
fn a_protected_copy_is_never_a_pending_target() {
    let mut group = group_in(&mut empty_disk(), "/d");
    group.files[1].protected = true;
    group.files[1].keep = false;

    let targets = pending_in(&vec![&group]);
    assert!(!targets.iter().any(|(p, _)| p.name_text() == "drop1.bin"));
}

#[test]
fn a_skipped_group_contributes_no_targets() {
    let mut group = group_in(&mut empty_disk(), "/d");
    group.skipped = true;
    assert!(pending_in(&vec![&group]).is_empty());
}

#[test]
fn pending_totals_agree_with_the_group_arithmetic() {
    let group = group_in(&mut empty_disk(), "/d");
    let targets = pending_in(&vec![&group]);

    assert_eq!(targets.len(), group.marked());
    assert_eq!(
        targets.iter().map(|(_, s)| s).sum::<u64>(),
        group.reclaimable()
    );
}

#[test]
fn pending_in_narrows_to_the_groups_it_is_given() {
    let mut disk = empty_disk();
    let a = group_in(&mut disk, "/d/a");
    let b = group_in(&mut disk, "/d/b");

    let both = pending_in(&vec![&a, &b]);
    let just_a = pending_in(&vec![&a]);
    assert_eq!(both.len(), just_a.len() * 2);
    assert!(just_a
        .iter()
        .all(|(p, _)| p.starts_with(&FilePath::from_text("/d/a"))));
}

#[test]
fn permanent_deletion_removes_the_marked_copies_and_keeps_the_keeper() {
    let mut disk = empty_disk();
    let group = group_in(&mut disk, "/d");
    let report = run_sync(&mut disk, pending_in(&vec![&group]), DeleteMode::Permanent);

    assert_eq!(report.deleted, 2);
    assert!(report.failures.is_empty(), "{:?}", report.failures);
    assert!(disk.holds("/d/keep.bin"), "the kept copy must survive");
    assert!(!disk.holds("/d/drop1.bin"));
    assert!(!disk.holds("/d/drop2.bin"));
}

#[test]
fn changing_the_keeper_changes_what_gets_deleted() {
    let mut disk = empty_disk();
    let mut group = group_in(&mut disk, "/d");
    // All three names are the same length, so pick explicitly rather than
    // relying on a tie-break.
    let keep_idx = group
        .files
        .iter()
        .position(|f| f.file_name() == "drop2.bin")
        .unwrap();
    group.keep_only(keep_idx);

    let report = run_sync(&mut disk, pending_in(&vec![&group]), DeleteMode::Permanent);

    assert_eq!(report.deleted, 2);
    assert!(
        disk.holds("/d/drop2.bin"),
        "the newly chosen keeper must survive"
    );
    assert!(!disk.holds("/d/keep.bin"));
}

#[test]
fn a_missing_file_is_reported_as_a_failure_not_a_crash() {
    let ghost = FilePath::from_text("/d/never-existed.bin");
    let report = run_sync(
        &mut empty_disk(),
        vec![(ghost.clone(), 10)],
        DeleteMode::Permanent,
    );

    assert_eq!(report.deleted, 0);
    assert_eq!(report.failures.len(), 1);
    assert_eq!(report.failures[0].path, ghost);
    assert_eq!(report.failures[0].message, "no such file");
}

#[test]
fn one_failure_does_not_stop_the_rest() {
    let mut disk = Disk {
        files: vec!["/d/real.bin".to_string()],
    };
    let report = run_sync(
        &mut disk,
        vec![
            (FilePath::from_text("/d/missing.bin"), 7),
            (FilePath::from_text("/d/real.bin"), 7),
        ],
        DeleteMode::Permanent,
    );

    assert_eq!(report.deleted, 1, "the deletable file should still go");
    assert_eq!(report.failures.len(), 1);
    assert!(!disk.holds("/d/real.bin"));
}

#[test]
fn bytes_freed_only_counts_successful_deletions() {
    let mut disk = Disk {
        files: vec!["/d/real.bin".to_string()],
    };
    let report = run_sync(
        &mut disk,
        vec![
            (FilePath::from_text("/d/real.bin"), 5),
            (FilePath::from_text("/d/ghost.bin"), 999),
        ],
        DeleteMode::Permanent,
    );
    assert_eq!(report.bytes_freed, 5, "the failed file freed nothing");
}

#[test]
fn cancelling_stops_before_the_next_file() {
    let mut disk = Disk {
        files: vec!["/d/a.bin".to_string(), "/d/b.bin".to_string()],
    };
    let mut state = DeleteState::default();
    state.request_cancel();
    let report = run_with(
        &mut disk,
        vec![
            (FilePath::from_text("/d/a.bin"), 1),
            (FilePath::from_text("/d/b.bin"), 1),
        ],
        DeleteMode::Permanent,
        &mut state,
    );
    assert_eq!(report.deleted, 0);
    assert!(
        disk.holds("/d/a.bin") && disk.holds("/d/b.bin"),
        "a cancelled run deletes nothing"
    );
}

#[test]
fn an_empty_target_list_is_a_no_op() {
    let report = run_sync(&mut empty_disk(), Vec::new(), DeleteMode::Permanent);
    assert_eq!(report.deleted, 0);
    assert!(report.failures.is_empty());
}

#[test]
fn the_report_records_which_mode_ran() {
    let report = run_sync(&mut empty_disk(), Vec::new(), DeleteMode::Permanent);
    assert_eq!(report.mode_label, "Permanent");
    let report = run_sync(&mut empty_disk(), Vec::new(), DeleteMode::Trash);
    assert_eq!(report.mode_label, "Trash");
}

#[test]
fn delete_mode_toggles_between_exactly_two_states() {
    assert_eq!(DeleteMode::Trash.toggled(), DeleteMode::Permanent);
    assert_eq!(DeleteMode::Permanent.toggled(), DeleteMode::Trash);
}

#[test]
fn deleting_across_several_groups_respects_every_keeper() {
    let mut disk = empty_disk();
    let mut groups = Vec::new();
    for g in 0..3 {
        let mut group = group_in(&mut disk, &format!("/d/g{g}"));
        group.apply_strategy(KeepStrategy::First);
        groups.push(group);
    }

    let report = run_sync(
        &mut disk,
        pending_in(&groups.iter().collect()),
        DeleteMode::Permanent,
    );
    assert_eq!(
        report.deleted, 6,
        "two of three copies in each of three groups"
    );

    for g in 0..3 {
        assert!(
            disk.holds(&format!("/d/g{g}/keep.bin")),
            "group {g} lost its keeper"
        );
    }
}

#[test]
fn progress_counts_what_was_done_and_what_failed() {
    let mut disk = Disk {
        files: vec!["/d/real.bin".to_string()],
    };
    let mut state = DeleteState::default();
    let report = run_with(
        &mut disk,
        vec![
            (FilePath::from_text("/d/real.bin"), 5),
            (FilePath::from_text("/d/ghost.bin"), 999),
        ],
        DeleteMode::Trash,
        &mut state,
    );
    assert_eq!(state.total, 2);
    assert_eq!(state.done, 2);
    assert_eq!(state.failed, 1);
    assert_eq!(state.bytes_freed, 5);
    assert_eq!(state.current_path(), "/d/ghost.bin");
    assert_eq!(report.deleted_paths, vec![FilePath::from_text("/d/real.bin")]);
}
