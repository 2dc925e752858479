//! Deletion of the copies the user did not keep.
//!
//! What is deleted and how it is reported is decided here; removing a file is
//! done outside, one at a time, and its outcome handed back. A file that cannot
//! be removed does not abort the rest.

use crate::model::{doomed, keepers, DupeGroup, FileEntry, ScanState};
use crate::path::FilePath;
use crate::text::text_from;
use vstd::prelude::*;

verus! {

/// Where deleted files go.
#[derive(Debug, Clone, Copy, PartialEq, Eq, Structural)]
pub enum DeleteMode {
    /// Recycle Bin on Windows, XDG Trash on Linux. Recoverable.
    Trash,
    /// Removed outright. Not recoverable.
    Permanent,
}

impl DeleteMode {
    /// The word for a mode.
    pub open spec fn word(self) -> Seq<char> {
        match self {
            DeleteMode::Trash => "Trash"@,
            DeleteMode::Permanent => "Permanent"@,
        }
    }

    /// The other mode.
    pub open spec fn other(self) -> DeleteMode {
        match self {
            DeleteMode::Trash => DeleteMode::Permanent,
            DeleteMode::Permanent => DeleteMode::Trash,
        }
    }

    /// The word for a mode.
    pub fn label(self) -> (s: &'static str)
        ensures
            s@ == self.word(),
    {
        match self {
            DeleteMode::Trash => "Trash",
            DeleteMode::Permanent => "Permanent",
        }
    }

    /// The other mode.
    pub fn toggled(self) -> (m: Self)
        ensures
            m == self.other(),
    {
        match self {
            DeleteMode::Trash => DeleteMode::Permanent,
            DeleteMode::Permanent => DeleteMode::Trash,
        }
    }
}

/// There are exactly two modes: toggling twice changes nothing, toggling once
/// does.
pub proof fn delete_modes_toggle(m: DeleteMode)
    ensures
        m.other() != m,
        m.other().other() == m,
{
}

/// One file that could not be removed.
#[derive(Debug)]
pub struct DeleteFailure {
    pub path: FilePath,
    pub message: String,
}

/// Outcome of a deletion run.
#[derive(Debug)]
pub struct DeleteReport {
    pub deleted: u64,
    pub bytes_freed: u64,
    pub failures: Vec<DeleteFailure>,
    pub mode_label: String,
    /// Exactly what left the disk. The dashboard prunes against this rather
    /// than re-deriving it from the marks, which would be wrong whenever the
    /// deleted file was a keeper, as it is for a single-file delete.
    pub deleted_paths: Vec<FilePath>,
}

/// Live counters for the deletion progress screen.
#[derive(Debug)]
pub struct DeleteState {
    pub done: u64,
    pub total: u64,
    pub bytes_freed: u64,
    pub failed: u64,
    pub current: String,
    pub cancel: bool,
}

impl Default for DeleteState {
    fn default() -> (s: Self)
        ensures
            s.is_fresh(),
    {
        DeleteState {
            done: 0,
            total: 0,
            bytes_freed: 0,
            failed: 0,
            current: String::new(),
            cancel: false,
        }
    }
}

impl DeleteState {
    /// Nothing was counted yet and nobody asked to stop.
    pub open spec fn is_fresh(self) -> bool {
        &&& self.done == 0
        &&& self.total == 0
        &&& self.bytes_freed == 0
        &&& self.failed == 0
        &&& self.current@.len() == 0
        &&& !self.cancel
    }

    /// What one more file of this size changes: it is done either way, and its bytes are
    /// freed or it counts as failed. A counter that is full starts over.
    pub open spec fn noted(self, after: DeleteState, outcome: Removal, size: u64) -> bool {
        after == (DeleteState {
            done: ((self.done + 1) % 0x1_0000_0000_0000_0000) as u64,
            bytes_freed: if outcome is None {
                ((self.bytes_freed + size) % 0x1_0000_0000_0000_0000) as u64
            } else {
                self.bytes_freed
            },
            failed: if outcome is None {
                self.failed
            } else {
                ((self.failed + 1) % 0x1_0000_0000_0000_0000) as u64
            },
            ..self
        })
    }

    /// Whether the run was asked to stop.
    pub fn is_cancelled(&self) -> (b: bool)
        ensures
            b == self.cancel,
    {
        self.cancel
    }

    /// Ask the run to stop.
    pub fn request_cancel(&mut self)
        ensures
            *final(self) == (DeleteState { cancel: true, ..*old(self) }),
    {
        self.cancel = true;
    }

    /// The path being removed.
    pub fn current_path(&self) -> (s: String)
        ensures
            s@ == self.current@,
    {
        text_from(self.current.as_str())
    }

    /// Show this path as the one being removed.
    pub fn set_current(&mut self, path: &str)
        ensures
            *final(self) == (DeleteState { current: final(self).current, ..*old(self) }),
            final(self).current@ == path@,
    {
        self.current = text_from(path);
    }
}

/// What the deleter reports.
#[derive(Debug)]
pub enum DeleteMsg {
    Done(DeleteReport),
}

/// The paths and sizes of targets.
pub open spec fn targets_in(list: Seq<(FilePath, u64)>) -> Seq<(Seq<u8>, u64)> {
    list.map_values(|t: (FilePath, u64)| (t.0@, t.1))
}

/// Bytes of all targets together.
pub open spec fn target_bytes(list: Seq<(Seq<u8>, u64)>) -> int
    decreases list.len(),
{
    if list.len() == 0 {
        0
    } else {
        target_bytes(list.drop_last()) + list.last().1
    }
}

/// The targets among the files of one group, in their order.
pub open spec fn pending_files(files: Seq<FileEntry>) -> Seq<(Seq<u8>, u64)>
    decreases files.len(),
{
    if files.len() == 0 {
        Seq::empty()
    } else {
        let rest = pending_files(files.drop_last());
        if files.last().doomed() {
            rest.push((files.last().path@, files.last().size))
        } else {
            rest
        }
    }
}

/// The targets of one group: none where it is skipped.
pub open spec fn pending_of(group: DupeGroup) -> Seq<(Seq<u8>, u64)> {
    if group.skipped {
        Seq::empty()
    } else {
        pending_files(group.files@)
    }
}

/// The targets of a list of groups, in their order.
pub open spec fn pending(groups: Seq<DupeGroup>) -> Seq<(Seq<u8>, u64)>
    decreases groups.len(),
{
    if groups.len() == 0 {
        Seq::empty()
    } else {
        pending(groups.drop_last()) + pending_of(groups.last())
    }
}

/// Put the targets of one group behind those found so far.
pub fn push_pending(targets: &mut Vec<(FilePath, u64)>, group: &DupeGroup)
    ensures
        targets_in(final(targets)@) == targets_in(old(targets)@) + pending_of(*group),
{
    let ghost before = targets_in(targets@);
    if group.skipped {
        assert(before =~= before + pending_of(*group));
        return;
    }
    let mut i: usize = 0;
    while i < group.files.len()
        invariant
            i <= group.files@.len(),
            targets_in(targets@) =~= before + pending_files(group.files@.take(i as int)),
        decreases group.files@.len() - i,
    {
        let file = &group.files[i];
        assert(group.files@.take(i + 1).drop_last() =~= group.files@.take(i as int));
        if !file.keep && !file.protected {
            let ghost held = targets_in(targets@);
            targets.push((file.path.clone(), file.size));
            assert(targets_in(targets@) =~= held.push((file.path@, file.size)));
        }
        i += 1;
    }
    assert(group.files@.take(i as int) =~= group.files@);
}

/// Every file the marks would remove across `groups`, paired with its size.
///
/// Takes a list of groups so a caller can narrow it first; the dashboard passes
/// only the groups a selection covers. Keeping the "not skipped, not kept" rule
/// in one place stops the scoped and unscoped paths from drifting apart.
pub fn pending_in(groups: &Vec<&DupeGroup>) -> (targets: Vec<(FilePath, u64)>)
    ensures
        targets_in(targets@) == pending(groups@.unref()),
{
    let mut targets: Vec<(FilePath, u64)> = Vec::new();
    let ghost all = groups@.unref();
    let mut i: usize = 0;
    while i < groups.len()
        invariant
            all == groups@.unref(),
            i <= groups@.len(),
            targets_in(targets@) =~= pending(all.take(i as int)),
        decreases groups@.len() - i,
    {
        assert(all.take(i + 1).drop_last() =~= all.take(i as int));
        push_pending(&mut targets, groups[i]);
        i += 1;
    }
    assert(all.take(i as int) =~= all);
    targets
}

/// The targets of a group are as many as its marks count.
pub proof fn pending_agrees_with_marked(group: DupeGroup)
    ensures
        pending_of(group).len() == group.marked_files(),
{
    if !group.skipped {
        pending_files_are_the_doomed(group.files@);
    }
}

proof fn pending_files_are_the_doomed(files: Seq<FileEntry>)
    ensures
        pending_files(files).len() == doomed(files),
    decreases files.len(),
{
    if files.len() > 0 {
        pending_files_are_the_doomed(files.drop_last());
    }
}

/// The bytes of a group's targets are the bytes its marks would free.
pub proof fn pending_agrees_with_reclaimable(group: DupeGroup)
    requires
        group.counted(),
    ensures
        target_bytes(pending_of(group)) == group.reclaimable_bytes(),
{
    if group.skipped {
        assert(group.size * 0 == 0);
    } else {
        pending_files_have_the_size(group.files@, group.size);
    }
}

proof fn pending_files_have_the_size(files: Seq<FileEntry>, size: u64)
    requires
        forall|i: int| 0 <= i < files.len() ==> (#[trigger] files[i]).size == size,
    ensures
        target_bytes(pending_files(files)) == size * doomed(files),
    decreases files.len(),
{
    if files.len() > 0 {
        let rest = files.drop_last();
        assert forall|i: int| 0 <= i < rest.len() implies (#[trigger] rest[i]).size == size by {
            assert(rest[i] == files[i]);
        }
        pending_files_have_the_size(rest, size);
        let n = doomed(rest) as int;
        if files.last().doomed() {
            assert(pending_files(files).drop_last() =~= pending_files(rest));
            assert(files.last() == files[files.len() - 1]);
            assert(size * (n + 1) == size * n + size) by (nonlinear_arith);
        }
    } else {
        assert(size * 0 == 0);
    }
}

/// Every target is a file of a group that is not skipped, and neither kept nor
/// protected there.
pub proof fn pending_spares_keepers(groups: Seq<DupeGroup>, t: int)
    requires
        0 <= t < pending(groups).len(),
    ensures
        exists|g: int, f: int|
            #![trigger groups[g].files@[f]]
            0 <= g < groups.len() && !groups[g].skipped && 0 <= f < groups[g].files@.len()
                && groups[g].files@[f].doomed() && pending(groups)[t] == (
                groups[g].files@[f].path@,
                groups[g].files@[f].size,
            ),
    decreases groups.len(),
{
    let rest = groups.drop_last();
    let last = groups.last();
    if t < pending(rest).len() {
        pending_spares_keepers(rest, t);
        let (g, f) = choose|g: int, f: int|
            #![trigger rest[g].files@[f]]
            0 <= g < rest.len() && !rest[g].skipped && 0 <= f < rest[g].files@.len()
                && rest[g].files@[f].doomed() && pending(rest)[t] == (
                rest[g].files@[f].path@,
                rest[g].files@[f].size,
            );
        assert(rest[g] == groups[g]);
        assert(groups[g].files@[f].doomed());
    } else {
        let u = t - pending(rest).len();
        pending_files_are_doomed(last.files@, u);
        let f = choose|f: int|
            0 <= f < last.files@.len() && (#[trigger] last.files@[f]).doomed() && pending_files(
                last.files@,
            )[u] == (last.files@[f].path@, last.files@[f].size);
        assert(groups[groups.len() - 1].files@[f].doomed());
    }
}

proof fn pending_files_are_doomed(files: Seq<FileEntry>, t: int)
    requires
        0 <= t < pending_files(files).len(),
    ensures
        exists|f: int|
            0 <= f < files.len() && (#[trigger] files[f]).doomed() && pending_files(files)[t] == (
                files[f].path@,
                files[f].size,
            ),
    decreases files.len(),
{
    let rest = files.drop_last();
    if t < pending_files(rest).len() {
        pending_files_are_doomed(rest, t);
        let f = choose|f: int|
            0 <= f < rest.len() && (#[trigger] rest[f]).doomed() && pending_files(rest)[t] == (
                rest[f].path@,
                rest[f].size,
            );
        assert(rest[f] == files[f]);
    } else {
        assert(files.last() == files[files.len() - 1]);
    }
}

/// A group with any files has fewer targets than files: a copy always stays.
pub proof fn pending_leaves_a_copy(group: DupeGroup)
    requires
        group.keeps_a_copy(),
        group.files@.len() > 0,
    ensures
        pending_of(group).len() < group.files@.len(),
        pending_of(group).len() + keepers(group.files@) <= group.files@.len(),
{
    pending_agrees_with_marked(group);
    keepers_are_not_doomed(group.files@);
}

proof fn keepers_are_not_doomed(files: Seq<FileEntry>)
    ensures
        doomed(files) + keepers(files) <= files.len(),
    decreases files.len(),
{
    if files.len() > 0 {
        keepers_are_not_doomed(files.drop_last());
    }
}

/// What came of removing one file: nothing to say, or the reason it failed.
pub type Removal = Option<Seq<char>>;

/// What the attempt to remove a file came to.
pub open spec fn removal_of(outcome: Result<(), String>) -> Removal {
    match outcome {
        Ok(_) => None,
        Err(message) => Some(message@),
    }
}

/// How many of the files were removed.
pub open spec fn removed_count(outcomes: Seq<Removal>) -> nat
    decreases outcomes.len(),
{
    if outcomes.len() == 0 {
        0
    } else {
        removed_count(outcomes.drop_last()) + if outcomes.last() is None {
            1nat
        } else {
            0nat
        }
    }
}

/// The files that were removed, in their order.
pub open spec fn removed(
    targets: Seq<(Seq<u8>, u64)>,
    outcomes: Seq<Removal>,
) -> Seq<(Seq<u8>, u64)>
    decreases outcomes.len(),
{
    if outcomes.len() == 0 {
        Seq::empty()
    } else {
        let rest = removed(targets, outcomes.drop_last());
        if outcomes.last() is None {
            rest.push(targets[outcomes.len() - 1])
        } else {
            rest
        }
    }
}

/// The files that stayed, each with the reason, in their order.
pub open spec fn failed(
    targets: Seq<(Seq<u8>, u64)>,
    outcomes: Seq<Removal>,
) -> Seq<(Seq<u8>, Seq<char>)>
    decreases outcomes.len(),
{
    if outcomes.len() == 0 {
        Seq::empty()
    } else {
        let rest = failed(targets, outcomes.drop_last());
        match outcomes.last() {
            None => rest,
            Some(message) => rest.push((targets[outcomes.len() - 1].0, message)),
        }
    }
}

impl DeleteReport {
    /// The report on a run over `targets` that had these outcomes.
    pub open spec fn reports(
        self,
        mode: DeleteMode,
        targets: Seq<(Seq<u8>, u64)>,
        outcomes: Seq<Removal>,
    ) -> bool {
        let gone = removed(targets, outcomes);
        &&& self.mode_label@ == mode.word()
        &&& self.deleted == gone.len()
        &&& self.bytes_freed == target_bytes(gone)
        &&& self.deleted_paths@.len() == gone.len()
        &&& forall|i: int|
            0 <= i < gone.len() ==> (#[trigger] self.deleted_paths@[i])@ == gone[i].0
        &&& self.failures@.len() == failed(targets, outcomes).len()
        &&& forall|i: int|
            0 <= i < self.failures@.len() ==> ((#[trigger] self.failures@[i]).path@, self.failures@[i].message@)
                == failed(targets, outcomes)[i]
    }
}

/// A deletion run. Deletion is deliberately sequential: a predictable order
/// makes the failure list easier to act on.
pub struct DeleteRun {
    pub targets: Vec<(FilePath, u64)>,
    pub mode: DeleteMode,
    /// How many targets were dealt with.
    pub next: usize,
    pub report: DeleteReport,
    /// What came of each of those.
    pub outcomes: Ghost<Seq<Removal>>,
}

impl DeleteRun {
    /// The report covers exactly what was dealt with, and the sizes can be added.
    pub open spec fn wf(self) -> bool {
        &&& self.next <= self.targets@.len()
        &&& self.outcomes@.len() == self.next
        &&& target_bytes(targets_in(self.targets@)) <= u64::MAX
        &&& self.report.reports(self.mode, targets_in(self.targets@), self.outcomes@)
    }

    /// Begin a run over `targets`.
    pub fn start(targets: Vec<(FilePath, u64)>, mode: DeleteMode, state: &mut DeleteState) -> (run:
        Self)
        requires
            target_bytes(targets_in(targets@)) <= u64::MAX,
        ensures
            run.wf(),
            run.targets == targets,
            run.mode == mode,
            run.next == 0,
            *final(state) == (DeleteState { total: targets@.len() as u64, ..*old(state) }),
    {
        state.total = targets.len() as u64;
        DeleteRun {
            targets,
            mode,
            next: 0,
            report: DeleteReport {
                deleted: 0,
                bytes_freed: 0,
                failures: Vec::new(),
                mode_label: text_from(mode.label()),
                deleted_paths: Vec::new(),
            },
            outcomes: Ghost(Seq::empty()),
        }
    }

    /// The next file to remove: none after the last one or once cancelled.
    pub fn next_target(&self, state: &mut DeleteState) -> (path: Option<FilePath>)
        requires
            self.wf(),
        ensures
            path is Some <==> self.next < self.targets@.len() && !old(state).cancel,
            path is Some ==> {
                &&& path->0@ == self.targets@[self.next as int].0@
                &&& *final(state) == (DeleteState { current: final(state).current, ..*old(state) })
                &&& final(state).current@ == crate::text::displayed(path->0@)
            },
            path is None ==> *final(state) == *old(state),
    {
        if self.next >= self.targets.len() || state.is_cancelled() {
            return None;
        }
        let path = self.targets[self.next].0.clone();
        state.set_current(path.display().as_str());
        Some(path)
    }

    /// Note what came of removing the next file.
    pub fn record(&mut self, outcome: Result<(), String>, state: &mut DeleteState)
        requires
            old(self).wf(),
            old(self).next < old(self).targets@.len(),
        ensures
            final(self).wf(),
            final(self).targets == old(self).targets,
            final(self).mode == old(self).mode,
            final(self).next == old(self).next + 1,
            final(self).outcomes@ == old(self).outcomes@.push(removal_of(outcome)),
            old(state).noted(
                *final(state),
                removal_of(outcome),
                old(self).targets@[old(self).next as int].1,
            ),
    {
        let ghost list = targets_in(self.targets@);
        let ghost before = self.outcomes@;
        let ghost noted = removal_of(outcome);
        let path = self.targets[self.next].0.clone();
        let size: u64 = self.targets[self.next].1;
        assert(self.next < self.targets.len() <= usize::MAX);
        proof {
            assert(list[self.next as int] == (path@, size));
            removed_fits(list, before.push(noted));
            assert(before.push(noted).drop_last() =~= before);
            assert(before.push(noted).last() == noted);
        }
        match outcome {
            Ok(_) => {
                proof {
                    let gone = removed(list, before);
                    assert(removed(list, before.push(noted)) == gone.push((path@, size)));
                    assert(gone.push((path@, size)).drop_last() =~= gone);
                    removed_is_bounded(list, before);
                }
                self.report.deleted += 1;
                self.report.bytes_freed += size;
                self.report.deleted_paths.push(path);
                ScanState::bump(&mut state.done, 1);
                ScanState::bump(&mut state.bytes_freed, size);
            },
            Err(message) => {
                self.report.failures.push(DeleteFailure { path, message });
                ScanState::bump(&mut state.done, 1);
                ScanState::bump(&mut state.failed, 1);
            },
        }
        self.next += 1;
        self.outcomes = Ghost(before.push(noted));
    }

    /// The result of the run.
    pub fn finish(self) -> (msg: DeleteMsg)
        requires
            self.wf(),
        ensures
            msg == DeleteMsg::Done(self.report),
            self.report.reports(self.mode, targets_in(self.targets@), self.outcomes@),
    {
        DeleteMsg::Done(self.report)
    }
}

proof fn target_bytes_split(a: Seq<(Seq<u8>, u64)>, n: int)
    requires
        0 <= n <= a.len(),
    ensures
        0 <= target_bytes(a.take(n)) <= target_bytes(a),
    decreases a.len(),
{
    if n < a.len() {
        assert(a.drop_last().take(n) =~= a.take(n));
        target_bytes_split(a.drop_last(), n);
    } else {
        assert(a.take(n) =~= a);
        if n > 0 {
            target_bytes_split(a.drop_last(), n - 1);
        }
    }
}

proof fn removed_is_bounded(targets: Seq<(Seq<u8>, u64)>, outcomes: Seq<Removal>)
    requires
        outcomes.len() <= targets.len(),
    ensures
        removed(targets, outcomes).len() <= outcomes.len(),
        0 <= target_bytes(removed(targets, outcomes)) <= target_bytes(
            targets.take(outcomes.len() as int),
        ),
    decreases outcomes.len(),
{
    if outcomes.len() > 0 {
        let n = outcomes.len() as int;
        let rest = outcomes.drop_last();
        removed_is_bounded(targets, rest);
        assert(targets.take(n).drop_last() =~= targets.take(n - 1));
        if outcomes.last() is None {
            assert(removed(targets, outcomes).drop_last() =~= removed(targets, rest));
        }
    }
}

proof fn removed_fits(targets: Seq<(Seq<u8>, u64)>, outcomes: Seq<Removal>)
    requires
        outcomes.len() <= targets.len(),
        target_bytes(targets) <= u64::MAX,
    ensures
        target_bytes(removed(targets, outcomes)) <= u64::MAX,
{
    removed_is_bounded(targets, outcomes);
    target_bytes_split(targets, outcomes.len() as int);
}

/// Every file that was dealt with was either removed or is reported as failed.
pub proof fn every_outcome_is_reported(targets: Seq<(Seq<u8>, u64)>, outcomes: Seq<Removal>)
    ensures
        removed(targets, outcomes).len() + failed(targets, outcomes).len() == outcomes.len(),
        removed(targets, outcomes).len() == removed_count(outcomes),
    decreases outcomes.len(),
{
    if outcomes.len() > 0 {
        every_outcome_is_reported(targets, outcomes.drop_last());
    }
}

/// A failure frees nothing and takes nothing away from the rest: the report is
/// the one that the other files alone would give, with the failure listed.
pub proof fn a_failure_changes_nothing_else(
    targets: Seq<(Seq<u8>, u64)>,
    outcomes: Seq<Removal>,
    message: Seq<char>,
)
    ensures
        removed(targets, outcomes.push(Some(message))) == removed(targets, outcomes),
        failed(targets, outcomes.push(Some(message))) == failed(targets, outcomes).push(
            (targets[outcomes.len() as int].0, message),
        ),
{
    assert(outcomes.push(Some(message)).drop_last() =~= outcomes);
}

/// A file that is dealt with counts once: as removed, with its bytes, or as failed.
pub proof fn progress_counts_every_file(
    before: DeleteState,
    after: DeleteState,
    outcome: Removal,
    size: u64,
)
    requires
        before.noted(after, outcome, size),
        before.done < u64::MAX,
        before.failed < u64::MAX,
        before.bytes_freed + size <= u64::MAX,
    ensures
        after.done == before.done + 1,
        outcome is None ==> after.bytes_freed == before.bytes_freed + size && after.failed
            == before.failed,
        outcome is Some ==> after.bytes_freed == before.bytes_freed && after.failed
            == before.failed + 1,
        after.total == before.total,
        after.cancel == before.cancel,
{
}

/// The bytes of targets add up.
pub proof fn target_bytes_add_up(targets: Seq<(Seq<u8>, u64)>, more: (Seq<u8>, u64))
    ensures
        target_bytes(Seq::empty()) == 0,
        target_bytes(targets.push(more)) == target_bytes(targets) + more.1,
{
    assert(targets.push(more).drop_last() =~= targets);
}

/// An attempt that went through is no failure, and one that did not is told by its message.
pub proof fn outcomes_are_told_apart(outcome: Result<(), String>)
    ensures
        outcome is Ok ==> removal_of(outcome) is None,
        outcome is Err ==> removal_of(outcome) == Some(outcome->Err_0@),
{
}

/// A report lists exactly the targets that were removed, in their order, and counts them
/// and their bytes: `places[i]` is the target that deleted path `i` is about.
pub proof fn a_report_lists_what_was_removed(
    report: DeleteReport,
    mode: DeleteMode,
    targets: Seq<(Seq<u8>, u64)>,
    outcomes: Seq<Removal>,
) -> (places: Seq<int>)
    requires
        report.reports(mode, targets, outcomes),
        outcomes.len() <= targets.len(),
    ensures
        mode == DeleteMode::Trash ==> report.mode_label@ == "Trash"@,
        mode == DeleteMode::Permanent ==> report.mode_label@ == "Permanent"@,
        report.deleted == places.len(),
        report.deleted_paths@.len() == places.len(),
        report.bytes_freed == target_bytes(places.map_values(|t: int| targets[t])),
        forall|i: int|
            0 <= i < places.len() ==> 0 <= #[trigger] places[i] < outcomes.len()
                && outcomes[places[i]] is None && report.deleted_paths@[i]@ == targets[places[i]].0,
        forall|i: int, j: int|
            0 <= i < j < places.len() ==> #[trigger] places[i] < #[trigger] places[j],
        forall|t: int|
            0 <= t < outcomes.len() && outcomes[t] is None ==> #[trigger] places.contains(t),
{
    let places = removed_places(targets, outcomes);
    assert(removed(targets, outcomes) =~= places.map_values(|t: int| targets[t]));
    places
}

proof fn removed_places(targets: Seq<(Seq<u8>, u64)>, outcomes: Seq<Removal>) -> (places: Seq<int>)
    requires
        outcomes.len() <= targets.len(),
    ensures
        places.len() == removed(targets, outcomes).len(),
        forall|i: int|
            0 <= i < places.len() ==> 0 <= #[trigger] places[i] < outcomes.len()
                && outcomes[places[i]] is None && removed(targets, outcomes)[i]
                == targets[places[i]],
        forall|i: int, j: int|
            0 <= i < j < places.len() ==> #[trigger] places[i] < #[trigger] places[j],
        forall|t: int|
            0 <= t < outcomes.len() && outcomes[t] is None ==> #[trigger] places.contains(t),
    decreases outcomes.len(),
{
    if outcomes.len() == 0 {
        Seq::empty()
    } else {
        let rest = outcomes.drop_last();
        let n = outcomes.len() - 1;
        let below = removed_places(targets, rest);
        let places = if outcomes[n] is None {
            below.push(n)
        } else {
            below
        };
        assert forall|t: int| 0 <= t < outcomes.len() && outcomes[t] is None implies #[trigger] places.contains(
            t,
        ) by {
            if t < n {
                assert(rest[t] == outcomes[t]);
                assert(below.contains(t));
                let i = choose|i: int| 0 <= i < below.len() && below[i] == t;
                assert(places[i] == t);
            } else {
                assert(places[below.len() as int] == t);
            }
        }
        places
    }
}

/// A report lists exactly the targets that failed, in their order, each with its message.
pub proof fn a_report_lists_what_failed(
    report: DeleteReport,
    mode: DeleteMode,
    targets: Seq<(Seq<u8>, u64)>,
    outcomes: Seq<Removal>,
) -> (places: Seq<int>)
    requires
        report.reports(mode, targets, outcomes),
        outcomes.len() <= targets.len(),
    ensures
        report.failures@.len() == places.len(),
        forall|i: int|
            0 <= i < places.len() ==> 0 <= #[trigger] places[i] < outcomes.len()
                && outcomes[places[i]] == Some(report.failures@[i].message@)
                && report.failures@[i].path@ == targets[places[i]].0,
        forall|i: int, j: int|
            0 <= i < j < places.len() ==> #[trigger] places[i] < #[trigger] places[j],
        forall|t: int|
            0 <= t < outcomes.len() && outcomes[t] is Some ==> #[trigger] places.contains(t),
{
    let places = failed_places(targets, outcomes);
    assert forall|i: int| 0 <= i < places.len() implies outcomes[#[trigger] places[i]] == Some(
        report.failures@[i].message@,
    ) && report.failures@[i].path@ == targets[places[i]].0 by {
        assert(failed(targets, outcomes)[i] == (
            report.failures@[i].path@,
            report.failures@[i].message@,
        ));
    }
    places
}

proof fn failed_places(targets: Seq<(Seq<u8>, u64)>, outcomes: Seq<Removal>) -> (places: Seq<int>)
    requires
        outcomes.len() <= targets.len(),
    ensures
        places.len() == failed(targets, outcomes).len(),
        forall|i: int|
            0 <= i < places.len() ==> 0 <= #[trigger] places[i] < outcomes.len()
                && outcomes[places[i]] is Some && failed(targets, outcomes)[i] == (
                targets[places[i]].0,
                outcomes[places[i]]->0,
            ),
        forall|i: int, j: int|
            0 <= i < j < places.len() ==> #[trigger] places[i] < #[trigger] places[j],
        forall|t: int|
            0 <= t < outcomes.len() && outcomes[t] is Some ==> #[trigger] places.contains(t),
    decreases outcomes.len(),
{
    if outcomes.len() == 0 {
        Seq::empty()
    } else {
        let rest = outcomes.drop_last();
        let n = outcomes.len() - 1;
        let below = failed_places(targets, rest);
        let places = if outcomes[n] is Some {
            below.push(n)
        } else {
            below
        };
        assert forall|t: int| 0 <= t < outcomes.len() && outcomes[t] is Some implies #[trigger] places.contains(
            t,
        ) by {
            if t < n {
                assert(rest[t] == outcomes[t]);
                assert(below.contains(t));
                let i = choose|i: int| 0 <= i < below.len() && below[i] == t;
                assert(places[i] == t);
            } else {
                assert(places[below.len() as int] == t);
            }
        }
        places
    }
}

} // verus!
