//! Planning a deletion, and what is left after it.

use super::results::clamped;
use super::{Action, App, DeletePlan, Screen};
use crate::delete::{target_bytes, targets_in, DeleteMsg, DeleteState};
use crate::grouping::{parted, picked, picked_holds};
use crate::model::{
    bytes_in, files_in, fit, keepers, kept_only, kept_only_keeps, DupeGroup, FileEntry,
    KeepStrategy,
};
use crate::path::{is_listed, lists_path, FilePath};
use crate::text::{text_from, text_in};
use vstd::prelude::*;

verus! {

/// Which files are still there after these paths left the disk.
pub open spec fn stay_flags(files: Seq<FileEntry>, gone: Seq<FilePath>) -> Seq<bool> {
    Seq::new(files.len(), |i: int| !lists_path(gone, files[i].path@))
}

/// The files that are still there.
pub open spec fn remaining(files: Seq<FileEntry>, gone: Seq<FilePath>) -> Seq<FileEntry> {
    picked(files, stay_flags(files, gone))
}

/// The files with a keeper: deleting a keeper may leave a group with none, so the
/// first one is kept then.
pub open spec fn settled(files: Seq<FileEntry>) -> Seq<FileEntry> {
    if keepers(files) == 0 {
        kept_only(files, 0)
    } else {
        files
    }
}

/// Which groups are still duplicates; a lone remaining copy is none any more.
pub open spec fn group_flags(groups: Seq<DupeGroup>, gone: Seq<FilePath>) -> Seq<bool> {
    Seq::new(groups.len(), |i: int| remaining(groups[i].files@, gone).len() > 1)
}

/// The groups that are still duplicates, as they were.
pub open spec fn still_listed(groups: Seq<DupeGroup>, gone: Seq<FilePath>) -> Seq<DupeGroup> {
    picked(groups, group_flags(groups, gone))
}

/// `after` is the group without the files that are gone.
pub open spec fn is_pruned(before: DupeGroup, after: DupeGroup, gone: Seq<FilePath>) -> bool {
    &&& after == (DupeGroup { files: after.files, ..before })
    &&& after.files@ == settled(remaining(before.files@, gone))
}

/// Each of these groups is pruned.
pub open spec fn are_pruned(
    before: Seq<DupeGroup>,
    after: Seq<DupeGroup>,
    gone: Seq<FilePath>,
) -> bool {
    &&& after.len() == before.len()
    &&& forall|i: int| 0 <= i < after.len() ==> is_pruned(before[i], #[trigger] after[i], gone)
}

proof fn remaining_keeps_order(files: Seq<FileEntry>, flags: Seq<bool>, size: u64)
    requires
        files.len() <= flags.len(),
        forall|i: int| 0 <= i < files.len() ==> (#[trigger] files[i]).size == size,
        forall|i: int|
            0 <= i < files.len() && (#[trigger] files[i]).protected ==> files[i].keep,
    ensures
        picked(files, flags).len() <= files.len(),
        forall|i: int|
            0 <= i < picked(files, flags).len() ==> (#[trigger] picked(files, flags)[i]).size == size,
        forall|i: int|
            0 <= i < picked(files, flags).len() && (#[trigger] picked(files, flags)[i]).protected
                ==> picked(files, flags)[i].keep,
    decreases files.len(),
{
    if files.len() > 0 {
        let rest = files.drop_last();
        assert forall|i: int| 0 <= i < rest.len() implies (#[trigger] rest[i]).size == size by {
            assert(rest[i] == files[i]);
        }
        assert forall|i: int|
            0 <= i < rest.len() && (#[trigger] rest[i]).protected implies rest[i].keep by {
            assert(rest[i] == files[i]);
        }
        remaining_keeps_order(rest, flags, size);
        assert(files.last() == files[files.len() - 1]);
        let below = picked(rest, flags);
        let all = picked(files, flags);
        assert forall|i: int| 0 <= i < all.len() implies (#[trigger] all[i]).size == size && (
        all[i].protected ==> all[i].keep) by {
            if i < below.len() {
                assert(all[i] == below[i]);
            }
        }
    }
}

/// A pruned group is sound, and smaller.
pub proof fn pruning_keeps_group_sound(before: DupeGroup, after: DupeGroup, gone: Seq<FilePath>)
    requires
        before.wf(),
        is_pruned(before, after, gone),
        remaining(before.files@, gone).len() > 1,
    ensures
        after.wf(),
        after.files@.len() <= before.files@.len(),
        0 <= after.total_bytes() <= before.total_bytes(),
{
    let left = remaining(before.files@, gone);
    remaining_keeps_order(before.files@, stay_flags(before.files@, gone), before.size);
    if keepers(left) == 0 {
        kept_only_keeps(left, 0);
        assert forall|i: int| 0 <= i < after.files@.len() implies (#[trigger] after.files@[i]).size
            == after.size by {
            assert(left[i].size == before.size);
        }
    }
    let size = before.size as int;
    let n = after.files@.len() as int;
    let m = before.files@.len() as int;
    assert(0 <= size * n <= size * m) by (nonlinear_arith)
        requires
            0 <= size,
            0 <= n <= m,
    ;
}

proof fn pruning_keeps_fit(before: Seq<DupeGroup>, after: Seq<DupeGroup>, gone: Seq<FilePath>)
    requires
        forall|i: int| 0 <= i < before.len() ==> (#[trigger] before[i]).wf(),
        forall|i: int|
            0 <= i < before.len() ==> remaining((#[trigger] before[i]).files@, gone).len() > 1,
        are_pruned(before, after, gone),
    ensures
        forall|i: int| 0 <= i < after.len() ==> (#[trigger] after[i]).wf(),
        files_in(after) <= files_in(before),
        bytes_in(after) <= bytes_in(before),
    decreases before.len(),
{
    assert forall|i: int| 0 <= i < after.len() implies (#[trigger] after[i]).wf() by {
        assert(before[i].wf());
        pruning_keeps_group_sound(before[i], after[i], gone);
    }
    if before.len() > 0 {
        let n = before.len() - 1;
        let b = before.drop_last();
        let a = after.drop_last();
        assert forall|i: int| 0 <= i < b.len() implies (#[trigger] b[i]).wf() && remaining(
            b[i].files@,
            gone,
        ).len() > 1 by {
            assert(before[i].wf());
        }
        assert forall|i: int| 0 <= i < a.len() implies is_pruned(b[i], #[trigger] a[i], gone) by {
            assert(is_pruned(before[i], after[i], gone));
        }
        pruning_keeps_fit(b, a, gone);
        assert(before[n].wf() && is_pruned(before[n], after[n], gone));
        pruning_keeps_group_sound(before[n], after[n], gone);
    }
}

/// The groups that are still listed are among the groups there were.
proof fn listed_are_part(groups: Seq<DupeGroup>, flags: Seq<bool>)
    requires
        groups.len() <= flags.len(),
    ensures
        0 <= files_in(picked(groups, flags)) <= files_in(groups),
        0 <= bytes_in(picked(groups, flags)) <= bytes_in(groups),
    decreases groups.len(),
{
    if groups.len() > 0 {
        let rest = groups.drop_last();
        listed_are_part(rest, flags);
        crate::model::reclaimable_is_part(groups.last());
        if flags[groups.len() - 1] {
            assert(picked(groups, flags).drop_last() =~= picked(rest, flags));
        }
    }
}

/// Whether these files are still there.
fn stay_flags_of(files: &Vec<FileEntry>, gone: &Vec<FilePath>) -> (flags: Vec<bool>)
    ensures
        flags@ == stay_flags(files@, gone@),
{
    let mut flags: Vec<bool> = Vec::new();
    while flags.len() < files.len()
        invariant
            flags@.len() <= files@.len(),
            forall|i: int|
                0 <= i < flags@.len() ==> #[trigger] flags@[i] == !lists_path(
                    gone@,
                    files@[i].path@,
                ),
        decreases files@.len() - flags@.len(),
    {
        let stays: bool = !is_listed(gone, &files[flags.len()].path);
        flags.push(stays);
    }
    assert(flags@ =~= stay_flags(files@, gone@));
    flags
}

/// The group without the files that are gone, if it still is a duplicate.
fn pruned_group(group: DupeGroup, gone: &Vec<FilePath>) -> (r: Option<DupeGroup>)
    ensures
        r is Some <==> remaining(group.files@, gone@).len() > 1,
        r is Some ==> is_pruned(group, r->0, gone@),
{
    let ghost whole = group;
    let flags = stay_flags_of(&group.files, gone);
    let left = parted(group.files, &flags).0;
    if left.len() <= 1 {
        return None;
    }
    let mut after = DupeGroup {
        hash: group.hash,
        size: group.size,
        files: left,
        skipped: group.skipped,
    };
    if after.keeper_count() == 0 {
        let ghost files = after.files@;
        after.apply_strategy(KeepStrategy::First);
        proof {
            assert(crate::model::is_choice(files, KeepStrategy::First, 0));
            crate::model::choice_is_unique(files, KeepStrategy::First, 0);
        }
    }
    Some(after)
}

impl App {
    /// The files the current plan would remove.
    pub open spec fn planned(self) -> Seq<(Seq<u8>, u64)> {
        match self.plan {
            DeletePlan::Marked => self.marks(),
            DeletePlan::Single { group, file } => if group < self.groups@.len() && file
                < self.groups@[group as int].files@.len()
                && !self.groups@[group as int].files@[file as int].protected {
                let f = self.groups@[group as int].files@[file as int];
                seq![(f.path@, f.size)]
            } else {
                Seq::empty()
            },
        }
    }

    /// The files the current plan would remove.
    pub fn planned_targets(&self) -> (targets: Vec<(FilePath, u64)>)
        requires
            self.wf(),
        ensures
            targets_in(targets@) == self.planned(),
            target_bytes(self.planned()) <= u64::MAX,
    {
        match self.plan {
            DeletePlan::Marked => self.marked_targets(),
            DeletePlan::Single { group, file } => {
                let mut targets: Vec<(FilePath, u64)> = Vec::new();
                if group < self.groups.len() && file < self.groups[group].files.len() {
                    let f = &self.groups[group].files[file];
                    if !f.protected {
                        targets.push((f.path.clone(), f.size));
                        proof {
                            assert(targets_in(targets@) =~= self.planned());
                            reveal_with_fuel(target_bytes, 2);
                        }
                        return targets;
                    }
                }
                assert(targets_in(targets@) =~= Seq::empty());
                targets
            },
        }
    }

    /// What starting the planned deletion changes, and what is asked for.
    pub open spec fn delete_asked(self, after: App, action: Action) -> bool {
        if self.planned().len() == 0 {
            &&& action == Action::Nothing
            &&& after == (App { screen: Screen::Results, status: after.status, ..self })
            &&& text_in(after.status) == Some("Nothing marked for deletion"@)
        } else {
            &&& action matches Action::Delete(targets) && targets_in(targets@) == self.planned()
            &&& after == (App {
                screen: Screen::Deleting,
                delete_state: after.delete_state,
                ..self
            })
            &&& after.delete_state.is_fresh()
        }
    }

    /// Start the planned deletion.
    pub fn start_delete(&mut self) -> (action: Action)
        requires
            old(self).wf(),
        ensures
            final(self).wf(),
            old(self).delete_asked(*final(self), action),
    {
        let targets = self.planned_targets();
        assert(targets_in(targets@).len() == targets@.len());
        if targets.len() == 0 {
            self.screen = Screen::Results;
            self.status = Some(text_from("Nothing marked for deletion"));
            return Action::Nothing;
        }
        self.delete_state = DeleteState::default();
        self.screen = Screen::Deleting;
        Action::Delete(targets)
    }

    /// What a report changes: exactly what left the disk disappears, so a rescan is
    /// not needed to see an accurate picture. Going by the marks instead would drop
    /// the wrong rows after a single-file delete, where the removed file may well
    /// have been the keeper. A stale selection would silently scope the next action
    /// to whatever survived, so it is cleared.
    pub open spec fn deletion_followed(self, after: App, msg: DeleteMsg) -> bool {
        let DeleteMsg::Done(report) = msg;
        let gone = report.deleted_paths@;
        &&& after == (App {
            groups: after.groups,
            group_selected: after.group_selected,
            file_selected: after.file_selected,
            plan: DeletePlan::Marked,
            selected: after.selected,
            shift_anchor: None,
            shift_base: after.shift_base,
            report: Some(report),
            failure_scroll: 0,
            screen: Screen::Done,
            ..self
        })
        &&& are_pruned(still_listed(self.groups@, gone), after.groups@, gone)
        &&& after.group_selected == clamped(
            self.group_selected as int,
            after.groups@.len() as int,
        )
        &&& after.file_selected == if after.groups@.len() == 0 {
            0
        } else {
            clamped(
                self.file_selected as int,
                after.groups@[after.group_selected as int].files@.len() as int,
            )
        }
        &&& after.selected@ == Set::<[u8; 32]>::empty()
        &&& after.shift_base@ == Set::<[u8; 32]>::empty()
    }

    /// Take in what a deletion came to.
    pub fn handle_delete_msg(&mut self, msg: DeleteMsg)
        requires
            old(self).wf(),
        ensures
            final(self).wf(),
            old(self).deletion_followed(*final(self), msg),
    {
        let DeleteMsg::Done(report) = msg;
        let mut groups: Vec<DupeGroup> = Vec::new();
        core::mem::swap(&mut groups, &mut self.groups);
        self.groups = pruned_groups(groups, &report.deleted_paths);
        self.clamp_selection();
        self.plan = DeletePlan::Marked;
        self.selected.clear();
        self.end_extension();
        self.report = Some(report);
        self.failure_scroll = 0;
        self.screen = Screen::Done;
    }
}

/// The groups without the files that are gone.
fn pruned_groups(groups: Vec<DupeGroup>, gone: &Vec<FilePath>) -> (out: Vec<DupeGroup>)
    requires
        fit(groups@),
    ensures
        fit(out@),
        are_pruned(still_listed(groups@, gone@), out@, gone@),
{
    let ghost given = groups@;
    let ghost flags = group_flags(given, gone@);
    let mut out: Vec<DupeGroup> = Vec::new();
    let mut at: usize = 0;
    let n: usize = groups.len();
    for group in it: groups
        invariant
            it.seq() == given,
            at == it.index(),
            n == given.len(),
            flags == group_flags(given, gone@),
            are_pruned(picked(given.take(at as int), flags), out@, gone@),
    {
        let ghost before = out@;
        assert(given.take(at + 1).drop_last() =~= given.take(at as int));
        match pruned_group(group, gone) {
            Some(after) => {
                out.push(after);
            },
            None => {},
        }
        at += 1;
    }
    proof {
        assert(given.take(at as int) =~= given);
        let listed = still_listed(given, gone@);
        assert forall|i: int| 0 <= i < listed.len() implies (#[trigger] listed[i]).wf()
            && remaining(listed[i].files@, gone@).len() > 1 by {
            assert(listed.contains(listed[i]));
            picked_holds(given, flags, listed[i]);
            let g = choose|g: int| 0 <= g < given.len() && flags[g] && #[trigger] given[g] == listed[i];
            assert(given[g].wf());
        }
        pruning_keeps_fit(listed, out@, gone@);
        listed_are_part(given, flags);
    }
    out
}

/// A file that failed to delete stays listed, as long as its group does.
pub proof fn what_stays_is_listed(
    before: Seq<DupeGroup>,
    after: Seq<DupeGroup>,
    gone: Seq<FilePath>,
    g: int,
    f: int,
)
    requires
        are_pruned(still_listed(before, gone), after, gone),
        0 <= g < before.len(),
        remaining(before[g].files@, gone).len() > 1,
        0 <= f < before[g].files@.len(),
        !lists_path(gone, before[g].files@[f].path@),
    ensures
        exists|h: int, k: int|
            #![trigger after[h].files@[k]]
            0 <= h < after.len() && 0 <= k < after[h].files@.len() && after[h].hash
                == before[g].hash && after[h].files@[k].path == before[g].files@[f].path,
{
    let flags = group_flags(before, gone);
    let listed = still_listed(before, gone);
    picked_holds(before, flags, before[g]);
    assert(flags[g]);
    let h = choose|h: int| 0 <= h < listed.len() && listed[h] == before[g];
    assert(is_pruned(listed[h], after[h], gone));
    let files = before[g].files@;
    let left = remaining(files, gone);
    picked_holds(files, stay_flags(files, gone), files[f]);
    assert(stay_flags(files, gone)[f]);
    let k = choose|k: int| 0 <= k < left.len() && left[k] == files[f];
    assert(after[h].files@[k].path == files[f].path);
}

/// Nothing that left the disk is listed any more.
pub proof fn what_is_gone_is_not_listed(
    before: Seq<DupeGroup>,
    after: Seq<DupeGroup>,
    gone: Seq<FilePath>,
    h: int,
    k: int,
)
    requires
        are_pruned(still_listed(before, gone), after, gone),
        0 <= h < after.len(),
        0 <= k < after[h].files@.len(),
    ensures
        !lists_path(gone, after[h].files@[k].path@),
{
    let listed = still_listed(before, gone);
    assert(is_pruned(listed[h], after[h], gone));
    let files = listed[h].files@;
    let left = remaining(files, gone);
    assert(after[h].files@[k].path == left[k].path);
    assert(left.contains(left[k]));
    picked_holds(files, stay_flags(files, gone), left[k]);
    let f = choose|f: int|
        0 <= f < files.len() && stay_flags(files, gone)[f] && #[trigger] files[f] == left[k];
    assert(!lists_path(gone, files[f].path@));
}

/// A plan never holds a protected file, and nothing kept unless it was picked out by
/// hand.
pub proof fn plans_spare_protected_files(app: App, t: int)
    requires
        0 <= t < app.planned().len(),
    ensures
        exists|g: int, f: int|
            #![trigger app.groups@[g].files@[f]]
            0 <= g < app.groups@.len() && 0 <= f < app.groups@[g].files@.len()
                && !app.groups@[g].files@[f].protected && app.planned()[t] == (
                app.groups@[g].files@[f].path@,
                app.groups@[g].files@[f].size,
            ) && (app.plan == DeletePlan::Marked ==> !app.groups@[g].files@[f].keep
                && !app.groups@[g].skipped && super::results::scope_flags(
                app.groups@,
                app.selected@,
            )[g]),
{
    match app.plan {
        DeletePlan::Marked => {
            let flags = super::results::scope_flags(app.groups@, app.selected@);
            let scoped = app.scoped();
            crate::delete::pending_spares_keepers(scoped, t);
            let (s, f) = choose|s: int, f: int|
                #![trigger scoped[s].files@[f]]
                0 <= s < scoped.len() && !scoped[s].skipped && 0 <= f < scoped[s].files@.len()
                    && scoped[s].files@[f].doomed() && crate::delete::pending(scoped)[t] == (
                    scoped[s].files@[f].path@,
                    scoped[s].files@[f].size,
                );
            assert(scoped.contains(scoped[s]));
            picked_holds(app.groups@, flags, scoped[s]);
            let g = choose|g: int|
                0 <= g < app.groups@.len() && flags[g] && #[trigger] app.groups@[g] == scoped[s];
            assert(app.groups@[g].files@[f].doomed());
        },
        DeletePlan::Single { group, file } => {
            assert(app.groups@[group as int].files@[file as int].path@ == app.planned()[t].0);
        },
    }
}

} // verus!
