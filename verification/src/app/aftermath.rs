//! What is left after a deletion, what a scan starts from and ends in, and which
//! directories are references.

use super::deletion::{group_flags, is_pruned, remaining, settled, stay_flags, still_listed};
use super::scanning::{made_list, outside_flags, reference_key, without_repeats};
use super::{Action, App, DeletePlan, Key, KeyCode, Pane, Screen};
use crate::delete::{DeleteMsg, DeleteReport};
use crate::grouping::{picked, picked_places};
use crate::model::{keepers, DupeGroup, FileEntry, Phase, ScanMsg};
use crate::order::{sort_exists, sorted_from, sorted_has_the_same_items};
use crate::path::laws::{starting_means_lying_in, starts_with_components};
use crate::path::{components, FilePath};
use crate::text::{displayed, text_in};
use crate::time::Duration;
use vstd::prelude::*;

verus! {

/// One of these paths has the components of `path`.
pub open spec fn is_named(paths: Seq<FilePath>, path: Seq<u8>) -> bool {
    exists|d: int|
        0 <= d < paths.len() && components((#[trigger] paths[d])@) == components(path)
}

/// This file left the disk: one of the deleted paths names it.
pub open spec fn left_the_disk(report: DeleteReport, file: FileEntry) -> bool {
    is_named(report.deleted_paths@, file.path@)
}

proof fn gone_is_listed(report: DeleteReport, file: FileEntry)
    ensures
        left_the_disk(report, file) == crate::path::lists_path(report.deleted_paths@, file.path@),
{
    let list = report.deleted_paths@;
    if left_the_disk(report, file) {
        let d = choose|d: int|
            0 <= d < list.len() && components((#[trigger] list[d])@) == components(file.path@);
        assert(components(list[d]@) == components(file.path@));
    }
    if crate::path::lists_path(list, file.path@) {
        let d = choose|d: int|
            0 <= d < list.len() && components((#[trigger] list[d])@) == components(file.path@);
        assert(components(list[d]@) == components(file.path@));
    }
}

/// After a deletion its report is shown, and nothing is selected or planned any more.
pub proof fn a_report_is_shown(before: App, after: App, report: DeleteReport)
    requires
        before.deletion_followed(after, DeleteMsg::Done(report)),
    ensures
        after.screen == Screen::Done,
        after.report == Some(report),
        after.failure_scroll == 0,
        after.plan == DeletePlan::Marked,
        after.shift_anchor is None,
        forall|hash: [u8; 32]| !#[trigger] after.selected@.contains(hash),
        after.options == before.options,
        after.sort == before.sort,
        after.delete_mode == before.delete_mode,
        after.groups@.len() > 0 ==> after.group_selected < after.groups@.len(),
        before.group_selected < after.groups@.len() ==> after.group_selected
            == before.group_selected,
        forall|hash: [u8; 32]| !#[trigger] after.shift_base@.contains(hash),
        after.group_selected < after.groups@.len() ==> {
            let files = after.groups@[after.group_selected as int].files@;
            &&& before.file_selected < files.len() ==> after.file_selected == before.file_selected
            &&& files.len() > 0 && before.file_selected >= files.len() ==> after.file_selected
                == files.len() - 1
        },
{
    assert(after.groups.len() <= usize::MAX);
}

/// A group stays listed exactly where at least two of its files are still there: group `h`
/// is what is left of group `places[h]`.
pub proof fn a_group_stays_while_two_copies_are_left(
    before: App,
    after: App,
    report: DeleteReport,
) -> (places: Seq<int>)
    requires
        before.deletion_followed(after, DeleteMsg::Done(report)),
    ensures
        places.len() == after.groups@.len(),
        forall|h: int|
            0 <= h < places.len() ==> {
                &&& 0 <= #[trigger] places[h] < before.groups@.len()
                &&& after.groups@[h].hash == before.groups@[places[h]].hash
                &&& after.groups@[h].size == before.groups@[places[h]].size
                &&& after.groups@[h].skipped == before.groups@[places[h]].skipped
                &&& after.groups@[h].files@.len() >= 2
            },
        forall|h: int, k: int|
            0 <= h < k < places.len() ==> #[trigger] places[h] < #[trigger] places[k],
        forall|g: int, f: int, k: int|
            #![trigger before.groups@[g].files@[f], before.groups@[g].files@[k]]
            0 <= g < before.groups@.len() && 0 <= f < k < before.groups@[g].files@.len()
                && !left_the_disk(report, before.groups@[g].files@[f]) && !left_the_disk(
                report,
                before.groups@[g].files@[k],
            ) ==> places.contains(g),
{
    let gone = report.deleted_paths@;
    let flags = group_flags(before.groups@, gone);
    let listed = still_listed(before.groups@, gone);
    let places = picked_places(before.groups@, flags);
    assert forall|h: int| 0 <= h < places.len() implies {
        &&& 0 <= #[trigger] places[h] < before.groups@.len()
        &&& after.groups@[h].hash == before.groups@[places[h]].hash
        &&& after.groups@[h].size == before.groups@[places[h]].size
        &&& after.groups@[h].skipped == before.groups@[places[h]].skipped
        &&& after.groups@[h].files@.len() >= 2
    } by {
        assert(is_pruned(listed[h], after.groups@[h], gone));
        assert(flags[places[h]]);
    }
    assert forall|g: int, f: int, k: int|
        #![trigger before.groups@[g].files@[f], before.groups@[g].files@[k]]
        0 <= g < before.groups@.len() && 0 <= f < k < before.groups@[g].files@.len()
            && !left_the_disk(report, before.groups@[g].files@[f]) && !left_the_disk(
            report,
            before.groups@[g].files@[k],
        ) implies places.contains(g) by {
        let files = before.groups@[g].files@;
        gone_is_listed(report, files[f]);
        gone_is_listed(report, files[k]);
        let at = picked_places(files, stay_flags(files, gone));
        assert(stay_flags(files, gone)[f] && stay_flags(files, gone)[k]);
        assert(at.contains(f) && at.contains(k));
        let x = choose|x: int| 0 <= x < at.len() && at[x] == f;
        let y = choose|y: int| 0 <= y < at.len() && at[y] == k;
        assert(x != y);
        assert(flags[g]);
    }
    places
}

/// Of a group that stays, exactly the files that are still there stay, in their order: file
/// `i` is what file `r.1[i]` of group `r.0` was. Marks stay as they are while one of these
/// files is kept; otherwise the first one is kept from now on.
pub proof fn the_files_that_are_left_stay(
    before: App,
    after: App,
    report: DeleteReport,
    h: int,
) -> (r: (int, Seq<int>))
    requires
        before.deletion_followed(after, DeleteMsg::Done(report)),
        0 <= h < after.groups@.len(),
    ensures
        0 <= r.0 < before.groups@.len(),
        after.groups@[h].hash == before.groups@[r.0].hash,
        r.1.len() == after.groups@[h].files@.len(),
        forall|i: int|
            0 <= i < r.1.len() ==> {
                let old = before.groups@[r.0].files@[#[trigger] r.1[i]];
                let new = after.groups@[h].files@[i];
                let kept = exists|k: int|
                    0 <= k < r.1.len() && (before.groups@[r.0].files@[#[trigger] r.1[k]]).keep;
                &&& 0 <= r.1[i] < before.groups@[r.0].files@.len()
                &&& !left_the_disk(report, old)
                &&& new == (FileEntry { keep: new.keep, ..old })
                &&& new.keep == if kept {
                    old.keep
                } else {
                    i == 0 || old.protected
                }
            },
        forall|i: int, k: int| 0 <= i < k < r.1.len() ==> #[trigger] r.1[i] < #[trigger] r.1[k],
        forall|f: int|
            0 <= f < before.groups@[r.0].files@.len() && !left_the_disk(
                report,
                #[trigger] before.groups@[r.0].files@[f],
            ) ==> r.1.contains(f),
{
    let gone = report.deleted_paths@;
    let flags = group_flags(before.groups@, gone);
    let listed = still_listed(before.groups@, gone);
    let places = picked_places(before.groups@, flags);
    let g = places[h];
    let files = before.groups@[g].files@;
    let left = remaining(files, gone);
    let at = picked_places(files, stay_flags(files, gone));
    assert(is_pruned(listed[h], after.groups@[h], gone));
    assert(listed[h] == before.groups@[g]);
    let p = |e: FileEntry| e.keep;
    crate::model::how_many_bounds(left, p);
    assert(after.groups@[h].files@ == settled(left));
    assert forall|i: int| 0 <= i < at.len() implies !left_the_disk(
        report,
        files[#[trigger] at[i]],
    ) by {
        gone_is_listed(report, files[at[i]]);
        assert(stay_flags(files, gone)[at[i]]);
    }
    assert forall|f: int|
        0 <= f < files.len() && !left_the_disk(report, #[trigger] files[f]) implies at.contains(
        f,
    ) by {
        gone_is_listed(report, files[f]);
        assert(stay_flags(files, gone)[f]);
    }
    let kept = exists|k: int| 0 <= k < at.len() && (files[#[trigger] at[k]]).keep;
    assert(kept == (keepers(left) > 0)) by {
        if kept {
            let k = choose|k: int| 0 <= k < at.len() && (files[#[trigger] at[k]]).keep;
            assert(p(left[k]));
        }
        if keepers(left) > 0 {
            let k = choose|k: int| 0 <= k < left.len() && p(#[trigger] left[k]);
            assert(files[at[k]].keep);
        }
    }
    (g, at)
}

/// The tree that a key asks to be scanned: in the browser `s` means the directory that the
/// highlighted row stands for, or the current one on its own row, on a file or on none;
/// later `r` means the tree that was scanned before.
pub open spec fn asks_for_a_scan(before: App, key: Key, root: Seq<u8>) -> bool {
    ||| before.screen == Screen::Picker && key.code == KeyCode::Char('s') && root == if before.picker_selected
        < before.entries@.len() && (before.entries@[before.picker_selected as int].kind
        == super::RowKind::Parent || before.entries@[before.picker_selected as int].kind
        == super::RowKind::Drive || before.entries@[before.picker_selected as int].kind
        == super::RowKind::Directory) {
        before.entries@[before.picker_selected as int].path@
    } else {
        before.cwd@
    }
    ||| (before.screen == Screen::Results || before.screen == Screen::Done) && key.code
        == KeyCode::Char('r') && before.scan_root is Some && root == before.scan_root->0@
}

/// Unless a reference directory contains the tree, a scan of it starts, from nothing.
pub proof fn a_scan_starts_clean(
    before: App,
    after: App,
    key: Key,
    now: Duration,
    action: Action,
    root: Seq<u8>,
)
    requires
        before.key_pressed(after, key, now, action),
        asks_for_a_scan(before, key, root),
        forall|r: int|
            0 <= r < before.options.reference_roots@.len() ==> !starts_with_components(
                root,
                (#[trigger] before.options.reference_roots@[r])@,
            ),
    ensures
        action matches Action::Scan(path) && path@ == root,
        after.screen == Screen::Scanning,
        after.scan_root is Some && after.scan_root->0@ == root,
        after.scan_started == Some(now),
        after.scan_elapsed is None,
        after.phase == Phase::Walking,
        after.groups@.len() == 0,
        after.errors@.len() == 0,
        after.group_selected == 0,
        after.file_selected == 0,
        after.status is None,
        !after.scan_state.cancel,
        after.scan_state.files_seen == 0,
        after.scan_state.bytes_seen == 0,
        after.scan_state.dirs_seen == 0,
        after.scan_state.files_skipped == 0,
        after.scan_state.errors == 0,
        after.scan_state.candidates == 0,
        after.scan_state.files_hashed == 0,
        after.scan_state.bytes_hashed == 0,
        after.scan_state.cache_hits == 0,
        after.options == (crate::model::ScanOptions {
            reference_roots: after.options.reference_roots,
            ..before.options
        }),
        after.delete_mode == before.delete_mode,
        after.sort == before.sort,
        forall|r: int|
            0 <= r < before.options.reference_roots@.len() ==> is_named(
                after.options.reference_roots@,
                (#[trigger] before.options.reference_roots@[r])@,
            ),
        forall|q: int|
            0 <= q < after.options.reference_roots@.len()
                ==> before.options.reference_roots@.contains(
                #[trigger] after.options.reference_roots@[q],
            ),
{
    let given = before.options.reference_roots@;
    assert forall|r: int| 0 <= r < given.len() implies !crate::path::lies_in(
        root,
        (#[trigger] given[r])@,
    ) by {
        starting_means_lying_in(root, given[r]@);
    }
    let start = if before.screen == Screen::Results {
        before.silent()
    } else {
        before
    };
    assert(!super::scanning::refused(start.options, root));
    assert(start.scan_begun(after, root, now));
    references_stay_listed(given);
}

/// Sorting the reference directories and leaving out repetitions loses none and adds none.
proof fn references_stay_listed(given: Seq<FilePath>)
    ensures
        ({
            let kept = without_repeats(sorted_from(given, reference_key()));
            &&& forall|r: int| 0 <= r < given.len() ==> is_named(kept, (#[trigger] given[r])@)
            &&& forall|q: int| 0 <= q < kept.len() ==> given.contains(#[trigger] kept[q])
        }),
{
    let sorted = sorted_from(given, reference_key());
    sort_exists(given, reference_key());
    let kept = without_repeats(sorted);
    assert forall|r: int| 0 <= r < given.len() implies is_named(kept, (#[trigger] given[r])@) by {
        sorted_has_the_same_items(given, reference_key(), sorted, given[r]);
        assert(given.contains(given[r]));
        let x = choose|x: int| 0 <= x < sorted.len() && sorted[x] == given[r];
        no_repeat_is_lost(sorted, x);
    }
    assert forall|q: int| 0 <= q < kept.len() implies given.contains(#[trigger] kept[q]) by {
        nothing_is_added(sorted, q);
        sorted_has_the_same_items(given, reference_key(), sorted, kept[q]);
    }
}

proof fn no_repeat_is_lost(list: Seq<FilePath>, x: int)
    requires
        0 <= x < list.len(),
    ensures
        is_named(without_repeats(list), list[x]@),
    decreases list.len(),
{
    let all = without_repeats(list);
    if list.len() < 2 {
        assert(components(all[x]@) == components(list[x]@));
    } else {
        let rest = list.drop_last();
        let fewer = without_repeats(rest);
        let y = if x < rest.len() {
            x
        } else {
            rest.len() - 1
        };
        no_repeat_is_lost(rest, y);
        let q = choose|q: int|
            0 <= q < fewer.len() && components((#[trigger] fewer[q])@) == components(rest[y]@);
        assert(all[q] == fewer[q]);
        if x == list.len() - 1 && all.len() > fewer.len() {
            assert(all[fewer.len() as int] == list[x]);
        } else {
            assert(components(all[q]@) == components(list[x]@));
        }
    }
}

proof fn nothing_is_added(list: Seq<FilePath>, q: int)
    requires
        0 <= q < without_repeats(list).len(),
    ensures
        list.contains(without_repeats(list)[q]),
    decreases list.len(),
{
    if list.len() < 2 {
        assert(list[q] == without_repeats(list)[q]);
    } else {
        let rest = list.drop_last();
        let fewer = without_repeats(rest);
        if q < fewer.len() {
            nothing_is_added(rest, q);
            let x = choose|x: int| 0 <= x < rest.len() && rest[x] == fewer[q];
            assert(list[x] == fewer[q]);
        } else {
            assert(list[list.len() - 1] == without_repeats(list)[q]);
        }
    }
}

/// A tree inside a reference directory is not scanned: nothing in it could be deleted.
pub proof fn a_scan_inside_a_reference_is_refused(
    before: App,
    after: App,
    key: Key,
    now: Duration,
    action: Action,
    root: Seq<u8>,
    r: int,
)
    requires
        before.key_pressed(after, key, now, action),
        asks_for_a_scan(before, key, root),
        0 <= r < before.options.reference_roots@.len(),
        starts_with_components(root, before.options.reference_roots@[r]@),
    ensures
        action == Action::Nothing,
        after == (App { screen: Screen::Picker, status: after.status, ..before }),
        after.status is Some,
{
    starting_means_lying_in(root, before.options.reference_roots@[r]@);
}

/// What the scanner's messages come to: the phase is shown, up to a thousand problems are
/// listed, the groups are shown in the current order, and a cancelled scan goes back.
pub proof fn scanner_messages_are_followed(
    before: App,
    after: App,
    msg: ScanMsg,
    now: Duration,
)
    requires
        before.scan_followed(after, msg, now),
    ensures
        msg matches ScanMsg::Phase(p) ==> after == (App { phase: p, ..before }),
        msg matches ScanMsg::Error(e) ==> {
            &&& after == (App { errors: after.errors, ..before })
            &&& before.errors@.len() < 1_000 ==> after.errors@ == before.errors@.push(e)
            &&& before.errors@.len() >= 1_000 ==> after.errors@ == before.errors@
        },
        msg is Cancelled ==> {
            &&& after.screen == Screen::Picker
            &&& after.groups@ == before.groups@
            &&& after.status is Some
        },
        msg matches ScanMsg::Done(groups) ==> {
            &&& after.screen == Screen::Results
            &&& after.pane == Pane::Groups
            &&& after.group_selected == 0
            &&& after.file_selected == 0
            &&& after.groups@.len() == groups@.len()
            &&& after.sort == before.sort
        },
        (msg is Done || msg is Cancelled) && before.scan_started is Some ==> {
            let began = before.scan_started->0.secs * 1_000_000_000 + before.scan_started->0.nanos;
            let ended = now.secs * 1_000_000_000 + now.nanos;
            &&& after.scan_elapsed is Some
            &&& after.scan_elapsed->0.secs * 1_000_000_000 + after.scan_elapsed->0.nanos
                == if ended >= began {
                ended - began
            } else {
                0
            }
        },
{
    if msg is Done {
        let groups = msg->Done_0@;
        sort_exists(groups, super::results::group_key(before.sort));
        if groups.len() > 0 {
            sorted_has_the_same_items(
                groups,
                super::results::group_key(before.sort),
                after.groups@,
                groups[0],
            );
        }
    }
}

/// The groups that the scanner found are shown, all of them and no others, in the order
/// that is set.
pub proof fn what_was_found_is_shown(
    before: App,
    after: App,
    groups: Vec<DupeGroup>,
    now: Duration,
    g: DupeGroup,
    i: int,
    j: int,
)
    requires
        before.scan_followed(after, ScanMsg::Done(groups), now),
        0 <= i <= j < after.groups@.len(),
    ensures
        after.groups@.contains(g) <==> groups@.contains(g),
        before.sort == crate::model::SortKey::Wasted && after.groups@[i].files@.len() > 0
            && after.groups@[j].files@.len() > 0 ==> after.groups@[j].size * (
        after.groups@[j].files@.len() - 1) <= after.groups@[i].size * (
        after.groups@[i].files@.len() - 1),
        before.sort == crate::model::SortKey::Size ==> after.groups@[j].size
            <= after.groups@[i].size,
        before.sort == crate::model::SortKey::Count ==> after.groups@[j].files@.len()
            <= after.groups@[i].files@.len(),
{
    let key = super::results::group_key(before.sort);
    sort_exists(groups@, key);
    sorted_has_the_same_items(groups@, key, after.groups@, g);
    super::effects::sorted_groups_are_in_order(groups@, before.sort, after.groups@, i, j);
}

/// Toggling a directory that is a reference makes it none; the others stay.
pub proof fn a_reference_is_taken_back(
    before: App,
    after: App,
    target: Seq<u8>,
    dir: Seq<u8>,
    r: int,
)
    requires
        before.reference_toggled(after, target, Some(dir)),
        0 <= r < before.options.reference_roots@.len(),
        components(before.options.reference_roots@[r]@) == components(dir),
    ensures
        after.options.reference_roots@.len() == before.options.reference_roots@.len() - 1,
        exists|x: int|
            0 <= x < before.options.reference_roots@.len() && components(
                (#[trigger] before.options.reference_roots@[x])@,
            ) == components(dir) && after.options.reference_roots@
                == before.options.reference_roots@.remove(x),
        text_in(after.status) == Some("Unprotected "@ + displayed(dir)),
{
    assert(!super::scanning::is_no_reference(before.options.reference_roots@, dir));
    let x = choose|x: int| #[trigger]
        super::scanning::is_first_same(before.options.reference_roots@, dir, x)
            && after.options.reference_roots@ == before.options.reference_roots@.remove(x);
    assert(components(before.options.reference_roots@[x]@) == components(dir));
}

/// A directory inside a reference directory is protected already, and nothing changes.
pub proof fn a_contained_directory_adds_nothing(
    before: App,
    after: App,
    target: Seq<u8>,
    dir: Seq<u8>,
    r: int,
)
    requires
        before.reference_toggled(after, target, Some(dir)),
        0 <= r < before.options.reference_roots@.len(),
        starts_with_components(dir, before.options.reference_roots@[r]@),
        forall|x: int|
            0 <= x < before.options.reference_roots@.len() ==> components(
                (#[trigger] before.options.reference_roots@[x])@,
            ) != components(dir),
    ensures
        after.options.reference_roots@ == before.options.reference_roots@,
        exists|x: int|
            0 <= x < before.options.reference_roots@.len() && starts_with_components(
                dir,
                (#[trigger] before.options.reference_roots@[x])@,
            ) && text_in(after.status) == Some(
                "Already protected by "@ + displayed(before.options.reference_roots@[x]@),
            ),
{
    let refs = before.options.reference_roots@;
    starting_means_lying_in(dir, before.options.reference_roots@[r]@);
    assert(super::scanning::is_no_reference(before.options.reference_roots@, dir));
    assert(!super::scanning::is_uncontained(before.options.reference_roots@, dir));
    let x = choose|x: int| #[trigger]
        super::scanning::is_first_container(refs, dir, x) && after.status->0@
            == "Already protected by "@ + displayed(refs[x]@);
    starting_means_lying_in(dir, refs[x]@);
}

/// Any other directory becomes a reference, and takes the place of those below it; those
/// elsewhere stay.
pub proof fn a_new_reference_takes_the_place_of_those_below(
    before: App,
    after: App,
    target: Seq<u8>,
    dir: Seq<u8>,
    p: FilePath,
)
    requires
        before.reference_toggled(after, target, Some(dir)),
        forall|x: int|
            0 <= x < before.options.reference_roots@.len() ==> !starts_with_components(
                dir,
                (#[trigger] before.options.reference_roots@[x])@,
            ),
        p@ != dir,
    ensures
        exists|x: int|
            0 <= x < after.options.reference_roots@.len() && (
            #[trigger] after.options.reference_roots@[x])@ == dir,
        after.options.reference_roots@.contains(p)
            <==> before.options.reference_roots@.contains(p) && !starts_with_components(p@, dir),
        text_in(after.status) == Some("Protected "@ + displayed(dir)),
{
    let refs = before.options.reference_roots@;
    let now = after.options.reference_roots@;
    assert forall|x: int| 0 <= x < refs.len() implies components((#[trigger] refs[x])@)
        != components(dir) by {
        assert(!starts_with_components(dir, refs[x]@));
    }
    assert(super::scanning::is_no_reference(refs, dir));
    assert forall|x: int| 0 <= x < refs.len() implies !crate::path::lies_in(
        dir,
        (#[trigger] refs[x])@,
    ) by {
        starting_means_lying_in(dir, refs[x]@);
    }
    assert(super::scanning::is_uncontained(refs, dir));
    let path = choose|path: FilePath| path@ == dir && #[trigger] made_list(now, refs, path);
    let flags = outside_flags(refs, path@);
    let kept = picked(refs, flags).push(path);
    sort_exists(kept, reference_key());
    sorted_has_the_same_items(kept, reference_key(), now, path);
    assert(kept[kept.len() - 1] == path);
    assert(kept.contains(path));
    let x = choose|x: int| 0 <= x < now.len() && now[x] == path;
    assert(now[x]@ == dir);
    sorted_has_the_same_items(kept, reference_key(), now, p);
    crate::grouping::picked_holds(refs, flags, p);
    starting_means_lying_in(p@, dir);
    if kept.contains(p) {
        let y = choose|y: int| 0 <= y < kept.len() && kept[y] == p;
        assert(picked(refs, flags)[y] == p);
        assert(picked(refs, flags).contains(p));
    }
    if picked(refs, flags).contains(p) {
        let y = choose|y: int| 0 <= y < picked(refs, flags).len() && picked(refs, flags)[y] == p;
        assert(kept[y] == p);
    }
    if refs.contains(p) && !starts_with_components(p@, dir) {
        let y = choose|y: int| 0 <= y < refs.len() && refs[y] == p;
        assert(flags[y] && refs[y] == p);
    }
}

/// Where a directory cannot be resolved the reference directories stay as they are.
pub proof fn an_unresolved_reference_changes_nothing(before: App, after: App, target: Seq<u8>)
    requires
        before.reference_toggled(after, target, None),
    ensures
        after == (App { status: after.status, ..before }),
        text_in(after.status) == Some("Cannot resolve reference "@ + displayed(target)),
{
}

} // verus!
