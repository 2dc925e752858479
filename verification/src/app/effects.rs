//! What the keys of the dashboard come to, told by the groups, their files and the
//! cursor alone.

use super::results::scope_flags;
use super::{Action, App, DeletePlan, Key, KeyCode, Pane, Screen};
use crate::delete::{pending, pending_files, pending_of, targets_in, DeleteMode};
use crate::grouping::picked;
use crate::model::{choice, is_choice, DupeGroup, FileEntry, SortKey};
use crate::order::{
    descending, descending_decides, sort_exists, sorted_from, sorted_has_the_same_items,
    sorted_keys_ascend,
};
use crate::path::FilePath;
use crate::text::{lower_case, text_before, text_in, text_key, text_key_decides};
use crate::time::Duration;
use vstd::prelude::*;

verus! {

/// The keys `1` to `4` set the keeper of every group in scope: the first copy, the newest,
/// the oldest, or the one with the shortest path. Of equal ones the first is kept, a copy
/// without a time never wins by time, and what is protected is kept as well.
pub proof fn number_keys_choose_the_kept_copy(
    before: App,
    after: App,
    key: Key,
    now: Duration,
    action: Action,
    g: int,
) -> (k: int)
    requires
        before.key_pressed(after, key, now, action),
        before.screen == Screen::Results,
        key.code == KeyCode::Char('1') || key.code == KeyCode::Char('2') || key.code
            == KeyCode::Char('3') || key.code == KeyCode::Char('4'),
        0 <= g < before.groups@.len(),
        before.groups@[g].files@.len() > 0,
        before.selected@ == Set::<[u8; 32]>::empty() || before.selected@.contains(
            before.groups@[g].hash,
        ),
    ensures
        action == Action::Nothing,
        after.groups@.len() == before.groups@.len(),
        after.groups@[g] == (DupeGroup { files: after.groups@[g].files, ..before.groups@[g] }),
        after.groups@[g].files@.len() == before.groups@[g].files@.len(),
        0 <= k < before.groups@[g].files@.len(),
        forall|f: int|
            0 <= f < before.groups@[g].files@.len() ==> #[trigger] after.groups@[g].files@[f] == (
            FileEntry {
                keep: f == k || before.groups@[g].files@[f].protected,
                ..before.groups@[g].files@[f]
            }),
        key.code == KeyCode::Char('1') ==> k == 0,
        key.code == KeyCode::Char('2') || key.code == KeyCode::Char('3') ==> {
            let files = before.groups@[g].files@;
            ||| k == 0 && forall|f: int|
                0 <= f < files.len() ==> (#[trigger] files[f]).modified is None
            ||| files[k].modified is Some && forall|f: int|
                0 <= f < files.len() && (#[trigger] files[f]).modified is Some ==> {
                    let kept = files[k].modified->0.secs * 1_000_000_000
                        + files[k].modified->0.nanos;
                    let other = files[f].modified->0.secs * 1_000_000_000
                        + files[f].modified->0.nanos;
                    &&& f < k ==> other != kept
                    &&& key.code == KeyCode::Char('2') ==> other <= kept
                    &&& key.code == KeyCode::Char('3') ==> other >= kept
                }
        },
        key.code == KeyCode::Char('4') ==> forall|f: int|
            0 <= f < before.groups@[g].files@.len() ==> {
                let kept = before.groups@[g].files@[k].path@.len();
                let other = (#[trigger] before.groups@[g].files@[f]).path@.len();
                kept <= other && (f < k ==> kept < other)
            },
{
    let files = before.groups@[g].files@;
    assert(scope_flags(before.groups@, before.selected@)[g]);
    assert(after.groups@[g].files@.len() == files.len());
    let strategy = if key.code == KeyCode::Char('1') {
        crate::model::KeepStrategy::First
    } else if key.code == KeyCode::Char('2') {
        crate::model::KeepStrategy::Newest
    } else if key.code == KeyCode::Char('3') {
        crate::model::KeepStrategy::Oldest
    } else {
        crate::model::KeepStrategy::ShortestPath
    };
    let k = choice(files, strategy);
    assert(is_choice(files, strategy, k));
    k
}

/// The keys `1` to `4` change no group out of scope, and nothing but the groups and the
/// message.
pub proof fn number_keys_leave_the_rest_alone(
    before: App,
    after: App,
    key: Key,
    now: Duration,
    action: Action,
    g: int,
)
    requires
        before.key_pressed(after, key, now, action),
        before.screen == Screen::Results,
        key.code == KeyCode::Char('1') || key.code == KeyCode::Char('2') || key.code
            == KeyCode::Char('3') || key.code == KeyCode::Char('4'),
        0 <= g < before.groups@.len(),
    ensures
        after == (App { groups: after.groups, status: after.status, ..before }),
        after.groups@.len() == before.groups@.len(),
        before.selected@ != Set::<[u8; 32]>::empty() && !before.selected@.contains(
            before.groups@[g].hash,
        ) ==> after.groups@[g] == before.groups@[g],
{
    assert(after.groups@[g] == after.groups@[g]);
}

/// With nothing selected `x` flips whether the group under the cursor is skipped, and
/// changes no other group.
pub proof fn x_skips_the_group_under_the_cursor(
    before: App,
    after: App,
    key: Key,
    now: Duration,
    action: Action,
    g: int,
)
    requires
        before.key_pressed(after, key, now, action),
        before.screen == Screen::Results,
        key.code == KeyCode::Char('x'),
        before.selected@ == Set::<[u8; 32]>::empty(),
        0 <= g < before.groups@.len(),
    ensures
        action == Action::Nothing,
        after == (App { groups: after.groups, status: None, ..before }),
        after.groups@.len() == before.groups@.len(),
        g == before.group_selected ==> after.groups@[g] == (DupeGroup {
            skipped: !before.groups@[g].skipped,
            ..before.groups@[g]
        }),
        g != before.group_selected ==> after.groups@[g] == before.groups@[g],
{
}

/// With a selection `x` skips all selected groups where any of them was not skipped, and
/// otherwise skips none of them; the others stay as they are.
pub proof fn x_moves_the_selection_to_one_state(
    before: App,
    after: App,
    key: Key,
    now: Duration,
    action: Action,
    g: int,
)
    requires
        before.key_pressed(after, key, now, action),
        before.screen == Screen::Results,
        key.code == KeyCode::Char('x'),
        before.selected@ != Set::<[u8; 32]>::empty(),
        0 <= g < before.groups@.len(),
    ensures
        action == Action::Nothing,
        after == (App { groups: after.groups, status: after.status, ..before }),
        after.groups@.len() == before.groups@.len(),
        !before.selected@.contains(before.groups@[g].hash) ==> after.groups@[g]
            == before.groups@[g],
        before.selected@.contains(before.groups@[g].hash) ==> after.groups@[g] == (DupeGroup {
            skipped: exists|h: int|
                0 <= h < before.groups@.len() && before.selected@.contains(
                    before.groups@[h].hash,
                ) && !(#[trigger] before.groups@[h]).skipped,
            ..before.groups@[g]
        }),
{
    let start = before.silent();
    let flags = scope_flags(before.groups@, before.selected@);
    if start.some_unskipped() {
        let h = choose|h: int|
            0 <= h < start.groups@.len() && scope_flags(start.groups@, start.selected@)[h] && !(
            #[trigger] start.groups@[h]).skipped;
        assert(!before.groups@[h].skipped);
    }
    if exists|h: int|
        0 <= h < before.groups@.len() && before.selected@.contains(before.groups@[h].hash) && !(
        #[trigger] before.groups@[h]).skipped {
        let h = choose|h: int|
            0 <= h < before.groups@.len() && before.selected@.contains(before.groups@[h].hash) && !(
            #[trigger] before.groups@[h]).skipped;
        assert(flags[h] && !start.groups@[h].skipped);
    }
}

/// Space keeps the copy under the cursor, and no other one that is not protected; the group
/// is not skipped any more. Other groups stay as they are.
pub proof fn space_keeps_the_copy_under_the_cursor(
    before: App,
    after: App,
    key: Key,
    now: Duration,
    action: Action,
    g: int,
    f: int,
)
    requires
        before.key_pressed(after, key, now, action),
        before.screen == Screen::Results,
        key.code == KeyCode::Char(' '),
        before.group_selected < before.groups@.len(),
        before.file_selected < before.groups@[before.group_selected as int].files@.len(),
        0 <= g < before.groups@.len(),
        0 <= f < before.groups@[g].files@.len(),
    ensures
        action == Action::Nothing,
        after == (App { groups: after.groups, pane: Pane::Files, status: None, ..before }),
        after.groups@.len() == before.groups@.len(),
        after.groups@[g].files@.len() == before.groups@[g].files@.len(),
        g != before.group_selected ==> after.groups@[g] == before.groups@[g],
        g == before.group_selected ==> {
            &&& after.groups@[g] == (DupeGroup {
                files: after.groups@[g].files,
                skipped: false,
                ..before.groups@[g]
            })
            &&& after.groups@[g].files@[f] == (FileEntry {
                keep: f == before.file_selected || before.groups@[g].files@[f].protected,
                ..before.groups@[g].files@[f]
            })
        },
{
}

/// `d` flips the mark of the copy under the cursor and no other; it changes nothing where
/// that copy is protected, or is the only one that is kept.
pub proof fn d_flips_the_mark_under_the_cursor(
    before: App,
    after: App,
    key: Key,
    now: Duration,
    action: Action,
    g: int,
    f: int,
)
    requires
        before.key_pressed(after, key, now, action),
        before.screen == Screen::Results,
        key.code == KeyCode::Char('d'),
        before.group_selected < before.groups@.len(),
        before.file_selected < before.groups@[before.group_selected as int].files@.len(),
        0 <= g < before.groups@.len(),
        0 <= f < before.groups@[g].files@.len(),
    ensures
        action == Action::Nothing,
        after == (App {
            groups: after.groups,
            pane: Pane::Files,
            status: after.status,
            ..before
        }),
        after.groups@.len() == before.groups@.len(),
        after.groups@[g] == (DupeGroup { files: after.groups@[g].files, ..before.groups@[g] }),
        after.groups@[g].files@.len() == before.groups@[g].files@.len(),
        g != before.group_selected || f != before.file_selected ==> after.groups@[g].files@[f]
            == before.groups@[g].files@[f],
        g == before.group_selected && f == before.file_selected ==> {
            let file = before.groups@[g].files@[f];
            let last = file.keep && forall|o: int|
                0 <= o < before.groups@[g].files@.len() && o != f
                    ==> !(#[trigger] before.groups@[g].files@[o]).keep;
            after.groups@[g].files@[f] == if file.protected || last {
                file
            } else {
                FileEntry { keep: !file.keep, ..file }
            }
        },
{
    let at = before.group_selected as int;
    let idx = before.file_selected as int;
    let files = before.groups@[at].files@;
    let p = |e: FileEntry| e.keep;
    if files[idx].keep {
        crate::model::how_many_bounds(files, p);
        let without = files.update(idx, FileEntry { keep: false, ..files[idx] });
        crate::model::how_many_updated(
            files,
            p,
            idx,
            FileEntry { keep: false, ..files[idx] },
        );
        crate::model::how_many_bounds(without, p);
        assert(crate::model::keepers(files) == crate::model::how_many(without, p) + 1);
        if forall|o: int| 0 <= o < files.len() && o != idx ==> !(#[trigger] files[o]).keep {
            assert forall|o: int| 0 <= o < without.len() implies !p(#[trigger] without[o]) by {
                if o != idx {
                    assert(without[o] == files[o]);
                }
            }
        } else {
            let o = choose|o: int| 0 <= o < files.len() && o != idx && (#[trigger] files[o]).keep;
            assert(without[o] == files[o]);
            assert(p(without[o]));
        }
    }
    if g != at {
        assert(after.groups@[g] == before.groups@[g]);
    }
}

/// Delete asks about the copy under the cursor, and once that is confirmed exactly this file
/// is handed out for removal, whatever is marked and wherever the cursor is.
pub proof fn delete_removes_the_copy_under_the_cursor(
    before: App,
    asked: App,
    after: App,
    key: Key,
    confirmation: Key,
    now: Duration,
    then: Duration,
    first: Action,
    action: Action,
    g: int,
    f: int,
)
    requires
        before.key_pressed(asked, key, now, first),
        before.screen == Screen::Results,
        key.code == KeyCode::Delete,
        asked.key_pressed(after, confirmation, then, action),
        confirmation.code == KeyCode::Char('y') || confirmation.code == KeyCode::Char('Y')
            || confirmation.code == KeyCode::Enter,
        g == before.group_selected,
        f == before.file_selected,
        g < before.groups@.len(),
        f < before.groups@[g].files@.len(),
        before.groups@[g].files@.len() > 1,
        !before.groups@[g].files@[f].protected,
    ensures
        first == Action::Nothing,
        asked.screen == Screen::Confirm,
        asked.groups@ == before.groups@,
        action matches Action::Delete(targets) && targets@.len() == 1 && targets@[0].0@
            == before.groups@[g].files@[f].path@ && targets@[0].1
            == before.groups@[g].files@[f].size,
        after.screen == Screen::Deleting,
        after.groups@ == before.groups@,
{
    if action is Delete {
        let targets = action->Delete_0@;
        assert(targets_in(targets).len() == targets.len());
        assert(targets_in(targets)[0] == (targets[0].0@, targets[0].1));
    }
}

/// Delete is not even put to the user for a protected copy or for the only one.
pub proof fn delete_is_refused_for_protected_and_last_copies(
    before: App,
    after: App,
    key: Key,
    now: Duration,
    action: Action,
)
    requires
        before.key_pressed(after, key, now, action),
        before.screen == Screen::Results,
        key.code == KeyCode::Delete,
        before.group_selected < before.groups@.len(),
        before.groups@[before.group_selected as int].files@.len() <= 1 || (before.file_selected
            < before.groups@[before.group_selected as int].files@.len()
            && before.groups@[before.group_selected as int].files@[before.file_selected as int].protected),
    ensures
        action == Action::Nothing,
        after == (App { status: after.status, ..before }),
        after.status is Some,
{
}

/// Where the files stand that a list of targets was made of: file `places[t].1` of group
/// `places[t].0` is target `t`. They are in the order of the list, each once, and are
/// exactly the files in scope that are marked: neither kept nor protected, in a group that
/// is not skipped.
pub open spec fn are_the_marked_files(
    groups: Seq<DupeGroup>,
    selected: Set<[u8; 32]>,
    targets: Seq<(FilePath, u64)>,
    places: Seq<(int, int)>,
) -> bool {
    &&& places.len() == targets.len()
    &&& forall|t: int|
        0 <= t < places.len() ==> {
            let g = (#[trigger] places[t]).0;
            let f = places[t].1;
            &&& 0 <= g < groups.len()
            &&& 0 <= f < groups[g].files@.len()
            &&& selected == Set::<[u8; 32]>::empty() || selected.contains(groups[g].hash)
            &&& !groups[g].skipped
            &&& !groups[g].files@[f].keep
            &&& !groups[g].files@[f].protected
            &&& targets[t].0@ == groups[g].files@[f].path@
            &&& targets[t].1 == groups[g].files@[f].size
        }
    &&& forall|t: int, u: int|
        0 <= t < u < places.len() ==> (#[trigger] places[t]).0 < (#[trigger] places[u]).0 || (
        places[t].0 == places[u].0 && places[t].1 < places[u].1)
    &&& forall|g: int, f: int|
        0 <= g < groups.len() && 0 <= f < groups[g].files@.len() && (selected == Set::<
            [u8; 32],
        >::empty() || selected.contains(groups[g].hash)) && !groups[g].skipped
            && !groups[g].files@[f].keep && !(#[trigger] groups[g].files@[f]).protected
            ==> places.contains((g, f))
}

/// Which files of a list are marked, in their order.
proof fn places_of_files(files: Seq<FileEntry>) -> (at: Seq<int>)
    ensures
        at.len() == pending_files(files).len(),
        forall|t: int|
            0 <= t < at.len() ==> {
                &&& 0 <= #[trigger] at[t] < files.len()
                &&& !files[at[t]].keep && !files[at[t]].protected
                &&& pending_files(files)[t] == (files[at[t]].path@, files[at[t]].size)
            },
        forall|t: int, u: int| 0 <= t < u < at.len() ==> #[trigger] at[t] < #[trigger] at[u],
        forall|f: int|
            0 <= f < files.len() && !(#[trigger] files[f]).keep && !files[f].protected
                ==> at.contains(f),
    decreases files.len(),
{
    if files.len() == 0 {
        Seq::empty()
    } else {
        let rest = files.drop_last();
        let n = files.len() - 1;
        let below = places_of_files(rest);
        assert forall|t: int| 0 <= t < below.len() implies files[#[trigger] below[t]]
            == rest[below[t]] by {}
        let at = if files.last().keep || files.last().protected {
            below
        } else {
            below.push(n)
        };
        assert forall|f: int|
            0 <= f < files.len() && !(#[trigger] files[f]).keep
                && !files[f].protected implies at.contains(f) by {
            if f < n {
                assert(rest[f] == files[f]);
                let t = choose|t: int| 0 <= t < below.len() && below[t] == f;
                assert(at[t] == f);
            } else {
                assert(at[below.len() as int] == f);
            }
        }
        at
    }
}

proof fn places_of_groups(groups: Seq<DupeGroup>, flags: Seq<bool>) -> (at: Seq<(int, int)>)
    requires
        groups.len() <= flags.len(),
    ensures
        at.len() == pending(picked(groups, flags)).len(),
        forall|t: int|
            0 <= t < at.len() ==> {
                let g = (#[trigger] at[t]).0;
                let f = at[t].1;
                &&& 0 <= g < groups.len() && flags[g] && !groups[g].skipped
                &&& 0 <= f < groups[g].files@.len()
                &&& !groups[g].files@[f].keep && !groups[g].files@[f].protected
                &&& pending(picked(groups, flags))[t] == (
                    groups[g].files@[f].path@,
                    groups[g].files@[f].size,
                )
            },
        forall|t: int, u: int|
            0 <= t < u < at.len() ==> (#[trigger] at[t]).0 < (#[trigger] at[u]).0 || (at[t].0
                == at[u].0 && at[t].1 < at[u].1),
        forall|g: int, f: int|
            0 <= g < groups.len() && 0 <= f < groups[g].files@.len() && flags[g]
                && !groups[g].skipped && !groups[g].files@[f].keep && !(
            #[trigger] groups[g].files@[f]).protected ==> at.contains((g, f)),
    decreases groups.len(),
{
    if groups.len() == 0 {
        Seq::empty()
    } else {
        let rest = groups.drop_last();
        let n = groups.len() - 1;
        let last = groups.last();
        let below = places_of_groups(rest, flags);
        let some = picked(rest, flags);
        assert forall|t: int| 0 <= t < below.len() implies groups[(#[trigger] below[t]).0]
            == rest[below[t].0] by {}
        if !flags[n] || last.skipped {
            if flags[n] {
                assert(picked(groups, flags).drop_last() =~= some);
                assert(pending(picked(groups, flags)) =~= pending(some));
            }
            assert forall|g: int, f: int|
                0 <= g < groups.len() && 0 <= f < groups[g].files@.len() && flags[g]
                    && !groups[g].skipped && !groups[g].files@[f].keep && !(
                #[trigger] groups[g].files@[f]).protected implies below.contains((g, f)) by {
                assert(rest[g] == groups[g]);
                assert(!rest[g].files@[f].protected);
            }
            below
        } else {
            assert(picked(groups, flags).drop_last() =~= some);
            let inner = places_of_files(last.files@);
            let more = Seq::new(inner.len(), |t: int| (n, inner[t]));
            let at = below + more;
            let all = pending(picked(groups, flags));
            assert(all == pending(some) + pending_of(last));
            assert forall|t: int| 0 <= t < at.len() implies {
                let g = (#[trigger] at[t]).0;
                let f = at[t].1;
                &&& 0 <= g < groups.len() && flags[g] && !groups[g].skipped
                &&& 0 <= f < groups[g].files@.len()
                &&& !groups[g].files@[f].keep && !groups[g].files@[f].protected
                &&& all[t] == (groups[g].files@[f].path@, groups[g].files@[f].size)
            } by {
                if t < below.len() {
                    assert(at[t] == below[t]);
                    assert(all[t] == pending(some)[t]);
                } else {
                    let u = t - below.len();
                    assert(at[t] == (n, inner[u]));
                    assert(all[t] == pending_files(last.files@)[u]);
                }
            }
            assert forall|t: int, u: int| 0 <= t < u < at.len() implies (#[trigger] at[t]).0 < (
            #[trigger] at[u]).0 || (at[t].0 == at[u].0 && at[t].1 < at[u].1) by {
                if u < below.len() {
                    assert(at[t] == below[t] && at[u] == below[u]);
                } else if t < below.len() {
                    assert(at[t] == below[t]);
                } else {
                    assert(inner[t - below.len()] < inner[u - below.len()]);
                }
            }
            assert forall|g: int, f: int|
                0 <= g < groups.len() && 0 <= f < groups[g].files@.len() && flags[g]
                    && !groups[g].skipped && !groups[g].files@[f].keep && !(
                #[trigger] groups[g].files@[f]).protected implies at.contains((g, f)) by {
                if g < n {
                    assert(rest[g] == groups[g]);
                    assert(!rest[g].files@[f].protected);
                    let t = choose|t: int| 0 <= t < below.len() && below[t] == (g, f);
                    assert(at[t] == (g, f));
                } else {
                    assert(!last.files@[f].keep);
                    let t = choose|t: int| 0 <= t < inner.len() && inner[t] == f;
                    assert(at[below.len() + t] == (g, f));
                }
            }
            at
        }
    }
}

/// Every marked copy in scope is counted and handed out, once and in the order of the
/// list, and nothing else is: in particular nothing of a skipped group.
pub proof fn marks_are_the_marked_files(app: App, targets: Seq<(FilePath, u64)>) -> (places: Seq<
    (int, int),
>)
    requires
        targets_in(targets) == app.marks(),
    ensures
        are_the_marked_files(app.groups@, app.selected@, targets, places),
{
    let flags = scope_flags(app.groups@, app.selected@);
    let at = places_of_groups(app.groups@, flags);
    assert(targets_in(targets).len() == targets.len());
    assert forall|t: int| 0 <= t < at.len() implies {
        let g = (#[trigger] at[t]).0;
        let f = at[t].1;
        &&& targets[t].0@ == app.groups@[g].files@[f].path@
        &&& targets[t].1 == app.groups@[g].files@[f].size
    } by {
        assert(targets_in(targets)[t] == (targets[t].0@, targets[t].1));
    }
    at
}

/// `D` and a confirmation hand out exactly the marked copies in scope: those of the
/// selected groups, or of all groups where none is selected.
pub proof fn d_removes_what_is_marked(
    before: App,
    asked: App,
    after: App,
    key: Key,
    confirmation: Key,
    now: Duration,
    then: Duration,
    first: Action,
    action: Action,
    g: int,
    f: int,
) -> (places: Seq<(int, int)>)
    requires
        before.key_pressed(asked, key, now, first),
        before.screen == Screen::Results,
        key.code == KeyCode::Char('D'),
        asked.key_pressed(after, confirmation, then, action),
        confirmation.code == KeyCode::Char('y') || confirmation.code == KeyCode::Char('Y')
            || confirmation.code == KeyCode::Enter,
        0 <= g < before.groups@.len(),
        0 <= f < before.groups@[g].files@.len(),
        before.selected@ == Set::<[u8; 32]>::empty() || before.selected@.contains(
            before.groups@[g].hash,
        ),
        !before.groups@[g].skipped,
        !before.groups@[g].files@[f].keep,
        !before.groups@[g].files@[f].protected,
    ensures
        first == Action::Nothing,
        asked.screen == Screen::Confirm,
        asked.groups@ == before.groups@,
        action matches Action::Delete(targets) && are_the_marked_files(
            before.groups@,
            before.selected@,
            targets@,
            places,
        ),
        after.screen == Screen::Deleting,
        after.groups@ == before.groups@,
{
    let flags = scope_flags(before.groups@, before.selected@);
    let at = places_of_groups(before.groups@, flags);
    assert(flags[g]);
    assert(!before.groups@[g].files@[f].protected);
    assert(at.contains((g, f)));
    assert(before.silent().marks() == before.marks());
    assert(before.marks().len() > 0);
    assert(asked.planned() == before.marks());
    marks_are_the_marked_files(before, action->Delete_0@)
}

/// Where no copy in scope is marked, `D` asks nothing and says so.
pub proof fn d_asks_nothing_where_nothing_is_marked(
    before: App,
    after: App,
    key: Key,
    now: Duration,
    action: Action,
)
    requires
        before.key_pressed(after, key, now, action),
        before.screen == Screen::Results,
        key.code == KeyCode::Char('D'),
        forall|g: int, f: int|
            0 <= g < before.groups@.len() && 0 <= f < before.groups@[g].files@.len() && (
            before.selected@ == Set::<[u8; 32]>::empty() || before.selected@.contains(
                before.groups@[g].hash,
            )) && !before.groups@[g].skipped ==> {
                ||| (#[trigger] before.groups@[g].files@[f]).keep
                ||| before.groups@[g].files@[f].protected
            },
    ensures
        action == Action::Nothing,
        after == (App { status: after.status, ..before }),
        text_in(after.status) == Some("Nothing marked for deletion"@),
{
    let flags = scope_flags(before.groups@, before.selected@);
    let at = places_of_groups(before.groups@, flags);
    if at.len() > 0 {
        let g = at[0].0;
        let f = at[0].1;
        assert(!before.groups@[g].files@[f].keep);
        assert(false);
    }
    assert(before.silent().marks() == before.marks());
}

/// The only copy of a group that is kept is never handed out with the marked ones.
pub proof fn a_kept_copy_is_never_marked(
    groups: Seq<DupeGroup>,
    selected: Set<[u8; 32]>,
    targets: Seq<(FilePath, u64)>,
    places: Seq<(int, int)>,
    g: int,
    f: int,
)
    requires
        are_the_marked_files(groups, selected, targets, places),
        0 <= g < groups.len(),
        0 <= f < groups[g].files@.len(),
        groups[g].files@[f].keep,
    ensures
        !places.contains((g, f)),
{
}

/// Every group of a sound state has a copy that is kept, so that the marked copies are
/// never all copies.
pub proof fn every_group_has_a_kept_copy(app: App, g: int) -> (f: int)
    requires
        app.wf(),
        0 <= g < app.groups@.len(),
        app.groups@[g].files@.len() > 0,
    ensures
        0 <= f < app.groups@[g].files@.len(),
        app.groups@[g].files@[f].keep,
{
    let files = app.groups@[g].files@;
    assert(app.groups@[g].wf());
    let p = |e: FileEntry| e.keep;
    crate::model::how_many_bounds(files, p);
    choose|f: int| 0 <= f < files.len() && (#[trigger] files[f]).keep
}

/// How far a key moves the cursor: one row with `j`, `k` and the arrows, ten with the page
/// keys.
pub open spec fn is_step(key: Key, down: bool, by: int) -> bool {
    if down {
        ||| by == 1 && (key.code == KeyCode::Char('j') || (key.code == KeyCode::Down
            && !key.shift))
        ||| by == 10 && key.code == KeyCode::PageDown
    } else {
        ||| by == 1 && (key.code == KeyCode::Char('k') || (key.code == KeyCode::Up
            && !key.shift))
        ||| by == 10 && key.code == KeyCode::PageUp
    }
}

/// In the list of groups a step moves the cursor that far and no further than the ends;
/// another group starts at its first file. No group and no selection changes.
pub proof fn steps_move_through_the_groups(
    before: App,
    after: App,
    key: Key,
    now: Duration,
    action: Action,
    down: bool,
    by: int,
)
    requires
        before.key_pressed(after, key, now, action),
        before.screen == Screen::Results,
        is_step(key, down, by),
        before.pane == Pane::Groups,
        before.group_selected < before.groups@.len(),
    ensures
        action == Action::Nothing,
        after == (App {
            group_selected: after.group_selected,
            file_selected: after.file_selected,
            shift_anchor: None,
            shift_base: after.shift_base,
            status: None,
            ..before
        }),
        down && before.group_selected + by < before.groups@.len() ==> after.group_selected
            == before.group_selected + by,
        down && before.group_selected + by >= before.groups@.len() ==> after.group_selected
            == before.groups@.len() - 1,
        !down && before.group_selected >= by ==> after.group_selected == before.group_selected
            - by,
        !down && before.group_selected < by ==> after.group_selected == 0,
        after.file_selected == if after.group_selected == before.group_selected {
            before.file_selected
        } else {
            0
        },
{
    assert(before.groups.len() <= usize::MAX);
}

/// In the list of files a step moves the cursor that far and no further than the ends of
/// the group; the group stays.
pub proof fn steps_move_through_the_files(
    before: App,
    after: App,
    key: Key,
    now: Duration,
    action: Action,
    down: bool,
    by: int,
)
    requires
        before.key_pressed(after, key, now, action),
        before.screen == Screen::Results,
        is_step(key, down, by),
        before.pane == Pane::Files,
        before.group_selected < before.groups@.len(),
        before.file_selected < before.groups@[before.group_selected as int].files@.len(),
    ensures
        action == Action::Nothing,
        after == (App {
            file_selected: after.file_selected,
            shift_anchor: None,
            shift_base: after.shift_base,
            status: None,
            ..before
        }),
        ({
            let len = before.groups@[before.group_selected as int].files@.len();
            &&& down && before.file_selected + by < len ==> after.file_selected
                == before.file_selected + by
            &&& down && before.file_selected + by >= len ==> after.file_selected == len - 1
            &&& !down && before.file_selected >= by ==> after.file_selected
                == before.file_selected - by
            &&& !down && before.file_selected < by ==> after.file_selected == 0
        }),
{
    assert(before.groups@[before.group_selected as int].files.len() <= usize::MAX);
}

/// Home and End go to the ends of the list with the focus.
pub proof fn home_and_end_go_to_the_ends(
    before: App,
    after: App,
    key: Key,
    now: Duration,
    action: Action,
)
    requires
        before.key_pressed(after, key, now, action),
        before.screen == Screen::Results,
        key.code == KeyCode::Home || key.code == KeyCode::End,
        before.group_selected < before.groups@.len(),
        before.file_selected < before.groups@[before.group_selected as int].files@.len(),
    ensures
        action == Action::Nothing,
        after.groups@ == before.groups@,
        after.selected@ == before.selected@,
        before.pane == Pane::Groups ==> after.file_selected == 0 && after.group_selected == if key.code
            == KeyCode::Home {
            0
        } else {
            before.groups@.len() - 1
        },
        before.pane == Pane::Files ==> after.group_selected == before.group_selected
            && after.file_selected == if key.code == KeyCode::Home {
            0
        } else {
            before.groups@[before.group_selected as int].files@.len() - 1
        },
{
    assert(before.groups.len() <= usize::MAX);
    assert(before.groups@[before.group_selected as int].files.len() <= usize::MAX);
}

/// `m` takes the group under the cursor into the selection where it is not in, and out of
/// it where it is; nothing else joins or leaves.
pub proof fn m_toggles_the_group_under_the_cursor(
    before: App,
    after: App,
    key: Key,
    now: Duration,
    action: Action,
    hash: [u8; 32],
)
    requires
        before.key_pressed(after, key, now, action),
        before.screen == Screen::Results,
        key.code == KeyCode::Char('m'),
        before.group_selected < before.groups@.len(),
    ensures
        action == Action::Nothing,
        after == (App {
            selected: after.selected,
            shift_anchor: None,
            shift_base: after.shift_base,
            status: None,
            ..before
        }),
        after.selected@.contains(hash) == if hash == before.groups@[before.group_selected as int].hash {
            !before.selected@.contains(hash)
        } else {
            before.selected@.contains(hash)
        },
{
}

/// `a` selects every group and nothing else, or clears the selection where all groups were
/// selected already.
pub proof fn a_selects_every_group(
    before: App,
    after: App,
    key: Key,
    now: Duration,
    action: Action,
    hash: [u8; 32],
)
    requires
        before.key_pressed(after, key, now, action),
        before.screen == Screen::Results,
        key.code == KeyCode::Char('a'),
        before.groups@.len() > 0,
    ensures
        action == Action::Nothing,
        after == (App {
            selected: after.selected,
            shift_anchor: None,
            shift_base: after.shift_base,
            status: after.status,
            ..before
        }),
        (forall|g: int|
            0 <= g < before.groups@.len() ==> before.selected@.contains(
                (#[trigger] before.groups@[g]).hash,
            )) ==> !after.selected@.contains(hash),
        !(forall|g: int|
            0 <= g < before.groups@.len() ==> before.selected@.contains(
                (#[trigger] before.groups@[g]).hash,
            )) ==> (after.selected@.contains(hash) <==> exists|g: int|
            0 <= g < before.groups@.len() && (#[trigger] before.groups@[g]).hash == hash),
{
    let start = before.silent();
    assert(start.groups@ == before.groups@);
    if after.selected@.contains(hash) && !start.has_all_selected() {
        let i = choose|i: int|
            0 <= i <= start.groups@.len() - 1 && (#[trigger] start.groups@[i]).hash == hash;
        assert(before.groups@[i].hash == hash);
    }
    if !start.has_all_selected() && exists|g: int|
        0 <= g < before.groups@.len() && (#[trigger] before.groups@[g]).hash == hash {
        let g = choose|g: int|
            0 <= g < before.groups@.len() && (#[trigger] before.groups@[g]).hash == hash;
        assert(start.groups@[g].hash == hash);
    }
}

/// A Shift step moves the cursor one row and selects, on top of what was selected when the
/// extension began, the groups from the row where it began to the cursor, and no others.
pub proof fn shift_steps_select_the_block(
    before: App,
    after: App,
    key: Key,
    now: Duration,
    action: Action,
    down: bool,
    hash: [u8; 32],
)
    requires
        before.key_pressed(after, key, now, action),
        before.screen == Screen::Results,
        if down {
            key.code == KeyCode::Char('J') || (key.code == KeyCode::Down && key.shift)
        } else {
            key.code == KeyCode::Char('K') || (key.code == KeyCode::Up && key.shift)
        },
        before.group_selected < before.groups@.len(),
        before.shift_anchor is Some ==> before.shift_anchor->0 < before.groups@.len(),
    ensures
        action == Action::Nothing,
        after == (App {
            group_selected: after.group_selected,
            file_selected: 0,
            selected: after.selected,
            shift_anchor: after.shift_anchor,
            shift_base: after.shift_base,
            status: None,
            ..before
        }),
        after.group_selected == if down && before.group_selected + 1 < before.groups@.len() {
            before.group_selected + 1
        } else if !down && before.group_selected > 0 {
            before.group_selected - 1
        } else {
            before.group_selected as int
        },
        before.shift_anchor is None ==> after.shift_anchor == Some(before.group_selected)
            && after.shift_base@ == before.selected@,
        before.shift_anchor is Some ==> after.shift_anchor == before.shift_anchor
            && after.shift_base@ == before.shift_base@,
        after.selected@.contains(hash) <==> after.shift_base@.contains(hash) || exists|g: int|
            0 <= g < before.groups@.len() && (#[trigger] before.groups@[g]).hash == hash && (
            after.shift_anchor->0 <= g <= after.group_selected || after.group_selected <= g
                <= after.shift_anchor->0),
{
    assert(before.groups.len() <= usize::MAX);
    let start = before.silent();
    let anchor = after.shift_anchor->0 as int;
    let next = after.group_selected as int;
    let lo = if anchor <= next {
        anchor
    } else {
        next
    };
    let hi = if anchor <= next {
        next
    } else {
        anchor
    };
    let block = super::results::block_of(start.groups@, lo, hi);
    if block.contains(hash) {
        let i = choose|i: int| lo <= i <= hi && (#[trigger] start.groups@[i]).hash == hash;
        assert(before.groups@[i].hash == hash);
    }
    if exists|g: int|
        0 <= g < before.groups@.len() && (#[trigger] before.groups@[g]).hash == hash && (anchor
            <= g <= next || next <= g <= anchor) {
        let g = choose|g: int|
            0 <= g < before.groups@.len() && (#[trigger] before.groups@[g]).hash == hash && (anchor
                <= g <= next || next <= g <= anchor);
        assert(start.groups@[g].hash == hash);
        assert(block.contains(hash));
    }
}

/// `s` goes on to the next way of sorting and lists the groups in that order: by wasted
/// bytes, by size, by the number of copies, or by name. No group is lost or changed, the
/// selection stays, and so does the group under the cursor.
pub proof fn s_sorts_by_the_next_key(
    before: App,
    after: App,
    key: Key,
    now: Duration,
    action: Action,
    i: int,
    j: int,
    g: DupeGroup,
)
    requires
        before.key_pressed(after, key, now, action),
        before.screen == Screen::Results,
        key.code == KeyCode::Char('s'),
        0 <= i <= j < after.groups@.len(),
    ensures
        action == Action::Nothing,
        before.sort == SortKey::Wasted ==> after.sort == SortKey::Size,
        before.sort == SortKey::Size ==> after.sort == SortKey::Count,
        before.sort == SortKey::Count ==> after.sort == SortKey::Name,
        before.sort == SortKey::Name ==> after.sort == SortKey::Wasted,
        after.groups@.len() == before.groups@.len(),
        after.groups@.contains(g) <==> before.groups@.contains(g),
        after.selected@ == before.selected@,
        before.group_selected < before.groups@.len() ==> after.group_selected
            < after.groups@.len() && after.groups@[after.group_selected as int].hash
            == before.groups@[before.group_selected as int].hash,
        ({
            let a = after.groups@[i];
            let b = after.groups@[j];
            let wasted_a = if a.files@.len() == 0 {
                0
            } else {
                a.size * (a.files@.len() - 1)
            };
            let wasted_b = if b.files@.len() == 0 {
                0
            } else {
                b.size * (b.files@.len() - 1)
            };
            match after.sort {
                SortKey::Wasted => wasted_b < wasted_a || (wasted_b == wasted_a && !text_before(
                    b.name(),
                    a.name(),
                )),
                SortKey::Size => b.size < a.size || (b.size == a.size && !text_before(
                    b.name(),
                    a.name(),
                )),
                SortKey::Count => b.files@.len() < a.files@.len() || (b.files@.len()
                    == a.files@.len() && wasted_b <= wasted_a),
                SortKey::Name => {
                    &&& !text_before(lower_case(b.name()), lower_case(a.name()))
                    &&& lower_case(b.name()) == lower_case(a.name()) ==> wasted_b <= wasted_a
                },
            }
        }),
{
    let next = App { sort: before.sort.following(), ..before.silent() };
    let sorted = App { status: next.status, ..after };
    assert(next.sorted_groups(sorted));
    sorted_groups_are_in_order(next.groups@, next.sort, sorted.groups@, i, j);
    if before.group_selected < before.groups@.len() {
        super::laws::sorting_keeps_groups_and_cursor(next, sorted, g);
    } else {
        sort_exists(
            next.groups@,
            super::results::group_key(next.sort),
        );
        sorted_has_the_same_items(
            next.groups@,
            super::results::group_key(next.sort),
            sorted.groups@,
            g,
        );
    }
}

/// What each way of sorting means for two groups of a sorted list.
pub proof fn sorted_groups_are_in_order(
    list: Seq<DupeGroup>,
    sort: SortKey,
    out: Seq<DupeGroup>,
    i: int,
    j: int,
)
    requires
        out == sorted_from(list, super::results::group_key(sort)),
        0 <= i <= j < out.len(),
    ensures
        ({
            let a = out[i];
            let b = out[j];
            match sort {
                SortKey::Wasted => b.wasted_bytes() < a.wasted_bytes() || (b.wasted_bytes()
                    == a.wasted_bytes() && !text_before(b.name(), a.name())),
                SortKey::Size => b.size < a.size || (b.size == a.size && !text_before(
                    b.name(),
                    a.name(),
                )),
                SortKey::Count => b.files@.len() < a.files@.len() || (b.files@.len()
                    == a.files@.len() && b.wasted_bytes() <= a.wasted_bytes()),
                SortKey::Name => {
                    &&& !text_before(lower_case(b.name()), lower_case(a.name()))
                    &&& lower_case(b.name()) == lower_case(a.name()) ==> b.wasted_bytes()
                        <= a.wasted_bytes()
                },
            }
        }),
{
    let key = super::results::group_key(sort);
    sort_exists(list, key);
    sorted_keys_ascend(list, key, out, i, j);
    let a = out[i];
    let b = out[j];
    let none = Seq::<u64>::empty();
    crate::model::wasted_is_bounded(a);
    crate::model::wasted_is_bounded(b);
    assert(a.files.len() <= usize::MAX && b.files.len() <= usize::MAX);
    text_key_decides(b.name(), none, a.name(), none);
    assert(text_key(a.name()) + none =~= text_key(a.name()));
    assert(text_key(b.name()) + none =~= text_key(b.name()));
    descending_decides(b.wasted_bytes(), none, a.wasted_bytes(), none);
    assert(descending(a.wasted_bytes()) + none =~= descending(a.wasted_bytes()));
    assert(descending(b.wasted_bytes()) + none =~= descending(b.wasted_bytes()));
    descending_decides(
        b.wasted_bytes(),
        text_key(b.name()),
        a.wasted_bytes(),
        text_key(a.name()),
    );
    descending_decides(b.size as int, text_key(b.name()), a.size as int, text_key(a.name()));
    descending_decides(
        b.files@.len() as int,
        descending(b.wasted_bytes()),
        a.files@.len() as int,
        descending(a.wasted_bytes()),
    );
    text_key_decides(
        lower_case(b.name()),
        descending(b.wasted_bytes()),
        lower_case(a.name()),
        descending(a.wasted_bytes()),
    );
}

/// The keys that move the focus, change the mode, leave or ask for a report.
pub proof fn other_dashboard_keys(
    before: App,
    after: App,
    key: Key,
    now: Duration,
    action: Action,
)
    requires
        before.key_pressed(after, key, now, action),
        before.screen == Screen::Results,
    ensures
        key.code == KeyCode::Tab || key.code == KeyCode::BackTab ==> after.pane != before.pane
            && after.groups@ == before.groups@ && after.selected@ == before.selected@ && action
            == Action::Nothing,
        key.code == KeyCode::Char('l') || key.code == KeyCode::Right ==> after == (App {
            pane: Pane::Files,
            status: None,
            ..before
        }) && action == Action::Nothing,
        key.code == KeyCode::Char('h') || key.code == KeyCode::Left ==> after == (App {
            pane: Pane::Groups,
            status: None,
            ..before
        }) && action == Action::Nothing,
        key.code == KeyCode::Char('q') ==> after == (App {
            should_quit: true,
            status: None,
            ..before
        }) && action == Action::Nothing,
        key.code == KeyCode::Char('t') ==> after == (App {
            delete_mode: after.delete_mode,
            status: after.status,
            ..before
        }) && after.delete_mode != before.delete_mode && action == Action::Nothing,
        key.code == KeyCode::Char('e') && before.scan_root is Some ==> after == (App {
            status: None,
            ..before
        }) && action == Action::Export,
        key.code == KeyCode::Char('e') && before.scan_root is None ==> after == (App {
            status: after.status,
            ..before
        }) && action == Action::Nothing,
        key.code == KeyCode::Esc && before.selected@ == Set::<[u8; 32]>::empty() ==> after == (App {
            screen: Screen::Picker,
            status: None,
            ..before
        }) && action == Action::List,
        key.code == KeyCode::Esc && before.selected@ != Set::<[u8; 32]>::empty() ==> {
            &&& after.screen == Screen::Results
            &&& forall|hash: [u8; 32]| !#[trigger] after.selected@.contains(hash)
            &&& after.groups@ == before.groups@
            &&& action == Action::Nothing
        },
{
}

/// In the confirmation only `y` and Enter go on; `t` changes where deleted files go and
/// stays, and every other key goes back with nothing deleted and nothing changed.
pub proof fn other_confirmation_keys(
    before: App,
    after: App,
    key: Key,
    now: Duration,
    action: Action,
)
    requires
        before.key_pressed(after, key, now, action),
        before.screen == Screen::Confirm,
        !(key.control && (key.code == KeyCode::Char('c') || key.code == KeyCode::Char('C'))),
        key.code != KeyCode::Char('y') && key.code != KeyCode::Char('Y') && key.code
            != KeyCode::Enter,
    ensures
        action == Action::Nothing,
        key.code == KeyCode::Char('t') ==> after == (App {
            delete_mode: after.delete_mode,
            ..before
        }) && after.delete_mode != before.delete_mode,
        key.code != KeyCode::Char('t') ==> after == (App { screen: Screen::Results, ..before }),
{
}

/// A confirmed plan without any file left in it deletes nothing and goes back.
pub proof fn an_empty_plan_deletes_nothing(
    before: App,
    after: App,
    key: Key,
    now: Duration,
    action: Action,
)
    requires
        before.key_pressed(after, key, now, action),
        before.screen == Screen::Confirm,
        key.code == KeyCode::Char('y') || key.code == KeyCode::Char('Y') || key.code
            == KeyCode::Enter,
        before.plan matches DeletePlan::Single { group, file } && (group >= before.groups@.len()
            || file >= before.groups@[group as int].files@.len()
            || before.groups@[group as int].files@[file as int].protected),
    ensures
        action == Action::Nothing,
        after == (App { screen: Screen::Results, status: after.status, ..before }),
        after.status is Some,
{
}

/// A run begins with nothing counted and nobody asking it to stop.
pub proof fn a_deletion_starts_clean(
    before: App,
    after: App,
    key: Key,
    now: Duration,
    action: Action,
)
    requires
        before.key_pressed(after, key, now, action),
        action is Delete,
    ensures
        after == (App {
            screen: Screen::Deleting,
            delete_state: after.delete_state,
            ..before
        }),
        after.delete_state.done == 0,
        after.delete_state.total == 0,
        after.delete_state.bytes_freed == 0,
        after.delete_state.failed == 0,
        !after.delete_state.cancel,
{
}

/// While workers run, Esc asks them to stop, and Ctrl-C on any screen stops them and quits.
pub proof fn workers_can_be_stopped(
    before: App,
    after: App,
    key: Key,
    now: Duration,
    action: Action,
)
    requires
        before.key_pressed(after, key, now, action),
    ensures
        key.control && (key.code == KeyCode::Char('c') || key.code == KeyCode::Char('C')) ==> {
            &&& action == Action::Nothing
            &&& after.should_quit
            &&& after.scan_state.cancel
            &&& after.delete_state.cancel
            &&& after.groups@ == before.groups@
        },
        before.screen == Screen::Scanning && (key.code == KeyCode::Esc || key.code
            == KeyCode::Char('q')) ==> {
            &&& action == Action::Nothing
            &&& after.scan_state.cancel
            &&& after.screen == Screen::Scanning
            &&& after.groups@ == before.groups@
        },
        before.screen == Screen::Deleting && key.code == KeyCode::Esc ==> {
            &&& action == Action::Nothing
            &&& after.delete_state.cancel
            &&& after.screen == Screen::Deleting
            &&& after.groups@ == before.groups@
        },
        (before.screen == Screen::Scanning || before.screen == Screen::Deleting) && key.code
            != KeyCode::Esc && key.code != KeyCode::Char('q') && key.code != KeyCode::Char('c')
            && key.code != KeyCode::Char('C') ==> action == Action::Nothing && after == before,
{
}

/// After a deletion Enter goes back to the groups, `q` and Esc quit, `e` asks for a report,
/// and `j` and `k` scroll through the failures without leaving them.
pub proof fn keys_after_a_deletion(
    before: App,
    after: App,
    key: Key,
    now: Duration,
    action: Action,
)
    requires
        before.key_pressed(after, key, now, action),
        before.screen == Screen::Done,
    ensures
        key.code == KeyCode::Enter ==> after == (App {
            report: None,
            screen: Screen::Results,
            ..before
        }) && action == Action::Nothing,
        key.code == KeyCode::Char('q') || key.code == KeyCode::Esc ==> after == (App {
            should_quit: true,
            ..before
        }) && action == Action::Nothing,
        key.code == KeyCode::Char('e') && before.scan_root is Some ==> after == before && action
            == Action::Export,
        key.code == KeyCode::Char('j') || key.code == KeyCode::Down ==> {
            let count = if before.report is Some {
                before.report->0.failures@.len() as int
            } else {
                0
            };
            &&& after == (App { failure_scroll: after.failure_scroll, ..before })
            &&& before.failure_scroll + 1 < count ==> after.failure_scroll == before.failure_scroll
                + 1
            &&& before.failure_scroll + 1 >= count > 0 ==> after.failure_scroll == count - 1
            &&& count == 0 ==> after.failure_scroll == 0
        },
        key.code == KeyCode::Char('k') || key.code == KeyCode::Up ==> {
            &&& after == (App { failure_scroll: after.failure_scroll, ..before })
            &&& before.failure_scroll > 0 ==> after.failure_scroll == before.failure_scroll - 1
            &&& before.failure_scroll == 0 ==> after.failure_scroll == 0
        },
{
    if before.report is Some {
        assert(before.report->0.failures.len() <= usize::MAX);
    }
}

/// The two modes are Trash and Permanent, under these words.
pub proof fn modes_are_named(mode: DeleteMode)
    ensures
        mode == DeleteMode::Trash ==> mode.word() == "Trash"@ && mode.other()
            == DeleteMode::Permanent,
        mode == DeleteMode::Permanent ==> mode.word() == "Permanent"@ && mode.other()
            == DeleteMode::Trash,
{
}

} // verus!
