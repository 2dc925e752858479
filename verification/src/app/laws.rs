//! What holds of the dashboard as a whole.

use super::results::{block_of, clamped, group_key, scope_flags};
use super::{Action, App, Key, KeyCode, Screen};
use crate::delete::{pending_leaves_a_copy, pending_of, target_bytes, targets_in};
use crate::model::{DupeGroup, KeepStrategy, SortKey};
use crate::order::{descending_decides, sort_exists, sorted_has_the_same_items, sorted_keys_ascend};
use crate::text::{lower_case, text_before, text_key, text_key_decides};
use crate::time::Duration;
use vstd::prelude::*;

verus! {

/// Nothing is deleted without confirmation: a key asks for a deletion only in the
/// confirmation, only `y` or Enter does, and what is asked for is what was planned.
pub proof fn only_a_confirmation_deletes(
    before: App,
    after: App,
    key: Key,
    now: Duration,
    action: Action,
)
    requires
        before.key_pressed(after, key, now, action),
        action is Delete,
    ensures
        before.screen == Screen::Confirm,
        key.code == KeyCode::Char('y') || key.code == KeyCode::Char('Y') || key.code
            == KeyCode::Enter,
        action matches Action::Delete(targets) && targets_in(targets@) == before.planned(),
{
}

/// What is deleted without recovery is chosen by hand: a key changes the mode only if
/// it is `t`, on the dashboard or in the confirmation.
pub proof fn only_t_changes_the_mode(
    before: App,
    after: App,
    key: Key,
    now: Duration,
    action: Action,
)
    requires
        before.key_pressed(after, key, now, action),
        after.delete_mode != before.delete_mode,
    ensures
        key.code == KeyCode::Char('t'),
        before.screen == Screen::Results || before.screen == Screen::Confirm,
        after.delete_mode == before.delete_mode.other(),
{
}

/// The marked and reclaimed figures are what `D` and a confirmation act on.
pub proof fn what_is_shown_is_what_is_deleted(before: App, after: App)
    requires
        before.marked_deletion_asked(after),
        before.marks().len() > 0,
    ensures
        after.screen == Screen::Confirm,
        after.planned() == before.marks(),
        after.planned().len() == before.marks().len(),
        target_bytes(after.planned()) == target_bytes(before.marks()),
{
}

/// Whatever is marked, a group loses fewer copies than it has.
pub proof fn every_group_keeps_a_copy(app: App, g: int)
    requires
        app.wf(),
        0 <= g < app.groups@.len(),
        app.groups@[g].files@.len() > 0,
    ensures
        pending_of(app.groups@[g]).len() < app.groups@[g].files@.len(),
{
    assert(app.groups@[g].wf());
    pending_leaves_a_copy(app.groups@[g]);
}

/// A single-file deletion that is put to the user leaves another copy.
pub proof fn a_single_deletion_leaves_a_copy(before: App, after: App)
    requires
        before.single_deletion_asked(after),
        before.screen != Screen::Confirm,
        after.screen == Screen::Confirm,
    ensures
        after.planned().len() <= 1,
        after.planned().len() < after.groups@[after.group_selected as int].files@.len(),
{
}

/// With a selection, setting the keeper leaves every other group alone.
pub proof fn a_strategy_stays_in_scope(
    before: App,
    after: App,
    strategy: KeepStrategy,
    g: int,
)
    requires
        before.strategy_applied(after, strategy),
        before.selected@ != Set::<[u8; 32]>::empty(),
        0 <= g < before.groups@.len(),
        !before.selected@.contains(before.groups@[g].hash),
    ensures
        after.groups@[g] == before.groups@[g],
{
    assert(!scope_flags(before.groups@, before.selected@)[g]);
    assert(after.groups@[g] == after.groups@[g]);
}

/// With a selection, skipping leaves every other group alone and moves the selected
/// ones to one state.
pub proof fn skipping_stays_in_scope(before: App, after: App, g: int, h: int)
    requires
        before.skip_toggled(after),
        before.selected@ != Set::<[u8; 32]>::empty(),
        0 <= g < before.groups@.len(),
        0 <= h < before.groups@.len(),
        before.selected@.contains(before.groups@[h].hash),
    ensures
        !before.selected@.contains(before.groups@[g].hash) ==> after.groups@[g]
            == before.groups@[g],
        before.selected@.contains(before.groups@[g].hash) ==> after.groups@[g].skipped
            == after.groups@[h].skipped,
{
}

/// With nothing selected the bulk keys act on every group.
pub proof fn nothing_selected_means_every_group(app: App)
    requires
        app.selected@ == Set::<[u8; 32]>::empty(),
    ensures
        app.scoped() == app.groups@,
{
    let flags = scope_flags(app.groups@, app.selected@);
    all_picked(app.groups@, flags);
}

proof fn all_picked(groups: Seq<DupeGroup>, flags: Seq<bool>)
    requires
        groups.len() <= flags.len(),
        forall|i: int| 0 <= i < groups.len() ==> #[trigger] flags[i],
    ensures
        crate::grouping::picked(groups, flags) == groups,
    decreases groups.len(),
{
    if groups.len() > 0 {
        all_picked(groups.drop_last(), flags);
        assert(flags[groups.len() - 1]);
        assert(groups.drop_last().push(groups.last()) =~= groups);
    } else {
        assert(crate::grouping::picked(groups, flags) =~= groups);
    }
}

/// Skipping the highlighted group twice changes nothing.
pub proof fn skipping_twice_restores(a: App, b: App, c: App)
    requires
        a.selected@ == Set::<[u8; 32]>::empty(),
        a.skip_toggled(b),
        b.skip_toggled(c),
    ensures
        c.groups@ == a.groups@,
{
    assert(c.groups@ =~= a.groups@);
}

/// Toggling the highlighted group twice restores the selection.
pub proof fn selecting_twice_restores(a: App, b: App, c: App)
    requires
        a.selection_toggled(b),
        b.selection_toggled(c),
    ensures
        c.selected@ == a.selected@,
{
    assert(c.selected@ =~= a.selected@);
}

/// Each of these states is the one before it extended by one of these steps.
pub open spec fn is_extension_run(states: Seq<App>, steps: Seq<int>) -> bool {
    &&& states.len() == steps.len() + 1
    &&& forall|i: int|
        0 <= i < steps.len() ==> (#[trigger] states[i]).extended(states[i + 1], steps[i])
}

/// Where the cursor is after these steps, inside a list of `len` rows.
pub open spec fn stepped_to(from: int, steps: Seq<int>, len: int) -> int
    decreases steps.len(),
{
    if steps.len() == 0 {
        from
    } else {
        clamped(stepped_to(from, steps.drop_last(), len) + steps.last(), len)
    }
}

/// However a Shift-extension moves, what is selected in the end is what was selected when
/// it began, and the block from the row it began on to the cursor. So coming back
/// deselects the rows that were left.
pub proof fn an_extension_selects_one_block(states: Seq<App>, steps: Seq<int>)
    requires
        is_extension_run(states, steps),
        steps.len() > 0,
        states[0].shift_anchor is None,
        states[0].group_selected < states[0].groups@.len(),
    ensures
        ({
            let first = states[0];
            let at = first.group_selected as int;
            let to = stepped_to(at, steps, first.groups@.len() as int);
            &&& 0 <= to < first.groups@.len()
            &&& states.last().groups@ == first.groups@
            &&& states.last().group_selected == to
            &&& states.last().shift_anchor == Some(first.group_selected)
            &&& states.last().shift_base@ == first.selected@
            &&& states.last().selected@ == first.selected@.union(
                block_of(
                    first.groups@,
                    if at <= to {
                        at
                    } else {
                        to
                    },
                    if at <= to {
                        to
                    } else {
                        at
                    },
                ),
            )
        }),
    decreases steps.len(),
{
    let n = steps.len() - 1;
    let first = states[0];
    assert(first.groups.len() <= usize::MAX);
    assert(states[n].extended(states[n + 1], steps[n]));
    assert(states.last() == states[n + 1]);
    if n > 0 {
        let earlier = states.drop_last();
        assert forall|i: int| 0 <= i < steps.drop_last().len() implies (
        #[trigger] earlier[i]).extended(earlier[i + 1], steps.drop_last()[i]) by {
            assert(states[i].extended(states[i + 1], steps[i]));
        }
        an_extension_selects_one_block(earlier, steps.drop_last());
        assert(earlier.last() == states[n]);
        assert(earlier[0] == first);
    } else {
        assert(steps.drop_last() =~= Seq::empty());
    }
    let len = first.groups@.len() as int;
    let at = first.group_selected as int;
    let now = stepped_to(at, steps.drop_last(), len);
    assert(states[n].group_selected == now);
    assert(states[n].groups@ == first.groups@);
    assert(states[n].extension_anchor() == at);
    assert(states[n].extension_base() == first.selected@);
    assert(stepped_to(at, steps, len) == clamped(now + steps.last(), len));
}

proof fn straight_steps_add_up(from: int, step: int, count: nat, len: int)
    requires
        step == 1 || step == -1,
        0 <= from < len,
        0 <= from + step * count < len,
    ensures
        stepped_to(from, Seq::new(count, |i: int| step), len) == from + step * count,
    decreases count,
{
    let steps = Seq::new(count, |i: int| step);
    if count > 0 {
        straight_steps_add_up(from, step, (count - 1) as nat, len);
        assert(steps.drop_last() =~= Seq::new((count - 1) as nat, |i: int| step));
    }
}

proof fn more_steps_follow(from: int, steps: Seq<int>, more: Seq<int>, len: int)
    ensures
        stepped_to(from, steps + more, len) == stepped_to(stepped_to(from, steps, len), more, len),
    decreases more.len(),
{
    if more.len() == 0 {
        assert(steps + more =~= steps);
    } else {
        assert((steps + more).drop_last() =~= steps + more.drop_last());
        more_steps_follow(from, steps, more.drop_last(), len);
    }
}

/// Extending down and part of the way back up leaves the block that ends where the cursor
/// is: the rows that were left are no longer selected.
pub proof fn reversing_shrinks_the_block(states: Seq<App>, down: nat, up: nat)
    requires
        is_extension_run(states, Seq::new(down, |i: int| 1int) + Seq::new(up, |i: int| -1int)),
        0 < down,
        up <= down,
        states[0].shift_anchor is None,
        states[0].group_selected + down < states[0].groups@.len(),
    ensures
        states.last().group_selected == states[0].group_selected + down - up,
        states.last().selected@ == states[0].selected@.union(
            block_of(
                states[0].groups@,
                states[0].group_selected as int,
                states[0].group_selected + down - up,
            ),
        ),
{
    let from = states[0].group_selected as int;
    let len = states[0].groups@.len() as int;
    let there = Seq::new(down, |i: int| 1int);
    let back = Seq::new(up, |i: int| -1int);
    an_extension_selects_one_block(states, there + back);
    straight_steps_add_up(from, 1, down, len);
    straight_steps_add_up(from + down, -1, up, len);
    more_steps_follow(from, there, back, len);
}

/// Sorting loses no group and adds none, keeps the selection, and leaves the cursor on
/// a group with the hash it was on.
pub proof fn sorting_keeps_groups_and_cursor(before: App, after: App, g: DupeGroup)
    requires
        before.sorted_groups(after),
        before.group_selected < before.groups@.len(),
    ensures
        after.groups@.len() == before.groups@.len(),
        after.groups@.contains(g) <==> before.groups@.contains(g),
        after.selected@ == before.selected@,
        after.group_selected < after.groups@.len(),
        after.groups@[after.group_selected as int].hash
            == before.groups@[before.group_selected as int].hash,
{
    sort_exists(before.groups@, group_key(before.sort));
    sorted_has_the_same_items(before.groups@, group_key(before.sort), after.groups@, g);
}

/// What each sort key means: most wasted bytes, largest files or most copies first, or
/// names in ascending order whatever their case.
pub proof fn groups_are_in_order(before: App, after: App, i: int, j: int)
    requires
        before.sorted_groups(after),
        0 <= i <= j < after.groups@.len(),
    ensures
        match before.sort {
            SortKey::Wasted => after.groups@[j].wasted_bytes() <= after.groups@[i].wasted_bytes(),
            SortKey::Size => after.groups@[j].size <= after.groups@[i].size,
            SortKey::Count => after.groups@[j].files@.len() <= after.groups@[i].files@.len(),
            SortKey::Name => !text_before(
                lower_case(after.groups@[j].name()),
                lower_case(after.groups@[i].name()),
            ),
        },
{
    let key = group_key(before.sort);
    sort_exists(before.groups@, key);
    sorted_keys_ascend(before.groups@, key, after.groups@, i, j);
    let a = after.groups@[i];
    let b = after.groups@[j];
    crate::model::wasted_is_bounded(a);
    crate::model::wasted_is_bounded(b);
    assert(a.files.len() <= usize::MAX && b.files.len() <= usize::MAX);
    match before.sort {
        SortKey::Wasted => {
            descending_decides(
                b.wasted_bytes(),
                text_key(b.name()),
                a.wasted_bytes(),
                text_key(a.name()),
            );
        },
        SortKey::Size => {
            descending_decides(b.size as int, text_key(b.name()), a.size as int, text_key(a.name()));
        },
        SortKey::Count => {
            descending_decides(
                b.files@.len() as int,
                crate::order::descending(b.wasted_bytes()),
                a.files@.len() as int,
                crate::order::descending(a.wasted_bytes()),
            );
        },
        SortKey::Name => {
            text_key_decides(
                lower_case(b.name()),
                crate::order::descending(b.wasted_bytes()),
                lower_case(a.name()),
                crate::order::descending(a.wasted_bytes()),
            );
        },
    }
}

} // verus!
