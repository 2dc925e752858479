//! What the status line tells of a key, and which keys mean nothing.

use super::bulk::{plural, set_count};
use super::results::scope_flags;
use super::{Action, App, Key, KeyCode, Screen};
use crate::delete::DeleteMode;
use crate::export::laws::counting_is_filtering;
use crate::model::{DupeGroup, FileEntry, SortKey};
use crate::text::{decimal, text_in};
use crate::time::Duration;
use vstd::prelude::*;

verus! {

/// The groups that are selected.
pub open spec fn chosen(app: App) -> Seq<DupeGroup> {
    app.groups@.filter(|g: DupeGroup| app.selected@.contains(g.hash))
}

proof fn chosen_are_counted(groups: Seq<DupeGroup>, selected: Set<[u8; 32]>)
    requires
        selected != Set::<[u8; 32]>::empty(),
    ensures
        set_count(scope_flags(groups, selected)) == groups.filter(
            |g: DupeGroup| selected.contains(g.hash),
        ).len(),
    decreases groups.len(),
{
    reveal(Seq::filter);
    if groups.len() > 0 {
        chosen_are_counted(groups.drop_last(), selected);
        assert(scope_flags(groups, selected).drop_last() =~= scope_flags(
            groups.drop_last(),
            selected,
        ));
    }
}

/// Which copy the keys `1` to `4` keep is told by its name, with the groups it is kept in:
/// every one, or so many selected ones.
pub proof fn the_kept_copy_is_told(
    before: App,
    after: App,
    key: Key,
    now: Duration,
    action: Action,
    name: Seq<char>,
)
    requires
        before.key_pressed(after, key, now, action),
        before.screen == Screen::Results,
        (key.code == KeyCode::Char('1') && name == "first"@) || (key.code == KeyCode::Char('2')
            && name == "newest"@) || (key.code == KeyCode::Char('3') && name == "oldest"@) || (
        key.code == KeyCode::Char('4') && name == "shortest path"@),
    ensures
        before.selected@ == Set::<[u8; 32]>::empty() ==> text_in(after.status) == Some(
            "Keeping the "@ + name + " in every group"@,
        ),
        before.selected@ != Set::<[u8; 32]>::empty() ==> text_in(after.status) == Some(
            "Keeping the "@ + name + " in "@ + decimal(chosen(before).len()) + " selected group"@
                + (if chosen(before).len() == 1 {
                ""@
            } else {
                "s"@
            }),
        ),
{
    if before.selected@ != Set::<[u8; 32]>::empty() {
        chosen_are_counted(before.groups@, before.selected@);
        assert(before.silent().scope_size() == chosen(before).len());
        assert(plural(before.silent().scope_size()) == if chosen(before).len() == 1 {
            ""@
        } else {
            "s"@
        });
    }
}

/// Skipping a selection tells how many groups were skipped, or were taken back in.
pub proof fn a_skipped_selection_is_told(
    before: App,
    after: App,
    key: Key,
    now: Duration,
    action: Action,
)
    requires
        before.key_pressed(after, key, now, action),
        before.screen == Screen::Results,
        key.code == KeyCode::Char('x'),
        before.selected@ != Set::<[u8; 32]>::empty(),
    ensures
        ({
            let some_open = exists|i: int|
                0 <= i < before.groups@.len() && before.selected@.contains(
                    (#[trigger] before.groups@[i]).hash,
                ) && !before.groups@[i].skipped;
            let word = if some_open {
                "Skipped"@
            } else {
                "Un-skipped"@
            };
            let ending = if chosen(before).len() == 1 {
                ""@
            } else {
                "s"@
            };
            text_in(after.status) == Some(
                word + " "@ + decimal(chosen(before).len()) + " selected group"@ + ending,
            )
        }),
{
    chosen_are_counted(before.groups@, before.selected@);
    let quiet = before.silent();
    let flags = scope_flags(quiet.groups@, quiet.selected@);
    if quiet.some_unskipped() {
        let i = choose|i: int|
            0 <= i < quiet.groups@.len() && flags[i] && !(#[trigger] quiet.groups@[i]).skipped;
        assert(before.selected@.contains(before.groups@[i].hash));
    } else {
        assert forall|i: int|
            0 <= i < before.groups@.len() && before.selected@.contains(
                (#[trigger] before.groups@[i]).hash,
            ) implies before.groups@[i].skipped by {
            assert(flags[i] && quiet.groups@[i] == before.groups@[i]);
        }
    }
}

/// The other keys tell what they did: which mode and which order is set now, how much is
/// selected, that nothing is selected any more, that there is nothing to export, and why a
/// mark cannot be changed.
pub proof fn other_keys_are_told(before: App, after: App, key: Key, now: Duration, action: Action)
    requires
        before.key_pressed(after, key, now, action),
        before.screen == Screen::Results,
    ensures
        key.code == KeyCode::Char('t') ==> text_in(after.status) == Some(
            "Delete mode: "@ + if before.delete_mode == DeleteMode::Trash {
                "Permanent"@
            } else {
                "Trash"@
            },
        ),
        key.code == KeyCode::Char('s') ==> text_in(after.status) == Some(
            "Sorted by "@ + match before.sort {
                SortKey::Wasted => "size"@,
                SortKey::Size => "count"@,
                SortKey::Count => "name"@,
                SortKey::Name => "wasted"@,
            },
        ),
        key.code == KeyCode::Char('a') ==> text_in(after.status) == Some(
            if before.groups@.len() > 0 && forall|i: int|
                0 <= i < before.groups@.len() ==> before.selected@.contains(
                    (#[trigger] before.groups@[i]).hash,
                ) {
                "Selection cleared"@
            } else {
                "Selected all "@ + decimal(before.groups@.len()) + " groups"@
            },
        ),
        key.code == KeyCode::Esc && before.selected@ != Set::<[u8; 32]>::empty() ==> text_in(
            after.status,
        ) == Some("Selection cleared"@),
        key.code == KeyCode::Char('e') && before.scan_root is None ==> text_in(after.status)
            == Some("Nothing has been scanned yet"@),
        key.code == KeyCode::Char('d') && before.group_selected < before.groups@.len() ==> {
            let files = before.groups@[before.group_selected as int].files@;
            let at = before.file_selected as int;
            let kept = files.filter(|f: FileEntry| f.keep);
            &&& at < files.len() && files[at].protected ==> text_in(after.status) == Some(
                "Reference files are protected from deletion"@,
            )
            &&& at < files.len() && !files[at].protected && files[at].keep && kept.len() <= 1
                ==> text_in(after.status) == Some("At least one copy in a group must be kept"@)
            &&& at < files.len() && !files[at].protected && !files[at].keep ==> after.status is None
        },
{
    if before.group_selected < before.groups@.len() {
        let files = before.groups@[before.group_selected as int].files@;
        counting_is_filtering(files, |f: FileEntry| f.keep);
    }
}

/// A scan that is asked to stop is told so, and a deletion stops for Esc alone.
pub proof fn stopping_is_told(before: App, after: App, key: Key, now: Duration, action: Action)
    requires
        before.key_pressed(after, key, now, action),
        !key.control,
    ensures
        before.screen == Screen::Scanning && (key.code == KeyCode::Esc || key.code
            == KeyCode::Char('q')) ==> text_in(after.status) == Some("Cancelling…"@),
        before.screen == Screen::Deleting && key.code != KeyCode::Esc ==> after == before && action
            == Action::Nothing,
        before.screen == Screen::Done && key.code == KeyCode::Char('e') && before.scan_root is None
            ==> text_in(after.status) == Some("Nothing has been scanned yet"@) && action
            == Action::Nothing,
{
}

/// A key that means nothing on the screen changes nothing there; on the dashboard it takes
/// away the last message.
pub proof fn other_keys_do_nothing(
    before: App,
    after: App,
    c: char,
    key: Key,
    now: Duration,
    action: Action,
)
    requires
        before.key_pressed(after, key, now, action),
        !key.control,
        key.code == KeyCode::Char(c),
    ensures
        before.screen == Screen::Results && !"reqJKjkmalh dx1234stD"@.contains(c) ==> after == (
        App { status: None, ..before }) && action == Action::Nothing,
        before.screen == Screen::Picker && !"qjkgGlh~sd.12345R"@.contains(c) ==> after == before
            && action == Action::Nothing,
        before.screen == Screen::Done && !"qrejk"@.contains(c) ==> after == before && action
            == Action::Nothing,
{
    reveal_strlit("reqJKjkmalh dx1234stD");
    reveal_strlit("qjkgGlh~sd.12345R");
    reveal_strlit("qrejk");
    let a = "reqJKjkmalh dx1234stD"@;
    let b = "qjkgGlh~sd.12345R"@;
    let d = "qrejk"@;
    assert(forall|i: int| 0 <= i < a.len() ==> a.contains(#[trigger] a[i]));
    assert(forall|i: int| 0 <= i < b.len() ==> b.contains(#[trigger] b[i]));
    assert(forall|i: int| 0 <= i < d.len() ==> d.contains(#[trigger] d[i]));
    assert(a[0] == 'r' && a[1] == 'e' && a[2] == 'q' && a[3] == 'J' && a[4] == 'K' && a[5] == 'j'
        && a[6] == 'k' && a[7] == 'm' && a[8] == 'a' && a[9] == 'l' && a[10] == 'h' && a[11] == ' '
        && a[12] == 'd' && a[13] == 'x' && a[14] == '1' && a[15] == '2' && a[16] == '3' && a[17]
        == '4' && a[18] == 's' && a[19] == 't' && a[20] == 'D');
    assert(b[0] == 'q' && b[1] == 'j' && b[2] == 'k' && b[3] == 'g' && b[4] == 'G' && b[5] == 'l'
        && b[6] == 'h' && b[7] == '~' && b[8] == 's' && b[9] == 'd' && b[10] == '.' && b[11] == '1'
        && b[12] == '2' && b[13] == '3' && b[14] == '4' && b[15] == '5' && b[16] == 'R');
    assert(d[0] == 'q' && d[1] == 'r' && d[2] == 'e' && d[3] == 'j' && d[4] == 'k');
}

} // verus!
