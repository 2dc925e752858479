//! What the browser lists, and what its keys come to.

use super::picker::{
    content_rows, drive_views, entry_key, entry_row, entry_rows, is_hidden_entry, rows,
    shown_flags, top_rows, ListedEntry, Listing,
};
use super::{Action, App, Key, KeyCode, RowKind, Screen};
use crate::grouping::{picked, picked_holds};
use crate::model::ScanOptions;
use crate::order::{sort_exists, sorted_from, sorted_has_the_same_items, sorted_keys_ascend};
use crate::path::{components, parent_of, shown_name, top_of, FilePath};
use crate::text::{displayed, lower_case, text_before, text_in, text_key_decides};
use crate::time::Duration;
use vstd::prelude::*;

verus! {

/// Every listing starts with the directory itself; then comes its parent, where it has one.
pub proof fn a_listing_starts_with_the_directory(
    before: App,
    after: App,
    listing: Listing,
    drives: Seq<FilePath>,
)
    requires
        before.listing_shown(after, listing, drives),
    ensures
        after.cwd == before.cwd,
        after.entries@.len() >= 1,
        after.entries@[0].kind == RowKind::Current,
        after.entries@[0].path@ == before.cwd@,
        after.entries@[0].name@ == displayed(before.cwd@),
        parent_of(before.cwd@) is Some ==> {
            &&& after.entries@.len() >= 2
            &&& after.entries@[1].kind == RowKind::Parent
            &&& after.entries@[1].name@ == ".."@
            &&& after.entries@[1].path@ == parent_of(before.cwd@)->0
        },
        parent_of(before.cwd@) is None ==> forall|r: int|
            0 <= r < after.entries@.len() ==> (#[trigger] after.entries@[r]).kind
                != RowKind::Parent,
        listing matches Listing::Unreadable(message) ==> text_in(after.picker_error) == Some(
            message@,
        ),
        listing is Entries ==> after.picker_error is None,
        after.picker_selected < after.entries@.len(),
        before.picker_selected < after.entries@.len() ==> after.picker_selected
            == before.picker_selected,
{
    let all = rows(after.entries@);
    let top = top_rows(before.cwd@, drives);
    assert(all.len() == after.entries@.len());
    assert(all[0] == after.entries@[0]@);
    assert(all[0] == top[0]);
    if parent_of(before.cwd@) is Some {
        assert(all[1] == after.entries@[1]@);
        assert(all[1] == top[1]);
    } else {
        assert forall|r: int| 0 <= r < after.entries@.len() implies (
        #[trigger] after.entries@[r]).kind != RowKind::Parent by {
            assert(all[r] == after.entries@[r]@);
            if r < top.len() {
                assert(all[r] == top[r]);
                if r > 0 {
                    drives_are_drives(drives, before.cwd@, r - 1);
                    assert(top[r] == drive_views(drives, before.cwd@)[r - 1]);
                }
            } else {
                let list = listing->Entries_0@;
                let inside = content_rows(list, before.show_hidden_in_picker);
                assert(all[r] == inside[r - top.len()]);
            }
        }
    }
}

proof fn drives_are_drives(drives: Seq<FilePath>, cwd: Seq<u8>, r: int)
    requires
        0 <= r < drive_views(drives, cwd).len(),
    ensures
        drive_views(drives, cwd)[r].kind == RowKind::Drive,
        drive_views(drives, cwd)[r].size is None,
        drive_views(drives, cwd)[r].name == displayed(drive_views(drives, cwd)[r].path),
        components(drive_views(drives, cwd)[r].path) != components(cwd),
        exists|d: int|
            0 <= d < drives.len() && (#[trigger] drives[d])@ == drive_views(drives, cwd)[r].path,
    decreases drives.len(),
{
    let rest = drives.drop_last();
    let fewer = drive_views(rest, cwd);
    if r < fewer.len() {
        drives_are_drives(rest, cwd, r);
        let d = choose|d: int| 0 <= d < rest.len() && (#[trigger] rest[d])@ == fewer[r].path;
        assert(drives[d]@ == fewer[r].path);
    } else {
        assert(drives[drives.len() - 1]@ == drive_views(drives, cwd)[r].path);
    }
}

/// At the top, every drive but the current one is offered.
pub proof fn other_drives_are_offered(drives: Seq<FilePath>, cwd: Seq<u8>, d: int) -> (r: int)
    requires
        0 <= d < drives.len(),
        components(drives[d]@) != components(cwd),
    ensures
        0 <= r < drive_views(drives, cwd).len(),
        drive_views(drives, cwd)[r].path == drives[d]@,
        drive_views(drives, cwd)[r].kind == RowKind::Drive,
        parent_of(cwd) is None ==> top_rows(cwd, drives)[r + 1].path == drives[d]@,
    decreases drives.len(),
{
    let rest = drives.drop_last();
    if d < rest.len() {
        assert(rest[d] == drives[d]);
        let r = other_drives_are_offered(rest, cwd, d);
        assert(drive_views(drives, cwd)[r] == drive_views(rest, cwd)[r]);
        r
    } else {
        drive_views(rest, cwd).len() as int
    }
}

/// This entry is listed: it is not hidden, or hidden entries are shown. Hidden is what the
/// file system says so of, or what has a name that starts with a dot.
pub open spec fn is_shown(entry: ListedEntry, hidden_too: bool) -> bool {
    let name = shown_name(entry.path@);
    hidden_too || !(entry.hidden || (name.len() > 0 && name[0] == '.'))
}

proof fn sorted_part_holds(list: Seq<ListedEntry>, hidden_too: bool, dirs: bool, e: ListedEntry)
    ensures
        sorted_from(picked(list, shown_flags(list, hidden_too, dirs)), entry_key()).contains(e)
            <==> list.contains(e) && is_shown(e, hidden_too) && e.is_dir == dirs,
{
    let flags = shown_flags(list, hidden_too, dirs);
    let some = picked(list, flags);
    sort_exists(some, entry_key());
    sorted_has_the_same_items(some, entry_key(), sorted_from(some, entry_key()), e);
    picked_holds(list, flags, e);
    if list.contains(e) && is_shown(e, hidden_too) && e.is_dir == dirs {
        let i = choose|i: int| 0 <= i < list.len() && list[i] == e;
        assert(is_hidden_entry(list[i]) == !is_shown(e, false));
        assert(flags[i]);
    }
}

/// Every entry of the directory that is not hidden has a row, with its name and path, and
/// with its size where it is a file.
pub proof fn every_entry_has_a_row(
    before: App,
    after: App,
    list: Vec<ListedEntry>,
    drives: Seq<FilePath>,
    i: int,
) -> (r: int)
    requires
        before.listing_shown(after, Listing::Entries(list), drives),
        0 <= i < list@.len(),
        is_shown(list@[i], before.show_hidden_in_picker),
    ensures
        0 < r < after.entries@.len(),
        after.entries@[r].path@ == list@[i].path@,
        after.entries@[r].name@ == shown_name(list@[i].path@),
        after.entries@[r].kind == if list@[i].is_dir {
            RowKind::Directory
        } else {
            RowKind::File
        },
        after.entries@[r].size == if list@[i].is_dir {
            None
        } else {
            list@[i].size
        },
{
    let hidden_too = before.show_hidden_in_picker;
    let e = list@[i];
    let all = rows(after.entries@);
    let top = top_rows(before.cwd@, drives);
    let dirs = sorted_from(picked(list@, shown_flags(list@, hidden_too, true)), entry_key());
    let files = sorted_from(picked(list@, shown_flags(list@, hidden_too, false)), entry_key());
    assert(list@.contains(e));
    sorted_part_holds(list@, hidden_too, e.is_dir, e);
    let part = if e.is_dir {
        dirs
    } else {
        files
    };
    let x = choose|x: int| 0 <= x < part.len() && part[x] == e;
    let r = if e.is_dir {
        top.len() + x
    } else {
        top.len() + dirs.len() + x
    };
    assert(entry_rows(part)[x] == entry_row(e));
    let inside = content_rows(list@, hidden_too);
    assert(all == top + inside);
    assert(all.len() == after.entries@.len());
    assert(inside.len() == dirs.len() + files.len());
    assert(inside[r - top.len()] == entry_row(e));
    assert(all[r] == inside[r - top.len()]);
    assert(all[r] == after.entries@[r]@);
    r
}

/// A row for a directory or a file stands for an entry of the listing that is not hidden.
pub proof fn every_row_is_an_entry(
    before: App,
    after: App,
    list: Vec<ListedEntry>,
    drives: Seq<FilePath>,
    r: int,
) -> (i: int)
    requires
        before.listing_shown(after, Listing::Entries(list), drives),
        0 <= r < after.entries@.len(),
        after.entries@[r].kind == RowKind::Directory || after.entries@[r].kind == RowKind::File,
    ensures
        0 <= i < list@.len(),
        is_shown(list@[i], before.show_hidden_in_picker),
        after.entries@[r].path@ == list@[i].path@,
        (after.entries@[r].kind == RowKind::Directory) == list@[i].is_dir,
{
    let hidden_too = before.show_hidden_in_picker;
    let all = rows(after.entries@);
    let top = top_rows(before.cwd@, drives);
    let dirs = sorted_from(picked(list@, shown_flags(list@, hidden_too, true)), entry_key());
    let files = sorted_from(picked(list@, shown_flags(list@, hidden_too, false)), entry_key());
    let inside = content_rows(list@, hidden_too);
    assert(all == top + inside);
    assert(all.len() == after.entries@.len());
    assert(inside.len() == dirs.len() + files.len());
    assert(all[r] == after.entries@[r]@);
    if r < top.len() {
        assert(all[r] == top[r]);
        if parent_of(before.cwd@) is None && r > 0 {
            drives_are_drives(drives, before.cwd@, r - 1);
        }
        assert(false);
    }
    let x = r - top.len();
    assert(all[r] == inside[x]);
    let e = if x < dirs.len() {
        dirs[x]
    } else {
        files[x - dirs.len()]
    };
    if x < dirs.len() {
        assert(entry_rows(dirs)[x] == entry_row(e));
        assert(dirs.contains(e));
        sorted_part_holds(list@, hidden_too, true, e);
    } else {
        assert(entry_rows(files)[x - dirs.len()] == entry_row(e));
        assert(files.contains(e));
        sorted_part_holds(list@, hidden_too, false, e);
    }
    choose|i: int| 0 <= i < list@.len() && list@[i] == e
}

/// Directories come before files, and within each kind the rows are in the order of their
/// names, whatever their case.
pub proof fn directories_come_first(
    before: App,
    after: App,
    list: Vec<ListedEntry>,
    drives: Seq<FilePath>,
    r: int,
    q: int,
)
    requires
        before.listing_shown(after, Listing::Entries(list), drives),
        0 <= r < q < after.entries@.len(),
        after.entries@[r].kind == RowKind::Directory || after.entries@[r].kind == RowKind::File,
    ensures
        after.entries@[r].kind == RowKind::File ==> after.entries@[q].kind == RowKind::File,
        after.entries@[q].kind == after.entries@[r].kind ==> !text_before(
            lower_case(after.entries@[q].name@),
            lower_case(after.entries@[r].name@),
        ),
{
    let hidden_too = before.show_hidden_in_picker;
    let all = rows(after.entries@);
    let top = top_rows(before.cwd@, drives);
    let some_dirs = picked(list@, shown_flags(list@, hidden_too, true));
    let some_files = picked(list@, shown_flags(list@, hidden_too, false));
    let dirs = sorted_from(some_dirs, entry_key());
    let files = sorted_from(some_files, entry_key());
    let inside = content_rows(list@, hidden_too);
    assert(all == top + inside);
    assert(all.len() == after.entries@.len());
    assert(inside.len() == dirs.len() + files.len());
    assert(all[r] == after.entries@[r]@ && all[q] == after.entries@[q]@);
    if r < top.len() {
        assert(all[r] == top[r]);
        if parent_of(before.cwd@) is None && r > 0 {
            drives_are_drives(drives, before.cwd@, r - 1);
        }
        assert(false);
    }
    let x = r - top.len();
    let y = q - top.len();
    assert(all[r] == inside[x] && all[q] == inside[y]);
    sort_exists(some_dirs, entry_key());
    sort_exists(some_files, entry_key());
    let none = Seq::<u64>::empty();
    let a = lower_case(after.entries@[r].name@);
    let b = lower_case(after.entries@[q].name@);
    text_key_decides(b, none, a, none);
    assert(crate::text::text_key(a) + none =~= crate::text::text_key(a));
    assert(crate::text::text_key(b) + none =~= crate::text::text_key(b));
    if x < dirs.len() {
        assert(inside[x] == entry_row(dirs[x]));
        assert(dirs.contains(dirs[x]));
        sorted_part_holds(list@, hidden_too, true, dirs[x]);
    } else {
        assert(inside[x] == entry_row(files[x - dirs.len()]));
        assert(files.contains(files[x - dirs.len()]));
        sorted_part_holds(list@, hidden_too, false, files[x - dirs.len()]);
    }
    if y < dirs.len() {
        assert(inside[y] == entry_row(dirs[y]));
        sorted_keys_ascend(some_dirs, entry_key(), dirs, x, y);
    } else {
        assert(inside[y] == entry_row(files[y - dirs.len()]));
        assert(files.contains(files[y - dirs.len()]));
        sorted_part_holds(list@, hidden_too, false, files[y - dirs.len()]);
        if x >= dirs.len() {
            sorted_keys_ascend(some_files, entry_key(), files, x - dirs.len(), y - dirs.len());
        }
    }
}

/// Enter goes where the highlighted row leads: into a directory or a drive, up on the row of
/// the parent, and nowhere on a file or on the directory itself. The directory that is
/// entered has to be listed next.
pub proof fn enter_goes_where_the_row_leads(
    before: App,
    after: App,
    key: Key,
    now: Duration,
    action: Action,
)
    requires
        before.key_pressed(after, key, now, action),
        before.screen == Screen::Picker,
        key.code == KeyCode::Enter || key.code == KeyCode::Right || key.code == KeyCode::Char('l'),
        before.picker_selected < before.entries@.len(),
    ensures
        ({
            let row = before.entries@[before.picker_selected as int];
            &&& row.kind == RowKind::Directory || row.kind == RowKind::Drive ==> {
                &&& action == Action::List
                &&& after == (App { cwd: after.cwd, picker_selected: 0, ..before })
                &&& after.cwd@ == row.path@
            }
            &&& row.kind == RowKind::Parent && parent_of(before.cwd@) is Some ==> {
                &&& action == Action::List
                &&& after == (App { cwd: after.cwd, picker_selected: 0, ..before })
                &&& after.cwd@ == parent_of(before.cwd@)->0
            }
            &&& row.kind == RowKind::File || row.kind == RowKind::Current ==> action
                == Action::Nothing && after == before
        }),
{
}

/// Backspace goes to the parent, `d` to the top, `~` home, and `.` shows or hides what is
/// hidden.
pub proof fn other_ways_through_the_tree(
    before: App,
    after: App,
    key: Key,
    now: Duration,
    action: Action,
)
    requires
        before.key_pressed(after, key, now, action),
        before.screen == Screen::Picker,
    ensures
        key.code == KeyCode::Backspace || key.code == KeyCode::Left || key.code == KeyCode::Char(
            'h',
        ) ==> {
            &&& parent_of(before.cwd@) is Some ==> action == Action::List && after == (App {
                cwd: after.cwd,
                picker_selected: 0,
                ..before
            }) && after.cwd@ == parent_of(before.cwd@)->0
            &&& parent_of(before.cwd@) is None ==> action == Action::Nothing && after == before
        },
        key.code == KeyCode::Char('d') ==> action == Action::List && after == (App {
            cwd: after.cwd,
            picker_selected: 0,
            ..before
        }) && after.cwd@ == top_of(before.cwd@),
        key.code == KeyCode::Char('~') ==> action == Action::GoHome && after == before,
        key.code == KeyCode::Char('.') ==> action == Action::List && after == (App {
            show_hidden_in_picker: !before.show_hidden_in_picker,
            ..before
        }),
        key.code == KeyCode::Char('q') || key.code == KeyCode::Esc ==> action == Action::Nothing
            && after == (App { should_quit: true, ..before }),
{
}

/// The keys `1` to `5` each flip one filter and nothing else: hidden files, ignore files,
/// empty files, hardlinks and the cache.
pub proof fn number_keys_flip_the_filters(
    before: App,
    after: App,
    key: Key,
    now: Duration,
    action: Action,
)
    requires
        before.key_pressed(after, key, now, action),
        before.screen == Screen::Picker,
        key.code == KeyCode::Char('1') || key.code == KeyCode::Char('2') || key.code
            == KeyCode::Char('3') || key.code == KeyCode::Char('4') || key.code == KeyCode::Char(
            '5',
        ),
    ensures
        action == Action::Nothing,
        after == (App { options: after.options, ..before }),
        after.options == (ScanOptions {
            skip_hidden: after.options.skip_hidden,
            respect_gitignore: after.options.respect_gitignore,
            skip_empty: after.options.skip_empty,
            collapse_hardlinks: after.options.collapse_hardlinks,
            use_cache: after.options.use_cache,
            ..before.options
        }),
        (after.options.skip_hidden != before.options.skip_hidden) == (key.code == KeyCode::Char(
            '1',
        )),
        (after.options.respect_gitignore != before.options.respect_gitignore) == (key.code
            == KeyCode::Char('2')),
        (after.options.skip_empty != before.options.skip_empty) == (key.code == KeyCode::Char(
            '3',
        )),
        (after.options.collapse_hardlinks != before.options.collapse_hardlinks) == (key.code
            == KeyCode::Char('4')),
        (after.options.use_cache != before.options.use_cache) == (key.code == KeyCode::Char('5')),
{
}

/// `R` asks to toggle the directory that the highlighted row stands for, or the current one
/// on its own row, on a file or on none.
pub proof fn r_marks_the_highlighted_directory(
    before: App,
    after: App,
    key: Key,
    now: Duration,
    action: Action,
)
    requires
        before.key_pressed(after, key, now, action),
        before.screen == Screen::Picker,
        key.code == KeyCode::Char('R'),
    ensures
        after == before,
        action matches Action::ResolveReference(p) && p@ == if before.picker_selected
            < before.entries@.len() && (before.entries@[before.picker_selected as int].kind
            == RowKind::Parent || before.entries@[before.picker_selected as int].kind
            == RowKind::Drive || before.entries@[before.picker_selected as int].kind
            == RowKind::Directory) {
            before.entries@[before.picker_selected as int].path@
        } else {
            before.cwd@
        },
{
}

/// In the browser the cursor moves by one row, by ten, or to an end, and stays in the list.
pub proof fn steps_move_through_the_rows(
    before: App,
    after: App,
    key: Key,
    now: Duration,
    action: Action,
)
    requires
        before.key_pressed(after, key, now, action),
        before.screen == Screen::Picker,
        before.picker_selected < before.entries@.len(),
        key.code == KeyCode::Char('j') || key.code == KeyCode::Down || key.code == KeyCode::Char(
            'k',
        ) || key.code == KeyCode::Up || key.code == KeyCode::Char('g') || key.code == KeyCode::Home
            || key.code == KeyCode::Char('G') || key.code == KeyCode::End || key.code
            == KeyCode::PageDown || key.code == KeyCode::PageUp,
    ensures
        action == Action::Nothing,
        after == (App { picker_selected: after.picker_selected, ..before }),
        after.picker_selected < before.entries@.len(),
        ({
            let at = before.picker_selected as int;
            let last = before.entries@.len() - 1;
            &&& key.code == KeyCode::Char('j') || key.code == KeyCode::Down
                ==> after.picker_selected == if at < last {
                at + 1
            } else {
                last
            }
            &&& key.code == KeyCode::Char('k') || key.code == KeyCode::Up
                ==> after.picker_selected == if at > 0 {
                at - 1
            } else {
                0
            }
            &&& key.code == KeyCode::PageDown ==> after.picker_selected == if at + 10 <= last {
                at + 10
            } else {
                last
            }
            &&& key.code == KeyCode::PageUp ==> after.picker_selected == if at >= 10 {
                at - 10
            } else {
                0
            }
            &&& key.code == KeyCode::Char('g') || key.code == KeyCode::Home
                ==> after.picker_selected == 0
            &&& key.code == KeyCode::Char('G') || key.code == KeyCode::End
                ==> after.picker_selected == last
        }),
{
    assert(before.entries.len() <= usize::MAX);
}

} // verus!
