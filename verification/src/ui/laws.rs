//! What the dashboard and the questions on it tell.

use super::footer::keys_of;
use super::modal::{
    confirm_body, done_header_spans, failure_heading, failure_spans, farewell, headline, question,
    single_body, single_target, single_verdict, summary, touched, verdict,
};
use super::picker::{file_size, filter_spans, row_spans, rows_of_kind, title_of};
use super::results::{
    detail_pairs, file_spans, files_title_text, group_spans, groups_spans, mode_tone, plan_spans,
    root_text, summary_spans,
};
use super::scanning::{
    deleting_stats, error_heading, error_spans, progress_of, progress_words, scan_stats,
};
use super::{stat, SpanView, Tone};
use crate::app::bulk::plural;
use crate::app::results::{scope_flags, surplus_in};
use crate::app::{App, DeletePlan, DirEntryRow, RowKind, Screen};
use crate::delete::{target_bytes, DeleteFailure, DeleteMode, DeleteReport};
use crate::format::{grouped, size_text, span_text, when_text};
use crate::model::{DupeGroup, FileEntry, Phase, ScanError, ScanOptions, ScanState};
use crate::path::shown_name;
use crate::text::{decimal, displayed, hex, lower_case, padded_right};
use crate::time::Duration;
use vstd::prelude::*;

verus! {

/// The row of a file starts with what will happen to it: a protected file is a reference
/// whatever else holds, nothing happens in a skipped group, and any other file is kept or
/// deleted as it is marked.
pub proof fn a_row_tells_what_happens_to_the_file(
    group: DupeGroup,
    file: FileEntry,
    root: Option<Seq<u8>>,
    width: int,
)
    ensures
        ({
            let word = file_spans(group, file, root, width)[0];
            &&& file.protected ==> word.text == "REF     "@
            &&& !file.protected && group.skipped ==> word.text == "— SKIP  "@
            &&& !file.protected && !group.skipped && file.keep ==> word.text == "● KEEP  "@
                && word.style.tone == Tone::Keep
            &&& !file.protected && !group.skipped && !file.keep ==> word.text == "✗ DELETE"@
                && word.style.tone == Tone::Delete
        }),
{
}

/// Without a root above it a file is shown by its whole path where that fits; where it does
/// not, the end of the path is shown behind an ellipsis, in exactly the columns there are.
pub proof fn a_row_shows_the_end_of_the_path(group: DupeGroup, file: FileEntry, width: int)
    requires
        width >= 9,
    ensures
        ({
            let path = displayed(file.path@);
            let shown = file_spans(group, file, None, width)[2].text;
            &&& path.len() <= width - 9 ==> shown == path
            &&& path.len() > width - 9 > 0 ==> {
                &&& shown.len() == width - 9
                &&& shown[0] == '…'
                &&& forall|i: int|
                    1 <= i < shown.len() ==> #[trigger] shown[i] == path[path.len() - shown.len()
                        + i]
            }
        }),
{
}

/// The row of a group tells whether it is selected, how many copies there are and what one
/// of them is called, struck out where the group is skipped.
pub proof fn a_row_tells_of_the_group(group: DupeGroup, selected: bool, width: int)
    requires
        group.name().len() + 100 <= width,
        size_text(group.size).len() <= 20,
        decimal(group.files@.len()).len() <= 20,
    ensures
        ({
            let row = group_spans(group, selected, width);
            &&& row.len() == 5
            &&& selected ==> row[0].text == "✓ "@
            &&& !selected ==> row[0].text == "  "@
            &&& row[1].text.len() >= size_text(group.size).len()
            &&& row[1].text.skip(row[1].text.len() - size_text(group.size).len()) == size_text(
                group.size,
            )
            &&& row[4].text == group.name()
            &&& row[4].style.crossed_out == group.skipped
        }),
{
    reveal_strlit("✓ ");
    reveal_strlit("  ");
    reveal_strlit(" ×");
    let row = group_spans(group, selected, width);
    crate::text::padding_only_fills(size_text(group.size), 10, ' ');
    crate::text::padding_only_fills(decimal(group.files@.len()), 3, ' ');
}

/// The header tells what `D` would do: how many files are marked in scope, how many bytes
/// that frees, where the files go, and how the groups are sorted.
pub proof fn the_header_tells_what_d_would_do(app: App)
    ensures
        ({
            let said = plan_spans(app);
            &&& said.len() == 9
            &&& said[0].text == "marked "@
            &&& said[1].text == grouped(app.marks().len())
            &&& said[2].text == " · reclaims "@
            &&& said[3].text == size_text(target_bytes(app.marks()) as u64)
            &&& app.delete_mode == DeleteMode::Trash ==> said[5].text == "Trash"@
                && said[5].style.tone == Tone::Keep
            &&& app.delete_mode == DeleteMode::Permanent ==> said[5].text == "Permanent"@
                && said[5].style.tone == Tone::Delete
            &&& app.selected@.len() > 0 ==> said[8].text == decimal(app.selected@.len())
                + " selected"@
            &&& app.selected@.len() == 0 ==> said[8].text == "all "@ + decimal(app.groups@.len())
                + " groups"@
        }),
{
}

/// The header tells what was scanned, how many groups and surplus copies there are, and how
/// long it took.
pub proof fn the_header_tells_what_was_scanned(app: App, elapsed: Duration)
    ensures
        ({
            let said = summary_spans(app, elapsed);
            let parts = seq![
                stat("scanned"@, grouped(app.scan_state.files_seen as nat)),
                stat("size"@, size_text(app.scan_state.bytes_seen)),
                stat("groups"@, grouped(app.groups@.len())),
                stat("duplicates"@, grouped(surplus_in(app.groups@) as nat)),
                stat("took"@, span_text(elapsed)),
            ];
            said == super::joined_spans(parts)
        }),
{
}

/// Surplus copies are all copies but one of each group.
pub proof fn surplus_copies_add_up(groups: Seq<DupeGroup>, more: DupeGroup)
    requires
        more.files@.len() > 0,
    ensures
        surplus_in(Seq::empty()) == 0,
        surplus_in(groups.push(more)) == surplus_in(groups) + more.files@.len() - 1,
{
    assert(groups.push(more).drop_last() =~= groups);
}

/// A group is touched by a deletion exactly where it is in scope, is not skipped and has a
/// copy that is neither kept nor protected.
pub proof fn touched_groups_have_a_marked_copy(
    groups: Seq<DupeGroup>,
    more: DupeGroup,
    selected: Set<[u8; 32]>,
)
    ensures
        ({
            let all = groups.push(more);
            let hit = !more.skipped && (selected == Set::<[u8; 32]>::empty() || selected.contains(
                more.hash,
            )) && exists|f: int|
                0 <= f < more.files@.len() && !(#[trigger] more.files@[f]).keep
                    && !more.files@[f].protected;
            touched(all, scope_flags(all, selected)) == touched(
                groups,
                scope_flags(groups, selected),
            ) + if hit {
                1nat
            } else {
                0nat
            }
        }),
{
    let all = groups.push(more);
    let flags = scope_flags(all, selected);
    assert(all.drop_last() =~= groups);
    let p = |e: FileEntry| e.doomed();
    crate::model::how_many_bounds(more.files@, p);
    if exists|f: int|
        0 <= f < more.files@.len() && !(#[trigger] more.files@[f]).keep
            && !more.files@[f].protected {
        let f = choose|f: int|
            0 <= f < more.files@.len() && !(#[trigger] more.files@[f]).keep
                && !more.files@[f].protected;
        assert(p(more.files@[f]));
    }
    if !more.skipped && more.marked_files() > 0 {
        let f = choose|f: int| 0 <= f < more.files@.len() && p(#[trigger] more.files@[f]);
        assert(!more.files@[f].keep);
    }
    same_flags_touch_the_same(groups, flags, scope_flags(groups, selected));
}

proof fn same_flags_touch_the_same(groups: Seq<DupeGroup>, a: Seq<bool>, b: Seq<bool>)
    requires
        forall|i: int| 0 <= i < groups.len() ==> #[trigger] a[i] == b[i],
    ensures
        touched(groups, a) == touched(groups, b),
    decreases groups.len(),
{
    if groups.len() > 0 {
        same_flags_touch_the_same(groups.drop_last(), a, b);
        assert(a[groups.len() - 1] == b[groups.len() - 1]);
    }
}

/// The question before a deletion of what is marked tells how many files go, from how many
/// groups, how much that frees, and whether it can be undone.
pub proof fn the_question_tells_what_goes(app: App)
    ensures
        ({
            let said = confirm_body(app);
            let groups = touched(app.groups@, scope_flags(app.groups@, app.selected@));
            &&& said.len() == 7
            &&& said[1] == question(app)
            &&& question(app)[0].text == "Delete "@
            &&& question(app)[1].text == grouped(app.marks().len())
            &&& question(app)[3].text == grouped(groups)
            &&& said[2][1].text == size_text(target_bytes(app.marks()) as u64)
            &&& said[4] == seq![verdict(app.delete_mode)]
        }),
        verdict(DeleteMode::Permanent).text
            == "These files will be destroyed permanently and cannot be recovered."@,
        verdict(DeleteMode::Permanent).style.tone == Tone::Delete,
        verdict(DeleteMode::Trash).text
            == "These files move to the Recycle Bin / Trash and can be restored."@,
{
}

/// The question before the deletion of one file names that file, its size and how many
/// copies would be left.
pub proof fn the_question_names_the_one_file(app: App, group: usize, file: usize)
    requires
        app.plan == (DeletePlan::Single { group, file }),
        group < app.groups@.len(),
        file < app.groups@[group as int].files@.len(),
        displayed(app.groups@[group as int].files@[file as int].path@).len() <= 68,
    ensures
        ({
            let entry = app.groups@[group as int].files@[file as int];
            let copies = app.groups@[group as int].files@.len();
            let said = single_body(entry, copies, app.delete_mode);
            &&& single_target(app) == Some((entry, copies))
            &&& said[1][0].text == "Delete this one file?"@
            &&& said[2][0].text == displayed(entry.path@)
            &&& said[3][1].text == size_text(entry.size)
            &&& said[3][2].text == "  ·  "@ + decimal((copies - 1) as nat) + " cop"@ + (if copies
                == 2 {
                "y"@
            } else {
                "ies"@
            }) + " of this content would remain"@
        }),
{
}

/// After a deletion it is told how many files went, how much that freed, how many did not
/// go, and each of those with its path and the reason.
pub proof fn a_report_is_told(report: DeleteReport, failure: DeleteFailure, width: int)
    ensures
        done_header_spans(report) == super::joined_spans(
            seq![
                stat("deleted"@, grouped(report.deleted as nat)),
                stat("freed"@, size_text(report.bytes_freed)),
                stat("failed"@, grouped(report.failures@.len())),
                stat("mode"@, report.mode_label@),
            ],
        ),
        report.failures@.len() == 0 ==> headline(report).style.tone == Tone::Keep,
        report.failures@.len() > 0 ==> headline(report).style.tone == Tone::Warn,
        displayed(failure.path@).len() <= width ==> failure_spans(failure, width)[0][0].text
            == displayed(failure.path@),
        failure_spans(failure, width)[1][0].text == "  "@ + failure.message@,
{
}

/// Statistics stand behind one another, told apart by a dot: a label, then its value.
pub proof fn statistics_stand_behind_one_another(
    first: Seq<SpanView>,
    label: Seq<char>,
    value: Seq<char>,
)
    ensures
        super::joined_spans(seq![first]) == first,
        super::joined_spans(seq![first, stat(label, value)]) == first + seq![
            super::dim(" · "@),
            super::dim(label + " "@),
            super::bold(value, Tone::Plain),
        ],
{
    reveal_with_fuel(super::joined_spans, 3);
    assert(seq![first, stat(label, value)].drop_last() =~= seq![first]);
    assert(super::joined_spans(seq![first, stat(label, value)]) =~= first + seq![
        super::dim(" · "@),
        super::dim(label + " "@),
        super::bold(value, Tone::Plain),
    ]);
}

/// The progress of a scan counts files that were identified in the last phase, out of those
/// to be identified, and before that files that were hashed, out of all candidates.
pub proof fn progress_counts_what_the_phase_does(app: App)
    ensures
        ({
            let p = progress_of(app);
            let state = app.scan_state;
            &&& app.phase == Phase::Finalizing ==> p == (state.files_checked, state.files_to_check)
            &&& app.phase != Phase::Finalizing ==> p == (state.files_hashed, state.candidates)
            &&& p.1 == 0 ==> progress_words(app) == "discovering files…"@
            &&& p.1 > 0 && app.phase == Phase::Finalizing ==> progress_words(app) == grouped(
                p.0 as nat,
            ) + " / "@ + grouped(p.1 as nat) + " "@ + "files identified"@
            &&& p.1 > 0 && app.phase != Phase::Finalizing ==> progress_words(app) == grouped(
                p.0 as nat,
            ) + " / "@ + grouped(p.1 as nat) + " "@ + "candidates hashed"@
        }),
{
}

/// The most recent problems are shown, as many as there is room for, in their order.
pub proof fn the_latest_problems_are_shown(
    errors: Seq<ScanError>,
    width: int,
    capacity: int,
    i: int,
)
    requires
        0 <= capacity,
        0 <= i < error_spans(errors, width, capacity).len(),
    ensures
        error_spans(errors, width, capacity).len() == if errors.len() < capacity {
            errors.len() as int
        } else {
            capacity
        },
        ({
            let shown = error_spans(errors, width, capacity);
            let error = errors[errors.len() - shown.len() + i];
            error.line().len() <= width ==> shown[i][0].text == error.line()
        }),
        ({
            let shown = error_spans(errors, width, capacity);
            let error = errors[errors.len() - shown.len() + i];
            &&& error.path is Some ==> error.line() == displayed(error.path->0@) + ": "@
                + error.message@
            &&& error.path is None ==> error.line() == error.message@
        }),
{
}

/// While files are deleted, those that failed do not count as removed.
pub proof fn failures_do_not_count_as_removed(app: App)
    requires
        app.delete_state.failed <= app.delete_state.done,
    ensures
        deleting_stats(app)[0] == super::joined_spans(
            seq![
                stat(
                    "removed"@,
                    grouped((app.delete_state.done - app.delete_state.failed) as nat),
                ),
                stat("freed"@, size_text(app.delete_state.bytes_freed)),
                stat("failed"@, grouped(app.delete_state.failed as nat)),
            ],
        ),
{
}

/// Each filter is shown as on or off, as the next scan would apply it.
pub proof fn filters_are_shown_as_they_are(options: ScanOptions)
    ensures
        ({
            let shown = filter_spans(options);
            let word = |on: bool|
                if on {
                    "on"@
                } else {
                    "off"@
                };
            &&& shown.len() >= 5
            &&& shown[0][0].text == "hidden "@ && shown[0][1].text == word(!options.skip_hidden)
            &&& shown[1][0].text == "gitignore "@ && shown[1][1].text == word(
                options.respect_gitignore,
            )
            &&& shown[2][0].text == "empty "@ && shown[2][1].text == word(!options.skip_empty)
            &&& shown[3][0].text == "hardlinks "@ && shown[3][1].text == word(
                options.collapse_hardlinks,
            )
            &&& shown[4][0].text == "cache "@ && shown[4][1].text == word(options.use_cache)
            &&& options.exclude_exts@.len() == 0 ==> shown.len() == 5
            &&& options.exclude_exts@.len() > 0 ==> shown.len() == 6
        }),
{
    reveal_strlit("hidden");
    reveal_strlit("hidden ");
    reveal_strlit("gitignore");
    reveal_strlit("gitignore ");
    reveal_strlit("empty");
    reveal_strlit("empty ");
    reveal_strlit("hardlinks");
    reveal_strlit("hardlinks ");
    reveal_strlit("cache");
    reveal_strlit("cache ");
    reveal_strlit(" ");
    assert("hidden"@ + " "@ =~= "hidden "@);
    assert("gitignore"@ + " "@ =~= "gitignore "@);
    assert("empty"@ + " "@ =~= "empty "@);
    assert("hardlinks"@ + " "@ =~= "hardlinks "@);
    assert("cache"@ + " "@ =~= "cache "@);
}

/// The footer of the dashboard names each key with what it does.
pub proof fn the_footer_names_the_keys(app: App)
    requires
        app.screen == Screen::Results,
    ensures
        keys_of(app).contains(("Space"@, "keep this"@)),
        keys_of(app).contains(("d"@, "toggle"@)),
        keys_of(app).contains(("x"@, "skip group"@)),
        keys_of(app).contains(("1"@, "first"@)),
        keys_of(app).contains(("2"@, "newest"@)),
        keys_of(app).contains(("3"@, "oldest"@)),
        keys_of(app).contains(("4"@, "shortest"@)),
        keys_of(app).contains(("s"@, "sort"@)),
        app.delete_mode == DeleteMode::Trash ==> keys_of(app).contains(("t"@, "mode:trash"@)),
        app.delete_mode == DeleteMode::Permanent ==> keys_of(app).contains(("t"@, "mode:PERM"@)),
{
    let keys = keys_of(app);
    assert(keys[2] == ("Space"@, "keep this"@));
    assert(keys[3] == ("d"@, "toggle"@));
    assert(keys[4] == ("x"@, "skip group"@));
    assert(keys[5] == ("1"@, "first"@));
    assert(keys[6] == ("2"@, "newest"@));
    assert(keys[7] == ("3"@, "oldest"@));
    assert(keys[8] == ("4"@, "shortest"@));
    assert(keys[9] == ("s"@, "sort"@));
    assert(keys[10].0 == "t"@);
    assert(keys.contains(keys[10]));
}

/// A row of the browser tells what it stands for.
pub proof fn a_row_tells_what_it_stands_for(row: DirEntryRow, width: int)
    requires
        row.name@.len() + 100 <= width,
        row.size is Some ==> size_text(row.size->0).len() <= 50,
    ensures
        row.kind == RowKind::Current ==> row_spans(row, width)[1].text == row.name@,
        row.kind == RowKind::Drive ==> row_spans(row, width)[1].text == row.name@,
        row.kind == RowKind::Directory ==> row_spans(row, width)[1].text == row.name@,
        row.kind == RowKind::File ==> row_spans(row, width)[1].text == row.name@
            && row_spans(row, width).last().text == file_size(row.size),
        row.size is Some ==> file_size(row.size) == size_text(row.size->0),
{
    reveal_strlit("—");
}

/// The pane for a group tells the size of a copy, what all but one take up, whether the copy
/// under the cursor is a reference, when it was changed and how the hash starts; what the
/// marks free is told where it is something else.
pub proof fn the_details_tell_of_the_copy(group: DupeGroup, file: int)
    requires
        group.wf(),
        0 <= file < group.files@.len(),
    ensures
        ({
            let told = detail_pairs(group, file);
            let wasted = group.size * (group.files@.len() - 1);
            let freed = group.size * group.marked_files();
            let entry = group.files@[file];
            &&& told[0] == ("each"@, size_text(group.size))
            &&& told[1] == ("wasted"@, size_text(wasted as u64))
            &&& freed != wasted ==> told[2] == ("reclaims"@, size_text(freed as u64))
            &&& entry.protected ==> told[told.len() - 3] == ("reference"@, "protected"@)
            &&& told[told.len() - 2] == ("modified"@, when_text(entry.modified))
            &&& told[told.len() - 1] == ("blake3"@, hex(group.hash@.take(6)))
            &&& told.len() == 4 + (if freed != wasted {
                1int
            } else {
                0
            }) + (if entry.protected {
                1int
            } else {
                0
            })
        }),
{
}

/// While a scan runs, each count is told under its own label.
pub proof fn a_scan_is_told(
    state: ScanState,
    elapsed: Duration,
    reading: Option<Duration>,
    rate: u64,
)
    ensures
        ({
            let told = scan_stats(state, elapsed, reading, rate);
            let tone = if state.errors > 0 {
                Tone::Warn
            } else {
                Tone::Keep
            };
            &&& told.len() == 4
            &&& told[0] == super::joined_spans(
                seq![
                    stat("files"@, grouped(state.files_seen as nat)),
                    stat("dirs"@, grouped(state.dirs_seen as nat)),
                    stat("skipped"@, grouped(state.files_skipped as nat)),
                ],
            )
            &&& told[1] == super::joined_spans(
                seq![
                    stat("size"@, size_text(state.bytes_seen)),
                    stat("candidates"@, grouped(state.candidates as nat)),
                    stat("cache hits"@, grouped(state.cache_hits as nat)),
                ],
            )
            &&& told[3] == super::joined_spans(
                seq![
                    stat("elapsed"@, span_text(elapsed)),
                    seq![
                        super::dim("errors "@),
                        super::bold(grouped(state.errors as nat), tone),
                    ],
                ],
            )
        }),
{
}

/// What the program leaves on the terminal tells how many files were deleted, how much that
/// freed and how; the titles of the panes count what is below them.
pub proof fn titles_count_what_is_below(
    report: DeleteReport,
    app: App,
    rows: Seq<DirEntryRow>,
    n: nat,
)
    requires
        n > 0,
    ensures
        farewell(report) == "Deleted "@ + decimal(report.deleted as nat) + " file(s), reclaimed "@
            + size_text(report.bytes_freed) + " ("@ + lower_case(report.mode_label@) + ")."@,
        failure_heading(n) == " failures ("@ + decimal(n) + ") "@,
        error_heading(n) == " skipped / unreadable ("@ + decimal(n) + ") "@,
        app.group_selected < app.groups@.len() ==> files_title_text(app) == " group "@ + decimal(
            (app.group_selected + 1) as nat,
        ) + " of "@ + decimal(app.groups@.len()) + " — "@ + decimal(
            app.groups@[app.group_selected as int].files@.len(),
        ) + " copies "@,
        rows.filter(|r: DirEntryRow| r.kind == RowKind::Drive).len() == 0 ==> title_of(rows)
            == " "@ + decimal(rows.filter(|r: DirEntryRow| r.kind == RowKind::Directory).len())
            + " directories · "@ + decimal(
            rows.filter(|r: DirEntryRow| r.kind == RowKind::File).len(),
        ) + " files "@,
{
    rows_are_counted(rows, RowKind::Drive);
    rows_are_counted(rows, RowKind::Directory);
    rows_are_counted(rows, RowKind::File);
    assert(rows.filter(|r: DirEntryRow| r.kind == RowKind::Drive).len() == rows_of_kind(
        rows,
        RowKind::Drive,
    ));
    assert(rows.filter(|r: DirEntryRow| r.kind == RowKind::Directory).len() == rows_of_kind(
        rows,
        RowKind::Directory,
    ));
    assert(rows.filter(|r: DirEntryRow| r.kind == RowKind::File).len() == rows_of_kind(
        rows,
        RowKind::File,
    ));
}

proof fn rows_are_counted(rows: Seq<DirEntryRow>, kind: RowKind)
    ensures
        rows_of_kind(rows, kind) == rows.filter(|r: DirEntryRow| r.kind == kind).len(),
    decreases rows.len(),
{
    reveal(Seq::filter);
    if rows.len() > 0 {
        rows_are_counted(rows.drop_last(), kind);
    }
}

/// The rows of the groups are those of the groups in their order, each marked exactly where
/// its group is selected.
pub proof fn rows_stand_for_their_groups(app: App, from: int, to: int, width: int, i: int)
    requires
        0 <= from <= i < to <= app.groups@.len(),
    ensures
        groups_spans(app, from, to, width).len() == to - from,
        ({
            let row = groups_spans(app, from, to, width)[i - from];
            let group = app.groups@[i];
            &&& row[0].text == if app.selected@.contains(group.hash) {
                "✓ "@
            } else {
                "  "@
            }
            &&& row[2].text == " ×"@ + padded_right(decimal(group.files@.len()), 3, ' ')
        }),
{
}

/// The question on one file tells whether it can come back, and every question offers the
/// other mode.
pub proof fn the_way_back_is_told(file: FileEntry, copies: nat, app: App)
    ensures
        single_body(file, copies, app.delete_mode).contains(seq![single_verdict(app.delete_mode)]),
        single_verdict(DeleteMode::Permanent).text
            == "This file will be destroyed permanently and cannot be recovered."@,
        single_verdict(DeleteMode::Permanent).style.tone == Tone::Delete,
        single_verdict(DeleteMode::Trash).text
            == "It moves to the Recycle Bin / Trash and can be restored."@,
        single_verdict(DeleteMode::Trash).style.tone == Tone::Keep,
        confirm_body(app)[6][0].text == "y / Enter"@,
        confirm_body(app)[6][4].text == if app.delete_mode == DeleteMode::Trash {
            "Permanent"@
        } else {
            "Trash"@
        },
        confirm_body(app)[6][6].text == "Esc"@ && confirm_body(app)[6][7].text == "  cancel"@,
        app.selected@.len() > 0 ==> question(app)[4].text == " "@ + "selected "@ + "group"@
            + plural(touched(app.groups@, scope_flags(app.groups@, app.selected@))) + "?"@,
{
    let body = single_body(file, copies, app.delete_mode);
    assert(exists|i: int| 0 <= i < body.len() && body[i] == seq![single_verdict(app.delete_mode)])
        by {
        assert(body[5] == seq![single_verdict(app.delete_mode)]);
    }
}

/// After a deletion the groups that are still listed are counted; where files could not be
/// moved to the trash it is told what to do about it.
pub proof fn what_is_left_is_told(report: DeleteReport, groups: nat)
    ensures
        summary(report, groups)[0] == seq![headline(report)],
        summary(report, groups).last() == seq![
            super::dim(decimal(groups) + " duplicate group(s) still listed."@),
        ],
        summary(report, groups).len() == if report.failures@.len() > 0 && report.mode_label@
            == "Trash"@ {
            4int
        } else {
            3
        },
        report.failures@.len() == 0 ==> headline(report).text == "Removed "@ + grouped(
            report.deleted as nat,
        ) + " duplicate file"@ + (if report.deleted == 1 {
            ""@
        } else {
            "s"@
        }) + ", reclaiming "@ + size_text(report.bytes_freed) + "."@,
        report.failures@.len() > 0 ==> headline(report).text == "Removed "@ + grouped(
            report.deleted as nat,
        ) + ", but "@ + grouped(report.failures@.len()) + " file"@ + (if report.failures@.len()
            == 1 {
            ""@
        } else {
            "s"@
        }) + " could not be deleted."@,
{
}

/// In the browser the footer names what would be scanned; while workers run it names the key
/// that stops them. A mode that cannot be undone is shown in the tone of a deletion.
pub proof fn the_footer_names_the_target(app: App)
    ensures
        app.screen == Screen::Picker ==> keys_of(app).contains(
            ("s"@, "SCAN "@ + shown_name(app.target())),
        ) && keys_of(app).contains(("1-5"@, "filters"@)),
        app.screen == Screen::Scanning ==> keys_of(app) == seq![("Esc"@, "cancel scan"@)],
        app.screen == Screen::Deleting ==> keys_of(app) == seq![
            ("Esc"@, "stop after current file"@),
        ],
        mode_tone(DeleteMode::Permanent) == Tone::Delete,
        mode_tone(DeleteMode::Trash) == Tone::Keep,
        app.scan_root is Some ==> root_text(app.scan_root) == displayed(app.scan_root->0@),
        app.scan_root is None ==> root_text(app.scan_root).len() == 0,
{
    if app.screen == Screen::Picker {
        let keys = keys_of(app);
        assert(keys[7] == ("s"@, "SCAN "@ + shown_name(app.target())));
        assert(keys[5] == ("1-5"@, "filters"@));
        assert(keys.contains(keys[7]) && keys.contains(keys[5]));
    }
}

} // verus!
