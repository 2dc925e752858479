//! Overlays: the deletion confirmation and the final report.

use super::{
    bold, bold_span, dim, dim_span, empty_line, groups_in, inner, inside, joined_spans, line_of_one,
    lines_in, plain, plain_span, stat, stat_line, stat_spans, toned, toned_span, Line, Span,
    SpanView, Tone,
};
use crate::app::bulk::{plural, plural_of};
use crate::app::results::scope_flags;
use crate::app::{App, DeletePlan};
use crate::delete::{target_bytes, DeleteFailure, DeleteMode, DeleteReport};
use crate::format::{bytes, count, grouped, size_text, tail_of, truncate_path};
use crate::model::{DupeGroup, FileEntry};
use crate::text::{decimal, decimal_of, displayed, text_from};
use vstd::prelude::*;

verus! {

/// The groups that a deletion of what is marked would touch.
pub open spec fn touched(groups: Seq<DupeGroup>, flags: Seq<bool>) -> nat
    decreases groups.len(),
{
    if groups.len() == 0 {
        0
    } else {
        let g = groups.last();
        touched(groups.drop_last(), flags) + if !g.skipped && g.marked_files() > 0
            && flags[groups.len() - 1] {
            1nat
        } else {
            0nat
        }
    }
}

/// How many groups a deletion of what is marked would touch.
pub fn touched_groups(app: &App) -> (n: usize)
    requires
        app.wf(),
    ensures
        n == touched(app.groups@, scope_flags(app.groups@, app.selected@)),
{
    let ghost flags = scope_flags(app.groups@, app.selected@);
    let mut n: usize = 0;
    let mut i: usize = 0;
    while i < app.groups.len()
        invariant
            app.wf(),
            flags == scope_flags(app.groups@, app.selected@),
            i <= app.groups@.len(),
            n <= i,
            n == touched(app.groups@.take(i as int), flags),
        decreases app.groups@.len() - i,
    {
        assert(app.groups@.take(i + 1).drop_last() =~= app.groups@.take(i as int));
        let group = &app.groups[i];
        if !group.skipped && group.marked() > 0 && app.in_scope(i) {
            n += 1;
        }
        i += 1;
    }
    assert(app.groups@.take(i as int) =~= app.groups@);
    n
}

/// The keys of the confirmation.
pub open spec fn confirm_keys(confirm: Seq<char>, mode: DeleteMode) -> Seq<SpanView> {
    seq![
        bold("y / Enter"@, Tone::Accent),
        dim(confirm),
        bold("t"@, Tone::Accent),
        dim("  switch to "@),
        toned(mode.other().word(), Tone::Warn),
        plain("     "@),
        bold("Esc"@, Tone::Accent),
        dim("  cancel"@),
    ]
}

fn confirm_keys_line(confirm: &str, mode: DeleteMode) -> (line: Line)
    ensures
        line@ == confirm_keys(confirm@, mode),
{
    let line = Line {
        spans: vec![
            bold_span(text_from("y / Enter"), Tone::Accent),
            dim_span(confirm),
            bold_span(text_from("t"), Tone::Accent),
            dim_span("  switch to "),
            toned_span(text_from(mode.toggled().label()), Tone::Warn),
            plain_span("     "),
            bold_span(text_from("Esc"), Tone::Accent),
            dim_span("  cancel"),
        ],
    };
    assert(line@ =~= confirm_keys(confirm@, mode));
    line
}

/// Whether what is deleted can come back.
pub open spec fn verdict(mode: DeleteMode) -> SpanView {
    match mode {
        DeleteMode::Permanent => bold(
            "These files will be destroyed permanently and cannot be recovered."@,
            Tone::Delete,
        ),
        DeleteMode::Trash => toned(
            "These files move to the Recycle Bin / Trash and can be restored."@,
            Tone::Keep,
        ),
    }
}

/// What deleting everything that is marked would do: how many files from how many
/// groups.
pub open spec fn question(app: App) -> Seq<SpanView> {
    let n = app.marks().len();
    let groups = touched(app.groups@, scope_flags(app.groups@, app.selected@));
    seq![
        plain("Delete "@),
        bold(grouped(n), Tone::Delete),
        plain(" file"@ + plural(n) + " from "@),
        bold(grouped(groups), Tone::Plain),
        plain(
            " "@ + (if app.selected@.len() > 0 {
                "selected "@
            } else {
                ""@
            }) + "group"@ + plural(groups) + "?"@,
        ),
    ]
}

/// The confirmation of deleting everything that is marked: how many files, how much
/// space, and whether it is undoable.
pub open spec fn confirm_body(app: App) -> Seq<Seq<SpanView>> {
    seq![
        Seq::empty(),
        question(app),
        seq![
            dim("Reclaims "@),
            bold(size_text(target_bytes(app.marks()) as u64), Tone::Keep),
            dim("  ·  one copy is kept in every group"@),
        ],
        Seq::empty(),
        seq![verdict(app.delete_mode)],
        Seq::empty(),
        confirm_keys("  confirm     "@, app.delete_mode),
    ]
}

fn question_line(app: &App) -> (line: Line)
    requires
        app.wf(),
    ensures
        line@ == question(*app),
{
    let n: usize = app.total_marked();
    let groups: usize = touched_groups(app);
    let mut files = text_from(" file");
    files.append(plural_of(n));
    files.append(" from ");
    let mut tail = text_from(" ");
    if app.selected_count() > 0 {
        tail.append("selected ");
    } else {
        tail.append("");
    }
    tail.append("group");
    tail.append(plural_of(groups));
    tail.append("?");
    let line = Line {
        spans: vec![
            plain_span("Delete "),
            bold_span(count(n as u64), Tone::Delete),
            toned_span(files, Tone::Plain),
            bold_span(count(groups as u64), Tone::Plain),
            toned_span(tail, Tone::Plain),
        ],
    };
    assert(line@ =~= question(*app));
    line
}

/// The confirmation of deleting everything that is marked.
pub fn confirm_lines(app: &App) -> (lines: Vec<Line>)
    requires
        app.wf(),
    ensures
        lines_in(lines@) == confirm_body(*app),
{
    let reclaims = Line {
        spans: vec![
            dim_span("Reclaims "),
            bold_span(bytes(app.total_reclaimable()), Tone::Keep),
            dim_span("  ·  one copy is kept in every group"),
        ],
    };
    assert(reclaims@ =~= seq![
        dim("Reclaims "@),
        bold(size_text(target_bytes(app.marks()) as u64), Tone::Keep),
        dim("  ·  one copy is kept in every group"@),
    ]);
    let verdict_span = match app.delete_mode {
        DeleteMode::Permanent => bold_span(
            text_from("These files will be destroyed permanently and cannot be recovered."),
            Tone::Delete,
        ),
        DeleteMode::Trash => toned_span(
            text_from("These files move to the Recycle Bin / Trash and can be restored."),
            Tone::Keep,
        ),
    };
    let lines = vec![
        empty_line(),
        question_line(app),
        reclaims,
        empty_line(),
        line_of_one(verdict_span),
        empty_line(),
        confirm_keys_line("  confirm     ", app.delete_mode),
    ];
    assert(lines_in(lines@) =~= confirm_body(*app));
    lines
}

/// The title of the confirmation says plainly which deletion is about to happen.
pub fn confirm_title(mode: DeleteMode) -> (s: &'static str)
    ensures
        s@ == match mode {
            DeleteMode::Permanent => " confirm PERMANENT deletion "@,
            DeleteMode::Trash => " confirm deletion "@,
        },
{
    match mode {
        DeleteMode::Permanent => " confirm PERMANENT deletion ",
        DeleteMode::Trash => " confirm deletion ",
    }
}

/// The title of the confirmation for one file.
pub fn single_confirm_title(mode: DeleteMode) -> (s: &'static str)
    ensures
        s@ == match mode {
            DeleteMode::Permanent => " delete file PERMANENTLY "@,
            DeleteMode::Trash => " delete file "@,
        },
{
    match mode {
        DeleteMode::Permanent => " delete file PERMANENTLY ",
        DeleteMode::Trash => " delete file ",
    }
}

/// The border of a confirmation.
pub fn confirm_tone(mode: DeleteMode) -> (tone: Tone)
    ensures
        tone == match mode {
            DeleteMode::Permanent => Tone::Delete,
            DeleteMode::Trash => Tone::Warn,
        },
{
    match mode {
        DeleteMode::Permanent => Tone::Delete,
        DeleteMode::Trash => Tone::Warn,
    }
}

/// Whether the one file that is deleted can come back.
pub open spec fn single_verdict(mode: DeleteMode) -> SpanView {
    match mode {
        DeleteMode::Permanent => bold(
            "This file will be destroyed permanently and cannot be recovered."@,
            Tone::Delete,
        ),
        DeleteMode::Trash => toned(
            "It moves to the Recycle Bin / Trash and can be restored."@,
            Tone::Keep,
        ),
    }
}

/// The confirmation of deleting one file of a group with this many copies: the one thing
/// that matters is which file, so it is named rather than counted.
pub open spec fn single_body(file: FileEntry, copies: nat, mode: DeleteMode) -> Seq<Seq<SpanView>> {
    let remaining = if copies == 0 {
        0
    } else {
        (copies - 1) as nat
    };
    seq![
        Seq::empty(),
        seq![bold("Delete this one file?"@, Tone::Plain)],
        seq![toned(tail_of(displayed(file.path@), 68), Tone::Delete)],
        seq![
            dim("Frees "@),
            bold(size_text(file.size), Tone::Keep),
            dim(
                "  ·  "@ + decimal(remaining) + " cop"@ + (if remaining == 1 {
                    "y"@
                } else {
                    "ies"@
                }) + " of this content would remain"@,
            ),
        ],
        Seq::empty(),
        seq![single_verdict(mode)],
        Seq::empty(),
        confirm_keys("  delete it     "@, mode),
    ]
}

/// The confirmation of deleting one file of a group with this many copies.
pub fn single_confirm_lines(file: &FileEntry, copies: usize, mode: DeleteMode) -> (lines: Vec<Line>)
    ensures
        lines_in(lines@) == single_body(*file, copies as nat, mode),
{
    let remaining: usize = if copies == 0 {
        0
    } else {
        copies - 1
    };
    let mut rest = text_from("  ·  ");
    rest.append(decimal_of(remaining).as_str());
    rest.append(" cop");
    rest.append(
        if remaining == 1 {
            "y"
        } else {
            "ies"
        },
    );
    rest.append(" of this content would remain");
    let frees = Line {
        spans: vec![
            dim_span("Frees "),
            bold_span(bytes(file.size), Tone::Keep),
            toned_span(rest, Tone::Dim),
        ],
    };
    assert(frees@ =~= single_body(*file, copies as nat, mode)[3]);
    let verdict_span = match mode {
        DeleteMode::Permanent => bold_span(
            text_from("This file will be destroyed permanently and cannot be recovered."),
            Tone::Delete,
        ),
        DeleteMode::Trash => toned_span(
            text_from("It moves to the Recycle Bin / Trash and can be restored."),
            Tone::Keep,
        ),
    };
    let path = truncate_path(file.path.display().as_str(), 68);
    let lines = vec![
        empty_line(),
        line_of_one(bold_span(text_from("Delete this one file?"), Tone::Plain)),
        line_of_one(toned_span(path, Tone::Delete)),
        frees,
        empty_line(),
        line_of_one(verdict_span),
        empty_line(),
        confirm_keys_line("  delete it     ", mode),
    ];
    assert(lines_in(lines@) =~= single_body(*file, copies as nat, mode));
    lines
}

/// The file that a single deletion is about, and how many copies its group has.
pub open spec fn single_target(app: App) -> Option<(FileEntry, nat)> {
    match app.plan {
        DeletePlan::Single { group, file } => if group < app.groups@.len() && file
            < app.groups@[group as int].files@.len() {
            Some(
                (
                    app.groups@[group as int].files@[file as int],
                    app.groups@[group as int].files@.len(),
                ),
            )
        } else {
            None
        },
        DeletePlan::Marked => None,
    }
}

/// What the confirmation says: about the one file that was picked out, or about
/// everything that is marked. A file that is not there is not asked about.
pub fn plan_lines(app: &App) -> (lines: Option<Vec<Line>>)
    requires
        app.wf(),
    ensures
        app.plan == DeletePlan::Marked ==> lines is Some && lines_in(lines->0@) == confirm_body(
            *app,
        ),
        app.plan != DeletePlan::Marked ==> {
            &&& lines is Some <==> single_target(*app) is Some
            &&& lines is Some ==> lines_in(lines->0@) == single_body(
                (single_target(*app)->0).0,
                (single_target(*app)->0).1,
                app.delete_mode,
            )
        },
{
    match app.plan {
        DeletePlan::Marked => Some(confirm_lines(app)),
        DeletePlan::Single { group, file } => {
            if group < app.groups.len() && file < app.groups[group].files.len() {
                Some(
                    single_confirm_lines(
                        &app.groups[group].files[file],
                        app.groups[group].files.len(),
                        app.delete_mode,
                    ),
                )
            } else {
                None
            }
        },
    }
}

/// The header after a deletion.
pub open spec fn done_header_spans(report: DeleteReport) -> Seq<SpanView> {
    joined_spans(
        seq![
            stat("deleted"@, grouped(report.deleted as nat)),
            stat("freed"@, size_text(report.bytes_freed)),
            stat("failed"@, grouped(report.failures@.len())),
            stat("mode"@, report.mode_label@),
        ],
    )
}

/// The header after a deletion.
pub fn done_header(report: &DeleteReport) -> (line: Line)
    ensures
        line@ == done_header_spans(*report),
{
    let groups = vec![
        stat_spans("deleted", count(report.deleted)),
        stat_spans("freed", bytes(report.bytes_freed)),
        stat_spans("failed", count(report.failures.len() as u64)),
        stat_spans("mode", text_from(report.mode_label.as_str())),
    ];
    assert(groups_in(groups@) =~= seq![
        stat("deleted"@, grouped(report.deleted as nat)),
        stat("freed"@, size_text(report.bytes_freed)),
        stat("failed"@, grouped(report.failures@.len())),
        stat("mode"@, report.mode_label@),
    ]);
    stat_line(groups)
}

/// What the deletion came to, in one sentence.
pub open spec fn headline(report: DeleteReport) -> SpanView {
    let failures = report.failures@.len();
    if failures == 0 {
        bold(
            "Removed "@ + grouped(report.deleted as nat) + " duplicate file"@ + plural(
                report.deleted as nat,
            ) + ", reclaiming "@ + size_text(report.bytes_freed) + "."@,
            Tone::Keep,
        )
    } else {
        bold(
            "Removed "@ + grouped(report.deleted as nat) + ", but "@ + grouped(failures) + " file"@
                + plural(failures) + " could not be deleted."@,
            Tone::Warn,
        )
    }
}

/// What is said after a deletion.
pub open spec fn summary(report: DeleteReport, groups: nat) -> Seq<Seq<SpanView>> {
    let first = seq![seq![headline(report)], Seq::empty()];
    let hint = if report.failures@.len() > 0 && report.mode_label@ == DeleteMode::Trash.word() {
        first.push(
            seq![
                dim(
                    "Trashing fails for files outside the home filesystem — press t on the dashboard to switch to permanent deletion and retry."@,
                ),
            ],
        )
    } else {
        first
    };
    hint.push(seq![dim(decimal(groups) + " duplicate group(s) still listed."@)])
}

fn headline_span(report: &DeleteReport) -> (span: Span)
    ensures
        span@ == headline(*report),
{
    let failures: usize = report.failures.len();
    let mut text = text_from("Removed ");
    text.append(count(report.deleted).as_str());
    if failures == 0 {
        text.append(" duplicate file");
        text.append(
            if report.deleted == 1 {
                ""
            } else {
                "s"
            },
        );
        text.append(", reclaiming ");
        text.append(bytes(report.bytes_freed).as_str());
        text.append(".");
        bold_span(text, Tone::Keep)
    } else {
        text.append(", but ");
        text.append(count(failures as u64).as_str());
        text.append(" file");
        text.append(plural_of(failures));
        text.append(" could not be deleted.");
        bold_span(text, Tone::Warn)
    }
}

/// What is said after a deletion.
pub fn done_lines(report: &DeleteReport, groups: usize) -> (lines: Vec<Line>)
    ensures
        lines_in(lines@) == summary(*report, groups as nat),
{
    let mut lines = vec![line_of_one(headline_span(report)), empty_line()];
    assert(lines_in(lines@) =~= seq![seq![headline(*report)], Seq::empty()]);
    let trash = text_from(DeleteMode::Trash.label());
    if report.failures.len() > 0 && crate::text::same_text(&report.mode_label, &trash) {
        let ghost before = lines_in(lines@);
        let hint = line_of_one(
            dim_span(
                "Trashing fails for files outside the home filesystem — press t on the dashboard to switch to permanent deletion and retry.",
            ),
        );
        lines.push(hint);
        assert(lines_in(lines@) =~= before.push(hint@));
    }
    let ghost before = lines_in(lines@);
    let mut text = decimal_of(groups);
    text.append(" duplicate group(s) still listed.");
    let last = line_of_one(toned_span(text, Tone::Dim));
    lines.push(last);
    assert(lines_in(lines@) =~= before.push(last@));
    lines
}

/// A file that could not be deleted, and why.
pub open spec fn failure_spans(failure: DeleteFailure, width: int) -> Seq<Seq<SpanView>> {
    seq![
        seq![toned(tail_of(displayed(failure.path@), width), Tone::Delete)],
        seq![dim("  "@ + failure.message@)],
    ]
}

/// A file that could not be deleted, and why.
pub fn failure_lines(failure: &DeleteFailure, width: u16) -> (lines: Vec<Line>)
    ensures
        lines_in(lines@) == failure_spans(*failure, inside(width, 4)),
{
    let path = truncate_path(failure.path.display().as_str(), inner(width, 4));
    let mut message = text_from("  ");
    message.append(failure.message.as_str());
    let lines = vec![
        line_of_one(toned_span(path, Tone::Delete)),
        line_of_one(toned_span(message, Tone::Dim)),
    ];
    assert(lines_in(lines@) =~= failure_spans(*failure, inside(width, 4)));
    lines
}

/// The title above the failures.
pub open spec fn failure_heading(n: nat) -> Seq<char> {
    if n == 0 {
        " no failures "@
    } else {
        " failures ("@ + decimal(n) + ") "@
    }
}

/// The title above the failures.
pub fn failure_title(report: &DeleteReport) -> (s: String)
    ensures
        s@ == failure_heading(report.failures@.len()),
{
    if report.failures.len() == 0 {
        return text_from(" no failures ");
    }
    let mut s = text_from(" failures (");
    s.append(decimal_of(report.failures.len()).as_str());
    s.append(") ");
    s
}

/// The line that is left on the terminal after the program: what was deleted.
pub open spec fn farewell(report: DeleteReport) -> Seq<char> {
    "Deleted "@ + decimal(report.deleted as nat) + " file(s), reclaimed "@ + size_text(
        report.bytes_freed,
    ) + " ("@ + crate::text::lower_case(report.mode_label@) + ")."@
}

/// The line that is left on the terminal after the program.
pub fn farewell_text(report: &DeleteReport) -> (s: String)
    ensures
        s@ == farewell(*report),
{
    let mut s = text_from("Deleted ");
    s.append(crate::text::decimal_text(report.deleted).as_str());
    s.append(" file(s), reclaimed ");
    s.append(bytes(report.bytes_freed).as_str());
    s.append(" (");
    s.append(report.mode_label.as_str().to_lowercase().as_str());
    s.append(").");
    s
}

/// The line for a file that could not be deleted.
pub fn farewell_failure(failure: &DeleteFailure) -> (s: String)
    ensures
        s@ == "failed: "@ + displayed(failure.path@) + ": "@ + failure.message@,
{
    let mut s = text_from("failed: ");
    s.append(failure.path.display().as_str());
    s.append(": ");
    s.append(failure.message.as_str());
    s
}

} // verus!
