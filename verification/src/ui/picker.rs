//! Directory browser: choose the tree to scan.

use super::{
    bold, bold_span, dim, dim_span, inner, inside, joined_spans, line_of_one, lines_in, plain,
    plain_span, spans_in, stat, stat_line, stat_spans, toned, toned_span, groups_in, Line, Span,
    SpanView, Tone,
};
use crate::app::{App, DirEntryRow, RowKind};
use crate::format::{bytes, head_of, size_text, tail_of, truncate, truncate_path};
use crate::model::ScanOptions;
use crate::text::{char_count, decimal, decimal_of, displayed, run_of, run_text, text_from, texts};
use vstd::prelude::*;

verus! {

/// `name:on` / `name:off`, coloured so the active filter set is readable.
pub open spec fn toggle(name: Seq<char>, on: bool) -> Seq<SpanView> {
    seq![
        dim(name + " "@),
        bold(
            if on {
                "on"@
            } else {
                "off"@
            },
            if on {
                Tone::Keep
            } else {
                Tone::Dim
            },
        ),
    ]
}

fn toggle_spans(name: &str, on: bool) -> (out: Vec<Span>)
    ensures
        spans_in(out@) == toggle(name@, on),
{
    let mut text = text_from(name);
    text.append(" ");
    let value = text_from(
        if on {
            "on"
        } else {
            "off"
        },
    );
    let tone = if on {
        Tone::Keep
    } else {
        Tone::Dim
    };
    let out = vec![toned_span(text, Tone::Dim), bold_span(value, tone)];
    assert(spans_in(out@) =~= toggle(name@, on));
    out
}

/// Texts with a comma between them.
pub open spec fn listed(list: Seq<Seq<char>>) -> Seq<char>
    decreases list.len(),
{
    if list.len() == 0 {
        Seq::empty()
    } else if list.len() == 1 {
        list[0]
    } else {
        listed(list.drop_last()) + ","@ + list.last()
    }
}

fn listed_text(list: &Vec<String>) -> (s: String)
    ensures
        s@ == listed(texts(list@)),
{
    let ghost all = texts(list@);
    let mut s = String::new();
    let mut i: usize = 0;
    while i < list.len()
        invariant
            all == texts(list@),
            i <= list@.len(),
            s@ =~= listed(all.take(i as int)),
        decreases list@.len() - i,
    {
        assert(all.take(i + 1).drop_last() =~= all.take(i as int));
        assert(all.take(i + 1).last() == list@[i as int]@);
        if i > 0 {
            s.append(",");
        }
        s.append(list[i].as_str());
        i += 1;
    }
    assert(all.take(i as int) =~= all);
    s
}

/// The filters that a scan would apply. Active exclusions are shown too, since they
/// silently shrink the results.
pub open spec fn filter_spans(options: ScanOptions) -> Seq<Seq<SpanView>> {
    let toggles = seq![
        toggle("hidden"@, !options.skip_hidden),
        toggle("gitignore"@, options.respect_gitignore),
        toggle("empty"@, !options.skip_empty),
        toggle("hardlinks"@, options.collapse_hardlinks),
        toggle("cache"@, options.use_cache),
    ];
    if options.exclude_exts@.len() == 0 {
        toggles
    } else {
        toggles.push(stat("excluding"@, listed(texts(options.exclude_exts@))))
    }
}

/// The filters that a scan would apply.
pub fn filter_line(options: &ScanOptions) -> (line: Line)
    ensures
        line@ == joined_spans(filter_spans(*options)),
{
    let mut groups = vec![
        toggle_spans("hidden", !options.skip_hidden),
        toggle_spans("gitignore", options.respect_gitignore),
        toggle_spans("empty", !options.skip_empty),
        toggle_spans("hardlinks", options.collapse_hardlinks),
        toggle_spans("cache", options.use_cache),
    ];
    if options.exclude_exts.len() > 0 {
        groups.push(stat_spans("excluding", listed_text(&options.exclude_exts)));
    }
    assert(groups_in(groups@) =~= filter_spans(*options));
    stat_line(groups)
}

/// Header: where we are, and what the scan would apply.
pub fn header_lines(app: &App, width: u16) -> (lines: Vec<Line>)
    ensures
        lines_in(lines@) == seq![
            seq![dim("in "@), bold(tail_of(displayed(app.cwd@), inside(width, 7)), Tone::Accent)],
            joined_spans(filter_spans(app.options)),
        ],
{
    let path = truncate_path(app.cwd.display().as_str(), inner(width, 7));
    let first = Line { spans: vec![dim_span("in "), bold_span(path, Tone::Accent)] };
    let lines = vec![first, filter_line(&app.options)];
    proof {
        let shown = seq![
            dim("in "@),
            bold(tail_of(displayed(app.cwd@), inside(width, 7)), Tone::Accent),
        ];
        assert(lines@[0]@ =~= shown);
        assert(lines_in(lines@) =~= seq![shown, joined_spans(filter_spans(app.options))]);
    }
    lines
}

/// A number less another one, or 0.
pub open spec fn less(a: int, b: int) -> int {
    if a < b {
        0
    } else {
        a - b
    }
}

/// The size of a file, or a dash.
pub open spec fn file_size(size: Option<u64>) -> Seq<char> {
    match size {
        Some(n) => size_text(n),
        None => "—"@,
    }
}

/// One browser row.
///
/// The row of the current directory is the primary action, so it is the brightest and
/// states the path in full. Directories are the actionable rows and keep full
/// contrast; a drive is labelled, since it is a jump to another disk; files are listed
/// for context only, so they are dimmed and carry their size on the right.
pub open spec fn row_spans(row: DirEntryRow, width: int) -> Seq<SpanView> {
    match row.kind {
        RowKind::Current => seq![
            toned("[ scan all of "@, Tone::Keep),
            bold(tail_of(row.name@, less(width, 16)), Tone::Keep),
            toned(" ]"@, Tone::Keep),
        ],
        RowKind::Parent => seq![dim("^ "@), dim(".. (parent of the current directory)"@)],
        RowKind::Drive => seq![
            toned("> "@, Tone::Accent),
            bold(head_of(row.name@, less(width, 10)), Tone::Accent),
            dim(" (drive)"@),
        ],
        RowKind::Directory => seq![
            toned("▸ "@, Tone::Accent),
            bold(head_of(row.name@, less(width, 2)), Tone::Plain),
        ],
        RowKind::File => {
            let size = file_size(row.size);
            // 2 for the indent, 1 for at least one space before the size.
            let name = head_of(row.name@, less(width, (size.len() + 3) as int));
            let pad = less(width, (2 + name.len() + size.len()) as int);
            seq![
                plain("  "@),
                dim(name),
                plain(
                    run_of(
                        ' ',
                        if pad < 1 {
                            1
                        } else {
                            pad
                        },
                    ),
                ),
                dim(size),
            ]
        },
    }
}

fn less_of(a: usize, b: u128) -> (n: usize)
    ensures
        n == less(a as int, b as int),
{
    if (a as u128) < b {
        0
    } else {
        a - b as usize
    }
}

/// One browser row.
pub fn row_line(row: &DirEntryRow, width: usize) -> (line: Line)
    ensures
        line@ == row_spans(*row, width as int),
{
    let line = match row.kind {
        RowKind::Current => Line {
            spans: vec![
                toned_span(text_from("[ scan all of "), Tone::Keep),
                bold_span(truncate_path(row.name.as_str(), less_of(width, 16)), Tone::Keep),
                toned_span(text_from(" ]"), Tone::Keep),
            ],
        },
        RowKind::Parent => Line {
            spans: vec![dim_span("^ "), dim_span(".. (parent of the current directory)")],
        },
        RowKind::Drive => Line {
            spans: vec![
                toned_span(text_from("> "), Tone::Accent),
                bold_span(truncate(row.name.as_str(), less_of(width, 10)), Tone::Accent),
                dim_span(" (drive)"),
            ],
        },
        RowKind::Directory => Line {
            spans: vec![
                toned_span(text_from("▸ "), Tone::Accent),
                bold_span(truncate(row.name.as_str(), less_of(width, 2)), Tone::Plain),
            ],
        },
        RowKind::File => {
            let size = match row.size {
                Some(n) => bytes(n),
                None => text_from("—"),
            };
            let size_len: usize = char_count(size.as_str());
            let name = truncate(row.name.as_str(), less_of(width, size_len as u128 + 3));
            let name_len: usize = char_count(name.as_str());
            let pad: usize = less_of(width, 2 + name_len as u128 + size_len as u128);
            let gap = run_text(
                ' ',
                if pad < 1 {
                    1
                } else {
                    pad
                },
            );
            Line {
                spans: vec![
                    plain_span("  "),
                    toned_span(name, Tone::Dim),
                    toned_span(gap, Tone::Plain),
                    toned_span(size, Tone::Dim),
                ],
            }
        },
    };
    assert(line@ =~= row_spans(*row, width as int));
    line
}

/// How many rows are of a kind.
pub open spec fn rows_of_kind(rows: Seq<DirEntryRow>, kind: RowKind) -> nat
    decreases rows.len(),
{
    if rows.len() == 0 {
        0
    } else {
        rows_of_kind(rows.drop_last(), kind) + if rows.last().kind == kind {
            1nat
        } else {
            0nat
        }
    }
}

fn count_rows(rows: &Vec<DirEntryRow>, kind: RowKind) -> (n: usize)
    ensures
        n == rows_of_kind(rows@, kind),
{
    let mut n: usize = 0;
    let mut i: usize = 0;
    while i < rows.len()
        invariant
            i <= rows@.len(),
            n <= i,
            n == rows_of_kind(rows@.take(i as int), kind),
        decreases rows@.len() - i,
    {
        assert(rows@.take(i + 1).drop_last() =~= rows@.take(i as int));
        if rows[i].kind == kind {
            n += 1;
        }
        i += 1;
    }
    assert(rows@.take(i as int) =~= rows@);
    n
}

/// `4 directories · 11 files`, counting only the contents, not the parent, drive or
/// current-directory rows, which are navigation rather than content.
pub open spec fn title_of(rows: Seq<DirEntryRow>) -> Seq<char> {
    let dirs = decimal(rows_of_kind(rows, RowKind::Directory));
    let files = decimal(rows_of_kind(rows, RowKind::File));
    let drives = rows_of_kind(rows, RowKind::Drive);
    (if drives > 0 {
        " "@ + decimal(drives) + " drives · "@
    } else {
        " "@
    }) + dirs + " directories · "@ + files + " files "@
}

/// How many directories and files are listed.
pub fn contents_title(app: &App) -> (s: String)
    ensures
        s@ == title_of(app.entries@),
{
    let dirs: usize = count_rows(&app.entries, RowKind::Directory);
    let files: usize = count_rows(&app.entries, RowKind::File);
    let drives: usize = count_rows(&app.entries, RowKind::Drive);
    let mut s = text_from(" ");
    if drives > 0 {
        s.append(decimal_of(drives).as_str());
        s.append(" drives · ");
    }
    s.append(decimal_of(dirs).as_str());
    s.append(" directories · ");
    s.append(decimal_of(files).as_str());
    s.append(" files ");
    s
}

/// Body: the contents of the current directory, or why there are none to show.
pub open spec fn body_spans(app: App, width: int) -> Seq<Seq<SpanView>> {
    match app.picker_error {
        Some(err) => seq![
            seq![toned("cannot read this directory: "@ + err@, Tone::Delete)],
        ],
        None => if app.entries@.len() == 0 {
            seq![seq![dim("this directory is empty — press s to scan it"@)]]
        } else {
            app.entries@.map_values(|r: DirEntryRow| row_spans(r, width))
        },
    }
}

/// Body: the contents of the current directory, or why there are none to show.
pub fn body_lines(app: &App, width: u16) -> (lines: Vec<Line>)
    ensures
        lines_in(lines@) == body_spans(*app, inside(width, 2)),
{
    let inner_width: usize = inner(width, 2);
    match &app.picker_error {
        Some(err) => {
            let mut text = text_from("cannot read this directory: ");
            text.append(err.as_str());
            let lines = vec![line_of_one(toned_span(text, Tone::Delete))];
            assert(lines_in(lines@) =~= body_spans(*app, inside(width, 2)));
            return lines;
        },
        None => {},
    }
    if app.entries.len() == 0 {
        let lines = vec![line_of_one(dim_span("this directory is empty — press s to scan it"))];
        assert(lines_in(lines@) =~= body_spans(*app, inside(width, 2)));
        return lines;
    }
    let mut lines: Vec<Line> = Vec::new();
    while lines.len() < app.entries.len()
        invariant
            lines@.len() <= app.entries@.len(),
            forall|i: int|
                0 <= i < lines@.len() ==> (#[trigger] lines@[i])@ == row_spans(
                    app.entries@[i],
                    inner_width as int,
                ),
        decreases app.entries@.len() - lines@.len(),
    {
        let line = row_line(&app.entries[lines.len()], inner_width);
        lines.push(line);
    }
    assert(lines_in(lines@) =~= body_spans(*app, inside(width, 2)));
    lines
}

} // verus!
