//! The dashboard: duplicate groups on the left, every path in the selected group on the
//! right with its keep/delete mark.

use super::picker::less;
use super::{
    bold, bold_span, box_height, boxed_height, dim, dim_span, groups_in, inner, inside, joined_spans, line_of_one, lines_in,
    pack_stats, packed_lines, pair_costs, pairs_in, plain, plain_span, stat, stat_line, stat_spans,
    stats_of, toned, toned_span, Line, Span, SpanView, Style, Tone,
};
use crate::app::results::surplus_in;
use crate::app::{App, Pane};
use crate::delete::{target_bytes, DeleteMode};
use crate::format::{
    bytes, count, duration, grouped, head_of, path_in, relative_to, shown_below, size_text,
    span_text, tail_of, timestamp, truncate, truncate_path, when_text,
};
use crate::model::{DupeGroup, FileEntry};
use crate::path::FilePath;
use crate::text::{
    char_count, decimal, decimal_of, displayed, hex, pad_left, pad_right, padded_left, padded_right,
    text_from,
};
use crate::time::Duration;
use std::ops::Range;
use vstd::prelude::*;

verus! {

/// The small slice of a large list that can actually be shown. `offset` is kept across
/// frames so that the list scrolls only when the cursor reaches the padding.
pub open spec fn window(
    len: int,
    selected: int,
    offset: int,
    viewport: int,
    requested_padding: int,
) -> (int, int) {
    if len == 0 || viewport == 0 {
        (0, 0)
    } else {
        let sel = if selected < len {
            selected
        } else {
            len - 1
        };
        let max_start = less(len, viewport);
        let kept = if offset < max_start {
            offset
        } else {
            max_start
        };
        let padding = if requested_padding < (viewport - 1) / 2 {
            requested_padding
        } else {
            (viewport - 1) / 2
        };
        let moved = if sel < kept + padding {
            less(sel, padding)
        } else if sel > kept + viewport - (padding + 1) {
            less(sel + padding + 1, viewport)
        } else {
            kept
        };
        let start = if moved < max_start {
            moved
        } else {
            max_start
        };
        (
            start,
            if start + viewport < len {
                start + viewport
            } else {
                len
            },
        )
    }
}

/// The small slice of a large list that can actually be shown.
pub fn visible_window(
    len: usize,
    selected: usize,
    offset: usize,
    viewport: usize,
    requested_padding: usize,
) -> (r: Range<usize>)
    ensures
        (r.start as int, r.end as int) == window(
            len as int,
            selected as int,
            offset as int,
            viewport as int,
            requested_padding as int,
        ),
{
    if len == 0 || viewport == 0 {
        return 0..0;
    }
    let sel: usize = if selected < len {
        selected
    } else {
        len - 1
    };
    let max_start: usize = if len < viewport {
        0
    } else {
        len - viewport
    };
    let kept: usize = if offset < max_start {
        offset
    } else {
        max_start
    };
    let half: usize = (viewport - 1) / 2;
    let padding: usize = if requested_padding < half {
        requested_padding
    } else {
        half
    };
    let moved: usize = if (sel as u128) < kept as u128 + padding as u128 {
        if sel < padding {
            0
        } else {
            sel - padding
        }
    } else if sel as u128 + padding as u128 + 1 > kept as u128 + viewport as u128 {
        (sel as u128 + padding as u128 + 1 - viewport as u128) as usize
    } else {
        kept
    };
    let start: usize = if moved < max_start {
        moved
    } else {
        max_start
    };
    let end: usize = if viewport < len - start {
        start + viewport
    } else {
        len
    };
    start..end
}

/// The slice lies in the list, is one viewport or the whole list long, and shows the
/// cursor.
pub proof fn the_window_shows_the_cursor(
    len: int,
    selected: int,
    offset: int,
    viewport: int,
    padding: int,
)
    requires
        0 < len,
        0 <= selected < len,
        0 <= offset,
        0 < viewport,
        0 <= padding,
    ensures
        ({
            let w = window(len, selected, offset, viewport, padding);
            &&& 0 <= w.0 <= selected < w.1 <= len
            &&& w.1 - w.0 == if viewport < len {
                viewport
            } else {
                len
            }
        }),
{
}

/// The slice stays where it is while the cursor is inside the padding.
pub proof fn the_window_moves_only_at_the_padding(
    len: int,
    selected: int,
    offset: int,
    viewport: int,
    padding: int,
)
    requires
        0 <= padding <= (viewport - 1) / 2,
        0 < viewport <= len,
        0 <= offset <= len - viewport,
        offset + padding <= selected < offset + viewport - padding,
    ensures
        window(len, selected, offset, viewport, padding) == (offset, offset + viewport),
{
}

/// The tone of a delete mode.
pub open spec fn mode_tone(mode: DeleteMode) -> Tone {
    match mode {
        DeleteMode::Trash => Tone::Keep,
        DeleteMode::Permanent => Tone::Delete,
    }
}

/// What the scan came to.
pub open spec fn summary_spans(app: App, elapsed: Duration) -> Seq<SpanView> {
    joined_spans(
        seq![
            stat("scanned"@, grouped(app.scan_state.files_seen as nat)),
            stat("size"@, size_text(app.scan_state.bytes_seen)),
            stat("groups"@, grouped(app.groups@.len())),
            stat("duplicates"@, grouped(surplus_in(app.groups@) as nat)),
            stat("took"@, span_text(elapsed)),
        ],
    )
}

/// What pressing `D` would do: how many files, how many bytes, how, and where. The
/// figures are scoped as the deletion is, so the number one reads is the number that
/// will be acted on.
pub open spec fn plan_spans(app: App) -> Seq<SpanView> {
    let marked = app.marks().len();
    seq![
        dim("marked "@),
        bold(
            grouped(marked),
            if marked > 0 {
                Tone::Delete
            } else {
                Tone::Dim
            },
        ),
        dim(" · reclaims "@),
        bold(
            size_text(target_bytes(app.marks()) as u64),
            if marked > 0 {
                Tone::Keep
            } else {
                Tone::Dim
            },
        ),
        dim(" · mode "@),
        bold(app.delete_mode.word(), mode_tone(app.delete_mode)),
        dim(" · sort "@ + app.sort.word()),
        dim(" · scope "@),
        if app.selected@.len() > 0 {
            bold(decimal(app.selected@.len()) + " selected"@, Tone::Keep)
        } else {
            dim("all "@ + decimal(app.groups@.len()) + " groups"@)
        },
    ]
}

fn summary_line(app: &App, elapsed: Duration) -> (line: Line)
    requires
        app.wf(),
    ensures
        line@ == summary_spans(*app, elapsed),
{
    let groups = vec![
        stat_spans("scanned", count(app.scanned_files())),
        stat_spans("size", bytes(app.scanned_bytes())),
        stat_spans("groups", count(app.groups.len() as u64)),
        stat_spans("duplicates", count(app.total_duplicates() as u64)),
        stat_spans("took", duration(elapsed)),
    ];
    assert(groups_in(groups@) =~= seq![
        stat("scanned"@, grouped(app.scan_state.files_seen as nat)),
        stat("size"@, size_text(app.scan_state.bytes_seen)),
        stat("groups"@, grouped(app.groups@.len())),
        stat("duplicates"@, grouped(surplus_in(app.groups@) as nat)),
        stat("took"@, span_text(elapsed)),
    ]);
    stat_line(groups)
}

fn plan_line(app: &App) -> (line: Line)
    requires
        app.wf(),
    ensures
        line@ == plan_spans(*app),
{
    let (marked, reclaimable): (usize, u64) = app.marked_summary();
    let mut sort = text_from(" · sort ");
    sort.append(app.sort.label());
    let scope = if app.selected_count() > 0 {
        let mut text = decimal_of(app.selected_count());
        text.append(" selected");
        bold_span(text, Tone::Keep)
    } else {
        let mut text = text_from("all ");
        text.append(decimal_of(app.groups.len()).as_str());
        text.append(" groups");
        toned_span(text, Tone::Dim)
    };
    let mode_tone = match app.delete_mode {
        DeleteMode::Trash => Tone::Keep,
        DeleteMode::Permanent => Tone::Delete,
    };
    let line = Line {
        spans: vec![
            dim_span("marked "),
            bold_span(
                count(marked as u64),
                if marked > 0 {
                    Tone::Delete
                } else {
                    Tone::Dim
                },
            ),
            dim_span(" · reclaims "),
            bold_span(
                bytes(reclaimable),
                if marked > 0 {
                    Tone::Keep
                } else {
                    Tone::Dim
                },
            ),
            dim_span(" · mode "),
            bold_span(text_from(app.delete_mode.label()), mode_tone),
            toned_span(sort, Tone::Dim),
            dim_span(" · scope "),
            scope,
        ],
    };
    assert(line@ =~= plan_spans(*app));
    line
}

/// The two lines of the header.
pub fn header_lines(app: &App, elapsed: Duration) -> (lines: Vec<Line>)
    requires
        app.wf(),
    ensures
        lines_in(lines@) == seq![summary_spans(*app, elapsed), plan_spans(*app)],
{
    let lines = vec![summary_line(app, elapsed), plan_line(app)];
    assert(lines_in(lines@) =~= seq![summary_spans(*app, elapsed), plan_spans(*app)]);
    lines
}

/// The root of the scan as shown, or nothing.
pub open spec fn root_text(root: Option<FilePath>) -> Seq<char> {
    match root {
        Some(p) => displayed(p@),
        None => Seq::empty(),
    }
}

/// The root of the scan as shown, or nothing.
pub fn root_of(root: &Option<FilePath>) -> (s: String)
    ensures
        s@ == root_text(*root),
{
    match root {
        Some(p) => p.display(),
        None => String::new(),
    }
}

/// The title of the dashboard: the root, as far as it fits.
pub fn header_title_text(app: &App, width: u16) -> (s: String)
    ensures
        s@ == tail_of(root_text(app.scan_root), inside(width, 24)),
{
    truncate_path(root_of(&app.scan_root).as_str(), inner(width, 24))
}

/// One row of the groups pane: `118.0 MiB ×4   backup.tar.gz` behind a marker gutter.
pub open spec fn group_spans(group: DupeGroup, selected: bool, width: int) -> Seq<SpanView> {
    let marker = if selected {
        "✓ "@
    } else {
        "  "@
    };
    let size = padded_left(size_text(group.size), 10, ' ');
    let copies = " ×"@ + padded_right(decimal(group.files@.len()), 3, ' ');
    let used = marker.len() + size.len() + copies.len() + 1;
    let name = head_of(group.name(), less(width, used as int));
    seq![
        bold(marker, Tone::Keep),
        toned(size, Tone::Accent),
        dim(copies),
        plain(" "@),
        if group.skipped {
            SpanView {
                text: name,
                style: Style { tone: Tone::Dim, bold: false, crossed_out: true },
            }
        } else {
            plain(name)
        },
    ]
}

/// One row of the groups pane.
pub fn group_line(group: &DupeGroup, selected: bool, width: usize) -> (line: Line)
    ensures
        line@ == group_spans(*group, selected, width as int),
{
    let marker: &str = if selected {
        "✓ "
    } else {
        "  "
    };
    let size = pad_left(bytes(group.size).as_str(), 10, ' ');
    let mut copies = text_from(" ×");
    copies.append(pad_right(decimal_of(group.files.len()).as_str(), 3, ' ').as_str());
    let used: u128 = char_count(marker) as u128 + char_count(size.as_str()) as u128 + char_count(
        copies.as_str(),
    ) as u128 + 1;
    let room: usize = if (width as u128) < used {
        0
    } else {
        width - used as usize
    };
    let name = truncate(group.label().as_str(), room);
    let name_span = if group.skipped {
        Span { text: name, style: Style { tone: Tone::Dim, bold: false, crossed_out: true } }
    } else {
        toned_span(name, Tone::Plain)
    };
    let line = Line {
        spans: vec![
            bold_span(text_from(marker), Tone::Keep),
            toned_span(size, Tone::Accent),
            toned_span(copies, Tone::Dim),
            plain_span(" "),
            name_span,
        ],
    };
    assert(line@ =~= group_spans(*group, selected, width as int));
    line
}

/// The rows of the groups pane: those that fit it.
pub open spec fn groups_spans(app: App, from: int, to: int, width: int) -> Seq<Seq<SpanView>> {
    Seq::new(
        (to - from) as nat,
        |i: int|
            group_spans(
                app.groups@[from + i],
                app.selected@.contains(app.groups@[from + i].hash),
                width,
            ),
    )
}

/// The rows of the groups pane that fit `height`. The first of them is kept for the
/// next frame.
pub fn group_lines(app: &mut App, width: u16, height: u16) -> (lines: Vec<Line>)
    requires
        old(app).wf(),
    ensures
        final(app).wf(),
        ({
            let w = window(
                old(app).groups@.len() as int,
                old(app).group_selected as int,
                old(app).group_scroll as int,
                inside(height, 2),
                2,
            );
            &&& *final(app) == (App { group_scroll: w.0 as usize, ..*old(app) })
            &&& lines_in(lines@) == groups_spans(*old(app), w.0, w.1, inside(width, 4))
        }),
{
    let inner_width: usize = inner(width, 4);
    let viewport: usize = inner(height, 2);
    let range = visible_window(app.groups.len(), app.group_selected, app.group_scroll, viewport, 2);
    let ghost before = *app;
    app.group_scroll = range.start;
    let mut lines: Vec<Line> = Vec::new();
    let mut at: usize = range.start;
    while at < range.end
        invariant
            app.wf(),
            app.groups == before.groups,
            app.selected == before.selected,
            range.start <= at <= range.end <= app.groups@.len(),
            lines@.len() == at - range.start,
            forall|i: int|
                0 <= i < lines@.len() ==> (#[trigger] lines@[i])@ == group_spans(
                    before.groups@[range.start + i],
                    before.selected@.contains(before.groups@[range.start + i].hash),
                    inner_width as int,
                ),
        decreases range.end - at,
    {
        let line = group_line(&app.groups[at], app.is_selected(at), inner_width);
        lines.push(line);
        at += 1;
    }
    assert(lines_in(lines@) =~= groups_spans(
        before,
        range.start as int,
        range.end as int,
        inside(width, 4),
    ));
    lines
}

/// Which of the rows that are shown is the cursor.
pub fn group_cursor(app: &App) -> (row: Option<usize>)
    ensures
        row == if app.groups@.len() == 0 {
            None
        } else {
            Some(less(app.group_selected as int, app.group_scroll as int) as usize)
        },
{
    if app.groups.len() == 0 {
        None
    } else if app.group_selected < app.group_scroll {
        Some(0)
    } else {
        Some(app.group_selected - app.group_scroll)
    }
}

/// The title of the groups pane.
pub fn groups_title(app: &App) -> (s: String)
    ensures
        s@ == " groups ("@ + decimal(app.groups@.len()) + ") "@,
{
    let mut s = text_from(" groups (");
    s.append(decimal_of(app.groups.len()).as_str());
    s.append(") ");
    s
}

/// What is going to happen to a file.
pub open spec fn mark_of(group: DupeGroup, file: FileEntry) -> SpanView {
    if file.protected {
        bold("REF     "@, Tone::Accent)
    } else if group.skipped {
        bold("— SKIP  "@, Tone::Dim)
    } else if file.keep {
        bold("● KEEP  "@, Tone::Keep)
    } else {
        bold("✗ DELETE"@, Tone::Delete)
    }
}

/// One row of the files pane.
pub open spec fn file_spans(
    group: DupeGroup,
    file: FileEntry,
    root: Option<Seq<u8>>,
    width: int,
) -> Seq<SpanView> {
    seq![
        mark_of(group, file),
        plain(" "@),
        toned(
            tail_of(shown_below(file.path@, root), less(width, 9)),
            if file.keep || group.skipped {
                Tone::Plain
            } else {
                Tone::Dim
            },
        ),
    ]
}

/// One row of the files pane.
pub fn file_line(group: &DupeGroup, file: &FileEntry, root: Option<&FilePath>, width: usize) -> (line:
    Line)
    ensures
        line@ == file_spans(*group, *file, path_in(root), width as int),
{
    let mark = if file.protected {
        bold_span(text_from("REF     "), Tone::Accent)
    } else if group.skipped {
        bold_span(text_from("— SKIP  "), Tone::Dim)
    } else if file.keep {
        bold_span(text_from("● KEEP  "), Tone::Keep)
    } else {
        bold_span(text_from("✗ DELETE"), Tone::Delete)
    };
    let room: usize = if width < 9 {
        0
    } else {
        width - 9
    };
    let path = truncate_path(relative_to(&file.path, root).as_str(), room);
    let tone = if file.keep || group.skipped {
        Tone::Plain
    } else {
        Tone::Dim
    };
    let line = Line { spans: vec![mark, plain_span(" "), toned_span(path, tone)] };
    assert(line@ =~= file_spans(*group, *file, path_in(root), width as int));
    line
}

/// The root of the scan, for showing paths below it.
pub open spec fn shown_root(app: App) -> Option<Seq<u8>> {
    match app.scan_root {
        Some(p) => Some(p@),
        None => None,
    }
}

/// The rows of the files pane.
pub fn file_lines(app: &App, group: &DupeGroup, width: u16) -> (lines: Vec<Line>)
    ensures
        lines_in(lines@) == group.files@.map_values(
            |f: FileEntry| file_spans(*group, f, shown_root(*app), inside(width, 4)),
        ),
{
    let inner_width: usize = inner(width, 4);
    let mut lines: Vec<Line> = Vec::new();
    while lines.len() < group.files.len()
        invariant
            inner_width == inside(width, 4),
            lines@.len() <= group.files@.len(),
            forall|i: int|
                0 <= i < lines@.len() ==> (#[trigger] lines@[i])@ == file_spans(
                    *group,
                    group.files@[i],
                    shown_root(*app),
                    inside(width, 4),
                ),
        decreases group.files@.len() - lines@.len(),
    {
        let root: Option<&FilePath> = match &app.scan_root {
            Some(p) => Some(p),
            None => None,
        };
        let line = file_line(group, &group.files[lines.len()], root, inner_width);
        lines.push(line);
    }
    assert(lines_in(lines@) =~= group.files@.map_values(
        |f: FileEntry| file_spans(*group, f, shown_root(*app), inside(width, 4)),
    ));
    lines
}

/// The title of the files pane.
pub open spec fn files_title_text(app: App) -> Seq<char> {
    if app.group_selected < app.groups@.len() {
        " group "@ + decimal((app.group_selected + 1) as nat) + " of "@ + decimal(
            app.groups@.len(),
        ) + " — "@ + decimal(app.groups@[app.group_selected as int].files@.len()) + " copies "@
    } else {
        " files "@
    }
}

/// The title of the files pane.
pub fn files_title(app: &App) -> (s: String)
    ensures
        s@ == files_title_text(*app),
{
    if app.group_selected >= app.groups.len() {
        return text_from(" files ");
    }
    let mut s = text_from(" group ");
    s.append(decimal_of(app.group_selected + 1).as_str());
    s.append(" of ");
    s.append(decimal_of(app.groups.len()).as_str());
    s.append(" — ");
    s.append(decimal_of(app.groups[app.group_selected].files.len()).as_str());
    s.append(" copies ");
    s
}

/// What stands in the files pane where there is no group.
pub fn no_groups_line() -> (line: Line)
    ensures
        line@ == seq![dim("no duplicate files found"@)],
{
    line_of_one(dim_span("no duplicate files found"))
}

/// Statistics for a group and the file under the cursor. What the marks reclaim only
/// differs from what is wasted once the marks are customised, so the same number is not
/// repeated.
pub open spec fn detail_pairs(group: DupeGroup, file: int) -> Seq<(Seq<char>, Seq<char>)> {
    let first = seq![
        ("each"@, size_text(group.size)),
        ("wasted"@, size_text(group.wasted_bytes() as u64)),
    ];
    let second = if group.reclaimable_bytes() != group.wasted_bytes() {
        first.push(("reclaims"@, size_text(group.reclaimable_bytes() as u64)))
    } else {
        first
    };
    let third = if file < group.files@.len() && group.files@[file].protected {
        second.push(("reference"@, "protected"@))
    } else {
        second
    };
    third.push(
        (
            "modified"@,
            if file < group.files@.len() {
                when_text(group.files@[file].modified)
            } else {
                "—"@
            },
        ),
    ).push(("blake3"@, hex(group.hash@.take(6))))
}

fn push_pair(pairs: &mut Vec<(String, String)>, label: &str, value: String)
    ensures
        pairs_in(final(pairs)@) == pairs_in(old(pairs)@).push((label@, value@)),
{
    let ghost before = pairs_in(pairs@);
    pairs.push((text_from(label), value));
    assert(pairs_in(pairs@) =~= before.push((label@, value@)));
}

/// Statistics for a group, packed to the available width.
pub fn detail_lines(group: &DupeGroup, file: usize, width: usize) -> (lines: Vec<Line>)
    requires
        group.wf(),
    ensures
        lines_in(lines@) == packed_lines(
            stats_of(detail_pairs(*group, file as int)),
            pair_costs(detail_pairs(*group, file as int)),
            width as int,
        ),
{
    proof {
        crate::model::wasted_is_part(*group);
        crate::model::reclaimable_is_part(*group);
    }
    let mut pairs: Vec<(String, String)> = Vec::new();
    assert(pairs_in(pairs@) =~= Seq::empty());
    push_pair(&mut pairs, "each", bytes(group.size));
    push_pair(&mut pairs, "wasted", bytes(group.wasted()));
    assert(pairs_in(pairs@) =~= seq![
        ("each"@, size_text(group.size)),
        ("wasted"@, size_text(group.wasted_bytes() as u64)),
    ]);
    if group.reclaimable() != group.wasted() {
        push_pair(&mut pairs, "reclaims", bytes(group.reclaimable()));
    }
    if file < group.files.len() && group.files[file].protected {
        push_pair(&mut pairs, "reference", text_from("protected"));
    }
    if file < group.files.len() {
        push_pair(&mut pairs, "modified", timestamp(group.files[file].modified));
    } else {
        push_pair(&mut pairs, "modified", text_from("—"));
    }
    push_pair(&mut pairs, "blake3", group.hash_prefix());
    assert(pairs_in(pairs@) == detail_pairs(*group, file as int));
    pack_stats(pairs, width)
}

/// The detail box is sized to the statistics it must show, so nothing is clipped on a
/// narrow terminal.
pub fn detail_height(lines: usize) -> (h: u16)
    ensures
        h == boxed_height(lines as int),
{
    box_height(lines)
}

/// Only draw a scrollbar when the content actually overflows, so short lists are not
/// decorated with a full-height thumb that means nothing.
pub fn has_scrollbar(len: usize, height: u16) -> (b: bool)
    ensures
        b == (len > inside(height, 2)),
{
    len > inner(height, 2)
}

/// The border of a pane tells whether it has the focus.
pub fn pane_tone(app: &App, pane: Pane) -> (tone: Tone)
    ensures
        tone == if app.pane == pane {
            Tone::Accent
        } else {
            Tone::Dim
        },
{
    if app.pane == pane {
        Tone::Accent
    } else {
        Tone::Dim
    }
}

} // verus!
