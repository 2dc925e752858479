//! Live progress: the scan screen and the deletion screen.

use super::results::{root_of, root_text};
use super::{
    bold, bold_span, dim, dim_span, groups_in, inner, inside, joined_spans, line_of_one, lines_in,
    spans_in, stat, stat_line, stat_spans, toned, toned_span, Line, SpanView, Tone,
};
use crate::app::App;
use crate::delete::DeleteState;
use crate::format::{
    bytes, count, duration, grouped, head_of, size_text, span_text, tail_of, throughput, truncate,
    truncate_path,
};
use crate::model::{Phase, ScanError, ScanState};
use crate::text::{decimal, decimal_of, text_from};
use crate::time::Duration;
use vstd::prelude::*;

verus! {

/// The stage and the tree that is scanned.
pub fn scanning_header(app: &App) -> (line: Line)
    ensures
        line@ == seq![
            bold(app.phase.words(), Tone::Accent),
            dim("  "@ + root_text(app.scan_root) + "  "@),
        ],
{
    let mut root = text_from("  ");
    root.append(root_of(&app.scan_root).as_str());
    root.append("  ");
    let line = Line {
        spans: vec![
            bold_span(text_from(app.phase.label()), Tone::Accent),
            toned_span(root, Tone::Dim),
        ],
    };
    assert(line@ =~= seq![
        bold(app.phase.words(), Tone::Accent),
        dim("  "@ + root_text(app.scan_root) + "  "@),
    ]);
    line
}

/// How far the scan is. Finalizing has its own numbers: by then every candidate has been
/// hashed, so the numbers of the hashing would stand still while every file in every
/// group is opened.
pub open spec fn progress_of(app: App) -> (u64, u64) {
    if app.phase == Phase::Finalizing {
        (app.scan_state.files_checked, app.scan_state.files_to_check)
    } else {
        (app.scan_state.files_hashed, app.scan_state.candidates)
    }
}

/// How far the scan is.
pub fn progress(app: &App) -> (r: (u64, u64))
    ensures
        r == progress_of(*app),
{
    if app.phase == Phase::Finalizing {
        app.finalize_progress()
    } else {
        app.hash_progress()
    }
}

/// How far the scan is, in words. During the walk the denominator cannot be known.
pub open spec fn progress_words(app: App) -> Seq<char> {
    let (done, total) = progress_of(app);
    if total > 0 {
        grouped(done as nat) + " / "@ + grouped(total as nat) + " "@ + if app.phase
            == Phase::Finalizing {
            "files identified"@
        } else {
            "candidates hashed"@
        }
    } else {
        "discovering files…"@
    }
}

/// How far the scan is, in words.
pub fn progress_label(app: &App) -> (s: String)
    ensures
        s@ == progress_words(*app),
{
    let (done, total): (u64, u64) = progress(app);
    if total == 0 {
        return text_from("discovering files…");
    }
    let mut s = count(done);
    s.append(" / ");
    s.append(count(total).as_str());
    s.append(" ");
    if app.phase == Phase::Finalizing {
        s.append("files identified");
    } else {
        s.append("candidates hashed");
    }
    s
}

/// What was read per second of reading; the walk, which can easily outlast the reading,
/// does not count. `rate` is the bytes per second that were read.
pub open spec fn rate_words(state: ScanState, reading: Option<Duration>, rate: u64) -> Seq<char> {
    if reading is None || reading->0.total_nanos() == 0 || state.bytes_hashed == 0 {
        "—"@
    } else {
        size_text(rate) + "/s"@
    }
}

fn rate_text(state: &ScanState, reading: Option<Duration>, rate: u64) -> (s: String)
    ensures
        s@ == rate_words(*state, reading, rate),
{
    match reading {
        Some(d) => throughput(state.bytes_hashed, d, rate),
        None => text_from("—"),
    }
}

/// The statistics of a running scan.
pub open spec fn scan_stats(
    state: ScanState,
    elapsed: Duration,
    reading: Option<Duration>,
    rate: u64,
) -> Seq<Seq<SpanView>> {
    let errors = seq![
        dim("errors "@),
        bold(
            grouped(state.errors as nat),
            if state.errors > 0 {
                Tone::Warn
            } else {
                Tone::Keep
            },
        ),
    ];
    seq![
        joined_spans(
            seq![
                stat("files"@, grouped(state.files_seen as nat)),
                stat("dirs"@, grouped(state.dirs_seen as nat)),
                stat("skipped"@, grouped(state.files_skipped as nat)),
            ],
        ),
        joined_spans(
            seq![
                stat("size"@, size_text(state.bytes_seen)),
                stat("candidates"@, grouped(state.candidates as nat)),
                stat("cache hits"@, grouped(state.cache_hits as nat)),
            ],
        ),
        joined_spans(
            seq![
                stat("hashed"@, size_text(state.bytes_hashed)),
                stat("read rate"@, rate_words(state, reading, rate)),
            ],
        ),
        joined_spans(seq![stat("elapsed"@, span_text(elapsed)), errors]),
    ]
}

/// The statistics of a running scan. `reading` is the time spent reading files, and
/// `rate` the bytes per second that were read in it.
pub fn scan_stat_lines(
    state: &ScanState,
    elapsed: Duration,
    reading: Option<Duration>,
    rate: u64,
) -> (lines: Vec<Line>)
    ensures
        lines_in(lines@) == scan_stats(*state, elapsed, reading, rate),
{
    let ghost want = scan_stats(*state, elapsed, reading, rate);
    let first = vec![
        stat_spans("files", count(ScanState::get(&state.files_seen))),
        stat_spans("dirs", count(ScanState::get(&state.dirs_seen))),
        stat_spans("skipped", count(ScanState::get(&state.files_skipped))),
    ];
    assert(groups_in(first@) =~= seq![
        stat("files"@, grouped(state.files_seen as nat)),
        stat("dirs"@, grouped(state.dirs_seen as nat)),
        stat("skipped"@, grouped(state.files_skipped as nat)),
    ]);
    let second = vec![
        stat_spans("size", bytes(ScanState::get(&state.bytes_seen))),
        stat_spans("candidates", count(ScanState::get(&state.candidates))),
        stat_spans("cache hits", count(ScanState::get(&state.cache_hits))),
    ];
    assert(groups_in(second@) =~= seq![
        stat("size"@, size_text(state.bytes_seen)),
        stat("candidates"@, grouped(state.candidates as nat)),
        stat("cache hits"@, grouped(state.cache_hits as nat)),
    ]);
    let third = vec![
        stat_spans("hashed", bytes(ScanState::get(&state.bytes_hashed))),
        stat_spans("read rate", rate_text(state, reading, rate)),
    ];
    assert(groups_in(third@) =~= seq![
        stat("hashed"@, size_text(state.bytes_hashed)),
        stat("read rate"@, rate_words(*state, reading, rate)),
    ]);
    let tone = if state.errors > 0 {
        Tone::Warn
    } else {
        Tone::Keep
    };
    let errors = vec![dim_span("errors "), bold_span(count(state.errors), tone)];
    assert(spans_in(errors@) =~= seq![
        dim("errors "@),
        bold(grouped(state.errors as nat), tone),
    ]);
    let fourth = vec![stat_spans("elapsed", duration(elapsed)), errors];
    assert(groups_in(fourth@) =~= seq![
        stat("elapsed"@, span_text(elapsed)),
        seq![dim("errors "@), bold(grouped(state.errors as nat), tone)],
    ]);
    let lines = vec![stat_line(first), stat_line(second), stat_line(third), stat_line(fourth)];
    assert(lines_in(lines@) =~= want);
    lines
}

/// The path being worked on, as far as it fits.
pub fn current_line(current: &str, width: u16) -> (line: Line)
    ensures
        line@ == seq![dim(tail_of(current@, inside(width, 4)))],
{
    line_of_one(toned_span(truncate_path(current, inner(width, 4)), Tone::Dim))
}

/// The most recent problems that fit, newest last so that the tail stays visible.
pub open spec fn error_spans(errors: Seq<ScanError>, width: int, capacity: int) -> Seq<
    Seq<SpanView>,
> {
    let start = super::picker::less(errors.len() as int, capacity);
    errors.skip(start).map_values(
        |e: ScanError| seq![toned(head_of(e.line(), width), Tone::Warn)],
    )
}

/// The most recent problems that fit.
pub fn error_lines(errors: &Vec<ScanError>, width: u16, height: u16) -> (lines: Vec<Line>)
    ensures
        lines_in(lines@) == error_spans(errors@, inside(width, 4), inside(height, 2)),
{
    let capacity: usize = inner(height, 2);
    let room: usize = inner(width, 4);
    let start: usize = if errors.len() < capacity {
        0
    } else {
        errors.len() - capacity
    };
    let mut lines: Vec<Line> = Vec::new();
    let mut i: usize = start;
    while i < errors.len()
        invariant
            start <= i <= errors@.len(),
            lines@.len() == i - start,
            forall|j: int|
                0 <= j < lines@.len() ==> (#[trigger] lines@[j])@ == seq![
                    toned(head_of(errors@[start + j].line(), room as int), Tone::Warn),
                ],
        decreases errors@.len() - i,
    {
        let text = truncate(errors[i].display().as_str(), room);
        lines.push(line_of_one(toned_span(text, Tone::Warn)));
        i += 1;
    }
    assert(lines_in(lines@) =~= error_spans(errors@, inside(width, 4), inside(height, 2)));
    lines
}

/// The title above the problems.
pub open spec fn error_heading(n: nat) -> Seq<char> {
    if n == 0 {
        " skipped / unreadable "@
    } else {
        " skipped / unreadable ("@ + decimal(n) + ") "@
    }
}

/// The title above the problems.
pub fn error_title(app: &App) -> (s: String)
    ensures
        s@ == error_heading(app.errors@.len()),
{
    if app.errors.len() == 0 {
        return text_from(" skipped / unreadable ");
    }
    let mut s = text_from(" skipped / unreadable (");
    s.append(decimal_of(app.errors.len()).as_str());
    s.append(") ");
    s
}

/// What is being done to files.
pub fn deleting_header(app: &App) -> (line: Line)
    ensures
        line@ == seq![bold("Deleting — "@ + app.delete_mode.word(), Tone::Delete)],
{
    let mut text = text_from("Deleting — ");
    text.append(app.delete_mode.label());
    line_of_one(bold_span(text, Tone::Delete))
}

/// How far the deletion is.
pub fn deleting_label(state: &DeleteState) -> (s: String)
    ensures
        s@ == grouped(state.done as nat) + " / "@ + grouped(state.total as nat),
{
    let mut s = count(state.done);
    s.append(" / ");
    s.append(count(state.total).as_str());
    s
}

/// The statistics of a running deletion.
pub open spec fn deleting_stats(app: App) -> Seq<Seq<SpanView>> {
    let state = app.delete_state;
    seq![
        joined_spans(
            seq![
                stat(
                    "removed"@,
                    grouped(
                        (if state.done < state.failed {
                            0
                        } else {
                            state.done - state.failed
                        }) as nat,
                    ),
                ),
                stat("freed"@, size_text(state.bytes_freed)),
                stat("failed"@, grouped(state.failed as nat)),
            ],
        ),
        seq![dim("mode: "@ + app.delete_mode.word())],
    ]
}

/// The statistics of a running deletion.
pub fn deleting_lines(app: &App) -> (lines: Vec<Line>)
    ensures
        lines_in(lines@) == deleting_stats(*app),
{
    let state = &app.delete_state;
    let removed: u64 = if state.done < state.failed {
        0
    } else {
        state.done - state.failed
    };
    let groups = vec![
        stat_spans("removed", count(removed)),
        stat_spans("freed", bytes(state.bytes_freed)),
        stat_spans("failed", count(state.failed)),
    ];
    assert(groups_in(groups@) =~= seq![
        stat("removed"@, grouped(removed as nat)),
        stat("freed"@, size_text(state.bytes_freed)),
        stat("failed"@, grouped(state.failed as nat)),
    ]);
    let mut mode = text_from("mode: ");
    mode.append(app.delete_mode.label());
    let lines = vec![stat_line(groups), line_of_one(toned_span(mode, Tone::Dim))];
    assert(lines_in(lines@) =~= deleting_stats(*app));
    lines
}

} // verus!
