//! What the screens show, as styled text. Each screen lives in its own module; this
//! one owns the palette, the shared chrome and the packing of lines. Putting the
//! text on a terminal is done outside.

pub mod footer;
pub mod laws;
pub mod modal;
pub mod picker;
pub mod results;
pub mod scanning;

use crate::text::{char_count, text_from};
use vstd::prelude::*;

verus! {

/// A small, deliberately restrained palette. Every tone is a named terminal colour,
/// so the user's theme is inherited instead of fought.
#[derive(Debug, Clone, Copy, PartialEq, Eq, Structural)]
pub enum Tone {
    /// The colour the terminal writes in.
    Plain,
    Accent,
    Keep,
    Delete,
    Dim,
    Warn,
}

/// How text looks.
#[derive(Debug, Clone, Copy, PartialEq, Eq, Structural)]
pub struct Style {
    pub tone: Tone,
    pub bold: bool,
    pub crossed_out: bool,
}

/// Text in one style.
#[derive(Debug)]
pub struct Span {
    pub text: String,
    pub style: Style,
}

/// One line of text.
#[derive(Debug)]
pub struct Line {
    pub spans: Vec<Span>,
}

/// What a span shows.
#[verifier::ext_equal]
pub struct SpanView {
    pub text: Seq<char>,
    pub style: Style,
}

impl View for Span {
    type V = SpanView;

    open spec fn view(&self) -> SpanView {
        SpanView { text: self.text@, style: self.style }
    }
}

/// What spans show.
pub open spec fn spans_in(spans: Seq<Span>) -> Seq<SpanView> {
    spans.map_values(|s: Span| s@)
}

impl View for Line {
    type V = Seq<SpanView>;

    open spec fn view(&self) -> Seq<SpanView> {
        spans_in(self.spans@)
    }
}

/// What lines show.
pub open spec fn lines_in(lines: Seq<Line>) -> Seq<Seq<SpanView>> {
    lines.map_values(|l: Line| l@)
}

/// Text in one tone.
pub open spec fn toned(text: Seq<char>, tone: Tone) -> SpanView {
    SpanView { text, style: Style { tone, bold: false, crossed_out: false } }
}

/// Bold text in one tone.
pub open spec fn bold(text: Seq<char>, tone: Tone) -> SpanView {
    SpanView { text, style: Style { tone, bold: true, crossed_out: false } }
}

/// Text without a style.
pub open spec fn plain(text: Seq<char>) -> SpanView {
    toned(text, Tone::Plain)
}

/// Dimmed text.
pub open spec fn dim(text: Seq<char>) -> SpanView {
    toned(text, Tone::Dim)
}

/// Text in one tone.
pub fn toned_span(text: String, tone: Tone) -> (s: Span)
    ensures
        s@ == toned(text@, tone),
{
    Span { text, style: Style { tone, bold: false, crossed_out: false } }
}

/// Bold text in one tone.
pub fn bold_span(text: String, tone: Tone) -> (s: Span)
    ensures
        s@ == bold(text@, tone),
{
    Span { text, style: Style { tone, bold: true, crossed_out: false } }
}

/// Text without a style.
pub fn plain_span(text: &str) -> (s: Span)
    ensures
        s@ == plain(text@),
{
    toned_span(text_from(text), Tone::Plain)
}

/// Dimmed text.
pub fn dim_span(text: &str) -> (s: Span)
    ensures
        s@ == dim(text@),
{
    toned_span(text_from(text), Tone::Dim)
}

/// The height of a box with a border around so many lines: room for one at least, and
/// for as many as a terminal can have.
pub open spec fn boxed_height(lines: int) -> int {
    if lines <= 1 {
        3
    } else if lines + 2 <= u16::MAX {
        lines + 2
    } else {
        u16::MAX as int
    }
}

/// The height of a box with a border around so many lines.
pub fn box_height(lines: usize) -> (h: u16)
    ensures
        h == boxed_height(lines as int),
{
    if lines <= 1 {
        3
    } else if lines <= 0xffff - 2 {
        lines as u16 + 2
    } else {
        u16::MAX
    }
}

/// Nothing on a line.
pub fn empty_line() -> (l: Line)
    ensures
        l@ == Seq::<SpanView>::empty(),
{
    let l = Line { spans: Vec::new() };
    assert(l@ =~= Seq::<SpanView>::empty());
    l
}

/// One span on a line.
pub fn line_of_one(a: Span) -> (l: Line)
    ensures
        l@ == seq![a@],
{
    let l = Line { spans: vec![a] };
    assert(l@ =~= seq![a@]);
    l
}

/// What stands between two statistics.
pub open spec fn separator() -> SpanView {
    dim(" · "@)
}

/// A labelled statistic, such as `files 12,481`.
pub open spec fn stat(label: Seq<char>, value: Seq<char>) -> Seq<SpanView> {
    seq![dim(label + " "@), bold(value, Tone::Plain)]
}

/// A labelled statistic, such as `files 12,481`.
pub fn stat_spans(label: &str, value: String) -> (out: Vec<Span>)
    ensures
        spans_in(out@) == stat(label@, value@),
{
    let mut text = text_from(label);
    text.append(" ");
    let out = vec![toned_span(text, Tone::Dim), bold_span(value, Tone::Plain)];
    assert(spans_in(out@) =~= stat(label@, value@));
    out
}

/// Several groups of spans with a separator between them.
pub open spec fn joined_spans(groups: Seq<Seq<SpanView>>) -> Seq<SpanView>
    decreases groups.len(),
{
    if groups.len() == 0 {
        Seq::empty()
    } else if groups.len() == 1 {
        groups[0]
    } else {
        joined_spans(groups.drop_last()).push(separator()) + groups.last()
    }
}

/// What groups of spans show.
pub open spec fn groups_in(groups: Seq<Vec<Span>>) -> Seq<Seq<SpanView>> {
    groups.map_values(|g: Vec<Span>| spans_in(g@))
}

fn separator_span() -> (s: Span)
    ensures
        s@ == separator(),
{
    dim_span(" · ")
}

/// Join statistics with a separator.
pub fn stat_line(groups: Vec<Vec<Span>>) -> (line: Line)
    ensures
        line@ == joined_spans(groups_in(groups@)),
{
    let ghost all = groups_in(groups@);
    let ghost given = groups@;
    let mut spans: Vec<Span> = Vec::new();
    let mut at: usize = 0;
    let n: usize = groups.len();
    for group in it: groups
        invariant
            it.seq() == given,
            at == it.index(),
            n == given.len(),
            all == groups_in(given),
            spans_in(spans@) =~= joined_spans(all.take(at as int)),
    {
        let mut group = group;
        let ghost g = spans_in(group@);
        proof {
            assert(all[at as int] == g);
            assert(all.take(at + 1).drop_last() =~= all.take(at as int));
            assert(all.take(at + 1).last() == g);
        }
        if at > 0 {
            let ghost before = spans_in(spans@);
            spans.push(separator_span());
            assert(spans_in(spans@) =~= before.push(separator()));
        }
        let ghost held = spans_in(spans@);
        spans.append(&mut group);
        assert(spans_in(spans@) =~= held + g);
        at += 1;
    }
    assert(all.take(at as int) =~= all);
    Line { spans }
}

/// What a row of several things takes up, with three columns between two of them.
pub open spec fn row_width(costs: Seq<int>, row: Seq<int>) -> int
    decreases row.len(),
{
    if row.len() == 0 {
        0
    } else if row.len() == 1 {
        costs[row[0]]
    } else {
        row_width(costs, row.drop_last()) + 3 + costs[row.last()]
    }
}

/// Things packed into rows one after another: each goes on the row before it where it
/// fits, and starts a new one where not.
pub open spec fn packed(costs: Seq<int>, width: int, n: int) -> Seq<Seq<int>>
    decreases n,
{
    if n <= 0 {
        Seq::empty()
    } else {
        let rows = packed(costs, width, n - 1);
        let k = n - 1;
        if rows.len() > 0 && row_width(costs, rows.last()) + 3 + costs[k] <= width {
            rows.update(rows.len() - 1, rows.last().push(k))
        } else {
            rows.push(seq![k])
        }
    }
}

/// All things of some rows, in order.
pub open spec fn unpacked(rows: Seq<Seq<int>>) -> Seq<int>
    decreases rows.len(),
{
    if rows.len() == 0 {
        Seq::empty()
    } else {
        unpacked(rows.drop_last()) + rows.last()
    }
}

/// There are no more rows than things.
pub proof fn packing_adds_no_row(costs: Seq<int>, width: int, n: int)
    requires
        0 <= n,
    ensures
        packed(costs, width, n).len() <= n,
    decreases n,
{
    if n > 0 {
        packing_adds_no_row(costs, width, n - 1);
    }
}

/// Packing clips nothing: every thing is on one of the rows, once and in order.
pub proof fn packing_clips_nothing(costs: Seq<int>, width: int, n: int)
    requires
        0 <= n,
    ensures
        unpacked(packed(costs, width, n)) == Seq::new(n as nat, |i: int| i),
    decreases n,
{
    if n > 0 {
        packing_clips_nothing(costs, width, n - 1);
        let before = packed(costs, width, n - 1);
        let after = packed(costs, width, n);
        let k = n - 1;
        if before.len() > 0 && row_width(costs, before.last()) + 3 + costs[k] <= width {
            assert(after.drop_last() =~= before.drop_last());
            assert(after.last() == before.last().push(k));
            assert(unpacked(after) =~= unpacked(before).push(k));
        } else {
            assert(after.drop_last() =~= before);
            assert(unpacked(after) =~= unpacked(before).push(k));
        }
        assert(unpacked(after) =~= Seq::new(n as nat, |i: int| i));
    } else {
        assert(unpacked(packed(costs, width, n)) =~= Seq::new(n as nat, |i: int| i));
    }
}

/// A row fits the width, unless a single thing is wider than that. No row is empty.
pub proof fn packed_rows_fit(costs: Seq<int>, width: int, n: int, r: int)
    requires
        0 <= n,
        0 <= r < packed(costs, width, n).len(),
    ensures
        packed(costs, width, n)[r].len() > 0,
        packed(costs, width, n)[r].len() > 1 ==> row_width(costs, packed(costs, width, n)[r])
            <= width,
    decreases n,
{
    let before = packed(costs, width, n - 1);
    let k = n - 1;
    if before.len() > 0 && row_width(costs, before.last()) + 3 + costs[k] <= width {
        if r < before.len() - 1 {
            packed_rows_fit(costs, width, n - 1, r);
        } else {
            packed_rows_fit(costs, width, n - 1, r);
            assert(before.last().push(k).drop_last() =~= before.last());
        }
    } else if r < before.len() {
        packed_rows_fit(costs, width, n - 1, r);
    }
}

/// The columns that a pair of words takes up with one column between them.
pub open spec fn pair_costs(pairs: Seq<(Seq<char>, Seq<char>)>) -> Seq<int> {
    pairs.map_values(|p: (Seq<char>, Seq<char>)| (p.0.len() + 1 + p.1.len()) as int)
}

/// A row of some things.
pub open spec fn row_spans(things: Seq<Seq<SpanView>>, row: Seq<int>) -> Seq<SpanView>
    decreases row.len(),
{
    if row.len() == 0 {
        Seq::empty()
    } else if row.len() == 1 {
        things[row[0]]
    } else {
        row_spans(things, row.drop_last()).push(separator()) + things[row.last()]
    }
}

/// Things packed into lines; nothing is one empty line.
pub open spec fn packed_lines(
    things: Seq<Seq<SpanView>>,
    costs: Seq<int>,
    width: int,
) -> Seq<Seq<SpanView>> {
    if width == 0 || things.len() == 0 {
        seq![Seq::empty()]
    } else {
        packed(costs, width, things.len() as int).map_values(
            |row: Seq<int>| row_spans(things, row),
        )
    }
}

/// Greedily pack things into lines that fit `width`. Done before the layout is chosen,
/// so that the height can be computed from it, and so that nothing is split across
/// lines.
pub fn pack(things: Vec<Vec<Span>>, costs: &Vec<u128>, width: usize) -> (lines: Vec<Line>)
    requires
        things@.len() == costs@.len(),
        forall|i: int|
            0 <= i < costs@.len() ==> #[trigger] costs@[i] < 0x1_0000_0000_0000_0000_0000,
    ensures
        lines_in(lines@) == packed_lines(
            groups_in(things@),
            costs@.map_values(|c: u128| c as int),
            width as int,
        ),
{
    let ghost all = groups_in(things@);
    let ghost given = things@;
    let ghost prices = costs@.map_values(|c: u128| c as int);
    if width == 0 || things.len() == 0 {
        let lines = vec![empty_line()];
        assert(lines_in(lines@) =~= seq![Seq::<SpanView>::empty()]);
        return lines;
    }
    let mut lines: Vec<Line> = Vec::new();
    let mut spans: Vec<Span> = Vec::new();
    let mut used: u128 = 0;
    let mut started: bool = false;
    let mut at: usize = 0;
    let n: usize = things.len();
    // The rows that are finished, and the row that is being filled.
    let ghost mut done: Seq<Seq<int>> = Seq::empty();
    let ghost mut row: Seq<int> = Seq::empty();
    for thing in it: things
        invariant
            it.seq() == given,
            at == it.index(),
            n == given.len(),
            n == costs@.len(),
            all == groups_in(given),
            prices == costs@.map_values(|c: u128| c as int),
            forall|i: int|
                0 <= i < costs@.len() ==> #[trigger] costs@[i] < 0x1_0000_0000_0000_0000_0000,
            started == (at > 0),
            started == (row.len() > 0),
            !started ==> done.len() == 0,
            packed(prices, width as int, at as int) == if started {
                done.push(row)
            } else {
                done
            },
            used == row_width(prices, row),
            used < 0x2_0000_0000_0000_0000_0000,
            spans_in(spans@) == row_spans(all, row),
            lines_in(lines@) == done.map_values(|r: Seq<int>| row_spans(all, r)),
    {
        let mut thing = thing;
        let ghost g = spans_in(thing@);
        assert(all[at as int] == g);
        let cost: u128 = costs[at];
        assert(prices[at as int] == cost);
        let ghost before = packed(prices, width as int, at as int);
        if started && used + 3 + cost > width as u128 {
            let mut full: Vec<Span> = Vec::new();
            core::mem::swap(&mut full, &mut spans);
            let ghost held = lines_in(lines@);
            let line = Line { spans: full };
            lines.push(line);
            proof {
                assert(before.last() == row);
                assert(lines_in(lines@) =~= held.push(row_spans(all, row)));
                done = done.push(row);
                row = Seq::empty();
                assert(lines_in(lines@) =~= done.map_values(|r: Seq<int>| row_spans(all, r)));
                assert(spans_in(spans@) =~= Seq::empty());
            }
            used = 0;
            started = false;
        }
        if started {
            let ghost held = spans_in(spans@);
            spans.push(separator_span());
            used += 3;
            assert(spans_in(spans@) =~= held.push(separator()));
        }
        let ghost held = spans_in(spans@);
        spans.append(&mut thing);
        used += cost;
        proof {
            assert(spans_in(spans@) =~= held + g);
            let longer = row.push(at as int);
            assert(longer.drop_last() =~= row);
            if started {
                assert(before == done.push(row));
                assert(before.last() == row);
                assert(packed(prices, width as int, at + 1) =~= done.push(longer));
            } else {
                assert(longer =~= seq![at as int]);
                assert(packed(prices, width as int, at + 1) =~= done.push(longer));
                assert(spans_in(spans@) =~= g);
            }
            row = longer;
        }
        started = true;
        at += 1;
    }
    let ghost held = lines_in(lines@);
    let line = Line { spans };
    lines.push(line);
    proof {
        assert(lines_in(lines@) =~= held.push(row_spans(all, row)));
        assert(packed(prices, width as int, n as int) == done.push(row));
        assert(lines_in(lines@) =~= packed(prices, width as int, n as int).map_values(
            |r: Seq<int>| row_spans(all, r),
        ));
    }
    lines
}

/// What statistics show.
pub open spec fn stats_of(pairs: Seq<(Seq<char>, Seq<char>)>) -> Seq<Seq<SpanView>> {
    pairs.map_values(|p: (Seq<char>, Seq<char>)| stat(p.0, p.1))
}

/// What pairs of words say.
pub open spec fn pairs_in(pairs: Seq<(String, String)>) -> Seq<(Seq<char>, Seq<char>)> {
    pairs.map_values(|p: (String, String)| (p.0@, p.1@))
}

/// The columns that a pair of words takes up.
pub fn pair_cost(a: &str, b: &str) -> (n: u128)
    ensures
        n == a@.len() + 1 + b@.len(),
        n < 0x1_0000_0000_0000_0000_0000,
{
    char_count(a) as u128 + 1 + char_count(b) as u128
}

/// Greedily pack `label value` statistics into lines that fit `width`, so a narrow
/// terminal reflows them instead of clipping the last one.
pub fn pack_stats(pairs: Vec<(String, String)>, width: usize) -> (lines: Vec<Line>)
    ensures
        lines_in(lines@) == packed_lines(
            stats_of(pairs_in(pairs@)),
            pair_costs(pairs_in(pairs@)),
            width as int,
        ),
{
    let ghost given = pairs@;
    let ghost said = pairs_in(given);
    let mut things: Vec<Vec<Span>> = Vec::new();
    let mut costs: Vec<u128> = Vec::new();
    for pair in it: pairs
        invariant
            it.seq() == given,
            said == pairs_in(given),
            things@.len() == it.index(),
            costs@.len() == it.index(),
            forall|i: int|
                0 <= i < things@.len() ==> spans_in((#[trigger] things@[i])@) == stat(
                    said[i].0,
                    said[i].1,
                ),
            forall|i: int|
                0 <= i < costs@.len() ==> #[trigger] costs@[i] == said[i].0.len() + 1
                    + said[i].1.len(),
            forall|i: int|
                0 <= i < costs@.len() ==> #[trigger] costs@[i] < 0x1_0000_0000_0000_0000_0000,
    {
        let ghost at = things@.len() as int;
        assert(said[at] == (pair.0@, pair.1@));
        let cost: u128 = pair_cost(pair.0.as_str(), pair.1.as_str());
        costs.push(cost);
        things.push(stat_spans(pair.0.as_str(), pair.1));
    }
    proof {
        assert(groups_in(things@) =~= stats_of(said));
        assert(costs@.map_values(|c: u128| c as int) =~= pair_costs(said));
    }
    pack(things, &costs, width)
}

/// An area of the screen.
#[derive(Debug, Clone, Copy, PartialEq, Eq, Structural)]
pub struct Area {
    pub x: u16,
    pub y: u16,
    pub width: u16,
    pub height: u16,
}

impl Area {
    /// Its edges can be counted.
    pub open spec fn wf(self) -> bool {
        self.x + self.width <= u16::MAX && self.y + self.height <= u16::MAX
    }
}

/// The smaller of two numbers.
pub open spec fn smaller(a: int, b: int) -> int {
    if a < b {
        a
    } else {
        b
    }
}

/// Centre a fixed-size box inside `area`, for modals.
pub fn centered(area: Area, width: u16, height: u16) -> (r: Area)
    requires
        area.wf(),
    ensures
        r.width == smaller(width as int, area.width as int),
        r.height == smaller(height as int, area.height as int),
        r.x == area.x + (area.width - r.width) / 2,
        r.y == area.y + (area.height - r.height) / 2,
        area.x <= r.x && r.x + r.width <= area.x + area.width,
        area.y <= r.y && r.y + r.height <= area.y + area.height,
        r.wf(),
{
    let w: u16 = if width < area.width {
        width
    } else {
        area.width
    };
    let h: u16 = if height < area.height {
        height
    } else {
        area.height
    };
    Area {
        x: area.x + (area.width - w) / 2,
        y: area.y + (area.height - h) / 2,
        width: w,
        height: h,
    }
}

/// The width of the text inside an area, this many columns narrower.
pub open spec fn inside(width: u16, less: int) -> int {
    if width < less {
        0
    } else {
        width - less
    }
}

/// The width of the text inside an area, this many columns narrower.
pub fn inner(width: u16, less: u16) -> (n: usize)
    ensures
        n == inside(width, less as int),
{
    if width < less {
        0
    } else {
        (width - less) as usize
    }
}

} // verus!
