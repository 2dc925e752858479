//! The chrome around every screen: the title bar and the cheatsheet of keys.

use super::{
    bold, bold_span, box_height, boxed_height, dim, groups_in, line_of_one, lines_in, pack, packed, packed_lines,
    packing_adds_no_row, packing_clips_nothing, pair_cost, pair_costs, pairs_in, unpacked, plain, plain_span, spans_in, toned_span, Line, Span, SpanView, Tone,
};
use crate::app::{App, Screen};
use crate::delete::DeleteMode;
use crate::path::shown_name;
use crate::text::text_from;
use vstd::prelude::*;

verus! {

/// The keybindings relevant to the current screen. In the browser the scan target
/// follows the highlight, so the hint names it rather than saying a bare "SCAN".
pub open spec fn keys_of(app: App) -> Seq<(Seq<char>, Seq<char>)> {
    match app.screen {
        Screen::Picker => seq![
            ("↑↓"@, "navigate"@),
            ("Enter"@, "open"@),
            ("Bksp"@, "up"@),
            ("~"@, "home"@),
            ("."@, "hidden dirs"@),
            ("1-5"@, "filters"@),
            ("d"@, "root"@),
            ("s"@, "SCAN "@ + shown_name(app.target())),
            ("q"@, "quit"@),
        ],
        Screen::Scanning => seq![("Esc"@, "cancel scan"@)],
        Screen::Deleting => seq![("Esc"@, "stop after current file"@)],
        Screen::Results | Screen::Confirm => seq![
            ("Tab"@, "pane"@),
            ("↑↓"@, "move"@),
            ("Space"@, "keep this"@),
            ("d"@, "toggle"@),
            ("x"@, "skip group"@),
            ("1"@, "first"@),
            ("2"@, "newest"@),
            ("3"@, "oldest"@),
            ("4"@, "shortest"@),
            ("s"@, "sort"@),
            (
                "t"@,
                match app.delete_mode {
                    DeleteMode::Trash => "mode:trash"@,
                    DeleteMode::Permanent => "mode:PERM"@,
                },
            ),
            ("Del"@, "delete this file"@),
            ("D"@, "delete marked"@),
            ("r"@, "rescan"@),
            ("q"@, "quit"@),
        ],
        Screen::Done => seq![
            ("Enter"@, "back to results"@),
            ("r"@, "rescan"@),
            ("↑↓"@, "failures"@),
            ("q"@, "quit"@),
        ],
    }
}

fn push_key(keys: &mut Vec<(String, String)>, key: &str, what: &str)
    ensures
        pairs_in(final(keys)@) == pairs_in(old(keys)@).push((key@, what@)),
{
    let ghost before = pairs_in(keys@);
    keys.push((text_from(key), text_from(what)));
    assert(pairs_in(keys@) =~= before.push((key@, what@)));
}

/// The keybindings relevant to the current screen.
pub fn footer_keys(app: &App) -> (keys: Vec<(String, String)>)
    ensures
        pairs_in(keys@) == keys_of(*app),
{
    let mut keys: Vec<(String, String)> = Vec::new();
    assert(pairs_in(keys@) =~= Seq::empty());
    match app.screen {
        Screen::Picker => {
            push_key(&mut keys, "↑↓", "navigate");
            push_key(&mut keys, "Enter", "open");
            push_key(&mut keys, "Bksp", "up");
            push_key(&mut keys, "~", "home");
            push_key(&mut keys, ".", "hidden dirs");
            push_key(&mut keys, "1-5", "filters");
            push_key(&mut keys, "d", "root");
            let mut scan = text_from("SCAN ");
            scan.append(app.scan_target_label().as_str());
            push_key(&mut keys, "s", scan.as_str());
            push_key(&mut keys, "q", "quit");
        },
        Screen::Scanning => {
            push_key(&mut keys, "Esc", "cancel scan");
        },
        Screen::Deleting => {
            push_key(&mut keys, "Esc", "stop after current file");
        },
        Screen::Results | Screen::Confirm => {
            push_key(&mut keys, "Tab", "pane");
            push_key(&mut keys, "↑↓", "move");
            push_key(&mut keys, "Space", "keep this");
            push_key(&mut keys, "d", "toggle");
            push_key(&mut keys, "x", "skip group");
            push_key(&mut keys, "1", "first");
            push_key(&mut keys, "2", "newest");
            push_key(&mut keys, "3", "oldest");
            push_key(&mut keys, "4", "shortest");
            push_key(&mut keys, "s", "sort");
            match app.delete_mode {
                DeleteMode::Trash => {
                    push_key(&mut keys, "t", "mode:trash");
                },
                DeleteMode::Permanent => {
                    push_key(&mut keys, "t", "mode:PERM");
                },
            }
            push_key(&mut keys, "Del", "delete this file");
            push_key(&mut keys, "D", "delete marked");
            push_key(&mut keys, "r", "rescan");
            push_key(&mut keys, "q", "quit");
        },
        Screen::Done => {
            push_key(&mut keys, "Enter", "back to results");
            push_key(&mut keys, "r", "rescan");
            push_key(&mut keys, "↑↓", "failures");
            push_key(&mut keys, "q", "quit");
        },
    }
    assert(pairs_in(keys@) =~= keys_of(*app));
    keys
}

/// A key and what it does.
pub open spec fn key_spans(key: Seq<char>, what: Seq<char>) -> Seq<SpanView> {
    seq![bold(key, Tone::Accent), plain(" "@), plain(what)]
}

/// Keys and what they do.
pub open spec fn keys_spans(pairs: Seq<(Seq<char>, Seq<char>)>) -> Seq<Seq<SpanView>> {
    pairs.map_values(|p: (Seq<char>, Seq<char>)| key_spans(p.0, p.1))
}

/// Greedily pack keys and what they do into lines that fit `width`.
pub fn pack_keys(keys: &Vec<(String, String)>, width: usize) -> (lines: Vec<Line>)
    ensures
        lines_in(lines@) == packed_lines(
            keys_spans(pairs_in(keys@)),
            pair_costs(pairs_in(keys@)),
            width as int,
        ),
{
    let ghost said = pairs_in(keys@);
    let mut things: Vec<Vec<Span>> = Vec::new();
    let mut costs: Vec<u128> = Vec::new();
    let mut i: usize = 0;
    while i < keys.len()
        invariant
            said == pairs_in(keys@),
            i <= keys@.len(),
            things@.len() == i,
            costs@.len() == i,
            forall|j: int|
                0 <= j < things@.len() ==> spans_in((#[trigger] things@[j])@) == key_spans(
                    said[j].0,
                    said[j].1,
                ),
            forall|j: int|
                0 <= j < costs@.len() ==> #[trigger] costs@[j] == said[j].0.len() + 1
                    + said[j].1.len(),
            forall|j: int|
                0 <= j < costs@.len() ==> #[trigger] costs@[j] < 0x1_0000_0000_0000_0000_0000,
        decreases keys@.len() - i,
    {
        let key = &keys[i].0;
        let what = &keys[i].1;
        assert(said[i as int] == (key@, what@));
        let cost: u128 = pair_cost(key.as_str(), what.as_str());
        costs.push(cost);
        let spans = vec![
            bold_span(text_from(key.as_str()), Tone::Accent),
            plain_span(" "),
            plain_span(what.as_str()),
        ];
        assert(spans_in(spans@) =~= key_spans(key@, what@));
        things.push(spans);
        i += 1;
    }
    proof {
        assert(groups_in(things@) =~= keys_spans(said));
        assert(costs@.map_values(|c: u128| c as int) =~= pair_costs(said));
    }
    pack(things, &costs, width)
}

/// The footer is sized to the cheatsheet it must show, so no keybinding is ever
/// clipped, at any terminal width.
pub fn footer_height(key_lines: usize) -> (h: u16)
    ensures
        h == boxed_height(key_lines as int),
{
    box_height(key_lines)
}

/// The browser and the dashboard both put two lines in the header.
pub fn header_height(screen: Screen) -> (h: u16)
    ensures
        h == if screen == Screen::Picker || screen == Screen::Results || screen == Screen::Confirm {
            4int
        } else {
            3int
        },
{
    if matches!(screen, Screen::Picker | Screen::Results | Screen::Confirm) {
        4
    } else {
        3
    }
}

/// The title bar shared by every screen.
pub fn header_title(title: &str) -> (line: Line)
    ensures
        line@ == seq![bold(" dupefind "@, Tone::Accent), dim("— "@ + title@ + " "@)],
{
    let mut text = text_from("— ");
    text.append(title);
    text.append(" ");
    let line = Line {
        spans: vec![bold_span(text_from(" dupefind "), Tone::Accent), toned_span(text, Tone::Dim)],
    };
    assert(line@ =~= seq![bold(" dupefind "@, Tone::Accent), dim("— "@ + title@ + " "@)]);
    line
}

/// What the footer shows. A transient status message takes it over, since it is always
/// more urgent than the cheatsheet the user has already read.
pub fn footer_content(status: &Option<String>, key_lines: Vec<Line>) -> (lines: Vec<Line>)
    ensures
        lines_in(lines@) == match status {
            Some(message) => seq![seq![bold(message@, Tone::Warn)]],
            None => lines_in(key_lines@),
        },
{
    match status {
        Some(message) => {
            let lines = vec![line_of_one(bold_span(text_from(message.as_str()), Tone::Warn))];
            assert(lines_in(lines@) =~= seq![seq![bold(message@, Tone::Warn)]]);
            lines
        },
        None => key_lines,
    }
}

/// No key of a screen is ever clipped, at any width: all of them are on the rows, in
/// order, and the footer has room for every row.
pub proof fn no_key_is_clipped(app: App, width: int)
    requires
        width > 0,
    ensures
        ({
            let n = keys_of(app).len();
            let rows = packed(pair_costs(keys_of(app)), width, n as int);
            &&& unpacked(rows) == Seq::new(n, |i: int| i)
            &&& boxed_height(rows.len() as int) >= rows.len() + 2
        }),
{
    let costs = pair_costs(keys_of(app));
    let n = keys_of(app).len() as int;
    packing_clips_nothing(costs, width, n);
    packing_adds_no_row(costs, width, n);
}

} // verus!
