//! What each key does.

use super::results::clamped;
use super::{Action, App, Key, KeyCode, Pane, RowKind, Screen};
use crate::delete::DeleteState;
use crate::model::{ScanOptions, ScanState};
use crate::path::{parent_of, top_of};
use crate::text::{text_from, text_in};
use crate::time::Duration;
use vstd::prelude::*;

verus! {

impl App {
    /// How long the list with the focus is.
    pub open spec fn focus_len(self) -> int {
        match self.pane {
            Pane::Groups => self.groups@.len() as int,
            Pane::Files => if self.group_selected < self.groups@.len() {
                self.groups@[self.group_selected as int].files@.len() as int
            } else {
                0
            },
        }
    }

    /// Where the cursor is in the list with the focus.
    pub open spec fn focus(self) -> int {
        match self.pane {
            Pane::Groups => self.group_selected as int,
            Pane::Files => self.file_selected as int,
        }
    }

    /// The cursor moves to this index of the list with the focus, and no extension
    /// goes on. Another group starts at its first file.
    pub open spec fn cursor_set(self, after: App, index: int, jump: bool) -> bool {
        &&& after == (App {
            shift_anchor: None,
            shift_base: after.shift_base,
            group_selected: if self.pane == Pane::Groups && self.focus_len() > 0 {
                index as usize
            } else {
                self.group_selected
            },
            file_selected: if self.focus_len() == 0 {
                self.file_selected
            } else if self.pane == Pane::Files {
                index as usize
            } else if jump || index != self.group_selected {
                0
            } else {
                self.file_selected
            },
            ..self
        })
        &&& after.shift_base@ == Set::<[u8; 32]>::empty()
    }

    /// The cursor moves by some rows, as far as the list with the focus goes.
    pub open spec fn cursor_moved(self, after: App, step: int) -> bool {
        self.cursor_set(after, clamped(self.focus() + step, self.focus_len()), false)
    }

    fn focus_length(&self) -> (n: usize)
        ensures
            n == self.focus_len(),
    {
        match self.pane {
            Pane::Groups => self.groups.len(),
            Pane::Files => match self.selected_group() {
                Some(g) => g.files.len(),
                None => 0,
            },
        }
    }

    /// Move the cursor by `by` rows.
    pub fn move_selection(&mut self, down: bool, by: usize)
        requires
            old(self).wf(),
        ensures
            final(self).wf(),
            old(self).cursor_moved(
                *final(self),
                if down {
                    by as int
                } else {
                    -by
                },
            ),
    {
        self.end_extension();
        let len: usize = self.focus_length();
        if len == 0 {
            return;
        }
        let current: usize = match self.pane {
            Pane::Groups => self.group_selected,
            Pane::Files => self.file_selected,
        };
        let next: usize = if down {
            if current < len && by < len - current {
                current + by
            } else {
                len - 1
            }
        } else if by >= current {
            0
        } else if current - by >= len {
            len - 1
        } else {
            current - by
        };
        match self.pane {
            Pane::Groups => {
                if next != self.group_selected {
                    self.group_selected = next;
                    self.file_selected = 0;
                }
            },
            Pane::Files => {
                self.file_selected = next;
            },
        }
    }

    /// Move the cursor to the first or the last row.
    pub fn set_selection(&mut self, last: bool)
        requires
            old(self).wf(),
        ensures
            final(self).wf(),
            old(self).cursor_set(
                *final(self),
                if last {
                    old(self).focus_len() - 1
                } else {
                    0
                },
                true,
            ),
    {
        self.end_extension();
        let len: usize = self.focus_length();
        if len == 0 {
            return;
        }
        let idx: usize = if last {
            len - 1
        } else {
            0
        };
        match self.pane {
            Pane::Groups => {
                self.group_selected = idx;
                self.file_selected = 0;
            },
            Pane::Files => {
                self.file_selected = idx;
            },
        }
    }

    /// Ask every worker to stop.
    pub open spec fn workers_cancelled(self) -> App {
        App {
            scan_state: ScanState { cancel: true, ..self.scan_state },
            delete_state: DeleteState { cancel: true, ..self.delete_state },
            ..self
        }
    }

    /// Ask every worker to stop.
    pub fn cancel_workers(&mut self)
        ensures
            *final(self) == old(self).workers_cancelled(),
    {
        self.scan_state.request_cancel();
        self.delete_state.request_cancel();
    }

    /// What exporting asks for: nothing before anything was scanned.
    pub open spec fn export_asked(self, after: App, action: Action) -> bool {
        if self.scan_root is None {
            &&& action == Action::Nothing
            &&& after == (App { status: after.status, ..self })
            &&& text_in(after.status) == Some("Nothing has been scanned yet"@)
        } else {
            &&& action == Action::Export
            &&& after == self
        }
    }

    /// Ask for an export of the reviewed results.
    pub fn export_results(&mut self) -> (action: Action)
        requires
            old(self).wf(),
        ensures
            final(self).wf(),
            old(self).export_asked(*final(self), action),
    {
        if self.scan_root.is_none() {
            self.status = Some(text_from("Nothing has been scanned yet"));
            return Action::Nothing;
        }
        Action::Export
    }

    /// Tell what came of an export.
    pub fn note_export(&mut self, outcome: &crate::export::ExportOutcome)
        requires
            old(self).wf(),
        ensures
            final(self).wf(),
            *final(self) == (App { status: final(self).status, ..*old(self) }),
            text_in(final(self).status) == Some(crate::export::outcome_text(*outcome)),
    {
        self.status = Some(crate::export::outcome_line(outcome));
    }

    /// What scanning the same tree again changes, and what it asks for.
    pub open spec fn rescan_asked(self, after: App, now: Duration, action: Action) -> bool {
        match self.scan_root {
            Some(root) => self.scan_asked(after, root@, now, action),
            None => action == Action::Nothing && after == self,
        }
    }

    /// Scan the same tree again.
    pub fn rescan(&mut self, now: Duration) -> (action: Action)
        requires
            old(self).wf(),
            now.wf(),
        ensures
            final(self).wf(),
            old(self).rescan_asked(*final(self), now, action),
    {
        let root = match &self.scan_root {
            Some(root) => root.clone(),
            None => {
                return Action::Nothing;
            },
        };
        self.start_scan(root, now)
    }

    // ---------------------------------------------------------------- picker

    /// The last row of the browser.
    pub open spec fn last_row(self) -> int {
        if self.entries@.len() == 0 {
            0
        } else {
            self.entries@.len() - 1
        }
    }

    /// The row that a move down by `by` leads to.
    pub open spec fn row_below(self, by: int) -> usize {
        (if self.picker_selected + by > self.last_row() {
            self.last_row()
        } else {
            self.picker_selected + by
        }) as usize
    }

    /// The row that a move up by `by` leads to.
    pub open spec fn row_above(self, by: int) -> usize {
        (if self.picker_selected < by {
            0
        } else {
            self.picker_selected - by
        }) as usize
    }

    /// The highlighted row is the parent.
    pub open spec fn on_parent_row(self) -> bool {
        self.picker_selected < self.entries@.len()
            && self.entries@[self.picker_selected as int].kind == RowKind::Parent
    }

    /// Going to the parent, where there is one.
    pub open spec fn went_up(self, after: App, action: Action) -> bool {
        match parent_of(self.cwd@) {
            Some(parent) => action == Action::List && self.moved_to(after, parent),
            None => action == Action::Nothing && after == self,
        }
    }

    /// Entering the highlighted row, where it can be entered.
    pub open spec fn went_in(self, after: App, action: Action) -> bool {
        if self.on_a_way_down() {
            action == Action::List && self.moved_to(
                after,
                self.entries@[self.picker_selected as int].path@,
            )
        } else {
            action == Action::Nothing && after == self
        }
    }

    /// What a character does in the browser.
    pub open spec fn picker_char(self, after: App, c: char, now: Duration, action: Action) -> bool {
        let o = self.options;
        if c == 'q' {
            action == Action::Nothing && after == (App { should_quit: true, ..self })
        } else if c == 'j' {
            action == Action::Nothing && after == (App {
                picker_selected: self.row_below(1),
                ..self
            })
        } else if c == 'k' {
            action == Action::Nothing && after == (App {
                picker_selected: self.row_above(1),
                ..self
            })
        } else if c == 'g' {
            action == Action::Nothing && after == (App { picker_selected: 0, ..self })
        } else if c == 'G' {
            action == Action::Nothing && after == (App {
                picker_selected: self.last_row() as usize,
                ..self
            })
        } else if c == 'l' {
            if self.on_parent_row() {
                self.went_up(after, action)
            } else {
                self.went_in(after, action)
            }
        } else if c == 'h' {
            self.went_up(after, action)
        } else if c == '~' {
            action == Action::GoHome && after == self
        } else if c == 's' {
            self.scan_asked(after, self.target(), now, action)
        } else if c == 'd' {
            action == Action::List && self.moved_to(after, top_of(self.cwd@))
        } else if c == '.' {
            action == Action::List && after == (App {
                show_hidden_in_picker: !self.show_hidden_in_picker,
                ..self
            })
        } else if c == '1' {
            action == Action::Nothing && after == (App {
                options: ScanOptions { skip_hidden: !o.skip_hidden, ..o },
                ..self
            })
        } else if c == '2' {
            action == Action::Nothing && after == (App {
                options: ScanOptions { respect_gitignore: !o.respect_gitignore, ..o },
                ..self
            })
        } else if c == '3' {
            action == Action::Nothing && after == (App {
                options: ScanOptions { skip_empty: !o.skip_empty, ..o },
                ..self
            })
        } else if c == '4' {
            action == Action::Nothing && after == (App {
                options: ScanOptions { collapse_hardlinks: !o.collapse_hardlinks, ..o },
                ..self
            })
        } else if c == '5' {
            action == Action::Nothing && after == (App {
                options: ScanOptions { use_cache: !o.use_cache, ..o },
                ..self
            })
        } else if c == 'R' {
            after == self && (action matches Action::ResolveReference(p) && p@ == self.target())
        } else {
            action == Action::Nothing && after == self
        }
    }

    /// What a key does in the browser.
    pub open spec fn picker_key(self, after: App, key: Key, now: Duration, action: Action) -> bool {
        match key.code {
            KeyCode::Char(c) => self.picker_char(after, c, now, action),
            KeyCode::Esc => self.picker_char(after, 'q', now, action),
            KeyCode::Down => self.picker_char(after, 'j', now, action),
            KeyCode::Up => self.picker_char(after, 'k', now, action),
            KeyCode::Home => self.picker_char(after, 'g', now, action),
            KeyCode::End => self.picker_char(after, 'G', now, action),
            KeyCode::Enter | KeyCode::Right => self.picker_char(after, 'l', now, action),
            KeyCode::Backspace | KeyCode::Left => self.picker_char(after, 'h', now, action),
            KeyCode::PageDown => action == Action::Nothing && after == (App {
                picker_selected: self.row_below(10),
                ..self
            }),
            KeyCode::PageUp => action == Action::Nothing && after == (App {
                picker_selected: self.row_above(10),
                ..self
            }),
            _ => action == Action::Nothing && after == self,
        }
    }

    fn row_down(&self, by: usize) -> (row: usize)
        ensures
            row == self.row_below(by as int),
    {
        let last: usize = if self.entries.len() == 0 {
            0
        } else {
            self.entries.len() - 1
        };
        if self.picker_selected > last || by > last - self.picker_selected {
            last
        } else {
            self.picker_selected + by
        }
    }

    fn row_up(&self, by: usize) -> (row: usize)
        ensures
            row == self.row_above(by as int),
    {
        if self.picker_selected < by {
            0
        } else {
            self.picker_selected - by
        }
    }

    fn on_char_picker(&mut self, c: char, now: Duration) -> (action: Action)
        requires
            old(self).wf(),
            now.wf(),
        ensures
            final(self).wf(),
            old(self).picker_char(*final(self), c, now, action),
    {
        if c == 'q' {
            self.should_quit = true;
        } else if c == 'j' {
            self.picker_selected = self.row_down(1);
        } else if c == 'k' {
            self.picker_selected = self.row_up(1);
        } else if c == 'g' {
            self.picker_selected = 0;
        } else if c == 'G' {
            self.picker_selected = if self.entries.len() == 0 {
                0
            } else {
                self.entries.len() - 1
            };
        } else if c == 'l' {
            let on_parent: bool = self.picker_selected < self.entries.len()
                && self.entries[self.picker_selected].kind == RowKind::Parent;
            if on_parent {
                return self.go_to_parent();
            } else {
                return self.enter_selected_dir();
            }
        } else if c == 'h' {
            return self.go_to_parent();
        } else if c == '~' {
            return Action::GoHome;
        } else if c == 's' {
            let root = self.scan_target();
            return self.start_scan(root, now);
        } else if c == 'd' {
            // The top of the current drive is where the other drives are listed.
            let top = self.cwd.top();
            self.go_to(top);
            return Action::List;
        } else if c == '.' {
            self.show_hidden_in_picker = !self.show_hidden_in_picker;
            return Action::List;
        } else if c == '1' {
            self.options.skip_hidden = !self.options.skip_hidden;
        } else if c == '2' {
            self.options.respect_gitignore = !self.options.respect_gitignore;
        } else if c == '3' {
            self.options.skip_empty = !self.options.skip_empty;
        } else if c == '4' {
            self.options.collapse_hardlinks = !self.options.collapse_hardlinks;
        } else if c == '5' {
            self.options.use_cache = !self.options.use_cache;
        } else if c == 'R' {
            return Action::ResolveReference(self.scan_target());
        }
        Action::Nothing
    }

    /// A key in the browser.
    pub fn on_key_picker(&mut self, key: Key, now: Duration) -> (action: Action)
        requires
            old(self).wf(),
            now.wf(),
        ensures
            final(self).wf(),
            old(self).picker_key(*final(self), key, now, action),
    {
        match key.code {
            KeyCode::Char(c) => self.on_char_picker(c, now),
            KeyCode::Esc => self.on_char_picker('q', now),
            KeyCode::Down => self.on_char_picker('j', now),
            KeyCode::Up => self.on_char_picker('k', now),
            KeyCode::Home => self.on_char_picker('g', now),
            KeyCode::End => self.on_char_picker('G', now),
            KeyCode::Enter | KeyCode::Right => self.on_char_picker('l', now),
            KeyCode::Backspace | KeyCode::Left => self.on_char_picker('h', now),
            KeyCode::PageDown => {
                self.picker_selected = self.row_down(10);
                Action::Nothing
            },
            KeyCode::PageUp => {
                self.picker_selected = self.row_up(10);
                Action::Nothing
            },
            _ => Action::Nothing,
        }
    }

    // -------------------------------------------------------------- scanning

    /// What a key does while a scan runs.
    pub open spec fn scanning_key(self, after: App, key: Key) -> bool {
        if key.code == KeyCode::Esc || key.code == KeyCode::Char('q') {
            &&& after == (App {
                scan_state: ScanState { cancel: true, ..self.scan_state },
                status: after.status,
                ..self
            })
            &&& text_in(after.status) == Some("Cancelling…"@)
        } else {
            after == self
        }
    }

    /// A key while a scan runs.
    pub fn on_key_scanning(&mut self, key: Key)
        requires
            old(self).wf(),
        ensures
            final(self).wf(),
            old(self).scanning_key(*final(self), key),
    {
        let cancel: bool = match key.code {
            KeyCode::Esc => true,
            KeyCode::Char(c) => c == 'q',
            _ => false,
        };
        if cancel {
            self.scan_state.request_cancel();
            self.status = Some(text_from("Cancelling…"));
        }
    }

    // ------------------------------------------------ confirm, deleting, done

    /// What a key does in the confirmation: only `y` and Enter delete, `t` changes
    /// the mode, and any other key goes back.
    pub open spec fn confirm_key(self, after: App, key: Key, action: Action) -> bool {
        if key.code == KeyCode::Char('y') || key.code == KeyCode::Char('Y') || key.code
            == KeyCode::Enter {
            self.delete_asked(after, action)
        } else if key.code == KeyCode::Char('t') {
            action == Action::Nothing && after == (App {
                delete_mode: self.delete_mode.other(),
                ..self
            })
        } else {
            action == Action::Nothing && after == (App { screen: Screen::Results, ..self })
        }
    }

    /// A key in the confirmation.
    pub fn on_key_confirm(&mut self, key: Key) -> (action: Action)
        requires
            old(self).wf(),
        ensures
            final(self).wf(),
            old(self).confirm_key(*final(self), key, action),
    {
        let code: char = match key.code {
            KeyCode::Char(c) => c,
            KeyCode::Enter => 'y',
            _ => ' ',
        };
        if code == 'y' || code == 'Y' {
            return self.start_delete();
        }
        if code == 't' {
            self.delete_mode = self.delete_mode.toggled();
        } else {
            self.screen = Screen::Results;
        }
        Action::Nothing
    }

    /// What a key does while files are deleted.
    pub open spec fn deleting_key(self, after: App, key: Key) -> bool {
        after == if key.code == KeyCode::Esc {
            App { delete_state: DeleteState { cancel: true, ..self.delete_state }, ..self }
        } else {
            self
        }
    }

    /// A key while files are deleted.
    pub fn on_key_deleting(&mut self, key: Key)
        requires
            old(self).wf(),
        ensures
            final(self).wf(),
            old(self).deleting_key(*final(self), key),
    {
        match key.code {
            KeyCode::Esc => {
                self.delete_state.request_cancel();
            },
            _ => {},
        }
    }

    /// How many failures the report lists.
    pub open spec fn failure_count(self) -> int {
        match self.report {
            Some(r) => r.failures@.len() as int,
            None => 0,
        }
    }

    /// What a key does after a deletion.
    pub open spec fn done_key(self, after: App, key: Key, now: Duration, action: Action) -> bool {
        if key.code == KeyCode::Char('q') || key.code == KeyCode::Esc {
            action == Action::Nothing && after == (App { should_quit: true, ..self })
        } else if key.code == KeyCode::Char('r') {
            self.rescan_asked(after, now, action)
        } else if key.code == KeyCode::Char('e') {
            self.export_asked(after, action)
        } else if key.code == KeyCode::Enter {
            action == Action::Nothing && after == (App {
                report: None,
                screen: Screen::Results,
                ..self
            })
        } else if key.code == KeyCode::Char('j') || key.code == KeyCode::Down {
            action == Action::Nothing && after == (App {
                failure_scroll: clamped(self.failure_scroll + 1, self.failure_count()) as usize,
                ..self
            })
        } else if key.code == KeyCode::Char('k') || key.code == KeyCode::Up {
            action == Action::Nothing && after == (App {
                failure_scroll: (if self.failure_scroll == 0 {
                    0
                } else {
                    self.failure_scroll - 1
                }) as usize,
                ..self
            })
        } else {
            action == Action::Nothing && after == self
        }
    }

    /// A key after a deletion.
    pub fn on_key_done(&mut self, key: Key, now: Duration) -> (action: Action)
        requires
            old(self).wf(),
            now.wf(),
        ensures
            final(self).wf(),
            old(self).done_key(*final(self), key, now, action),
    {
        let failures: usize = match &self.report {
            Some(r) => r.failures.len(),
            None => 0,
        };
        let code: char = match key.code {
            KeyCode::Char(c) => c,
            KeyCode::Esc => 'q',
            KeyCode::Down => 'j',
            KeyCode::Up => 'k',
            KeyCode::Enter => {
                self.report = None;
                self.screen = Screen::Results;
                return Action::Nothing;
            },
            _ => ' ',
        };
        if code == 'q' {
            self.should_quit = true;
        } else if code == 'r' {
            return self.rescan(now);
        } else if code == 'e' {
            return self.export_results();
        } else if code == 'j' {
            self.failure_scroll = if failures == 0 {
                0
            } else if self.failure_scroll >= failures - 1 {
                failures - 1
            } else {
                self.failure_scroll + 1
            };
        } else if code == 'k' {
            if self.failure_scroll > 0 {
                self.failure_scroll = self.failure_scroll - 1;
            }
        }
        Action::Nothing
    }
}

} // verus!
