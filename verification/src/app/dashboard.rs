//! What each key does on the dashboard, and on any screen.

use super::{Action, App, DeletePlan, Key, KeyCode, Pane, Screen};
use crate::model::KeepStrategy;
use crate::text::{text_from, text_in};
use crate::time::Duration;
use vstd::prelude::*;

verus! {

/// A line behind which a word follows.
fn with_word(line: &str, word: &str) -> (s: String)
    ensures
        s@ == line@ + word@,
{
    let mut s = text_from(line);
    s.append(word);
    s
}

impl App {
    /// The state with no message.
    pub open spec fn silent(self) -> App {
        App { status: None, ..self }
    }

    /// Leaving the dashboard, or clearing the selection, which is the more likely
    /// intent where there is one.
    pub open spec fn escaped(self, after: App, action: Action) -> bool {
        if self.selected@ == Set::<[u8; 32]>::empty() {
            action == Action::List && after == (App { screen: Screen::Picker, ..self })
        } else {
            &&& action == Action::Nothing
            &&& after == (App {
                selected: after.selected,
                shift_anchor: None,
                shift_base: after.shift_base,
                status: after.status,
                ..self
            })
            &&& after.selected@ == Set::<[u8; 32]>::empty()
            &&& after.shift_base@ == Set::<[u8; 32]>::empty()
            &&& text_in(after.status) == Some("Selection cleared"@)
        }
    }

    /// The other pane gets the focus.
    pub open spec fn pane_switched(self, after: App) -> bool {
        &&& after == (App {
            shift_anchor: None,
            shift_base: after.shift_base,
            pane: match self.pane {
                Pane::Groups => Pane::Files,
                Pane::Files => Pane::Groups,
            },
            ..self
        })
        &&& after.shift_base@ == Set::<[u8; 32]>::empty()
    }

    /// The groups are sorted by the next key.
    pub open spec fn sort_cycled(self, after: App) -> bool {
        let next = App { sort: self.sort.following(), ..self };
        &&& next.sorted_groups(App { status: self.status, ..after })
        &&& text_in(after.status) == Some("Sorted by "@ + next.sort.word())
    }

    /// The other delete mode is set.
    pub open spec fn mode_toggled(self, after: App) -> bool {
        &&& after == (App {
            delete_mode: self.delete_mode.other(),
            status: after.status,
            ..self
        })
        &&& text_in(after.status) == Some("Delete mode: "@ + self.delete_mode.other().word())
    }

    /// Deleting what is marked has to be confirmed, where anything is marked.
    pub open spec fn marked_deletion_asked(self, after: App) -> bool {
        if self.marks().len() == 0 {
            &&& after == (App { status: after.status, ..self })
            &&& text_in(after.status) == Some("Nothing marked for deletion"@)
        } else {
            after == (App { plan: DeletePlan::Marked, screen: Screen::Confirm, ..self })
        }
    }

    /// Deleting just the highlighted copy, whatever its mark, has to be confirmed.
    /// It is refused for a protected copy and for the last one.
    pub open spec fn single_deletion_asked(self, after: App) -> bool {
        if self.group_selected < self.groups@.len() {
            let files = self.groups@[self.group_selected as int].files@;
            if self.file_selected < files.len() && files[self.file_selected as int].protected {
                &&& after == (App { status: after.status, ..self })
                &&& text_in(after.status) == Some("Reference files are protected from deletion"@)
            } else if files.len() > 1 {
                after == (App {
                    pane: Pane::Files,
                    plan: DeletePlan::Single {
                        group: self.group_selected,
                        file: self.file_selected,
                    },
                    screen: Screen::Confirm,
                    ..self
                })
            } else {
                &&& after == (App { status: after.status, ..self })
                &&& text_in(after.status) == Some(
                    "This is the last copy of the file - nothing to delete"@,
                )
            }
        } else {
            after == self
        }
    }

    /// What a character does on the dashboard, once the message is gone.
    pub open spec fn results_char(
        self,
        after: App,
        c: char,
        now: Duration,
        action: Action,
    ) -> bool {
        if c == 'r' {
            self.rescan_asked(after, now, action)
        } else if c == 'e' {
            self.export_asked(after, action)
        } else {
            &&& action == Action::Nothing
            &&& if c == 'q' {
                after == (App { should_quit: true, ..self })
            } else if c == 'J' {
                self.extended(after, 1)
            } else if c == 'K' {
                self.extended(after, -1)
            } else if c == 'j' {
                self.cursor_moved(after, 1)
            } else if c == 'k' {
                self.cursor_moved(after, -1)
            } else if c == 'm' {
                self.selection_toggled(after)
            } else if c == 'a' {
                self.all_toggled(after)
            } else if c == 'l' {
                after == (App { pane: Pane::Files, ..self })
            } else if c == 'h' {
                after == (App { pane: Pane::Groups, ..self })
            } else if c == ' ' {
                self.highlighted_kept(after)
            } else if c == 'd' {
                self.highlighted_toggled(after)
            } else if c == 'x' {
                self.skip_toggled(after)
            } else if c == '1' {
                self.strategy_applied(after, KeepStrategy::First)
            } else if c == '2' {
                self.strategy_applied(after, KeepStrategy::Newest)
            } else if c == '3' {
                self.strategy_applied(after, KeepStrategy::Oldest)
            } else if c == '4' {
                self.strategy_applied(after, KeepStrategy::ShortestPath)
            } else if c == 's' {
                self.sort_cycled(after)
            } else if c == 't' {
                self.mode_toggled(after)
            } else if c == 'D' {
                self.marked_deletion_asked(after)
            } else {
                after == self
            }
        }
    }

    /// What a key does on the dashboard. Shift with an arrow extends the selected
    /// block; a bare arrow ends it.
    pub open spec fn results_key(
        self,
        after: App,
        key: Key,
        now: Duration,
        action: Action,
    ) -> bool {
        let start = self.silent();
        match key.code {
            KeyCode::Char(c) => start.results_char(after, c, now, action),
            KeyCode::Esc => start.escaped(after, action),
            KeyCode::Tab | KeyCode::BackTab => action == Action::Nothing && start.pane_switched(
                after,
            ),
            KeyCode::Down => start.results_char(
                after,
                if key.shift {
                    'J'
                } else {
                    'j'
                },
                now,
                action,
            ),
            KeyCode::Up => start.results_char(
                after,
                if key.shift {
                    'K'
                } else {
                    'k'
                },
                now,
                action,
            ),
            KeyCode::Right => start.results_char(after, 'l', now, action),
            KeyCode::Left => start.results_char(after, 'h', now, action),
            KeyCode::PageDown => action == Action::Nothing && start.cursor_moved(after, 10),
            KeyCode::PageUp => action == Action::Nothing && start.cursor_moved(after, -10),
            KeyCode::Home => action == Action::Nothing && start.cursor_set(after, 0, true),
            KeyCode::End => action == Action::Nothing && start.cursor_set(
                after,
                start.focus_len() - 1,
                true,
            ),
            KeyCode::Delete => action == Action::Nothing && start.single_deletion_asked(after),
            _ => action == Action::Nothing && after == start,
        }
    }

    fn escape(&mut self) -> (action: Action)
        requires
            old(self).wf(),
        ensures
            final(self).wf(),
            old(self).escaped(*final(self), action),
    {
        if self.selected.is_empty() {
            self.screen = Screen::Picker;
            return Action::List;
        }
        self.selected.clear();
        self.end_extension();
        self.status = Some(text_from("Selection cleared"));
        Action::Nothing
    }

    fn switch_pane(&mut self)
        requires
            old(self).wf(),
        ensures
            final(self).wf(),
            old(self).pane_switched(*final(self)),
    {
        self.end_extension();
        self.pane = match self.pane {
            Pane::Groups => Pane::Files,
            Pane::Files => Pane::Groups,
        };
    }

    fn cycle_sort(&mut self)
        requires
            old(self).wf(),
        ensures
            final(self).wf(),
            old(self).sort_cycled(*final(self)),
    {
        self.sort = self.sort.next();
        self.sort_groups();
        self.status = Some(with_word("Sorted by ", self.sort.label()));
    }

    fn toggle_mode(&mut self)
        requires
            old(self).wf(),
        ensures
            final(self).wf(),
            old(self).mode_toggled(*final(self)),
    {
        self.delete_mode = self.delete_mode.toggled();
        self.status = Some(with_word("Delete mode: ", self.delete_mode.label()));
    }

    fn ask_marked_deletion(&mut self)
        requires
            old(self).wf(),
        ensures
            final(self).wf(),
            old(self).marked_deletion_asked(*final(self)),
    {
        if self.total_marked() == 0 {
            self.status = Some(text_from("Nothing marked for deletion"));
        } else {
            self.plan = DeletePlan::Marked;
            self.screen = Screen::Confirm;
        }
    }

    fn ask_single_deletion(&mut self)
        requires
            old(self).wf(),
        ensures
            final(self).wf(),
            old(self).single_deletion_asked(*final(self)),
    {
        if self.group_selected >= self.groups.len() {
            return;
        }
        let files: usize = self.groups[self.group_selected].files.len();
        let protected: bool = self.file_selected < files
            && self.groups[self.group_selected].files[self.file_selected].protected;
        if protected {
            self.status = Some(text_from("Reference files are protected from deletion"));
        } else if files > 1 {
            self.pane = Pane::Files;
            self.plan = DeletePlan::Single { group: self.group_selected, file: self.file_selected };
            self.screen = Screen::Confirm;
        } else {
            self.status = Some(text_from("This is the last copy of the file - nothing to delete"));
        }
    }

    fn on_char_results(&mut self, c: char, now: Duration) -> (action: Action)
        requires
            old(self).wf(),
            now.wf(),
        ensures
            final(self).wf(),
            old(self).results_char(*final(self), c, now, action),
    {
        if c == 'r' {
            return self.rescan(now);
        }
        if c == 'e' {
            return self.export_results();
        }
        if c == 'q' {
            self.should_quit = true;
        } else if c == 'J' {
            self.extend_selection(true);
        } else if c == 'K' {
            self.extend_selection(false);
        } else if c == 'j' {
            self.move_selection(true, 1);
        } else if c == 'k' {
            self.move_selection(false, 1);
        } else if c == 'm' {
            self.toggle_selection();
        } else if c == 'a' {
            self.toggle_select_all();
        } else if c == 'l' {
            self.pane = Pane::Files;
        } else if c == 'h' {
            self.pane = Pane::Groups;
        } else if c == ' ' {
            self.keep_highlighted();
        } else if c == 'd' {
            self.toggle_highlighted();
        } else if c == 'x' {
            self.toggle_skip_in_scope();
        } else if c == '1' {
            self.apply_strategy_to_all(KeepStrategy::First);
        } else if c == '2' {
            self.apply_strategy_to_all(KeepStrategy::Newest);
        } else if c == '3' {
            self.apply_strategy_to_all(KeepStrategy::Oldest);
        } else if c == '4' {
            self.apply_strategy_to_all(KeepStrategy::ShortestPath);
        } else if c == 's' {
            self.cycle_sort();
        } else if c == 't' {
            self.toggle_mode();
        } else if c == 'D' {
            self.ask_marked_deletion();
        }
        Action::Nothing
    }

    /// A key on the dashboard.
    pub fn on_key_results(&mut self, key: Key, now: Duration) -> (action: Action)
        requires
            old(self).wf(),
            now.wf(),
        ensures
            final(self).wf(),
            old(self).results_key(*final(self), key, now, action),
    {
        self.status = None;
        match key.code {
            KeyCode::Char(c) => {
                return self.on_char_results(c, now);
            },
            KeyCode::Esc => {
                return self.escape();
            },
            KeyCode::Tab | KeyCode::BackTab => {
                self.switch_pane();
            },
            // `J` and `K` do the same, because not every terminal reports Shift
            // with an arrow.
            KeyCode::Down => {
                return self.on_char_results(
                    if key.shift {
                        'J'
                    } else {
                        'j'
                    },
                    now,
                );
            },
            KeyCode::Up => {
                return self.on_char_results(
                    if key.shift {
                        'K'
                    } else {
                        'k'
                    },
                    now,
                );
            },
            KeyCode::Right => {
                return self.on_char_results('l', now);
            },
            KeyCode::Left => {
                return self.on_char_results('h', now);
            },
            KeyCode::PageDown => {
                self.move_selection(true, 10);
            },
            KeyCode::PageUp => {
                self.move_selection(false, 10);
            },
            KeyCode::Home => {
                self.set_selection(false);
            },
            KeyCode::End => {
                self.set_selection(true);
            },
            KeyCode::Delete => {
                self.ask_single_deletion();
            },
            _ => {},
        }
        Action::Nothing
    }

    /// The key that quits from any screen.
    pub open spec fn is_interrupt(key: Key) -> bool {
        key.control && (key.code == KeyCode::Char('c') || key.code == KeyCode::Char('C'))
    }

    /// What a key does.
    pub open spec fn key_pressed(
        self,
        after: App,
        key: Key,
        now: Duration,
        action: Action,
    ) -> bool {
        if App::is_interrupt(key) {
            action == Action::Nothing && after == (App {
                should_quit: true,
                ..self.workers_cancelled()
            })
        } else {
            match self.screen {
                Screen::Picker => self.picker_key(after, key, now, action),
                Screen::Scanning => action == Action::Nothing && self.scanning_key(after, key),
                Screen::Results => self.results_key(after, key, now, action),
                Screen::Confirm => self.confirm_key(after, key, action),
                Screen::Deleting => action == Action::Nothing && self.deleting_key(after, key),
                Screen::Done => self.done_key(after, key, now, action),
            }
        }
    }

    /// A key. Ctrl-C always quits, from any screen.
    pub fn on_key(&mut self, key: Key, now: Duration) -> (action: Action)
        requires
            old(self).wf(),
            now.wf(),
        ensures
            final(self).wf(),
            old(self).key_pressed(*final(self), key, now, action),
    {
        let interrupt: bool = key.control && match key.code {
            KeyCode::Char(c) => c == 'c' || c == 'C',
            _ => false,
        };
        if interrupt {
            self.cancel_workers();
            self.should_quit = true;
            return Action::Nothing;
        }
        match self.screen {
            Screen::Picker => self.on_key_picker(key, now),
            Screen::Scanning => {
                self.on_key_scanning(key);
                Action::Nothing
            },
            Screen::Results => self.on_key_results(key, now),
            Screen::Confirm => self.on_key_confirm(key),
            Screen::Deleting => {
                self.on_key_deleting(key);
                Action::Nothing
            },
            Screen::Done => self.on_key_done(key, now),
        }
    }
}

} // verus!
