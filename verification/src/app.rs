//! Application state and key handling. Deliberately contains no rendering so
//! the state machine can be exercised without a terminal.
//!
//! A key changes the state and may ask for something to be done outside: listing
//! a directory, scanning, deleting, exporting. What came of it is handed back.

pub mod aftermath;
pub mod browsing;
pub mod bulk;
pub mod dashboard;
pub mod deletion;
pub mod effects;
pub mod keys;
pub mod laws;
pub mod picker;
pub mod results;
pub mod scanning;
pub mod telling;

use crate::delete::{DeleteMode, DeleteReport, DeleteState};
use crate::model::{
    fit, DupeGroup, Phase, ScanError, ScanOptions, ScanState, SortKey,
};
use crate::path::FilePath;
use crate::selection::Selection;
use crate::time::Duration;
use vstd::prelude::*;

verus! {

/// Which screen is showing.
#[derive(Debug, Clone, Copy, PartialEq, Eq, Structural)]
pub enum Screen {
    Picker,
    Scanning,
    Results,
    Confirm,
    Deleting,
    Done,
}

/// Which pane has keyboard focus on the results screen.
#[derive(Debug, Clone, Copy, PartialEq, Eq, Structural)]
pub enum Pane {
    Groups,
    Files,
}

/// What a confirmed deletion will remove.
#[derive(Debug, Clone, Copy, PartialEq, Eq, Structural)]
pub enum DeletePlan {
    /// Every copy currently marked, across all groups.
    Marked,
    /// A single file picked out in the files pane.
    Single { group: usize, file: usize },
}

/// What a browser row stands for.
///
/// An enum rather than a set of booleans: the kinds are mutually exclusive, and
/// with flags a combination like parent-and-drive would be representable.
#[derive(Debug, Clone, Copy, PartialEq, Eq, Structural)]
pub enum RowKind {
    /// The directory being listed. Always offered, so "scan where I am" is
    /// reachable even at a drive root, where there is no parent.
    Current,
    /// `..`
    Parent,
    /// A sibling drive root such as `D:\`.
    Drive,
    Directory,
    /// Listed for context; a file is not a scan target.
    File,
}

/// One row in the directory browser.
#[derive(Debug)]
pub struct DirEntryRow {
    pub name: String,
    pub path: FilePath,
    pub kind: RowKind,
    /// Size in bytes, for `RowKind::File` only.
    pub size: Option<u64>,
}

/// A key without what it is pressed together with.
#[derive(Debug, Clone, Copy, PartialEq, Eq)]
pub enum KeyCode {
    Char(char),
    Backspace,
    Enter,
    Left,
    Right,
    Up,
    Down,
    Home,
    End,
    PageUp,
    PageDown,
    Tab,
    BackTab,
    Delete,
    Esc,
    /// Any other key; it does nothing.
    Other,
}

/// A key press.
#[derive(Debug, Clone, Copy, PartialEq, Eq)]
pub struct Key {
    pub code: KeyCode,
    pub shift: bool,
    pub control: bool,
}

/// What a key asks for that is done outside.
#[derive(Debug)]
pub enum Action {
    /// Nothing.
    Nothing,
    /// List the directory that the browser is in.
    List,
    /// Find the home directory and go there.
    GoHome,
    /// Resolve this directory and toggle it as a reference.
    ResolveReference(FilePath),
    /// Scan this tree.
    Scan(FilePath),
    /// Remove these files.
    Delete(Vec<(FilePath, u64)>),
    /// Write the reports.
    Export,
}

/// Everything the screens show and the keys change.
pub struct App {
    pub screen: Screen,
    pub should_quit: bool,
    pub options: ScanOptions,
    pub delete_mode: DeleteMode,
    // Directory browser
    pub cwd: FilePath,
    pub entries: Vec<DirEntryRow>,
    pub picker_selected: usize,
    pub show_hidden_in_picker: bool,
    pub picker_error: Option<String>,
    // Scan; times are measured from when the program started.
    pub scan_state: ScanState,
    pub phase: Phase,
    pub scan_started: Option<Duration>,
    pub scan_elapsed: Option<Duration>,
    pub scan_root: Option<FilePath>,
    pub errors: Vec<ScanError>,
    // Results
    pub groups: Vec<DupeGroup>,
    pub group_selected: usize,
    pub file_selected: usize,
    /// The first group that is shown.
    pub group_scroll: usize,
    pub pane: Pane,
    pub sort: SortKey,
    pub status: Option<String>,
    pub export_dir: FilePath,
    pub plan: DeletePlan,
    /// Groups the user has picked out, keyed by content hash so the selection
    /// survives re-sorting. When non-empty it scopes every bulk action.
    pub selected: Selection,
    /// Where a Shift-extension began, and the selection as it was at that
    /// moment, so shrinking the range deselects again instead of only growing.
    pub shift_anchor: Option<usize>,
    pub shift_base: Selection,
    // Delete
    pub delete_state: DeleteState,
    pub report: Option<DeleteReport>,
    pub failure_scroll: usize,
}

/// A span that may be there is a proper one.
pub open spec fn proper(d: Option<Duration>) -> bool {
    d is Some ==> d->0.wf()
}

impl App {
    /// Every group keeps a copy and all can be counted; selections are sets.
    pub open spec fn wf(self) -> bool {
        &&& fit(self.groups@)
        &&& self.selected.wf()
        &&& self.shift_base.wf()
        &&& proper(self.scan_started)
        &&& proper(self.scan_elapsed)
    }

    /// A browser in `start_dir`, with nothing listed and nothing scanned yet.
    pub fn new(
        start_dir: FilePath,
        options: ScanOptions,
        delete_mode: DeleteMode,
        export_dir: FilePath,
    ) -> (app: Self)
        ensures
            app.wf(),
            app.screen == Screen::Picker,
            !app.should_quit,
            app.options == options,
            app.delete_mode == delete_mode,
            app.cwd == start_dir,
            app.entries@.len() == 0,
            app.picker_selected == 0,
            !app.show_hidden_in_picker,
            app.picker_error is None,
            app.phase == Phase::Walking,
            app.scan_state.is_fresh(),
            app.scan_started is None,
            app.scan_elapsed is None,
            app.scan_root is None,
            app.errors@.len() == 0,
            app.groups@.len() == 0,
            app.group_selected == 0,
            app.file_selected == 0,
            app.group_scroll == 0,
            app.pane == Pane::Groups,
            app.sort == SortKey::Wasted,
            app.status is None,
            app.export_dir == export_dir,
            app.plan == DeletePlan::Marked,
            app.selected@ == Set::<[u8; 32]>::empty(),
            app.shift_anchor is None,
            app.shift_base@ == Set::<[u8; 32]>::empty(),
            app.delete_state.is_fresh(),
            app.report is None,
            app.failure_scroll == 0,
    {
        App {
            screen: Screen::Picker,
            should_quit: false,
            options,
            delete_mode,
            cwd: start_dir,
            entries: Vec::new(),
            picker_selected: 0,
            show_hidden_in_picker: false,
            picker_error: None,
            scan_state: ScanState::default(),
            phase: Phase::Walking,
            scan_started: None,
            scan_elapsed: None,
            scan_root: None,
            errors: Vec::new(),
            groups: Vec::new(),
            group_selected: 0,
            file_selected: 0,
            group_scroll: 0,
            pane: Pane::Groups,
            sort: SortKey::Wasted,
            status: None,
            export_dir,
            plan: DeletePlan::Marked,
            selected: Selection::new(),
            shift_anchor: None,
            shift_base: Selection::new(),
            delete_state: DeleteState::default(),
            report: None,
            failure_scroll: 0,
        }
    }

    /// True while a background worker is running, so the event loop can poll
    /// faster and keep the live counters smooth.
    pub fn is_busy(&self) -> (b: bool)
        ensures
            b == (self.screen == Screen::Scanning || self.screen == Screen::Deleting),
    {
        matches!(self.screen, Screen::Scanning | Screen::Deleting)
    }

    /// How long the scan took, or has taken so far.
    pub open spec fn took(self, now: Duration) -> int {
        match self.scan_elapsed {
            Some(d) => d.total_nanos(),
            None => match self.scan_started {
                Some(s) => if now.total_nanos() >= s.total_nanos() {
                    now.total_nanos() - s.total_nanos()
                } else {
                    0
                },
                None => 0,
            },
        }
    }

    /// How long the scan took, or has taken so far.
    pub fn elapsed(&self, now: Duration) -> (d: Duration)
        requires
            self.wf(),
            now.wf(),
        ensures
            d.wf(),
            d.total_nanos() == self.took(now),
    {
        match self.scan_elapsed {
            Some(d) => d,
            None => match self.scan_started {
                Some(s) => now.since(s),
                None => Duration::zero(),
            },
        }
    }

    /// Progress of the hashing phases.
    pub fn hash_progress(&self) -> (r: (u64, u64))
        ensures
            r == (self.scan_state.files_hashed, self.scan_state.candidates),
    {
        crate::scan::hashed_of(&self.scan_state)
    }

    /// Progress of the finalize phase, which has its own denominator: the files
    /// in surviving groups, not the candidates that were hashed.
    pub fn finalize_progress(&self) -> (r: (u64, u64))
        ensures
            r == (self.scan_state.files_checked, self.scan_state.files_to_check),
    {
        crate::scan::checked_of(&self.scan_state)
    }

    /// Bytes of all files that the walk came across.
    pub fn scanned_bytes(&self) -> (n: u64)
        ensures
            n == self.scan_state.bytes_seen,
    {
        self.scan_state.bytes_seen
    }

    /// Files that the walk came across.
    pub fn scanned_files(&self) -> (n: u64)
        ensures
            n == self.scan_state.files_seen,
    {
        self.scan_state.files_seen
    }
}

} // verus!
