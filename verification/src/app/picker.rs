//! The directory browser.

use super::{Action, App, DirEntryRow, RowKind};
use crate::grouping::picked;
use crate::order::{sorted_from, sorted_with};
use crate::path::{components, parent_of, shown_name, FilePath};
use crate::text::{char_count, displayed, lower_case, text_from, text_in, text_key, text_sort_key};
use vstd::prelude::*;

verus! {

/// What a row shows.
#[verifier::ext_equal]
pub struct RowView {
    pub name: Seq<char>,
    pub path: Seq<u8>,
    pub kind: RowKind,
    pub size: Option<u64>,
}

impl View for DirEntryRow {
    type V = RowView;

    open spec fn view(&self) -> RowView {
        RowView { name: self.name@, path: self.path@, kind: self.kind, size: self.size }
    }
}

/// What rows show.
pub open spec fn rows(list: Seq<DirEntryRow>) -> Seq<RowView> {
    list.map_values(|r: DirEntryRow| r@)
}

/// The rows that one can descend into.
pub open spec fn descends(kind: RowKind) -> bool {
    kind == RowKind::Parent || kind == RowKind::Drive || kind == RowKind::Directory
}

impl DirEntryRow {
    /// True for anything the user can descend into with Enter.
    pub fn is_navigable(&self) -> (b: bool)
        ensures
            b == descends(self.kind),
    {
        matches!(self.kind, RowKind::Parent | RowKind::Drive | RowKind::Directory)
    }
}

/// One entry of a directory as the file system reports it.
#[derive(Debug)]
pub struct ListedEntry {
    pub path: FilePath,
    pub is_dir: bool,
    pub size: Option<u64>,
    /// The file system calls it hidden.
    pub hidden: bool,
}

/// What listing a directory came to.
#[derive(Debug)]
pub enum Listing {
    Unreadable(String),
    Entries(Vec<ListedEntry>),
}

/// Only this attribute hides an entry on Windows, not the one for system files:
/// everything a drive root clutters the list with is hidden, and testing the
/// other one too would suppress directories a user may want.
pub const FILE_ATTRIBUTE_HIDDEN: u32 = 0x2;

/// Whether the attributes of a file hide it.
pub fn attrs_are_hidden(attrs: u32) -> (b: bool)
    ensures
        b == (attrs & 0x2 != 0),
{
    attrs & FILE_ATTRIBUTE_HIDDEN != 0
}

/// Drive roots the user can switch to. There is a single root here, so there is
/// nothing to switch between.
pub fn available_drives() -> (drives: Vec<FilePath>)
    ensures
        drives@.len() == 0,
{
    Vec::new()
}

/// The browser leaves this entry out: its name starts with a dot, or the file
/// system calls it hidden.
pub open spec fn is_hidden_entry(e: ListedEntry) -> bool {
    let name = shown_name(e.path@);
    (name.len() > 0 && name[0] == '.') || e.hidden
}

/// Whether the browser should hide this entry.
pub fn is_hidden(e: &ListedEntry) -> (b: bool)
    ensures
        b == is_hidden_entry(*e),
{
    let name = e.path.name_text();
    if char_count(name.as_str()) > 0 && name.as_str().get_char(0) == '.' {
        return true;
    }
    e.hidden
}

/// The row for an entry.
pub open spec fn entry_row(e: ListedEntry) -> RowView {
    RowView {
        name: shown_name(e.path@),
        path: e.path@,
        kind: if e.is_dir {
            RowKind::Directory
        } else {
            RowKind::File
        },
        // Only files show a size; a directory's own size is meaningless here.
        size: if e.is_dir {
            None
        } else {
            e.size
        },
    }
}

/// The rows for entries.
pub open spec fn entry_rows(list: Seq<ListedEntry>) -> Seq<RowView> {
    list.map_values(|e: ListedEntry| entry_row(e))
}

/// Entries are listed by name, whatever their case.
pub open spec fn entry_key() -> spec_fn(ListedEntry) -> Seq<u64> {
    |e: ListedEntry| text_key(lower_case(shown_name(e.path@)))
}

/// Which entries are shown and are directories, or are not.
pub open spec fn shown_flags(list: Seq<ListedEntry>, hidden_too: bool, dirs: bool) -> Seq<bool> {
    Seq::new(
        list.len(),
        |i: int| (hidden_too || !is_hidden_entry(list[i])) && list[i].is_dir == dirs,
    )
}

/// The rows for the contents of a directory: directories first so that adding
/// files for context never puts them further from the cursor.
pub open spec fn content_rows(list: Seq<ListedEntry>, hidden_too: bool) -> Seq<RowView> {
    entry_rows(sorted_from(picked(list, shown_flags(list, hidden_too, true)), entry_key()))
        + entry_rows(sorted_from(picked(list, shown_flags(list, hidden_too, false)), entry_key()))
}

/// The rows for drives other than the one the browser is at.
pub open spec fn drive_views(drives: Seq<FilePath>, cwd: Seq<u8>) -> Seq<RowView>
    decreases drives.len(),
{
    if drives.len() == 0 {
        Seq::empty()
    } else {
        let rest = drive_views(drives.drop_last(), cwd);
        let d = drives.last()@;
        if components(d) == components(cwd) {
            rest
        } else {
            rest.push(RowView { name: displayed(d), path: d, kind: RowKind::Drive, size: None })
        }
    }
}

/// The rows above the contents: the directory itself, so "scan the directory I am
/// in" is reachable from any listing, and then its parent. At the top `..` leads
/// nowhere, so the sibling drives take its place.
pub open spec fn top_rows(cwd: Seq<u8>, drives: Seq<FilePath>) -> Seq<RowView> {
    let current = RowView { name: displayed(cwd), path: cwd, kind: RowKind::Current, size: None };
    match parent_of(cwd) {
        Some(parent) => seq![
            current,
            RowView { name: ".."@, path: parent, kind: RowKind::Parent, size: None },
        ],
        None => seq![current] + drive_views(drives, cwd),
    }
}

/// All rows of a listing.
pub open spec fn listed_rows(
    cwd: Seq<u8>,
    drives: Seq<FilePath>,
    listing: Listing,
    hidden_too: bool,
) -> Seq<RowView> {
    match listing {
        Listing::Unreadable(_) => top_rows(cwd, drives),
        Listing::Entries(list) => top_rows(cwd, drives) + content_rows(list@, hidden_too),
    }
}

fn sorted_rows(list: Vec<ListedEntry>) -> (out: Vec<DirEntryRow>)
    ensures
        rows(out@) == entry_rows(sorted_from(list@, entry_key())),
{
    let mut keys: Vec<Vec<u64>> = Vec::new();
    while keys.len() < list.len()
        invariant
            keys@.len() <= list@.len(),
            forall|i: int| 0 <= i < keys@.len() ==> (#[trigger] keys@[i])@ == entry_key()(list@[i]),
        decreases list@.len() - keys@.len(),
    {
        let name = list[keys.len()].path.name_text();
        let lower = name.as_str().to_lowercase();
        let key = text_sort_key(lower.as_str());
        keys.push(key);
    }
    let sorted = sorted_with(list, &keys, Ghost(entry_key()));
    let ghost all = sorted@;
    let mut out: Vec<DirEntryRow> = Vec::new();
    for e in it: sorted
        invariant
            it.seq() == all,
            rows(out@) =~= entry_rows(all.take(it.index() as int)),
    {
        let ghost before = rows(out@);
        let name = e.path.name_text();
        let row = DirEntryRow {
            name,
            path: e.path,
            kind: if e.is_dir {
                RowKind::Directory
            } else {
                RowKind::File
            },
            size: if e.is_dir {
                None
            } else {
                e.size
            },
        };
        out.push(row);
        assert(rows(out@) =~= before.push(row@));
        assert(row@ == entry_row(e));
    }
    assert(all.take(all.len() as int) =~= all);
    out
}

fn push_contents(out: &mut Vec<DirEntryRow>, list: Vec<ListedEntry>, hidden_too: bool)
    ensures
        rows(final(out)@) == rows(old(out)@) + content_rows(list@, hidden_too),
{
    let ghost given = list@;
    let ghost before = rows(out@);
    let mut dir_flags: Vec<bool> = Vec::new();
    let mut file_flags: Vec<bool> = Vec::new();
    while dir_flags.len() < list.len()
        invariant
            given == list@,
            dir_flags@.len() <= given.len(),
            file_flags@.len() == dir_flags@.len(),
            forall|i: int|
                0 <= i < dir_flags@.len() ==> #[trigger] dir_flags@[i] == shown_flags(
                    given,
                    hidden_too,
                    true,
                )[i],
            forall|i: int|
                0 <= i < file_flags@.len() ==> #[trigger] file_flags@[i] == (shown_flags(
                    given,
                    hidden_too,
                    false,
                )[i] || shown_flags(given, hidden_too, true)[i]),
        decreases given.len() - dir_flags@.len(),
    {
        let e = &list[dir_flags.len()];
        let shown: bool = hidden_too || !is_hidden(e);
        dir_flags.push(shown && e.is_dir);
        file_flags.push(shown);
    }
    let mut dirs: Vec<ListedEntry> = Vec::new();
    let mut files: Vec<ListedEntry> = Vec::new();
    let mut at: usize = 0;
    let n: usize = dir_flags.len();
    for e in it: list
        invariant
            it.seq() == given,
            at == it.index(),
            n == given.len(),
            dir_flags@.len() == n,
            file_flags@.len() == n,
            forall|i: int|
                0 <= i < n ==> #[trigger] dir_flags@[i] == shown_flags(given, hidden_too, true)[i],
            forall|i: int|
                0 <= i < n ==> #[trigger] file_flags@[i] == (shown_flags(given, hidden_too, false)[i]
                    || shown_flags(given, hidden_too, true)[i]),
            dirs@ == picked(given.take(at as int), shown_flags(given, hidden_too, true)),
            files@ == picked(given.take(at as int), shown_flags(given, hidden_too, false)),
    {
        assert(given.take(at + 1).drop_last() =~= given.take(at as int));
        assert(dir_flags@[at as int] == shown_flags(given, hidden_too, true)[at as int]);
        assert(file_flags@[at as int] == (shown_flags(given, hidden_too, false)[at as int]
            || shown_flags(given, hidden_too, true)[at as int]));
        if dir_flags[at] {
            dirs.push(e);
        } else if file_flags[at] {
            files.push(e);
        }
        at += 1;
    }
    assert(given.take(at as int) =~= given);
    let mut dirs = sorted_rows(dirs);
    let mut files = sorted_rows(files);
    let ghost d = rows(dirs@);
    let ghost f = rows(files@);
    out.append(&mut dirs);
    out.append(&mut files);
    assert(rows(out@) =~= before + (d + f));
}

impl App {
    /// Build rows for the drives the user could switch to.
    ///
    /// Kept separate from enumeration so the ordering and filtering can be
    /// tested on any platform.
    pub fn drive_rows(drives: &Vec<FilePath>, cwd: &FilePath) -> (out: Vec<DirEntryRow>)
        ensures
            rows(out@) == drive_views(drives@, cwd@),
    {
        let mut out: Vec<DirEntryRow> = Vec::new();
        let mut i: usize = 0;
        while i < drives.len()
            invariant
                i <= drives@.len(),
                rows(out@) =~= drive_views(drives@.take(i as int), cwd@),
            decreases drives@.len() - i,
        {
            assert(drives@.take(i + 1).drop_last() =~= drives@.take(i as int));
            if !drives[i].same_as(cwd) {
                let ghost before = rows(out@);
                let row = DirEntryRow {
                    name: drives[i].display(),
                    path: drives[i].clone(),
                    kind: RowKind::Drive,
                    size: None,
                };
                out.push(row);
                assert(rows(out@) =~= before.push(row@));
            }
            i += 1;
        }
        assert(drives@.take(i as int) =~= drives@);
        out
    }

    /// What showing a listing changes: the rows, the problem there was, and the cursor where
    /// it would stand below the last row.
    pub open spec fn listing_shown(
        self,
        after: App,
        listing: Listing,
        drives: Seq<FilePath>,
    ) -> bool {
        &&& after == (App {
            entries: after.entries,
            picker_error: after.picker_error,
            picker_selected: after.picker_selected,
            ..self
        })
        &&& rows(after.entries@) == listed_rows(
            self.cwd@,
            drives,
            listing,
            self.show_hidden_in_picker,
        )
        &&& text_in(after.picker_error) == match listing {
            Listing::Unreadable(message) => Some(message@),
            Listing::Entries(_) => None,
        }
        &&& after.picker_selected == if self.picker_selected < after.entries@.len() {
            self.picker_selected as int
        } else {
            after.entries@.len() - 1
        }
    }

    /// Show what listing the current directory came to. Unreadable directories
    /// surface as an in-screen error rather than silently showing nothing.
    pub fn refresh_entries(&mut self, listing: Listing, drives: &Vec<FilePath>)
        ensures
            old(self).listing_shown(*final(self), listing, drives@),
    {
        let mut entries: Vec<DirEntryRow> = Vec::new();
        entries.push(
            DirEntryRow {
                name: self.cwd.display(),
                path: self.cwd.clone(),
                kind: RowKind::Current,
                size: None,
            },
        );
        let ghost first = entries@[0]@;
        assert(rows(entries@) =~= seq![first]);
        match self.cwd.parent() {
            Some(parent) => {
                entries.push(
                    DirEntryRow {
                        name: text_from(".."),
                        path: parent,
                        kind: RowKind::Parent,
                        size: None,
                    },
                );
            },
            None => {
                let mut others = App::drive_rows(drives, &self.cwd);
                let ghost o = rows(others@);
                entries.append(&mut others);
                assert(rows(entries@) =~= seq![first] + o);
            },
        }
        assert(rows(entries@) =~= top_rows(self.cwd@, drives@));
        self.picker_error = None;
        match listing {
            Listing::Unreadable(message) => {
                self.picker_error = Some(message);
            },
            Listing::Entries(list) => {
                push_contents(&mut entries, list, self.show_hidden_in_picker);
            },
        }
        assert(rows(entries@).len() == entries@.len());
        let last: usize = entries.len() - 1;
        if self.picker_selected > last {
            self.picker_selected = last;
        }
        self.entries = entries;
    }

    /// The directory `s` would scan.
    pub open spec fn target(self) -> Seq<u8> {
        if self.picker_selected < self.entries@.len() && descends(
            self.entries@[self.picker_selected as int].kind,
        ) {
            self.entries@[self.picker_selected as int].path@
        } else {
            self.cwd@
        }
    }

    /// The directory `s` would scan: what the highlighted row denotes, or the
    /// current directory when the highlight is on its own row, on a file, or
    /// nowhere. A file is never a scan target; dupefind scans trees.
    pub fn scan_target(&self) -> (p: FilePath)
        ensures
            p@ == self.target(),
    {
        if self.picker_selected >= self.entries.len() {
            return self.cwd.clone();
        }
        let row = &self.entries[self.picker_selected];
        match row.kind {
            // A file cannot be scanned; the directory holding it is the target.
            RowKind::Current | RowKind::File => self.cwd.clone(),
            RowKind::Parent | RowKind::Drive | RowKind::Directory => row.path.clone(),
        }
    }

    /// Short name of the scan target, for the footer hint.
    pub fn scan_target_label(&self) -> (s: String)
        ensures
            s@ == shown_name(self.target()),
    {
        self.scan_target().name_text()
    }

    /// Go to a directory; it has to be listed next.
    pub open spec fn moved_to(self, after: App, dir: Seq<u8>) -> bool {
        &&& after == (App { cwd: after.cwd, picker_selected: 0, ..self })
        &&& after.cwd@ == dir
    }

    /// Go to a directory; it has to be listed next.
    pub fn go_to(&mut self, dir: FilePath)
        ensures
            old(self).moved_to(*final(self), dir@),
    {
        self.cwd = dir;
        self.picker_selected = 0;
    }

    /// The highlighted row can be entered.
    pub open spec fn on_a_way_down(self) -> bool {
        self.picker_selected < self.entries@.len() && descends(
            self.entries@[self.picker_selected as int].kind,
        )
    }

    /// Enter the highlighted row. Files are context only, and the row of the
    /// current directory is where we already are.
    pub fn enter_selected_dir(&mut self) -> (action: Action)
        ensures
            old(self).on_a_way_down() ==> action == Action::List && old(self).moved_to(
                *final(self),
                old(self).entries@[old(self).picker_selected as int].path@,
            ),
            !old(self).on_a_way_down() ==> action == Action::Nothing && *final(self) == *old(self),
    {
        if self.picker_selected >= self.entries.len() {
            return Action::Nothing;
        }
        if !self.entries[self.picker_selected].is_navigable() {
            return Action::Nothing;
        }
        let path = self.entries[self.picker_selected].path.clone();
        self.go_to(path);
        Action::List
    }

    /// Go to the parent, where there is one.
    pub fn go_to_parent(&mut self) -> (action: Action)
        ensures
            parent_of(old(self).cwd@) is Some ==> action == Action::List && old(self).moved_to(
                *final(self),
                parent_of(old(self).cwd@)->0,
            ),
            parent_of(old(self).cwd@) is None ==> action == Action::Nothing && *final(self)
                == *old(self),
    {
        match self.cwd.parent() {
            Some(parent) => {
                self.go_to(parent);
                Action::List
            },
            None => Action::Nothing,
        }
    }
}

} // verus!
