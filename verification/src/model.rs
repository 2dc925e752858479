//! Core data types shared by the scanner, the deleter and the screens.

use crate::path::{copied_paths, extension_of, lies_in, paths_in, shown_name, FilePath};
use crate::text::{copied_texts, displayed, hex, hex_text, lists_text, lower_case, text_from, texts};
use crate::time::{Duration, FileTime};
use vstd::prelude::*;

verus! {

/// Files this large are probed by their head before they are read in full.
pub const DEFAULT_HEAD_HASH_MIN: u64 = 1_048_576;

/// Files below this size are not worth a cache record.
pub const DEFAULT_CACHE_MIN_SIZE: u64 = 262_144;

/// One file on disk belonging to a duplicate group.
#[derive(Debug)]
pub struct FileEntry {
    pub path: FilePath,
    pub size: u64,
    pub modified: Option<FileTime>,
    /// `false` means this copy is marked for deletion.
    pub keep: bool,
    /// A copy in a reference directory; it is never deleted.
    pub protected: bool,
}

impl FileEntry {
    /// A copy that is not kept yet and may be deleted.
    pub fn new(path: FilePath, size: u64, modified: Option<FileTime>) -> (f: Self)
        ensures
            f == (FileEntry { path, size, modified, keep: false, protected: false }),
    {
        FileEntry { path, size, modified, keep: false, protected: false }
    }

    /// A copy that is kept for good where it is `protected`.
    pub fn new_protected(
        path: FilePath,
        size: u64,
        modified: Option<FileTime>,
        protected: bool,
    ) -> (f: Self)
        ensures
            f == (FileEntry { path, size, modified, keep: protected, protected }),
    {
        FileEntry { path, size, modified, keep: protected, protected }
    }

    /// The name for display; paths are not guaranteed to be UTF-8.
    pub fn file_name(&self) -> (name: String)
        ensures
            name@ == shown_name(self.path@),
    {
        self.path.name_text()
    }

    /// The copy would be deleted.
    pub open spec fn doomed(self) -> bool {
        !self.keep && !self.protected
    }
}

/// Which copy to keep when applying a bulk strategy to every group.
#[derive(Debug, Clone, Copy, PartialEq, Eq, Structural)]
pub enum KeepStrategy {
    /// Keep the first entry as listed. This is the "quick select" default.
    First,
    Newest,
    Oldest,
    ShortestPath,
}

impl KeepStrategy {
    /// The words for a strategy.
    pub open spec fn words(self) -> Seq<char> {
        match self {
            KeepStrategy::First => "first"@,
            KeepStrategy::Newest => "newest"@,
            KeepStrategy::Oldest => "oldest"@,
            KeepStrategy::ShortestPath => "shortest path"@,
        }
    }

    /// The words for a strategy.
    pub fn label(self) -> (s: &'static str)
        ensures
            s@ == self.words(),
    {
        match self {
            KeepStrategy::First => "first",
            KeepStrategy::Newest => "newest",
            KeepStrategy::Oldest => "oldest",
            KeepStrategy::ShortestPath => "shortest path",
        }
    }
}

/// How many of the files have a property.
pub open spec fn how_many(files: Seq<FileEntry>, p: spec_fn(FileEntry) -> bool) -> nat
    decreases files.len(),
{
    if files.len() == 0 {
        0
    } else {
        how_many(files.drop_last(), p) + if p(files.last()) {
            1nat
        } else {
            0nat
        }
    }
}

/// At most all of them have it, and none exactly where none has it.
pub proof fn how_many_bounds(files: Seq<FileEntry>, p: spec_fn(FileEntry) -> bool)
    ensures
        how_many(files, p) <= files.len(),
        how_many(files, p) == 0 <==> forall|i: int| 0 <= i < files.len() ==> !p(#[trigger] files[i]),
    decreases files.len(),
{
    if files.len() > 0 {
        let rest = files.drop_last();
        how_many_bounds(rest, p);
        assert(files.last() == files[files.len() - 1]);
        if forall|i: int| 0 <= i < rest.len() ==> !p(#[trigger] rest[i]) {
            assert forall|i: int| 0 <= i < files.len() - 1 implies !p(#[trigger] files[i]) by {
                assert(rest[i] == files[i]);
            }
        } else {
            let i = choose|i: int| 0 <= i < rest.len() && p(#[trigger] rest[i]);
            assert(p(files[i]));
        }
    }
}

/// Exactly one has it where a single position is known to.
pub proof fn how_many_is_one(files: Seq<FileEntry>, p: spec_fn(FileEntry) -> bool, at: int)
    requires
        0 <= at < files.len(),
        forall|i: int| 0 <= i < files.len() ==> (p(#[trigger] files[i]) <==> i == at),
    ensures
        how_many(files, p) == 1,
    decreases files.len(),
{
    let rest = files.drop_last();
    assert(files.last() == files[files.len() - 1]);
    assert forall|i: int| 0 <= i < rest.len() implies (p(#[trigger] rest[i]) <==> i == at) by {
        assert(rest[i] == files[i]);
    }
    if at == files.len() - 1 {
        how_many_bounds(rest, p);
    } else {
        how_many_is_one(rest, p, at);
    }
}

/// Changing one of the files changes the count by what that file contributed.
pub proof fn how_many_updated(
    files: Seq<FileEntry>,
    p: spec_fn(FileEntry) -> bool,
    at: int,
    f: FileEntry,
)
    requires
        0 <= at < files.len(),
    ensures
        how_many(files.update(at, f), p) + (if p(files[at]) {
            1int
        } else {
            0int
        }) == how_many(files, p) + (if p(f) {
            1int
        } else {
            0int
        }),
    decreases files.len(),
{
    let new = files.update(at, f);
    if at == files.len() - 1 {
        assert(new.drop_last() =~= files.drop_last());
    } else {
        assert(new.drop_last() =~= files.drop_last().update(at, f));
        how_many_updated(files.drop_last(), p, at, f);
    }
}

/// Files that are kept.
pub open spec fn keepers(files: Seq<FileEntry>) -> nat {
    how_many(files, |f: FileEntry| f.keep)
}

/// Files that would be deleted.
pub open spec fn doomed(files: Seq<FileEntry>) -> nat {
    how_many(files, |f: FileEntry| f.doomed())
}

/// The files with `idx` kept, next to those that are protected, and no other.
pub open spec fn kept_only(files: Seq<FileEntry>, idx: int) -> Seq<FileEntry> {
    Seq::new(
        files.len(),
        |i: int| FileEntry { keep: i == idx || files[i].protected, ..files[i] },
    )
}

/// `idx` is the copy that a strategy keeps: the earliest among the best ones.
/// Files without a time never win by time; where none has one, it is the first.
pub open spec fn is_choice(files: Seq<FileEntry>, strategy: KeepStrategy, idx: int) -> bool {
    &&& 0 <= idx < files.len()
    &&& match strategy {
        KeepStrategy::First => idx == 0,
        KeepStrategy::ShortestPath => forall|j: int|
            0 <= j < files.len() ==> {
                &&& files[idx].path@.len() <= (#[trigger] files[j]).path@.len()
                &&& j < idx ==> files[idx].path@.len() < files[j].path@.len()
            },
        KeepStrategy::Newest => is_extreme(files, true, idx),
        KeepStrategy::Oldest => is_extreme(files, false, idx),
    }
}

/// `idx` is the first of the newest (or oldest) files, or 0 without any time.
pub open spec fn is_extreme(files: Seq<FileEntry>, newest: bool, idx: int) -> bool {
    if forall|j: int| 0 <= j < files.len() ==> (#[trigger] files[j]).modified is None {
        idx == 0
    } else {
        &&& 0 <= idx < files.len()
        &&& files[idx].modified is Some
        &&& forall|j: int|
            0 <= j < files.len() && (#[trigger] files[j]).modified is Some ==> {
                let mine = files[idx].modified->0.at();
                let theirs = files[j].modified->0.at();
                &&& if newest {
                    theirs <= mine
                } else {
                    mine <= theirs
                }
                &&& j < idx ==> mine != theirs
            }
    }
}

/// The copy that a strategy keeps.
pub open spec fn choice(files: Seq<FileEntry>, strategy: KeepStrategy) -> int {
    choose|idx: int| is_choice(files, strategy, idx)
}

/// A strategy leaves no doubt which copy it keeps.
pub proof fn choice_is_unique(files: Seq<FileEntry>, strategy: KeepStrategy, idx: int)
    requires
        is_choice(files, strategy, idx),
    ensures
        choice(files, strategy) == idx,
{
    let other = choice(files, strategy);
    assert(is_choice(files, strategy, other));
    assert(files[idx] == files[idx] && files[other] == files[other]);
    if strategy is Newest || strategy is Oldest {
        if !(forall|j: int| 0 <= j < files.len() ==> (#[trigger] files[j]).modified is None) {
            if idx < other || other < idx {
                assert(files[idx].modified is Some && files[other].modified is Some);
            }
        }
    }
}

/// Two or more files with byte-identical content.
#[derive(Debug)]
pub struct DupeGroup {
    pub hash: [u8; 32],
    /// Size of a single file; identical across the whole group.
    pub size: u64,
    pub files: Vec<FileEntry>,
    /// When set, nothing in this group is deleted regardless of the marks.
    pub skipped: bool,
}

impl DupeGroup {
    /// Bytes of all copies together.
    pub open spec fn total_bytes(self) -> int {
        self.size * self.files@.len()
    }

    /// Every file has the size of the group, and the whole group can be counted.
    pub open spec fn counted(self) -> bool {
        &&& forall|i: int| 0 <= i < self.files@.len() ==> (#[trigger] self.files@[i]).size == self.size
        &&& self.total_bytes() <= u64::MAX
    }

    /// At least one copy is kept, and so is every protected one.
    pub open spec fn keeps_a_copy(self) -> bool {
        &&& self.files@.len() > 0 ==> keepers(self.files@) >= 1
        &&& forall|i: int|
            0 <= i < self.files@.len() && (#[trigger] self.files@[i]).protected
                ==> self.files@[i].keep
    }

    /// A group that may be shown and acted on.
    pub open spec fn wf(self) -> bool {
        self.counted() && self.keeps_a_copy()
    }

    /// Bytes that would be freed by keeping exactly one copy.
    pub open spec fn wasted_bytes(self) -> int {
        if self.files@.len() == 0 {
            0
        } else {
            self.size * (self.files@.len() - 1)
        }
    }

    /// How many copies the marks would delete.
    pub open spec fn marked_files(self) -> nat {
        if self.skipped {
            0
        } else {
            doomed(self.files@)
        }
    }

    /// Bytes that the marks would free.
    pub open spec fn reclaimable_bytes(self) -> int {
        self.size * self.marked_files()
    }

    /// The name shown for the group: that of its first file.
    pub open spec fn name(self) -> Seq<char> {
        if self.files@.len() == 0 {
            Seq::empty()
        } else {
            shown_name(self.files@[0].path@)
        }
    }

    /// A new group keeps its first entry, and what is protected.
    pub fn new(hash: [u8; 32], size: u64, files: Vec<FileEntry>) -> (g: Self)
        ensures
            g.hash == hash,
            g.size == size,
            !g.skipped,
            g.files@ == kept_only(files@, 0),
            g.keeps_a_copy(),
    {
        let mut group = DupeGroup { hash, size, files, skipped: false };
        group.apply_strategy(KeepStrategy::First);
        proof {
            if files@.len() > 0 {
                assert(is_choice(files@, KeepStrategy::First, 0));
                choice_is_unique(files@, KeepStrategy::First, 0);
            } else {
                assert(group.files@ =~= kept_only(files@, 0));
            }
        }
        group
    }

    /// Bytes that would be freed by keeping exactly one copy.
    pub fn wasted(&self) -> (n: u64)
        requires
            self.wasted_bytes() <= u64::MAX,
        ensures
            n == self.wasted_bytes(),
    {
        let copies: usize = self.files.len();
        if copies == 0 {
            return 0;
        }
        assert(0 <= self.size * (copies - 1)) by (nonlinear_arith)
            requires
                copies >= 1,
        ;
        self.size * (copies as u64 - 1)
    }

    /// Bytes that would be freed by keeping exactly one copy, however many.
    pub fn wasted_wide(&self) -> (n: u128)
        ensures
            n == self.wasted_bytes(),
    {
        let copies: usize = self.files.len();
        if copies == 0 {
            return 0;
        }
        let rest: u64 = copies as u64 - 1;
        assert(0 <= self.size * rest <= 0xffff_ffff_ffff_ffff * 0xffff_ffff_ffff_ffff)
            by (nonlinear_arith)
            requires
                self.size <= 0xffff_ffff_ffff_ffff,
                rest <= 0xffff_ffff_ffff_ffff,
        ;
        self.size as u128 * rest as u128
    }

    /// Number of copies currently marked for deletion.
    pub fn marked(&self) -> (n: usize)
        ensures
            n == self.marked_files(),
    {
        if self.skipped {
            return 0;
        }
        let mut n: usize = 0;
        let mut i: usize = 0;
        let ghost p = |f: FileEntry| f.doomed();
        while i < self.files.len()
            invariant
                i <= self.files@.len(),
                n <= i,
                n == how_many(self.files@.take(i as int), p),
                p == (|f: FileEntry| f.doomed()),
            decreases self.files@.len() - i,
        {
            assert(self.files@.take(i + 1).drop_last() =~= self.files@.take(i as int));
            if !self.files[i].keep && !self.files[i].protected {
                n += 1;
            }
            i += 1;
        }
        assert(self.files@.take(i as int) =~= self.files@);
        n
    }

    /// Bytes that would be freed by the current marks.
    pub fn reclaimable(&self) -> (n: u64)
        requires
            self.reclaimable_bytes() <= u64::MAX,
        ensures
            n == self.reclaimable_bytes(),
    {
        let marked: usize = self.marked();
        assert(0 <= self.size * marked) by (nonlinear_arith);
        self.size * marked as u64
    }

    /// Number of copies that are kept.
    pub fn keeper_count(&self) -> (n: usize)
        ensures
            n == keepers(self.files@),
    {
        let mut n: usize = 0;
        let mut i: usize = 0;
        let ghost p = |f: FileEntry| f.keep;
        while i < self.files.len()
            invariant
                i <= self.files@.len(),
                n <= i,
                n == how_many(self.files@.take(i as int), p),
                p == (|f: FileEntry| f.keep),
            decreases self.files@.len() - i,
        {
            assert(self.files@.take(i + 1).drop_last() =~= self.files@.take(i as int));
            if self.files[i].keep {
                n += 1;
            }
            i += 1;
        }
        assert(self.files@.take(i as int) =~= self.files@);
        n
    }

    /// Make `idx` the sole keeper, next to what is protected. An index that is
    /// not in the group changes nothing.
    pub fn keep_only(&mut self, idx: usize)
        ensures
            *final(self) == (DupeGroup { files: final(self).files, ..*old(self) }),
            final(self).files@ == if idx < old(self).files@.len() {
                kept_only(old(self).files@, idx as int)
            } else {
                old(self).files@
            },
            old(self).keeps_a_copy() || idx < old(self).files@.len()
                ==> final(self).keeps_a_copy(),
    {
        if idx >= self.files.len() {
            return;
        }
        let ghost before = self.files@;
        let mut i: usize = 0;
        while i < self.files.len()
            invariant
                i <= self.files@.len(),
                self.files@.len() == before.len(),
                *self == (DupeGroup { files: self.files, ..*old(self) }),
                forall|j: int| 0 <= j < i ==> #[trigger] self.files@[j] == kept_only(before, idx as int)[j],
                forall|j: int| i <= j < before.len() ==> #[trigger] self.files@[j] == before[j],
            decreases self.files@.len() - i,
        {
            let keep: bool = i == idx || self.files[i].protected;
            self.files[i].keep = keep;
            i += 1;
        }
        proof {
            assert(self.files@ =~= kept_only(before, idx as int));
            kept_only_keeps(before, idx as int);
        }
    }

    /// Flip the mark on one file.
    ///
    /// Refuses to clear the last keeper, to touch a protected copy or an index
    /// that is not in the group, and returns `false` then, so "delete every copy
    /// of a file" is unrepresentable rather than merely discouraged.
    pub fn toggle_mark(&mut self, idx: usize) -> (done: bool)
        ensures
            done == {
                &&& idx < old(self).files@.len()
                &&& !old(self).files@[idx as int].protected
                &&& !(old(self).files@[idx as int].keep && keepers(old(self).files@) <= 1)
            },
            *final(self) == (DupeGroup { files: final(self).files, ..*old(self) }),
            final(self).files@ == if done {
                old(self).files@.update(
                    idx as int,
                    FileEntry {
                        keep: !old(self).files@[idx as int].keep,
                        ..old(self).files@[idx as int]
                    },
                )
            } else {
                old(self).files@
            },
            old(self).keeps_a_copy() ==> final(self).keeps_a_copy(),
    {
        if idx >= self.files.len() {
            return false;
        }
        if self.files[idx].protected {
            return false;
        }
        if self.files[idx].keep && self.keeper_count() <= 1 {
            return false;
        }
        let ghost before = self.files@;
        let keep: bool = !self.files[idx].keep;
        self.files[idx].keep = keep;
        proof {
            let f = FileEntry { keep: !before[idx as int].keep, ..before[idx as int] };
            assert(self.files@ =~= before.update(idx as int, f));
            how_many_updated(before, |f: FileEntry| f.keep, idx as int, f);
            assert forall|i: int|
                0 <= i < self.files@.len() && (#[trigger] self.files@[i]).protected
                    && old(self).keeps_a_copy() implies self.files@[i].keep by {
                assert(before[i].protected);
            }
        }
        true
    }

    /// Choose the keeper for this group according to `strategy`.
    pub fn apply_strategy(&mut self, strategy: KeepStrategy)
        ensures
            *final(self) == (DupeGroup { files: final(self).files, ..*old(self) }),
            final(self).files@ == if old(self).files@.len() > 0 {
                kept_only(old(self).files@, choice(old(self).files@, strategy))
            } else {
                old(self).files@
            },
            old(self).files@.len() > 0 ==> is_choice(
                old(self).files@,
                strategy,
                choice(old(self).files@, strategy),
            ),
            final(self).keeps_a_copy(),
    {
        if self.files.len() == 0 {
            return;
        }
        let idx: usize = match strategy {
            KeepStrategy::First => 0,
            KeepStrategy::Newest => self.extreme_by_time(true),
            KeepStrategy::Oldest => self.extreme_by_time(false),
            KeepStrategy::ShortestPath => self.shortest_path(),
        };
        proof {
            assert(is_choice(self.files@, strategy, idx as int));
            choice_is_unique(self.files@, strategy, idx as int);
        }
        self.keep_only(idx);
    }

    /// Index of the newest (or oldest) file. Entries without a timestamp never
    /// win, so a group with no timestamps at all falls back to the first entry.
    fn extreme_by_time(&self, newest: bool) -> (idx: usize)
        requires
            self.files@.len() > 0,
        ensures
            idx < self.files@.len(),
            is_extreme(self.files@, newest, idx as int),
    {
        let ghost files = self.files@;
        let mut best: usize = 0;
        let mut found: bool = false;
        let mut i: usize = 0;
        while i < self.files.len()
            invariant
                files == self.files@,
                i <= files.len(),
                !found ==> best == 0 && forall|j: int|
                    0 <= j < i ==> (#[trigger] files[j]).modified is None,
                found ==> best < i && files[best as int].modified is Some && forall|j: int|
                    0 <= j < i && (#[trigger] files[j]).modified is Some ==> {
                        let mine = files[best as int].modified->0.at();
                        let theirs = files[j].modified->0.at();
                        &&& if newest {
                            theirs <= mine
                        } else {
                            mine <= theirs
                        }
                        &&& j < best ==> mine != theirs
                    },
            decreases files.len() - i,
        {
            if let Some(t) = self.files[i].modified {
                let better: bool = if !found {
                    true
                } else {
                    match self.files[best].modified {
                        None => true,
                        Some(b) => if newest {
                            t.unix_nanos() > b.unix_nanos()
                        } else {
                            t.unix_nanos() < b.unix_nanos()
                        },
                    }
                };
                if better {
                    best = i;
                    found = true;
                }
            }
            i += 1;
        }
        best
    }

    /// Index of the first file with the shortest path.
    fn shortest_path(&self) -> (idx: usize)
        requires
            self.files@.len() > 0,
        ensures
            is_choice(self.files@, KeepStrategy::ShortestPath, idx as int),
    {
        let ghost files = self.files@;
        let mut best: usize = 0;
        let mut i: usize = 1;
        while i < self.files.len()
            invariant
                files == self.files@,
                1 <= i <= files.len(),
                best < i,
                forall|j: int|
                    0 <= j < i ==> {
                        &&& files[best as int].path@.len() <= (#[trigger] files[j]).path@.len()
                        &&& j < best ==> files[best as int].path@.len() < files[j].path@.len()
                    },
            decreases files.len() - i,
        {
            if self.files[i].path.byte_len() < self.files[best].path.byte_len() {
                best = i;
            }
            i += 1;
        }
        best
    }

    /// Short hex prefix of the content hash, for display.
    pub fn hash_prefix(&self) -> (s: String)
        ensures
            s@ == hex(self.hash@.take(6)),
    {
        hex_text(&self.hash, 6)
    }

    /// A representative name for the group, used in the group list.
    pub fn label(&self) -> (s: String)
        ensures
            s@ == self.name(),
    {
        if self.files.len() == 0 {
            String::new()
        } else {
            self.files[0].file_name()
        }
    }
}

/// Keeping one copy keeps a copy, and every protected one.
pub proof fn kept_only_keeps(files: Seq<FileEntry>, idx: int)
    requires
        0 <= idx < files.len(),
    ensures
        keepers(kept_only(files, idx)) >= 1,
        forall|i: int|
            0 <= i < files.len() && (#[trigger] kept_only(files, idx)[i]).protected
                ==> kept_only(files, idx)[i].keep,
{
    let p = |f: FileEntry| f.keep;
    how_many_bounds(kept_only(files, idx), p);
    assert(p(kept_only(files, idx)[idx]));
}

/// Files in all groups together.
pub open spec fn files_in(groups: Seq<DupeGroup>) -> int
    decreases groups.len(),
{
    if groups.len() == 0 {
        0
    } else {
        files_in(groups.drop_last()) + groups.last().files@.len()
    }
}

/// Bytes in all groups together.
pub open spec fn bytes_in(groups: Seq<DupeGroup>) -> int
    decreases groups.len(),
{
    if groups.len() == 0 {
        0
    } else {
        bytes_in(groups.drop_last()) + groups.last().total_bytes()
    }
}

/// Marked files in all groups together.
pub open spec fn marked_in(groups: Seq<DupeGroup>) -> int
    decreases groups.len(),
{
    if groups.len() == 0 {
        0
    } else {
        marked_in(groups.drop_last()) + groups.last().marked_files()
    }
}

/// Bytes that the marks of all groups together would free.
pub open spec fn reclaimable_in(groups: Seq<DupeGroup>) -> int
    decreases groups.len(),
{
    if groups.len() == 0 {
        0
    } else {
        reclaimable_in(groups.drop_last()) + groups.last().reclaimable_bytes()
    }
}

/// The groups are sound one by one and can be counted together.
pub open spec fn fit(groups: Seq<DupeGroup>) -> bool {
    &&& forall|g: int| 0 <= g < groups.len() ==> (#[trigger] groups[g]).wf()
    &&& files_in(groups) <= usize::MAX
    &&& bytes_in(groups) <= u64::MAX
}

/// The totals of the first groups are at most those of all groups.
pub proof fn totals_grow(groups: Seq<DupeGroup>, n: int)
    requires
        0 <= n <= groups.len(),
    ensures
        0 <= files_in(groups.take(n)) <= files_in(groups),
        0 <= bytes_in(groups.take(n)) <= bytes_in(groups),
    decreases groups.len(),
{
    if n == groups.len() {
        assert(groups.take(n) =~= groups);
        if n > 0 {
            totals_grow(groups.drop_last(), n - 1);
            total_is_not_negative(groups.last());
            assert(groups.drop_last().take(n - 1) =~= groups.drop_last());
        }
    } else {
        assert(groups.drop_last().take(n) =~= groups.take(n));
        totals_grow(groups.drop_last(), n);
        total_is_not_negative(groups.last());
    }
}

proof fn total_is_not_negative(g: DupeGroup)
    ensures
        g.total_bytes() >= 0,
{
    let size = g.size as int;
    let len = g.files@.len() as int;
    assert(size * len >= 0) by (nonlinear_arith)
        requires
            size >= 0,
            len >= 0,
    ;
}

/// What is marked is part of the whole.
pub proof fn marked_is_part(groups: Seq<DupeGroup>)
    ensures
        0 <= marked_in(groups) <= files_in(groups),
        0 <= reclaimable_in(groups) <= bytes_in(groups),
    decreases groups.len(),
{
    if groups.len() > 0 {
        marked_is_part(groups.drop_last());
        reclaimable_is_part(groups.last());
    }
}

/// What a group wastes is part of the group.
pub proof fn wasted_is_part(g: DupeGroup)
    ensures
        0 <= g.wasted_bytes() <= g.total_bytes(),
{
    let size = g.size as int;
    let len = g.files@.len() as int;
    assert(len > 0 ==> 0 <= size * (len - 1) <= size * len) by (nonlinear_arith)
        requires
            size >= 0,
            len >= 0,
    ;
    assert(size * 0 == 0);
}

/// What is marked in a group is part of the group.
pub proof fn reclaimable_is_part(g: DupeGroup)
    ensures
        0 <= g.marked_files() <= g.files@.len(),
        0 <= g.reclaimable_bytes() <= g.total_bytes(),
{
    how_many_bounds(g.files@, |f: FileEntry| f.doomed());
    let size = g.size as int;
    let marked = g.marked_files() as int;
    let len = g.files@.len() as int;
    assert(0 <= size * marked <= size * len) by (nonlinear_arith)
        requires
            size >= 0,
            0 <= marked <= len,
    ;
}

/// Whether a group is sound: all files of one size, at least one and every
/// protected copy kept, and small enough to be counted.
pub fn is_sound(group: &DupeGroup) -> (b: bool)
    ensures
        b == group.wf(),
{
    let mut i: usize = 0;
    while i < group.files.len()
        invariant
            i <= group.files@.len(),
            forall|j: int|
                0 <= j < i ==> {
                    &&& (#[trigger] group.files@[j]).size == group.size
                    &&& group.files@[j].protected ==> group.files@[j].keep
                },
        decreases group.files@.len() - i,
    {
        let file = &group.files[i];
        if file.size != group.size || (file.protected && !file.keep) {
            assert(group.files@[i as int].size != group.size || (group.files@[i as int].protected
                && !group.files@[i as int].keep));
            return false;
        }
        i += 1;
    }
    let copies: u64 = group.files.len() as u64;
    let size: u64 = group.size;
    assert(0 <= size * copies <= 0xffff_ffff_ffff_ffff * 0xffff_ffff_ffff_ffff)
        by (nonlinear_arith)
        requires
            size <= 0xffff_ffff_ffff_ffff,
            copies <= 0xffff_ffff_ffff_ffff,
    ;
    if size as u128 * copies as u128 > u64::MAX as u128 {
        return false;
    }
    group.files.len() == 0 || group.keeper_count() >= 1
}

/// Whether the groups are sound and can be counted together.
pub fn groups_fit(groups: &Vec<DupeGroup>) -> (b: bool)
    ensures
        b == fit(groups@),
{
    let mut files: usize = 0;
    let mut bytes: u64 = 0;
    let mut g: usize = 0;
    while g < groups.len()
        invariant
            g <= groups@.len(),
            forall|h: int| 0 <= h < g ==> (#[trigger] groups@[h]).wf(),
            files == files_in(groups@.take(g as int)),
            bytes == bytes_in(groups@.take(g as int)),
        decreases groups@.len() - g,
    {
        proof {
            assert(groups@.take(g + 1).drop_last() =~= groups@.take(g as int));
            totals_grow(groups@, g + 1);
        }
        if !is_sound(&groups[g]) {
            assert(!groups@[g as int].wf());
            return false;
        }
        let count: usize = groups[g].files.len();
        proof {
            total_is_not_negative(groups@[g as int]);
        }
        let total: u64 = groups[g].size * count as u64;
        if count > usize::MAX - files || total > u64::MAX - bytes {
            return false;
        }
        files += count;
        bytes += total;
        g += 1;
    }
    assert(groups@.take(g as int) =~= groups@);
    true
}

/// How the results list is ordered.
#[derive(Debug, Clone, Copy, PartialEq, Eq, Structural)]
pub enum SortKey {
    /// Bytes wasted by the group: most impactful first.
    Wasted,
    Size,
    Count,
    Name,
}

impl SortKey {
    /// The key after this one.
    pub open spec fn following(self) -> SortKey {
        match self {
            SortKey::Wasted => SortKey::Size,
            SortKey::Size => SortKey::Count,
            SortKey::Count => SortKey::Name,
            SortKey::Name => SortKey::Wasted,
        }
    }

    /// The word for a key.
    pub open spec fn word(self) -> Seq<char> {
        match self {
            SortKey::Wasted => "wasted"@,
            SortKey::Size => "size"@,
            SortKey::Count => "count"@,
            SortKey::Name => "name"@,
        }
    }

    /// The key after this one.
    pub fn next(self) -> (k: Self)
        ensures
            k == self.following(),
    {
        match self {
            SortKey::Wasted => SortKey::Size,
            SortKey::Size => SortKey::Count,
            SortKey::Count => SortKey::Name,
            SortKey::Name => SortKey::Wasted,
        }
    }

    /// The word for a key.
    pub fn label(self) -> (s: &'static str)
        ensures
            s@ == self.word(),
    {
        match self {
            SortKey::Wasted => "wasted",
            SortKey::Size => "size",
            SortKey::Count => "count",
            SortKey::Name => "name",
        }
    }
}

/// The sort keys come back around after four steps, and no sooner.
pub proof fn sort_keys_cycle(k: SortKey)
    ensures
        k.following().following().following().following() == k,
        k.following() != k,
        k.following().following() != k,
        k.following().following().following() != k,
{
}

/// Filters applied while walking the tree.
#[derive(Debug)]
pub struct ScanOptions {
    pub skip_hidden: bool,
    pub respect_gitignore: bool,
    /// Every empty file is trivially identical to every other, which would
    /// produce one enormous useless group.
    pub skip_empty: bool,
    /// Report two paths pointing at the same physical file as one entry;
    /// deleting one of them would free nothing.
    pub collapse_hardlinks: bool,
    pub same_file_system: bool,
    pub follow_links: bool,
    pub min_size: u64,
    /// Only files above this size are probed by their head.
    pub head_hash_min: u64,
    /// Reuse hashes from earlier scans.
    pub use_cache: bool,
    /// Only files at least this large are cached.
    pub cache_min_size: u64,
    /// Directories that take part in matching but are never deleted from.
    pub reference_roots: Vec<FilePath>,
    /// Extensions to leave out entirely, lower-case and without the dot.
    pub exclude_exts: Vec<String>,
}

impl ScanOptions {
    /// This path is excluded by its extension, whatever its case.
    pub open spec fn excludes(self, path: Seq<u8>) -> bool {
        &&& extension_of(path) is Some
        &&& vstd::utf8::valid_utf8(extension_of(path)->0)
        &&& texts(self.exclude_exts@).contains(
            lower_case(vstd::utf8::decode_utf8(extension_of(path)->0)),
        )
    }

    /// This path lies in a reference directory.
    pub open spec fn protects(self, path: Seq<u8>) -> bool {
        exists|i: int|
            0 <= i < self.reference_roots@.len() && lies_in(
                path,
                (#[trigger] self.reference_roots@[i])@,
            )
    }

    /// The same settings.
    pub open spec fn same_as(self, other: ScanOptions) -> bool {
        &&& self == (ScanOptions {
            reference_roots: self.reference_roots,
            exclude_exts: self.exclude_exts,
            ..other
        })
        &&& paths_in(self.reference_roots@) == paths_in(other.reference_roots@)
        &&& texts(self.exclude_exts@) == texts(other.exclude_exts@)
    }

    /// Whether this path is excluded by extension. Case-insensitive, because
    /// `FOO.DLL` and `foo.dll` are the same file to Windows.
    pub fn excluded_by_extension(&self, path: &FilePath) -> (b: bool)
        ensures
            b == self.excludes(path@),
    {
        if self.exclude_exts.len() == 0 {
            assert(texts(self.exclude_exts@).len() == 0);
            return false;
        }
        match path.extension() {
            Some(ext) => {
                let ext = ext.as_str().to_lowercase();
                lists_text(&self.exclude_exts, &ext)
            },
            // No extension, or one that is not valid UTF-8: nothing to match.
            None => false,
        }
    }

    /// Whether this path lies in a reference directory.
    pub fn is_protected(&self, path: &FilePath) -> (b: bool)
        ensures
            b == self.protects(path@),
    {
        let mut i: usize = 0;
        while i < self.reference_roots.len()
            invariant
                i <= self.reference_roots@.len(),
                forall|j: int|
                    0 <= j < i ==> !lies_in(path@, (#[trigger] self.reference_roots@[j])@),
            decreases self.reference_roots@.len() - i,
        {
            if path.starts_with(&self.reference_roots[i]) {
                return true;
            }
            i += 1;
        }
        false
    }
}

impl Clone for ScanOptions {
    fn clone(&self) -> (r: Self)
        ensures
            r.same_as(*self),
    {
        ScanOptions {
            skip_hidden: self.skip_hidden,
            respect_gitignore: self.respect_gitignore,
            skip_empty: self.skip_empty,
            collapse_hardlinks: self.collapse_hardlinks,
            same_file_system: self.same_file_system,
            follow_links: self.follow_links,
            min_size: self.min_size,
            head_hash_min: self.head_hash_min,
            use_cache: self.use_cache,
            cache_min_size: self.cache_min_size,
            reference_roots: copied_paths(&self.reference_roots),
            exclude_exts: copied_texts(&self.exclude_exts),
        }
    }
}

impl Default for ScanOptions {
    fn default() -> (r: Self)
        ensures
            r.skip_hidden,
            r.respect_gitignore,
            r.skip_empty,
            r.collapse_hardlinks,
            !r.same_file_system,
            !r.follow_links,
            r.min_size == 0,
            r.head_hash_min == DEFAULT_HEAD_HASH_MIN,
            !r.use_cache,
            r.cache_min_size == DEFAULT_CACHE_MIN_SIZE,
            r.reference_roots@.len() == 0,
            r.exclude_exts@.len() == 0,
    {
        ScanOptions {
            skip_hidden: true,
            respect_gitignore: true,
            skip_empty: true,
            collapse_hardlinks: true,
            same_file_system: false,
            follow_links: false,
            min_size: 0,
            head_hash_min: DEFAULT_HEAD_HASH_MIN,
            use_cache: false,
            cache_min_size: DEFAULT_CACHE_MIN_SIZE,
            reference_roots: Vec::new(),
            exclude_exts: Vec::new(),
        }
    }
}

/// Which stage the scanner is in.
#[derive(Debug, Clone, Copy, PartialEq, Eq, Structural)]
pub enum Phase {
    Walking,
    Pruning,
    HeadHashing,
    FullHashing,
    Finalizing,
}

impl Phase {
    /// The words for a stage.
    pub open spec fn words(self) -> Seq<char> {
        match self {
            Phase::Walking => "Walking the tree"@,
            Phase::Pruning => "Grouping by size"@,
            Phase::HeadHashing => "Hashing file heads"@,
            Phase::FullHashing => "Hashing full contents"@,
            Phase::Finalizing => "Finalizing"@,
        }
    }

    /// The words for a stage.
    pub fn label(self) -> (s: &'static str)
        ensures
            s@ == self.words(),
    {
        match self {
            Phase::Walking => "Walking the tree",
            Phase::Pruning => "Grouping by size",
            Phase::HeadHashing => "Hashing file heads",
            Phase::FullHashing => "Hashing full contents",
            Phase::Finalizing => "Finalizing",
        }
    }
}

/// A non-fatal problem with one path. The scan always continues.
#[derive(Debug)]
pub struct ScanError {
    pub path: Option<FilePath>,
    pub message: String,
}

impl ScanError {
    /// A problem, with the path it is about where there is one.
    pub fn new(path: Option<FilePath>, message: String) -> (e: Self)
        ensures
            e == (ScanError { path, message }),
    {
        ScanError { path, message }
    }

    /// One line for the problem.
    pub open spec fn line(self) -> Seq<char> {
        match self.path {
            Some(p) => displayed(p@) + ": "@ + self.message@,
            None => self.message@,
        }
    }

    /// One line for the problem.
    pub fn display(&self) -> (s: String)
        ensures
            s@ == self.line(),
    {
        match &self.path {
            Some(p) => {
                let mut s = p.display();
                s.append(": ");
                s.append(self.message.as_str());
                s
            },
            None => text_from(self.message.as_str()),
        }
    }
}

/// Messages the scanner sends to the screens. Only stage transitions and the
/// final result travel as messages; the live counters live in [`ScanState`].
#[derive(Debug)]
pub enum ScanMsg {
    Phase(Phase),
    Error(ScanError),
    Done(Vec<DupeGroup>),
    Cancelled,
}

/// Counters of a running scan, read once per frame.
#[derive(Debug)]
pub struct ScanState {
    pub files_seen: u64,
    pub dirs_seen: u64,
    pub bytes_seen: u64,
    pub files_skipped: u64,
    pub candidates: u64,
    pub files_hashed: u64,
    pub bytes_hashed: u64,
    pub cache_hits: u64,
    /// Files of surviving groups that were identified, and how many there are.
    pub files_checked: u64,
    pub files_to_check: u64,
    pub errors: u64,
    /// When reading began and ended, measured from the start of the scan.
    pub hashing_began: Option<Duration>,
    pub hashing_ended: Option<Duration>,
    pub current: String,
    pub cancel: bool,
}

impl Default for ScanState {
    fn default() -> (s: Self)
        ensures
            s.is_fresh(),
    {
        ScanState {
            files_seen: 0,
            dirs_seen: 0,
            bytes_seen: 0,
            files_skipped: 0,
            candidates: 0,
            files_hashed: 0,
            bytes_hashed: 0,
            cache_hits: 0,
            files_checked: 0,
            files_to_check: 0,
            errors: 0,
            hashing_began: None,
            hashing_ended: None,
            current: String::new(),
            cancel: false,
        }
    }
}

impl ScanState {
    /// Nothing was counted yet and nobody asked to stop.
    pub open spec fn is_fresh(self) -> bool {
        &&& self.files_seen == 0
        &&& self.dirs_seen == 0
        &&& self.bytes_seen == 0
        &&& self.files_skipped == 0
        &&& self.candidates == 0
        &&& self.files_hashed == 0
        &&& self.bytes_hashed == 0
        &&& self.cache_hits == 0
        &&& self.files_checked == 0
        &&& self.files_to_check == 0
        &&& self.errors == 0
        &&& self.hashing_began is None
        &&& self.hashing_ended is None
        &&& self.current@.len() == 0
        &&& !self.cancel
    }

    /// Count `by` more. A counter that is full starts over.
    pub fn bump(counter: &mut u64, by: u64)
        ensures
            *final(counter) == (*old(counter) + by) % 0x1_0000_0000_0000_0000,
    {
        *counter = counter.wrapping_add(by);
    }

    /// What a counter shows.
    pub fn get(counter: &u64) -> (n: u64)
        ensures
            n == *counter,
    {
        *counter
    }

    /// Whether the scan was asked to stop.
    pub fn is_cancelled(&self) -> (b: bool)
        ensures
            b == self.cancel,
    {
        self.cancel
    }

    /// Ask the scan to stop.
    pub fn request_cancel(&mut self)
        ensures
            *final(self) == (ScanState { cancel: true, ..*old(self) }),
    {
        self.cancel = true;
    }

    /// Show this path as the one being worked on.
    pub fn set_current(&mut self, path: &str)
        ensures
            *final(self) == (ScanState { current: final(self).current, ..*old(self) }),
            final(self).current@ == path@,
    {
        self.current = text_from(path);
    }

    /// The path being worked on.
    pub fn current_path(&self) -> (s: String)
        ensures
            s@ == self.current@,
    {
        text_from(self.current.as_str())
    }

    /// Time spent reading files, `elapsed` after the scan started.
    pub fn hashing_elapsed(&self, elapsed: Duration) -> (d: Option<Duration>)
        requires
            elapsed.wf(),
            self.hashing_began is Some ==> self.hashing_began->0.wf(),
            self.hashing_ended is Some ==> self.hashing_ended->0.wf(),
        ensures
            d is Some <==> self.hashing_began is Some,
            d is Some ==> ({
                let until = match self.hashing_ended {
                    Some(end) => end.total_nanos(),
                    None => elapsed.total_nanos(),
                };
                let began = self.hashing_began->0.total_nanos();
                &&& d->0.wf()
                &&& d->0.total_nanos() == if until >= began {
                    until - began
                } else {
                    0
                }
            }),
    {
        match self.hashing_began {
            None => None,
            Some(began) => {
                let until = match self.hashing_ended {
                    Some(end) => end,
                    None => elapsed,
                };
                Some(until.since(began))
            },
        }
    }
}

/// What a group wastes fits a double word.
pub proof fn wasted_is_bounded(g: DupeGroup)
    ensures
        0 <= g.wasted_bytes() <= u128::MAX,
{
    if g.files@.len() > 0 {
        let rest = g.files@.len() - 1;
        let size = g.size as int;
        assert(g.files.len() <= usize::MAX);
        assert(0 <= size * rest <= 0xffff_ffff_ffff_ffff * 0xffff_ffff_ffff_ffff)
            by (nonlinear_arith)
            requires
                0 <= size <= 0xffff_ffff_ffff_ffff,
                0 <= rest <= 0xffff_ffff_ffff_ffff,
        ;
    }
}

} // verus!
