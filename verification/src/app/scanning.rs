//! Starting a scan, following it, and the reference directories it respects.

use super::{proper, Action, App, Pane, Screen};
use crate::grouping::{parted, picked};
use crate::model::{fit, Phase, ScanMsg, ScanOptions, ScanState};
use crate::order::{
    key_less, key_less_irreflexive, key_less_total, key_less_transitive, sort_exists, sorted_from,
    sorted_keys_ascend, sorted_with,
};
use crate::path::{
    components, components_before, lies_in, path_key, path_keys_order_components,
    path_keys_tell_apart, FilePath,
};
use crate::text::{displayed, text_from, text_in};
use crate::time::Duration;
use vstd::prelude::*;

verus! {

/// How many problems are listed at most.
pub const MAX_ERRORS: usize = 1_000;

/// Reference directories are listed by path.
pub open spec fn reference_key() -> spec_fn(FilePath) -> Seq<u64> {
    |p: FilePath| path_key(p@)
}

/// The list without repetitions that follow one another.
pub open spec fn without_repeats(list: Seq<FilePath>) -> Seq<FilePath>
    decreases list.len(),
{
    if list.len() < 2 {
        list
    } else {
        let rest = without_repeats(list.drop_last());
        if components(list.last()@) == components(list[list.len() - 2]@) {
            rest
        } else {
            rest.push(list.last())
        }
    }
}

/// The first reference directory that contains the path.
pub open spec fn is_first_container(references: Seq<FilePath>, path: Seq<u8>, r: int) -> bool {
    &&& 0 <= r < references.len()
    &&& lies_in(path, references[r]@)
    &&& forall|q: int| 0 <= q < r ==> !lies_in(path, (#[trigger] references[q])@)
}

/// The first reference directory that contains `path`.
pub fn containing_reference(references: &Vec<FilePath>, path: &FilePath) -> (r: Option<usize>)
    ensures
        r is Some ==> is_first_container(references@, path@, r->0 as int),
        r is None ==> forall|q: int|
            0 <= q < references@.len() ==> !lies_in(path@, (#[trigger] references@[q])@),
{
    let mut i: usize = 0;
    while i < references.len()
        invariant
            i <= references@.len(),
            forall|q: int| 0 <= q < i ==> !lies_in(path@, (#[trigger] references@[q])@),
        decreases references@.len() - i,
    {
        if path.starts_with(&references[i]) {
            return Some(i);
        }
        i += 1;
    }
    None
}

fn sorted_references(references: Vec<FilePath>) -> (out: Vec<FilePath>)
    ensures
        out@ == sorted_from(references@, reference_key()),
{
    let mut keys: Vec<Vec<u64>> = Vec::new();
    while keys.len() < references.len()
        invariant
            keys@.len() <= references@.len(),
            forall|i: int|
                0 <= i < keys@.len() ==> (#[trigger] keys@[i])@ == reference_key()(references@[i]),
        decreases references@.len() - keys@.len(),
    {
        let key = references[keys.len()].sort_key();
        keys.push(key);
    }
    sorted_with(references, &keys, Ghost(reference_key()))
}

fn drop_repeats(list: Vec<FilePath>) -> (out: Vec<FilePath>)
    ensures
        out@ == without_repeats(list@),
{
    let ghost given = list@;
    let mut flags: Vec<bool> = Vec::new();
    while flags.len() < list.len()
        invariant
            given == list@,
            flags@.len() <= given.len(),
            forall|i: int|
                0 <= i < flags@.len() ==> #[trigger] flags@[i] == (i == 0 || components(given[i]@)
                    != components(given[i - 1]@)),
        decreases given.len() - flags@.len(),
    {
        let at: usize = flags.len();
        let fresh: bool = at == 0 || !list[at].same_as(&list[at - 1]);
        flags.push(fresh);
    }
    proof {
        fresh_ones_are_picked(given, flags@);
    }
    parted(list, &flags).0
}

proof fn fresh_ones_are_picked(list: Seq<FilePath>, flags: Seq<bool>)
    requires
        list.len() <= flags.len(),
        forall|i: int|
            0 <= i < list.len() ==> #[trigger] flags[i] == (i == 0 || components(list[i]@)
                != components(list[i - 1]@)),
    ensures
        picked(list, flags) == without_repeats(list),
    decreases list.len(),
{
    if list.len() > 0 {
        let rest = list.drop_last();
        assert forall|i: int| 0 <= i < rest.len() implies #[trigger] flags[i] == (i == 0
            || components(rest[i]@) != components(rest[i - 1]@)) by {
            assert(flags[i] == (i == 0 || components(list[i]@) != components(list[i - 1]@)));
        }
        fresh_ones_are_picked(rest, flags);
        assert(flags[list.len() - 1] == (list.len() == 1 || components(list.last()@) != components(
            list[list.len() - 2]@,
        )));
        if list.len() == 1 {
            assert(picked(rest, flags) =~= Seq::<FilePath>::empty());
            assert(picked(list, flags) =~= list);
        }
    } else {
        assert(picked(list, flags) =~= list);
    }
}

/// A scan of `root` is refused because a reference directory contains it.
pub open spec fn refused(options: ScanOptions, root: Seq<u8>) -> bool {
    exists|r: int|
        0 <= r < options.reference_roots@.len() && lies_in(
            root,
            (#[trigger] options.reference_roots@[r])@,
        )
}

impl App {
    /// What starting a scan of `root` changes where it is not refused.
    pub open spec fn scan_begun(self, after: App, root: Seq<u8>, now: Duration) -> bool {
        &&& after == (App {
            options: after.options,
            scan_state: after.scan_state,
            errors: after.errors,
            groups: after.groups,
            group_selected: 0,
            file_selected: 0,
            phase: Phase::Walking,
            scan_started: Some(now),
            scan_elapsed: None,
            scan_root: after.scan_root,
            screen: Screen::Scanning,
            status: None,
            ..self
        })
        &&& after.options == (ScanOptions {
            reference_roots: after.options.reference_roots,
            ..self.options
        })
        &&& after.options.reference_roots@ == without_repeats(
            sorted_from(self.options.reference_roots@, reference_key()),
        )
        &&& after.scan_state.is_fresh()
        &&& after.errors@.len() == 0
        &&& after.groups@.len() == 0
        &&& after.scan_root is Some && after.scan_root->0@ == root
    }

    /// What starting a scan changes, and what is asked for.
    pub open spec fn scan_asked(
        self,
        after: App,
        root: Seq<u8>,
        now: Duration,
        action: Action,
    ) -> bool {
        if refused(self.options, root) {
            &&& action == Action::Nothing
            &&& after == (App { screen: Screen::Picker, status: after.status, ..self })
            &&& exists|r: int| #[trigger]
                is_first_container(self.options.reference_roots@, root, r) && text_in(after.status)
                    == Some(
                    "Reference "@ + displayed(self.options.reference_roots@[r]@)
                        + " contains the scan root; choose a nested or external reference"@,
                )
        } else {
            &&& self.scan_begun(after, root, now)
            &&& action matches Action::Scan(path) && path@ == root
        }
    }

    /// Start a scan of `root`, unless a reference contains it: that would make the
    /// whole scan read-only.
    pub fn start_scan(&mut self, root: FilePath, now: Duration) -> (action: Action)
        requires
            old(self).wf(),
            now.wf(),
        ensures
            final(self).wf(),
            old(self).scan_asked(*final(self), root@, now, action),
    {
        match containing_reference(&self.options.reference_roots, &root) {
            Some(r) => {
                let mut message = text_from("Reference ");
                message.append(self.options.reference_roots[r].display().as_str());
                message.append(" contains the scan root; choose a nested or external reference");
                assert(is_first_container(self.options.reference_roots@, root@, r as int));
                assert(lies_in(root@, self.options.reference_roots@[r as int]@));
                self.status = Some(message);
                self.screen = Screen::Picker;
                return Action::Nothing;
            },
            None => {},
        }
        assert(!refused(self.options, root@));
        let mut references: Vec<FilePath> = Vec::new();
        core::mem::swap(&mut references, &mut self.options.reference_roots);
        self.options.reference_roots = drop_repeats(sorted_references(references));
        self.scan_state = ScanState::default();
        self.errors = Vec::new();
        self.groups = Vec::new();
        self.group_selected = 0;
        self.file_selected = 0;
        self.phase = Phase::Walking;
        self.scan_started = Some(now);
        self.scan_elapsed = None;
        self.scan_root = Some(root.clone());
        self.screen = Screen::Scanning;
        self.status = None;
        Action::Scan(root)
    }

    /// What toggling a reference changes: the list, and the status line.
    pub open spec fn reference_toggled(
        self,
        after: App,
        target: Seq<u8>,
        resolved: Option<Seq<u8>>,
    ) -> bool {
        &&& after == (App { options: after.options, status: after.status, ..self })
        &&& after.options == (ScanOptions {
            reference_roots: after.options.reference_roots,
            ..self.options
        })
        &&& after.status is Some
        &&& match resolved {
            None => {
                &&& after.options == self.options
                &&& after.status->0@ == "Cannot resolve reference "@ + displayed(target)
            },
            Some(dir) => references_toggled(
                self.options.reference_roots@,
                after.options.reference_roots@,
                dir,
                after.status->0@,
            ),
        }
    }

    /// Toggle the directory `target`, which resolved to `resolved`, as a reference.
    pub fn toggle_reference(&mut self, target: &FilePath, resolved: Option<FilePath>)
        requires
            old(self).wf(),
        ensures
            final(self).wf(),
            old(self).reference_toggled(
                *final(self),
                target@,
                match resolved {
                    Some(p) => Some(p@),
                    None => None,
                },
            ),
    {
        match resolved {
            None => {
                let mut message = text_from("Cannot resolve reference ");
                message.append(target.display().as_str());
                self.status = Some(message);
            },
            Some(dir) => {
                let mut references: Vec<FilePath> = Vec::new();
                core::mem::swap(&mut references, &mut self.options.reference_roots);
                let (now, message) = toggled_references(references, dir);
                self.options.reference_roots = now;
                self.status = Some(message);
            },
        }
    }

    /// What a message from the scanner changes.
    pub open spec fn scan_followed(self, after: App, msg: ScanMsg, now: Duration) -> bool {
        match msg {
            ScanMsg::Phase(p) => after == (App { phase: p, ..self }),
            ScanMsg::Error(e) => {
                &&& after == (App { errors: after.errors, ..self })
                &&& after.errors@ == if self.errors@.len() < MAX_ERRORS {
                    self.errors@.push(e)
                } else {
                    self.errors@
                }
            },
            ScanMsg::Done(groups) => {
                &&& after == (App {
                    groups: after.groups,
                    scan_elapsed: after.scan_elapsed,
                    group_selected: 0,
                    file_selected: 0,
                    pane: Pane::Groups,
                    screen: Screen::Results,
                    ..self
                })
                &&& after.groups@ == sorted_from(groups@, super::results::group_key(self.sort))
                &&& after.scan_elapsed is Some == self.scan_started is Some
                &&& after.scan_elapsed is Some ==> after.scan_elapsed->0.total_nanos() == if now.total_nanos()
                    >= self.scan_started->0.total_nanos() {
                    now.total_nanos() - self.scan_started->0.total_nanos()
                } else {
                    0
                }
            },
            ScanMsg::Cancelled => {
                &&& after == (App {
                    scan_elapsed: after.scan_elapsed,
                    screen: Screen::Picker,
                    status: after.status,
                    ..self
                })
                &&& text_in(after.status) == Some("Scan cancelled"@)
                &&& after.scan_elapsed is Some == self.scan_started is Some
                &&& after.scan_elapsed is Some ==> after.scan_elapsed->0.total_nanos() == if now.total_nanos()
                    >= self.scan_started->0.total_nanos() {
                    now.total_nanos() - self.scan_started->0.total_nanos()
                } else {
                    0
                }
            },
        }
    }

    fn stop_clock(&mut self, now: Duration)
        requires
            old(self).wf(),
            now.wf(),
        ensures
            *final(self) == (App { scan_elapsed: final(self).scan_elapsed, ..*old(self) }),
            proper(final(self).scan_elapsed),
            final(self).scan_elapsed is Some == old(self).scan_started is Some,
            final(self).scan_elapsed is Some ==> final(self).scan_elapsed->0.total_nanos()
                == if now.total_nanos() >= old(self).scan_started->0.total_nanos() {
                now.total_nanos() - old(self).scan_started->0.total_nanos()
            } else {
                0
            },
    {
        self.scan_elapsed = match self.scan_started {
            Some(s) => Some(now.since(s)),
            None => None,
        };
    }

    /// Follow the scanner. The list of problems is bounded so a tree full of
    /// permission errors cannot grow memory without limit.
    pub fn handle_scan_msg(&mut self, msg: ScanMsg, now: Duration)
        requires
            old(self).wf(),
            now.wf(),
            msg matches ScanMsg::Done(groups) ==> fit(groups@),
        ensures
            final(self).wf(),
            old(self).scan_followed(*final(self), msg, now),
    {
        match msg {
            ScanMsg::Phase(p) => {
                self.phase = p;
            },
            ScanMsg::Error(e) => {
                if self.errors.len() < MAX_ERRORS {
                    self.errors.push(e);
                }
            },
            ScanMsg::Done(groups) => {
                self.groups = groups;
                self.stop_clock(now);
                self.sort_groups();
                self.group_selected = 0;
                self.file_selected = 0;
                self.pane = Pane::Groups;
                self.screen = Screen::Results;
            },
            ScanMsg::Cancelled => {
                self.stop_clock(now);
                self.screen = Screen::Picker;
                self.status = Some(text_from("Scan cancelled"));
            },
        }
    }
}

/// What toggling a directory makes of the reference directories, and the line that
/// tells.
pub open spec fn references_toggled(
    before: Seq<FilePath>,
    now: Seq<FilePath>,
    dir: Seq<u8>,
    message: Seq<char>,
) -> bool {
    if !is_no_reference(before, dir) {
        // It is a reference: it is none any more.
        &&& exists|r: int| #[trigger] is_first_same(before, dir, r) && now == before.remove(r)
        &&& message == "Unprotected "@ + displayed(dir)
    } else if !is_uncontained(before, dir) {
        // It lies in one already.
        &&& now == before
        &&& exists|r: int| #[trigger]
            is_first_container(before, dir, r) && message == "Already protected by "@ + displayed(
                before[r]@,
            )
    } else {
        // It takes the place of those below it.
        &&& is_reference_list(now, before, dir)
        &&& message == "Protected "@ + displayed(dir)
    }
}

/// No reference directory contains this one.
pub open spec fn is_uncontained(references: Seq<FilePath>, dir: Seq<u8>) -> bool {
    forall|r: int| 0 <= r < references.len() ==> !lies_in(dir, (#[trigger] references[r])@)
}

fn position_of(references: &Vec<FilePath>, dir: &FilePath) -> (r: Option<usize>)
    ensures
        r is Some ==> is_first_same(references@, dir@, r->0 as int),
        r is Some <==> !is_no_reference(references@, dir@),
{
    let mut i: usize = 0;
    while i < references.len()
        invariant
            i <= references@.len(),
            forall|q: int|
                0 <= q < i ==> components((#[trigger] references@[q])@) != components(dir@),
        decreases references@.len() - i,
    {
        if references[i].same_as(dir) {
            assert(components(references@[i as int]@) == components(dir@));
            return Some(i);
        }
        i += 1;
    }
    None
}

fn with_reference(references: Vec<FilePath>, dir: FilePath) -> (out: Vec<FilePath>)
    ensures
        made_list(out@, references@, dir),
{
    let ghost before = references@;
    let mut flags: Vec<bool> = Vec::new();
    while flags.len() < references.len()
        invariant
            before == references@,
            flags@.len() <= before.len(),
            forall|r: int|
                0 <= r < flags@.len() ==> #[trigger] flags@[r] == !lies_in(before[r]@, dir@),
        decreases before.len() - flags@.len(),
    {
        let below: bool = references[flags.len()].starts_with(&dir);
        flags.push(!below);
    }
    assert(flags@ =~= outside_flags(before, dir@));
    let mut kept = parted(references, &flags).0;
    kept.push(dir);
    sorted_references(kept)
}

fn toggled_references(references: Vec<FilePath>, dir: FilePath) -> (r: (Vec<FilePath>, String))
    ensures
        references_toggled(references@, r.0@, dir@, r.1@),
{
    let mut references = references;
    let ghost before = references@;
    match position_of(&references, &dir) {
        Some(at) => {
            let mut message = text_from("Unprotected ");
            message.append(dir.display().as_str());
            let _ = references.remove(at);
            assert(is_first_same(before, dir@, at as int));
            return (references, message);
        },
        None => {},
    }
    match containing_reference(&references, &dir) {
        Some(at) => {
            let mut message = text_from("Already protected by ");
            message.append(references[at].display().as_str());
            proof {
                assert(is_first_container(before, dir@, at as int));
                assert(lies_in(dir@, before[at as int]@));
            }
            return (references, message);
        },
        None => {},
    }
    let mut message = text_from("Protected ");
    message.append(dir.display().as_str());
    (with_reference(references, dir), message)
}

/// The first reference directory that is this one.
pub open spec fn is_first_same(references: Seq<FilePath>, dir: Seq<u8>, r: int) -> bool {
    &&& 0 <= r < references.len()
    &&& components(references[r]@) == components(dir)
    &&& forall|q: int|
        0 <= q < r ==> components((#[trigger] references[q])@) != components(dir)
}

/// None of the reference directories is this one.
pub open spec fn is_no_reference(references: Seq<FilePath>, dir: Seq<u8>) -> bool {
    forall|q: int|
        0 <= q < references.len() ==> components((#[trigger] references[q])@) != components(dir)
}

/// Which reference directories do not lie in this one.
pub open spec fn outside_flags(references: Seq<FilePath>, dir: Seq<u8>) -> Seq<bool> {
    Seq::new(references.len(), |r: int| !lies_in(references[r]@, dir))
}

/// The list with the directory `path` in place of those below it.
pub open spec fn made_list(now: Seq<FilePath>, before: Seq<FilePath>, path: FilePath) -> bool {
    now == sorted_from(picked(before, outside_flags(before, path@)).push(path), reference_key())
}

/// The list with this directory in place of those below it.
pub open spec fn is_reference_list(
    now: Seq<FilePath>,
    before: Seq<FilePath>,
    dir: Seq<u8>,
) -> bool {
    exists|path: FilePath| path@ == dir && #[trigger] made_list(now, before, path)
}

/// After a scan has begun the reference directories are listed in ascending order, and
/// none twice.
pub proof fn no_reference_is_listed_twice(list: Seq<FilePath>, i: int, j: int)
    requires
        0 <= i < j < without_repeats(sorted_from(list, reference_key())).len(),
    ensures
        components_before(
            components(without_repeats(sorted_from(list, reference_key()))[i]@),
            components(without_repeats(sorted_from(list, reference_key()))[j]@),
        ),
        components(without_repeats(sorted_from(list, reference_key()))[i]@) != components(
            without_repeats(sorted_from(list, reference_key()))[j]@,
        ),
{
    let sorted = sorted_from(list, reference_key());
    sort_exists(list, reference_key());
    assert forall|a: int, b: int| 0 <= a <= b < sorted.len() implies !key_less(
        path_key(#[trigger] sorted[b]@),
        path_key(#[trigger] sorted[a]@),
    ) by {
        sorted_keys_ascend(list, reference_key(), sorted, a, b);
    }
    ascending_has_no_repeats(sorted, i, j);
    let kept = without_repeats(sorted);
    path_keys_order_components(components(kept[i]@), components(kept[j]@));
}

/// Every path that is kept comes from the list, and the last one is its last.
proof fn without_repeats_ends(list: Seq<FilePath>)
    ensures
        list.len() > 0 ==> without_repeats(list).len() > 0 && components(
            without_repeats(list).last()@,
        ) == components(list.last()@),
        list.len() == 0 ==> without_repeats(list).len() == 0,
    decreases list.len(),
{
    if list.len() >= 2 {
        without_repeats_ends(list.drop_last());
    }
}

proof fn ascending_has_no_repeats(list: Seq<FilePath>, i: int, j: int)
    requires
        forall|a: int, b: int|
            0 <= a <= b < list.len() ==> !key_less(
                path_key(#[trigger] list[b]@),
                path_key(#[trigger] list[a]@),
            ),
        0 <= i < j < without_repeats(list).len(),
    ensures
        key_less(path_key(without_repeats(list)[i]@), path_key(without_repeats(list)[j]@)),
        components(without_repeats(list)[i]@) != components(without_repeats(list)[j]@),
    decreases list.len(),
{
    let rest = list.drop_last();
    let fewer = without_repeats(rest);
    let all = without_repeats(list);
    assert(list.len() >= 2);
    assert forall|a: int, b: int| 0 <= a <= b < rest.len() implies !key_less(
        path_key(#[trigger] rest[b]@),
        path_key(#[trigger] rest[a]@),
    ) by {
        assert(rest[a] == list[a] && rest[b] == list[b]);
    }
    if j < fewer.len() {
        ascending_has_no_repeats(rest, i, j);
    } else {
        // `j` is the last of the list, which differs from the one before it.
        without_repeats_ends(rest);
        let last = list[list.len() - 1];
        let previous = list[list.len() - 2];
        key_less_total(path_key(previous@), path_key(last@));
        if path_key(previous@) == path_key(last@) {
            path_keys_tell_apart(components(previous@), components(last@));
        }
        assert(key_less(path_key(previous@), path_key(last@)));
        if i < fewer.len() - 1 {
            ascending_has_no_repeats(rest, i, fewer.len() - 1);
            key_less_transitive(path_key(fewer[i]@), path_key(fewer.last()@), path_key(last@));
        }
    }
    key_less_irreflexive(path_key(all[i]@));
}

} // verus!
