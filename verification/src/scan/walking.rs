//! What the walk takes in, and which directories it covers.

use super::{apart_roots, is_apart, noted, visited, Candidate, WalkItem};
use crate::model::{ScanError, ScanMsg, ScanOptions, ScanState};
use crate::path::laws::{starting_means_lying_in, starts_with_components};
use crate::path::{components, extension_of, lies_in, FilePath};
use crate::text::{displayed, lower_case, texts};
use crate::time::FileTime;
use vstd::prelude::*;
use vstd::utf8::{decode_utf8, valid_utf8};

verus! {

/// The extension of this path in lower case is one of those that are left out.
pub open spec fn has_excluded_extension(options: ScanOptions, path: Seq<u8>) -> bool {
    &&& extension_of(path) is Some
    &&& valid_utf8(extension_of(path)->0)
    &&& exists|i: int|
        0 <= i < options.exclude_exts@.len() && (#[trigger] options.exclude_exts@[i])@
            == lower_case(decode_utf8(extension_of(path)->0))
}

proof fn exclusion_is_by_extension(options: ScanOptions, path: Seq<u8>)
    ensures
        options.excludes(path) == has_excluded_extension(options, path),
{
    let all = texts(options.exclude_exts@);
    let text = lower_case(decode_utf8(extension_of(path)->0));
    if all.contains(text) {
        let i = choose|i: int| 0 <= i < all.len() && all[i] == text;
        assert(options.exclude_exts@[i]@ == text);
    }
    if has_excluded_extension(options, path) {
        let i = choose|i: int|
            0 <= i < options.exclude_exts@.len() && (#[trigger] options.exclude_exts@[i])@ == text;
        assert(all[i] == text);
    }
}

proof fn protection_is_by_directory(options: ScanOptions, path: Seq<u8>)
    ensures
        options.protects(path) == exists|r: int|
            0 <= r < options.reference_roots@.len() && starts_with_components(
                path,
                (#[trigger] options.reference_roots@[r])@,
            ),
{
    let refs = options.reference_roots@;
    if options.protects(path) {
        let r = choose|r: int| 0 <= r < refs.len() && lies_in(path, (#[trigger] refs[r])@);
        starting_means_lying_in(path, refs[r]@);
    }
    if exists|r: int|
        0 <= r < refs.len() && starts_with_components(path, (#[trigger] refs[r])@) {
        let r = choose|r: int|
            0 <= r < refs.len() && starts_with_components(path, (#[trigger] refs[r])@);
        starting_means_lying_in(path, refs[r]@);
        assert(lies_in(path, refs[r]@));
    }
}

/// A file is a candidate, with its path, size and time, whenever it is not empty or empty
/// files count, it is at least as large as asked for, and its extension is not left out. It
/// is protected exactly where it lies in a reference directory. Any other file is skipped.
pub proof fn a_file_becomes_a_candidate(
    options: ScanOptions,
    path: FilePath,
    size: u64,
    modified: Option<FileTime>,
    state: ScanState,
    state_after: ScanState,
    found: Seq<Candidate>,
    found_after: Seq<Candidate>,
    report: Option<ScanMsg>,
)
    requires
        visited(
            options,
            WalkItem::File { path, size, modified },
            state,
            state_after,
            found,
            found_after,
            report,
        ),
    ensures
        (size > 0 || !options.skip_empty) && size >= options.min_size && !has_excluded_extension(
            options,
            path@,
        ) ==> {
            &&& found_after.len() == found.len() + 1
            &&& found_after.drop_last() == found
            &&& found_after.last().path == path
            &&& found_after.last().size == size
            &&& found_after.last().modified == modified
            &&& found_after.last().cached is None
            &&& found_after.last().protected == exists|r: int|
                0 <= r < options.reference_roots@.len() && starts_with_components(
                    path@,
                    (#[trigger] options.reference_roots@[r])@,
                )
            &&& state_after.files_skipped == state.files_skipped
        },
        (size == 0 && options.skip_empty) || size < options.min_size || has_excluded_extension(
            options,
            path@,
        ) ==> {
            &&& found_after == found
            &&& state.files_skipped < u64::MAX ==> state_after.files_skipped
                == state.files_skipped + 1
        },
        state.files_seen < u64::MAX ==> state_after.files_seen == state.files_seen + 1,
        state.bytes_seen + size <= u64::MAX ==> state_after.bytes_seen == state.bytes_seen + size,
        state_after.dirs_seen == state.dirs_seen,
        state_after.errors == state.errors,
        state_after.cancel == state.cancel,
        report is None,
{
    exclusion_is_by_extension(options, path@);
    protection_is_by_directory(options, path@);
    if found_after.len() > found.len() {
        assert(found_after.drop_last() =~= found);
    }
}

/// Without a smallest size and with no extension left out, every file that is not empty is
/// a candidate, however large it is.
pub proof fn no_file_is_too_large(
    options: ScanOptions,
    path: FilePath,
    size: u64,
    modified: Option<FileTime>,
    state: ScanState,
    state_after: ScanState,
    found: Seq<Candidate>,
    found_after: Seq<Candidate>,
    report: Option<ScanMsg>,
)
    requires
        visited(
            options,
            WalkItem::File { path, size, modified },
            state,
            state_after,
            found,
            found_after,
            report,
        ),
        options.min_size == 0,
        options.exclude_exts@.len() == 0,
        size > 0,
    ensures
        found_after.len() == found.len() + 1,
        found_after.last().path == path,
        found_after.last().size == size,
{
    a_file_becomes_a_candidate(
        options,
        path,
        size,
        modified,
        state,
        state_after,
        found,
        found_after,
        report,
    );
}

/// Nothing but a regular file becomes a candidate: a directory is counted and shown, what
/// is not followed is skipped, and what cannot be read is reported with its message.
pub proof fn only_files_become_candidates(
    options: ScanOptions,
    item: WalkItem,
    state: ScanState,
    state_after: ScanState,
    found: Seq<Candidate>,
    found_after: Seq<Candidate>,
    report: Option<ScanMsg>,
)
    requires
        visited(options, item, state, state_after, found, found_after, report),
        !(item is File),
        state.errors < u64::MAX,
        state.dirs_seen < u64::MAX,
        state.files_skipped < u64::MAX,
    ensures
        found_after == found,
        state_after.files_seen == state.files_seen,
        state_after.bytes_seen == state.bytes_seen,
        state_after.cancel == state.cancel,
        item matches WalkItem::Directory(path) ==> state_after.dirs_seen == state.dirs_seen + 1
            && state_after.current@ == displayed(path@) && state_after.errors == state.errors
            && report is None,
        item is Special || item is ReparsePoint ==> state_after.files_skipped
            == state.files_skipped + 1 && state_after.errors == state.errors && report is None,
        item matches WalkItem::Unreadable(message) ==> state_after.errors == state.errors + 1
            && report == Some(ScanMsg::Error(ScanError { path: None, message })),
        item matches WalkItem::NoMetadata(path, message) ==> state_after.errors == state.errors + 1
            && report == Some(ScanMsg::Error(ScanError { path: Some(path), message })),
{
}

/// The directories that are walked: the root, then some of the reference directories.
pub open spec fn roots_for(root: Seq<u8>, references: Seq<FilePath>) -> Seq<Seq<u8>> {
    seq![root] + apart_roots(root, references, references.len() as int)
}

proof fn apart_roots_hold(root: Seq<u8>, references: Seq<FilePath>, n: int, dir: Seq<u8>)
    requires
        0 <= n <= references.len(),
    ensures
        apart_roots(root, references, n).contains(dir) <==> exists|r: int|
            0 <= r < n && #[trigger] is_apart(root, references, r) && references[r]@ == dir,
    decreases n,
{
    if n > 0 {
        apart_roots_hold(root, references, n - 1, dir);
        let below = apart_roots(root, references, n - 1);
        let all = apart_roots(root, references, n);
        if all.contains(dir) {
            let x = choose|x: int| 0 <= x < all.len() && all[x] == dir;
            if x < below.len() {
                assert(below[x] == dir);
                assert(below.contains(dir));
            } else {
                assert(is_apart(root, references, n - 1));
            }
        }
        if below.contains(dir) {
            let x = choose|x: int| 0 <= x < below.len() && below[x] == dir;
            assert(all[x] == dir);
        }
        if is_apart(root, references, n - 1) {
            assert(all[all.len() - 1] == references[n - 1]@);
        }
    }
}

/// Every reference directory is walked: it lies in one of the directories that are. So do
/// the scanned tree itself, which is walked first, and nothing but it and references is.
pub proof fn every_reference_is_walked(root: Seq<u8>, references: Seq<FilePath>, r: int) -> (w: int)
    requires
        0 <= r < references.len(),
    ensures
        roots_for(root, references)[0] == root,
        0 <= w < roots_for(root, references).len(),
        starts_with_components(references[r]@, roots_for(root, references)[w]),
    decreases components(references[r]@).len(), r,
{
    let all = roots_for(root, references);
    let rest = apart_roots(root, references, references.len() as int);
    let dir = references[r]@;
    starting_means_lying_in(dir, root);
    if lies_in(dir, root) {
        0
    } else if is_apart(root, references, r) {
        apart_roots_hold(root, references, references.len() as int, dir);
        assert(rest.contains(dir));
        let x = choose|x: int| 0 <= x < rest.len() && rest[x] == dir;
        assert(all[x + 1] == dir);
        x + 1
    } else {
        let q = choose|q: int|
            0 <= q < references.len() && q != r && lies_in(dir, (#[trigger] references[q])@) && !(
            components(references[q]@) == components(dir) && r < q);
        let over = references[q]@;
        starting_means_lying_in(dir, over);
        if components(over).len() == components(dir).len() {
            assert(components(dir).take(components(over).len() as int) =~= components(dir));
        }
        let w = every_reference_is_walked(root, references, q);
        assert forall|i: int| 0 <= i < components(all[w]).len() implies components(dir)[i]
            == #[trigger] components(all[w])[i] by {
            assert(components(over)[i] == components(all[w])[i]);
            assert(components(dir)[i] == components(over)[i]);
        }
        w
    }
}

/// Only reference directories are walked beside the tree, and none of them lies in the tree
/// or in another one that is walked: no file is met twice.
pub proof fn no_directory_is_walked_twice(
    root: Seq<u8>,
    references: Seq<FilePath>,
    w: int,
    v: int,
)
    requires
        1 <= w < roots_for(root, references).len(),
        1 <= v < roots_for(root, references).len(),
        w != v,
    ensures
        exists|r: int|
            0 <= r < references.len() && (#[trigger] references[r])@ == roots_for(
                root,
                references,
            )[w],
        !starts_with_components(roots_for(root, references)[w], root),
        !starts_with_components(
            roots_for(root, references)[w],
            roots_for(root, references)[v],
        ),
{
    let n = references.len() as int;
    let all = roots_for(root, references);
    let at = apart_places(root, references, n);
    let a = at[w - 1];
    let b = at[v - 1];
    assert(all[w] == references[a]@ && all[v] == references[b]@);
    starting_means_lying_in(all[w], root);
    starting_means_lying_in(all[w], all[v]);
    assert(is_apart(root, references, a) && is_apart(root, references, b));
    if w < v {
        assert(a < b);
    } else {
        assert(b < a);
    }
    if lies_in(all[w], all[v]) {
        assert(components(references[b]@) == components(references[a]@) && a < b);
        starting_means_lying_in(all[v], all[w]);
        assert(starts_with_components(all[v], all[w]));
        assert(lies_in(references[b]@, references[a]@));
        assert(b < a);
    }
}

proof fn apart_places(root: Seq<u8>, references: Seq<FilePath>, n: int) -> (at: Seq<int>)
    requires
        0 <= n <= references.len(),
    ensures
        at.len() == apart_roots(root, references, n).len(),
        forall|t: int|
            0 <= t < at.len() ==> 0 <= #[trigger] at[t] < n && is_apart(root, references, at[t])
                && apart_roots(root, references, n)[t] == references[at[t]]@,
        forall|t: int, u: int| 0 <= t < u < at.len() ==> #[trigger] at[t] < #[trigger] at[u],
    decreases n,
{
    if n <= 0 {
        Seq::empty()
    } else {
        let below = apart_places(root, references, n - 1);
        if is_apart(root, references, n - 1) {
            below.push(n - 1)
        } else {
            below
        }
    }
}

/// A file that was read counts as hashed, with the bytes that were read, and is not reported.
/// One that could not be read counts as hashed and as a problem, and is reported with its
/// path and the reason. Nothing else changes. A count that is full starts over.
pub proof fn reading_is_counted(
    before: ScanState,
    after: ScanState,
    path: FilePath,
    read: Result<u64, Seq<char>>,
    report: Option<ScanMsg>,
)
    requires
        noted(before, after, path, read, report),
        before.files_hashed < u64::MAX,
        before.errors < u64::MAX,
    ensures
        after.files_hashed == before.files_hashed + 1,
        read matches Ok(bytes) ==> before.bytes_hashed + bytes <= u64::MAX ==> after.bytes_hashed
            == before.bytes_hashed + bytes,
        read is Ok ==> after.errors == before.errors && report is None,
        read matches Err(message) ==> after.errors == before.errors + 1 && after.bytes_hashed
            == before.bytes_hashed && (report matches Some(ScanMsg::Error(e)) && e.path is Some
            && e.path->0@ == path@ && e.message@ == message),
        after.files_seen == before.files_seen,
        after.dirs_seen == before.dirs_seen,
        after.bytes_seen == before.bytes_seen,
        after.files_skipped == before.files_skipped,
        after.candidates == before.candidates,
        after.cache_hits == before.cache_hits,
        after.files_checked == before.files_checked,
        after.files_to_check == before.files_to_check,
        after.hashing_began == before.hashing_began,
        after.hashing_ended == before.hashing_ended,
        after.cancel == before.cancel,
{
}

} // verus!
