//! The duplicate scanner.
//!
//! Five phases, cheapest first, so that the expensive I/O only ever touches
//! files that could still be duplicates:
//!
//! 1. walk the tree and collect the files
//! 2. drop every file whose size is unique (no I/O at all)
//! 3. hash the first 16 KiB of larger candidates and drop what is unique
//! 4. hash full contents and group what is equal
//! 5. collapse hardlinks and sort
//!
//! Walking the tree and reading files is done outside; what each phase keeps is
//! decided here.

pub mod laws;
pub mod walking;
pub mod whole;

use crate::cache::{stamp_of, CacheEntry, CachedHashes, HashCache};
use crate::grouping::{are_buckets, bucketed, keep_repeated, parted, picked, repeated};
use crate::model::{kept_only, DupeGroup, FileEntry, ScanError, ScanMsg, ScanOptions, ScanState};
use crate::order::{
    descending, descending_key, is_sorted_from, sorted_from, sorted_has_the_same_items, sorted_with,
};
use crate::path::{components, lies_in, path_key, paths_in, FilePath};
use crate::selection::{hash_key, hash_key_of};
use crate::text::displayed;
use crate::time::{Duration, FileTime};
use vstd::prelude::*;

verus! {

/// A file that may have a duplicate, carried between phases.
#[derive(Debug)]
pub struct Candidate {
    pub path: FilePath,
    pub size: u64,
    pub modified: Option<FileTime>,
    /// It lies in a reference directory.
    pub protected: bool,
    /// Its hashes, where the cache has them.
    pub cached: Option<CachedHashes>,
}

/// What the walk comes across.
#[derive(Debug)]
pub enum WalkItem {
    /// Something that could not be read.
    Unreadable(String),
    Directory(FilePath),
    /// A symlink that is not followed, a socket, a FIFO or a device.
    Special,
    /// A file whose metadata could not be read.
    NoMetadata(FilePath, String),
    /// A junction or another reparse point; following it could loop.
    ReparsePoint,
    File { path: FilePath, size: u64, modified: Option<FileTime> },
}

/// One more on a counter.
pub open spec fn bumped(n: u64, by: u64) -> u64 {
    ((n + by) % 0x1_0000_0000_0000_0000) as u64
}

/// The filters leave this file out.
pub open spec fn filtered(options: ScanOptions, path: Seq<u8>, size: u64) -> bool {
    (options.skip_empty && size == 0) || size < options.min_size || options.excludes(path)
}

/// What coming across one item changes.
pub open spec fn visited(
    options: ScanOptions,
    item: WalkItem,
    state: ScanState,
    state_after: ScanState,
    found: Seq<Candidate>,
    found_after: Seq<Candidate>,
    report: Option<ScanMsg>,
) -> bool {
    match item {
        WalkItem::Unreadable(message) => {
            &&& state_after == (ScanState { errors: bumped(state.errors, 1), ..state })
            &&& found_after == found
            &&& report == Some(ScanMsg::Error(ScanError { path: None, message }))
        },
        WalkItem::Directory(path) => {
            &&& state_after == (ScanState {
                dirs_seen: bumped(state.dirs_seen, 1),
                current: state_after.current,
                ..state
            })
            &&& state_after.current@ == displayed(path@)
            &&& found_after == found
            &&& report is None
        },
        WalkItem::Special | WalkItem::ReparsePoint => {
            &&& state_after == (ScanState { files_skipped: bumped(state.files_skipped, 1), ..state })
            &&& found_after == found
            &&& report is None
        },
        WalkItem::NoMetadata(path, message) => {
            &&& state_after == (ScanState { errors: bumped(state.errors, 1), ..state })
            &&& found_after == found
            &&& report == Some(ScanMsg::Error(ScanError { path: Some(path), message }))
        },
        WalkItem::File { path, size, modified } => {
            let left_out = filtered(options, path@, size);
            &&& state_after == (ScanState {
                files_seen: bumped(state.files_seen, 1),
                bytes_seen: bumped(state.bytes_seen, size),
                files_skipped: if left_out {
                    bumped(state.files_skipped, 1)
                } else {
                    state.files_skipped
                },
                ..state
            })
            &&& found_after == if left_out {
                found
            } else {
                found.push(
                    Candidate {
                        path,
                        size,
                        modified,
                        protected: options.protects(path@),
                        cached: None,
                    },
                )
            }
            &&& report is None
        },
    }
}

/// Phase 1: take in what the walk came across. A problem is reported, and the
/// walk goes on.
pub fn visit(
    options: &ScanOptions,
    state: &mut ScanState,
    found: &mut Vec<Candidate>,
    item: WalkItem,
) -> (report: Option<ScanMsg>)
    ensures
        visited(*options, item, *old(state), *final(state), old(found)@, final(found)@, report),
{
    match item {
        WalkItem::Unreadable(message) => {
            ScanState::bump(&mut state.errors, 1);
            Some(ScanMsg::Error(ScanError::new(None, message)))
        },
        WalkItem::Directory(path) => {
            ScanState::bump(&mut state.dirs_seen, 1);
            state.set_current(path.display().as_str());
            None
        },
        WalkItem::Special => {
            ScanState::bump(&mut state.files_skipped, 1);
            None
        },
        WalkItem::ReparsePoint => {
            ScanState::bump(&mut state.files_skipped, 1);
            None
        },
        WalkItem::NoMetadata(path, message) => {
            ScanState::bump(&mut state.errors, 1);
            Some(ScanMsg::Error(ScanError::new(Some(path), message)))
        },
        WalkItem::File { path, size, modified } => {
            ScanState::bump(&mut state.files_seen, 1);
            ScanState::bump(&mut state.bytes_seen, size);
            if (options.skip_empty && size == 0) || size < options.min_size
                || options.excluded_by_extension(&path) {
                ScanState::bump(&mut state.files_skipped, 1);
                return None;
            }
            let protected: bool = options.is_protected(&path);
            found.push(Candidate { path, size, modified, protected, cached: None });
            None
        },
    }
}

/// Junctions and other reparse points carry this attribute on Windows.
pub const FILE_ATTRIBUTE_REPARSE_POINT: u32 = 0x400;

/// Whether the attributes of a file make it a reparse point.
pub fn is_reparse_point(attrs: u32) -> (b: bool)
    ensures
        b == (attrs & 0x400 != 0),
{
    attrs & FILE_ATTRIBUTE_REPARSE_POINT != 0
}

/// The reference directory `r` has to be walked on its own: it does not lie in
/// the scanned tree, nor in another reference directory.
pub open spec fn is_apart(root: Seq<u8>, references: Seq<FilePath>, r: int) -> bool {
    &&& !lies_in(references[r]@, root)
    &&& forall|q: int|
        0 <= q < references.len() && q != r && lies_in(
            references[r]@,
            (#[trigger] references[q])@,
        ) ==> components(references[q]@) == components(references[r]@) && r < q
}

/// The first `n` reference directories, without those walked as part of another one.
pub open spec fn apart_roots(root: Seq<u8>, references: Seq<FilePath>, n: int) -> Seq<Seq<u8>>
    decreases n,
{
    if n <= 0 {
        Seq::empty()
    } else {
        let before = apart_roots(root, references, n - 1);
        if is_apart(root, references, n - 1) {
            before.push(references[n - 1]@)
        } else {
            before
        }
    }
}

/// The directories that a scan of `root` walks: the root, and every reference
/// directory that is not walked as part of another one.
pub fn walk_roots(root: &FilePath, options: &ScanOptions) -> (roots: Vec<FilePath>)
    ensures
        paths_in(roots@) == seq![root@] + apart_roots(
            root@,
            options.reference_roots@,
            options.reference_roots@.len() as int,
        ),
{
    let mut roots: Vec<FilePath> = Vec::new();
    roots.push(root.clone());
    let references = &options.reference_roots;
    let mut r: usize = 0;
    while r < references.len()
        invariant
            references@ == options.reference_roots@,
            r <= references@.len(),
            paths_in(roots@) =~= seq![root@] + apart_roots(root@, references@, r as int),
        decreases references@.len() - r,
    {
        let mut apart: bool = !references[r].starts_with(root);
        let mut q: usize = 0;
        while q < references.len()
            invariant
                references@ == options.reference_roots@,
                r < references@.len(),
                q <= references@.len(),
                apart == {
                    &&& !lies_in(references@[r as int]@, root@)
                    &&& forall|p: int|
                        0 <= p < q && p != r && lies_in(
                            references@[r as int]@,
                            (#[trigger] references@[p])@,
                        ) ==> components(references@[p]@) == components(references@[r as int]@) && r
                            < p
                },
            decreases references@.len() - q,
        {
            if q != r && references[r].starts_with(&references[q]) {
                let same: bool = references[q].same_as(&references[r]);
                if !(same && r < q) {
                    apart = false;
                }
            }
            q += 1;
        }
        let ghost before = paths_in(roots@);
        assert(apart == is_apart(root@, references@, r as int));
        if apart {
            let reference = references[r].clone();
            roots.push(reference);
            assert(paths_in(roots@) =~= before.push(references@[r as int]@));
        }
        r += 1;
    }
    roots
}

/// Candidates are told apart by size first.
pub open spec fn size_key() -> spec_fn(Candidate) -> Seq<u64> {
    |c: Candidate| seq![c.size]
}

/// Candidates are listed by path.
pub open spec fn place_key() -> spec_fn(Candidate) -> Seq<u64> {
    |c: Candidate| path_key(c.path@)
}

/// The candidates in path order, so that each worker reads a run of neighbouring
/// files instead of jumping around the tree.
pub fn in_path_order(candidates: Vec<Candidate>) -> (out: Vec<Candidate>)
    ensures
        out@ == sorted_from(candidates@, place_key()),
        is_sorted_from(candidates@, place_key(), out@),
{
    let mut keys: Vec<Vec<u64>> = Vec::new();
    while keys.len() < candidates.len()
        invariant
            keys@.len() <= candidates@.len(),
            forall|i: int|
                0 <= i < keys@.len() ==> (#[trigger] keys@[i])@ == place_key()(candidates@[i]),
        decreases candidates@.len() - keys@.len(),
    {
        let key = candidates[keys.len()].path.sort_key();
        keys.push(key);
    }
    sorted_with(candidates, &keys, Ghost(place_key()))
}

/// The files whose size some other file has too, in path order.
pub open spec fn pruned(found: Seq<Candidate>) -> Seq<Candidate> {
    sorted_from(repeated(found, size_key()), place_key())
}

/// Phase 2: only sizes seen more than once can contain duplicates.
pub fn prune_by_size(found: Vec<Candidate>) -> (out: Vec<Candidate>)
    ensures
        out@ == pruned(found@),
        is_sorted_from(repeated(found@, size_key()), place_key(), out@),
{
    let mut keys: Vec<Vec<u64>> = Vec::new();
    while keys.len() < found.len()
        invariant
            keys@.len() <= found@.len(),
            forall|i: int| 0 <= i < keys@.len() ==> (#[trigger] keys@[i])@ == size_key()(found@[i]),
        decreases found@.len() - keys@.len(),
    {
        let size: u64 = found[keys.len()].size;
        let key: Vec<u64> = vec![size];
        assert(key@ =~= seq![size]);
        keys.push(key);
    }
    in_path_order(keep_repeated(found, &keys, Ghost(size_key())))
}

/// What the cache knows of a candidate.
pub open spec fn known(cache: HashCache, c: Candidate) -> Option<CachedHashes> {
    cache.hit(c.path@, c.size, c.modified)
}

/// The candidates, each with what the cache knows of it.
pub open spec fn with_known(cache: HashCache, list: Seq<Candidate>) -> Seq<Candidate> {
    Seq::new(list.len(), |i: int| Candidate { cached: known(cache, list[i]), ..list[i] })
}

/// How many candidates the cache knows.
pub open spec fn known_count(cache: HashCache, list: Seq<Candidate>) -> nat
    decreases list.len(),
{
    if list.len() == 0 {
        0
    } else {
        known_count(cache, list.drop_last()) + if known(cache, list.last()) is Some {
            1nat
        } else {
            0nat
        }
    }
}

/// The cache knows one of these candidates under this name.
pub open spec fn is_touched(cache: HashCache, list: Seq<Candidate>, c: Seq<Seq<u8>>) -> bool {
    exists|i: int|
        0 <= i < list.len() && known(cache, #[trigger] list[i]) is Some && components(
            list[i].path@,
        ) == c
}

/// Ask the cache about every candidate. A record that is used counts as seen now.
pub fn consult_cache(
    cache: &mut HashCache,
    candidates: Vec<Candidate>,
    state: &mut ScanState,
    now: u64,
) -> (out: Vec<Candidate>)
    requires
        old(cache).wf(),
    ensures
        final(cache).wf(),
        final(cache).same_settings(*old(cache)),
        final(cache).changed() == (old(cache).changed() || known_count(*old(cache), candidates@)
            > 0),
        final(cache).record_count() == old(cache).record_count(),
        out@ == with_known(*old(cache), candidates@),
        *final(state) == (ScanState {
            cache_hits: bumped(
                old(state).cache_hits,
                known_count(*old(cache), candidates@) as u64,
            ),
            ..*old(state)
        }),
        forall|c: Seq<Seq<u8>>| #[trigger]
            final(cache).entry(c) == if is_touched(*old(cache), candidates@, c) {
                Some(CacheEntry { last_seen: now, ..old(cache).entry(c)->0 })
            } else {
                old(cache).entry(c)
            },
{
    let ghost given = candidates@;
    let ghost start = *cache;
    let mut out: Vec<Candidate> = Vec::new();
    let mut hits: u64 = 0;
    let mut at: usize = 0;
    let n: usize = candidates.len();
    for candidate in it: candidates
        invariant
            it.seq() == given,
            at == it.index(),
            n == given.len(),
            n <= usize::MAX,
            cache.wf(),
            cache.same_settings(start),
            out@ == with_known(start, given.take(at as int)),
            hits == known_count(start, given.take(at as int)),
            hits <= at,
            cache.changed() == (start.changed() || hits > 0),
            cache.record_count() == start.record_count(),
            forall|c: Seq<Seq<u8>>| #[trigger]
                cache.entry(c) == if is_touched(start, given.take(at as int), c) {
                    Some(CacheEntry { last_seen: now, ..start.entry(c)->0 })
                } else {
                    start.entry(c)
                },
    {
        let ghost before = *cache;
        let ghost seen = given.take(at as int);
        let ghost more = given.take(at + 1);
        let candidate: Candidate = candidate;
        let ghost plain = candidate;
        let cached = cache.lookup(&candidate.path, candidate.size, candidate.modified, now);
        proof {
            assert(more.drop_last() =~= seen);
            assert(more.last() == plain);
            let key = components(plain.path@);
            assert(before.entry(key) == if is_touched(start, seen, key) {
                Some(CacheEntry { last_seen: now, ..start.entry(key)->0 })
            } else {
                start.entry(key)
            });
            if is_touched(start, seen, key) {
                assert(start.entry(key) is Some);
            }
            assert(cached == known(start, plain));
            assert forall|c: Seq<Seq<u8>>| #[trigger] cache.entry(c) == if is_touched(
                start,
                more,
                c,
            ) {
                Some(CacheEntry { last_seen: now, ..start.entry(c)->0 })
            } else {
                start.entry(c)
            } by {
                assert(before.entry(c) == if is_touched(start, seen, c) {
                    Some(CacheEntry { last_seen: now, ..start.entry(c)->0 })
                } else {
                    start.entry(c)
                });
                if is_touched(start, seen, c) {
                    let i = choose|i: int|
                        0 <= i < seen.len() && known(start, #[trigger] seen[i]) is Some
                            && components(seen[i].path@) == c;
                    assert(more[i] == seen[i]);
                    assert(is_touched(start, more, c));
                }
                if cached is Some && c == key {
                    assert(known(start, more[at as int]) is Some);
                    assert(is_touched(start, more, c));
                }
                if is_touched(start, more, c) {
                    let i = choose|i: int|
                        0 <= i < more.len() && known(start, #[trigger] more[i]) is Some
                            && components(more[i].path@) == c;
                    if i < at {
                        assert(more[i] == seen[i]);
                        assert(is_touched(start, seen, c));
                    }
                }
            }
        }
        if cached.is_some() {
            hits += 1;
        }
        out.push(
            Candidate {
                path: candidate.path,
                size: candidate.size,
                modified: candidate.modified,
                protected: candidate.protected,
                cached,
            },
        );
        at += 1;
        assert(out@ =~= with_known(start, more));
    }
    assert(given.take(at as int) =~= given);
    ScanState::bump(&mut state.cache_hits, hits);
    out
}

/// Which candidates are probed by their head: those above this size.
pub open spec fn large_flags(list: Seq<Candidate>, min: u64) -> Seq<bool> {
    Seq::new(list.len(), |i: int| list[i].size > min)
}

/// The candidates that are probed by their head, and the others. Files too small
/// to benefit go straight to the full hash.
pub fn split_for_heads(candidates: Vec<Candidate>, min: u64) -> (r: (
    Vec<Candidate>,
    Vec<Candidate>,
))
    ensures
        r.0@ == picked(candidates@, large_flags(candidates@, min)),
        r.1@ == picked(candidates@, large_flags(candidates@, min).map_values(|b: bool| !b)),
{
    let mut flags: Vec<bool> = Vec::new();
    while flags.len() < candidates.len()
        invariant
            flags@.len() <= candidates@.len(),
            forall|i: int| 0 <= i < flags@.len() ==> #[trigger] flags@[i] == (candidates@[i].size > min),
        decreases candidates@.len() - flags@.len(),
    {
        let large: bool = candidates[flags.len()].size > min;
        flags.push(large);
    }
    assert(flags@ =~= large_flags(candidates@, min));
    parted(candidates, &flags)
}

/// What the end of the walk comes to: nothing more where the scan was cancelled, otherwise
/// the candidates that share their size, with what the cache knows of them, parted into
/// those that are probed by their head and the others.
pub open spec fn walk_finished(
    found: Seq<Candidate>,
    options: ScanOptions,
    cache: HashCache,
    cache_after: HashCache,
    state: ScanState,
    state_after: ScanState,
    at: Duration,
    now: u64,
    r: Option<(Vec<Candidate>, Vec<Candidate>)>,
) -> bool {
    &&& cache_after.same_settings(cache)
    &&& cache_after.record_count() == cache.record_count()
    &&& r is None <==> state.cancel
    &&& r is None ==> {
        &&& state_after == (ScanState { candidates: pruned(found).len() as u64, ..state })
        &&& cache_after == cache
    }
    &&& r is Some ==> {
        let list = with_known(cache, pruned(found));
        let large = large_flags(list, options.head_hash_min);
        &&& (r->0).0@ == picked(list, large)
        &&& (r->0).1@ == picked(list, large.map_values(|b: bool| !b))
        &&& cache_after.changed() == (cache.changed() || known_count(cache, pruned(found)) > 0)
        &&& state_after == (ScanState {
            candidates: list.len() as u64,
            cache_hits: bumped(state.cache_hits, known_count(cache, pruned(found)) as u64),
            hashing_began: Some(at),
            ..state
        })
        &&& forall|c: Seq<Seq<u8>>| #[trigger]
            cache_after.entry(c) == if is_touched(cache, pruned(found), c) {
                Some(CacheEntry { last_seen: now, ..cache.entry(c)->0 })
            } else {
                cache.entry(c)
            }
    }
}

/// The walk is over: decide whose head is hashed first and which others are read.
/// `None` where the scan was cancelled.
pub fn finish_walk(
    found: Vec<Candidate>,
    options: &ScanOptions,
    cache: &mut HashCache,
    state: &mut ScanState,
    at: Duration,
    now: u64,
) -> (r: Option<(Vec<Candidate>, Vec<Candidate>)>)
    requires
        old(cache).wf(),
    ensures
        final(cache).wf(),
        walk_finished(
            found@,
            *options,
            *old(cache),
            *final(cache),
            *old(state),
            *final(state),
            at,
            now,
            r,
        ),
{
    let candidates = prune_by_size(found);
    state.candidates = candidates.len() as u64;
    if state.is_cancelled() {
        return None;
    }
    let candidates = consult_cache(cache, candidates, state, now);
    state.hashing_began = Some(at);
    Some(split_for_heads(candidates, options.head_hash_min))
}

/// A candidate with a hash of it.
#[derive(Debug)]
pub struct Hashed {
    pub candidate: Candidate,
    pub hash: [u8; 32],
}

/// A candidate with the hash of its head and of all its contents.
#[derive(Debug)]
pub struct FullyHashed {
    pub candidate: Candidate,
    pub hashes: CachedHashes,
}

/// The head hash of a candidate that need not be read; it counts as hashed.
pub fn head_from_cache(state: &mut ScanState, candidate: &Candidate) -> (hash: Option<[u8; 32]>)
    ensures
        hash == match candidate.cached {
            Some(h) => Some(h.prefix),
            None => None,
        },
        *final(state) == (ScanState {
            files_hashed: if hash is Some {
                bumped(old(state).files_hashed, 1)
            } else {
                old(state).files_hashed
            },
            ..*old(state)
        }),
{
    match candidate.cached {
        Some(h) => {
            ScanState::bump(&mut state.files_hashed, 1);
            Some(h.prefix)
        },
        None => None,
    }
}

/// The hashes of a candidate that need not be read; it counts as hashed.
pub fn contents_from_cache(state: &mut ScanState, candidate: &Candidate) -> (hashes: Option<
    CachedHashes,
>)
    ensures
        hashes == candidate.cached,
        *final(state) == (ScanState {
            files_hashed: if hashes is Some {
                bumped(old(state).files_hashed, 1)
            } else {
                old(state).files_hashed
            },
            ..*old(state)
        }),
{
    if candidate.cached.is_some() {
        ScanState::bump(&mut state.files_hashed, 1);
    }
    candidate.cached
}

/// What reading one file changes: progress either way, and a report on failure.
pub open spec fn noted(
    before: ScanState,
    after: ScanState,
    path: FilePath,
    read: Result<u64, Seq<char>>,
    report: Option<ScanMsg>,
) -> bool {
    match read {
        Ok(bytes) => {
            &&& after == (ScanState {
                files_hashed: bumped(before.files_hashed, 1),
                bytes_hashed: bumped(before.bytes_hashed, bytes),
                ..before
            })
            &&& report is None
        },
        Err(message) => {
            &&& after == (ScanState {
                files_hashed: bumped(before.files_hashed, 1),
                errors: bumped(before.errors, 1),
                ..before
            })
            &&& report matches Some(ScanMsg::Error(e)) && e.path is Some && e.path->0@ == path@
                && e.message@ == message
        },
    }
}

/// Note that the head of a candidate was read, or why not. A candidate that
/// cannot be read is dropped, and the scan goes on.
pub fn note_head(
    state: &mut ScanState,
    candidate: Candidate,
    read: Result<([u8; 32], u64), String>,
) -> (r: (Option<Hashed>, Option<ScanMsg>))
    ensures
        r.0 == match read {
            Ok(h) => Some(Hashed { candidate, hash: h.0 }),
            Err(_) => None,
        },
        noted(
            *old(state),
            *final(state),
            candidate.path,
            match read {
                Ok(h) => Ok(h.1),
                Err(message) => Err(message@),
            },
            r.1,
        ),
{
    match read {
        Ok((hash, bytes)) => {
            ScanState::bump(&mut state.files_hashed, 1);
            ScanState::bump(&mut state.bytes_hashed, bytes);
            (Some(Hashed { candidate, hash }), None)
        },
        Err(message) => {
            ScanState::bump(&mut state.errors, 1);
            ScanState::bump(&mut state.files_hashed, 1);
            (None, Some(ScanMsg::Error(ScanError::new(Some(candidate.path), message))))
        },
    }
}

/// Note that a candidate was read in full, or why not. A candidate that cannot
/// be read is dropped, and the scan goes on.
pub fn note_contents(
    state: &mut ScanState,
    candidate: Candidate,
    read: Result<(CachedHashes, u64), String>,
) -> (r: (Option<FullyHashed>, Option<ScanMsg>))
    ensures
        r.0 == match read {
            Ok(h) => Some(FullyHashed { candidate, hashes: h.0 }),
            Err(_) => None,
        },
        noted(
            *old(state),
            *final(state),
            candidate.path,
            match read {
                Ok(h) => Ok(h.1),
                Err(message) => Err(message@),
            },
            r.1,
        ),
{
    match read {
        Ok((hashes, bytes)) => {
            ScanState::bump(&mut state.files_hashed, 1);
            ScanState::bump(&mut state.bytes_hashed, bytes);
            (Some(FullyHashed { candidate, hashes }), None)
        },
        Err(message) => {
            ScanState::bump(&mut state.errors, 1);
            ScanState::bump(&mut state.files_hashed, 1);
            (None, Some(ScanMsg::Error(ScanError::new(Some(candidate.path), message))))
        },
    }
}

/// A shared size and head is necessary for a duplicate, but not sufficient.
pub open spec fn head_key() -> spec_fn(Hashed) -> Seq<u64> {
    |h: Hashed| seq![h.candidate.size] + hash_key(h.hash)
}

/// The candidates of a list.
pub open spec fn candidates_of(list: Seq<Hashed>) -> Seq<Candidate> {
    list.map_values(|h: Hashed| h.candidate)
}

/// What is read in full: the probed candidates that share size and head with
/// another one, and those that were not probed.
pub open spec fn survivors(heads: Seq<Hashed>, others: Seq<Candidate>) -> Seq<Candidate> {
    sorted_from(candidates_of(repeated(heads, head_key())) + others, place_key())
}

/// What the end of the head hashes comes to: nothing more where the scan was cancelled,
/// otherwise what is read in full.
pub open spec fn heads_finished(
    heads: Seq<Hashed>,
    others: Seq<Candidate>,
    state: ScanState,
    state_after: ScanState,
    r: Option<Vec<Candidate>>,
) -> bool {
    &&& r is None <==> state.cancel
    &&& r is None ==> state_after == state
    &&& r is Some ==> {
        &&& r->0@ == survivors(heads, others)
        &&& state_after == (ScanState {
            candidates: r->0@.len() as u64,
            files_hashed: 0,
            ..state
        })
    }
}

/// Phase 3 is over: split same-size candidates by the hash of their head. `None`
/// where the scan was cancelled.
pub fn finish_heads(heads: Vec<Hashed>, others: Vec<Candidate>, state: &mut ScanState) -> (r:
    Option<Vec<Candidate>>)
    ensures
        heads_finished(heads@, others@, *old(state), *final(state), r),
{
    if state.is_cancelled() {
        return None;
    }
    let mut keys: Vec<Vec<u64>> = Vec::new();
    while keys.len() < heads.len()
        invariant
            keys@.len() <= heads@.len(),
            forall|i: int| 0 <= i < keys@.len() ==> (#[trigger] keys@[i])@ == head_key()(heads@[i]),
        decreases heads@.len() - keys@.len(),
    {
        let head = &heads[keys.len()];
        let mut key: Vec<u64> = vec![head.candidate.size];
        assert(key@ =~= seq![head.candidate.size]);
        let mut tail = hash_key_of(&head.hash);
        key.append(&mut tail);
        keys.push(key);
    }
    let kept = keep_repeated(heads, &keys, Ghost(head_key()));
    let ghost kept_heads = kept@;
    let mut list: Vec<Candidate> = Vec::new();
    for head in it: kept
        invariant
            it.seq() == kept_heads,
            list@ =~= candidates_of(kept_heads.take(it.index() as int)),
    {
        let ghost before = list@;
        list.push(head.candidate);
    }
    assert(kept_heads.take(kept_heads.len() as int) =~= kept_heads);
    let mut others = others;
    list.append(&mut others);
    let list = in_path_order(list);
    state.candidates = list.len() as u64;
    state.files_hashed = 0;
    Some(list)
}

/// What the cache knows of a file after the first `n` of these were remembered.
pub open spec fn entry_after(
    cache: HashCache,
    list: Seq<FullyHashed>,
    now: u64,
    c: Seq<Seq<u8>>,
) -> Option<CacheEntry>
    decreases list.len(),
{
    if list.len() == 0 {
        cache.entry(c)
    } else {
        let h = list.last();
        if is_news(cache, h) && components(h.candidate.path@) == c {
            Some(
                CacheEntry {
                    size: h.candidate.size,
                    modified_ns: stamp_of(h.candidate.modified)->0 as u128,
                    hashes: h.hashes,
                    last_seen: now,
                },
            )
        } else {
            entry_after(cache, list.drop_last(), now, c)
        }
    }
}

/// The cache takes the hashes of this file, which had to be read.
pub open spec fn is_news(cache: HashCache, h: FullyHashed) -> bool {
    h.candidate.cached is None && cache.takes(h.candidate.size, h.candidate.modified)
}

/// The cache takes the hashes of one of these files.
pub open spec fn brings_news(cache: HashCache, list: Seq<FullyHashed>) -> bool {
    exists|i: int| 0 <= i < list.len() && is_news(cache, #[trigger] list[i])
}

/// Remember the hashes of every file that had to be read.
pub fn remember_hashes(cache: &mut HashCache, list: &Vec<FullyHashed>, now: u64)
    requires
        old(cache).wf(),
    ensures
        final(cache).wf(),
        final(cache).same_settings(*old(cache)),
        final(cache).changed() == (old(cache).changed() || brings_news(*old(cache), list@)),
        forall|c: Seq<Seq<u8>>| #[trigger]
            final(cache).entry(c) == entry_after(*old(cache), list@, now, c),
{
    let ghost start = *cache;
    let mut i: usize = 0;
    while i < list.len()
        invariant
            i <= list@.len(),
            cache.wf(),
            cache.same_settings(start),
            cache.changed() == (start.changed() || brings_news(start, list@.take(i as int))),
            forall|c: Seq<Seq<u8>>| #[trigger]
                cache.entry(c) == entry_after(start, list@.take(i as int), now, c),
        decreases list@.len() - i,
    {
        let h = &list[i];
        let ghost before = *cache;
        if h.candidate.cached.is_none() {
            cache.insert(
                h.candidate.path.clone(),
                h.candidate.size,
                h.candidate.modified,
                h.hashes,
                now,
            );
        }
        proof {
            let seen = list@.take(i as int);
            let more = list@.take(i + 1);
            assert(more.drop_last() =~= seen);
            assert(more.last() == list@[i as int]);
            if brings_news(start, seen) {
                let k = choose|k: int| 0 <= k < seen.len() && is_news(start, #[trigger] seen[k]);
                assert(more[k] == seen[k]);
            }
            if is_news(start, *h) {
                assert(is_news(start, more[i as int]));
            }
            if brings_news(start, more) {
                let k = choose|k: int| 0 <= k < more.len() && is_news(start, #[trigger] more[k]);
                if k < i {
                    assert(seen[k] == more[k]);
                }
            }
            assert forall|c: Seq<Seq<u8>>| #[trigger] cache.entry(c) == entry_after(
                start,
                more,
                now,
                c,
            ) by {
                assert(before.entry(c) == entry_after(start, list@.take(i as int), now, c));
            }
        }
        i += 1;
    }
    assert(list@.take(i as int) =~= list@);
}

/// Files with equal size and contents belong together.
pub open spec fn content_key() -> spec_fn(FullyHashed) -> Seq<u64> {
    |h: FullyHashed| seq![h.candidate.size] + hash_key(h.hashes.full)
}

/// How many files the buckets hold.
pub open spec fn bucket_total(buckets: Seq<Vec<FullyHashed>>) -> int
    decreases buckets.len(),
{
    if buckets.len() == 0 {
        0
    } else {
        bucket_total(buckets.drop_last()) + buckets.last()@.len()
    }
}

/// What the end of the full hashes comes to: nothing more where the scan was cancelled,
/// otherwise the buckets of equal files.
pub open spec fn contents_finished(
    hashed: Seq<FullyHashed>,
    state: ScanState,
    state_after: ScanState,
    at: Duration,
    r: Option<Vec<Vec<FullyHashed>>>,
) -> bool {
    &&& r is None <==> state.cancel
    &&& r is None ==> state_after == state
    &&& r is Some ==> {
        &&& are_buckets(hashed, content_key(), r->0@)
        &&& state_after == (ScanState {
            hashing_ended: Some(at),
            files_to_check: state_after.files_to_check,
            ..state
        })
        &&& state_after.files_to_check == bucket_total(r->0@) % 0x1_0000_0000_0000_0000
    }
}

/// Phase 4 is over: group by size and digest, and drop what is unique. `None`
/// where the scan was cancelled.
pub fn finish_contents(hashed: Vec<FullyHashed>, state: &mut ScanState, at: Duration) -> (r: Option<
    Vec<Vec<FullyHashed>>,
>)
    ensures
        contents_finished(hashed@, *old(state), *final(state), at, r),
{
    if state.is_cancelled() {
        return None;
    }
    let mut keys: Vec<Vec<u64>> = Vec::new();
    while keys.len() < hashed.len()
        invariant
            keys@.len() <= hashed@.len(),
            forall|i: int| 0 <= i < keys@.len() ==> (#[trigger] keys@[i])@ == content_key()(hashed@[i]),
        decreases hashed@.len() - keys@.len(),
    {
        let h = &hashed[keys.len()];
        let mut key: Vec<u64> = vec![h.candidate.size];
        assert(key@ =~= seq![h.candidate.size]);
        let mut tail = hash_key_of(&h.hashes.full);
        key.append(&mut tail);
        keys.push(key);
    }
    let buckets = bucketed(hashed, &keys, Ghost(content_key()));
    let mut total: u64 = 0;
    let mut b: usize = 0;
    while b < buckets.len()
        invariant
            b <= buckets@.len(),
            total == bucket_total(buckets@.take(b as int)) % 0x1_0000_0000_0000_0000,
        decreases buckets@.len() - b,
    {
        assert(buckets@.take(b + 1).drop_last() =~= buckets@.take(b as int));
        ScanState::bump(&mut total, buckets[b].len() as u64);
        b += 1;
    }
    assert(buckets@.take(b as int) =~= buckets@);
    state.hashing_ended = Some(at);
    state.files_to_check = total;
    Some(buckets)
}

/// Entry `i` is the first name in the list of its physical file. What could not be
/// identified counts as a file of its own.
pub open spec fn is_first_name(ids: Seq<Option<u64>>, i: int) -> bool {
    ids[i] is None || forall|j: int| 0 <= j < i ==> #[trigger] ids[j] != ids[i]
}

/// Which entries are first names.
pub open spec fn first_names(ids: Seq<Option<u64>>) -> Seq<bool> {
    Seq::new(ids.len(), |i: int| is_first_name(ids, i))
}

/// Drop entries that are additional names for a file already in the bucket. Two
/// entries have the same number exactly where they are the same physical file;
/// if an entry cannot be opened to check, it is kept, and deletion reports the
/// error rather than silently dropping a real duplicate.
pub fn collapse_hardlinks(bucket: Vec<FullyHashed>, ids: &Vec<Option<u64>>) -> (out: Vec<
    FullyHashed,
>)
    requires
        ids@.len() == bucket@.len(),
    ensures
        out@ == picked(bucket@, first_names(ids@)),
{
    let mut flags: Vec<bool> = Vec::new();
    while flags.len() < ids.len()
        invariant
            flags@.len() <= ids@.len(),
            forall|i: int| 0 <= i < flags@.len() ==> #[trigger] flags@[i] == is_first_name(ids@, i),
        decreases ids@.len() - flags@.len(),
    {
        let i: usize = flags.len();
        let first: bool = match ids[i] {
            None => true,
            Some(id) => {
                let mut seen: bool = false;
                let mut j: usize = 0;
                while j < i
                    invariant
                        j <= i < ids@.len(),
                        ids@[i as int] == Some(id),
                        seen == !(forall|k: int| 0 <= k < j ==> #[trigger] ids@[k] != ids@[i as int]),
                    decreases i - j,
                {
                    if let Some(other) = ids[j] {
                        if other == id {
                            assert(ids@[j as int] == ids@[i as int]);
                            seen = true;
                        }
                    }
                    j += 1;
                }
                !seen
            },
        };
        flags.push(first);
    }
    assert(flags@ =~= first_names(ids@));
    parted(bucket, &flags).0
}

/// The files of a bucket that are listed: one for each physical file where
/// hardlinks are collapsed.
pub open spec fn listed(
    bucket: Seq<FullyHashed>,
    ids: Seq<Option<u64>>,
    collapse: bool,
) -> Seq<FullyHashed> {
    if collapse {
        picked(bucket, first_names(ids))
    } else {
        bucket
    }
}

/// The buckets that are still duplicates, each with the files that are listed.
pub open spec fn duplicates(
    buckets: Seq<Vec<FullyHashed>>,
    ids: Seq<Vec<Option<u64>>>,
    collapse: bool,
) -> Seq<Seq<FullyHashed>>
    decreases buckets.len(),
{
    if buckets.len() == 0 {
        Seq::empty()
    } else {
        let rest = duplicates(buckets.drop_last(), ids, collapse);
        let files = listed(buckets.last()@, ids[buckets.len() - 1]@, collapse);
        if files.len() < 2 {
            rest
        } else {
            rest.push(files)
        }
    }
}

/// Files are listed by path.
pub open spec fn listing_key() -> spec_fn(FullyHashed) -> Seq<u64> {
    |h: FullyHashed| path_key(h.candidate.path@)
}

/// The entry that is shown for a file, before anything is kept.
pub open spec fn entry_for(h: FullyHashed) -> FileEntry {
    FileEntry {
        path: h.candidate.path,
        size: h.candidate.size,
        modified: h.candidate.modified,
        keep: h.candidate.protected,
        protected: h.candidate.protected,
    }
}

/// The entries for a list of files.
pub open spec fn entries_for(list: Seq<FullyHashed>) -> Seq<FileEntry> {
    list.map_values(|h: FullyHashed| entry_for(h))
}

/// The group that a list of equal files makes: in path order, so "keep the first"
/// means something, with the first one kept and what is protected.
pub open spec fn is_group_of(group: DupeGroup, files: Seq<FullyHashed>) -> bool {
    let sorted = sorted_from(files, listing_key());
    &&& group.hash == sorted[0].hashes.full
    &&& group.size == sorted[0].candidate.size
    &&& !group.skipped
    &&& group.files@ == kept_only(entries_for(sorted), 0)
}

/// Group `i` is made of bucket `i`.
pub open spec fn are_groups_of(groups: Seq<DupeGroup>, lists: Seq<Seq<FullyHashed>>) -> bool {
    &&& groups.len() == lists.len()
    &&& forall|i: int| 0 <= i < groups.len() ==> is_group_of(#[trigger] groups[i], lists[i])
}

fn group_of(files: Vec<FullyHashed>) -> (group: DupeGroup)
    requires
        files@.len() >= 2,
    ensures
        is_group_of(group, files@),
        group.files@.len() == files@.len(),
        group.keeps_a_copy(),
{
    let mut keys: Vec<Vec<u64>> = Vec::new();
    while keys.len() < files.len()
        invariant
            keys@.len() <= files@.len(),
            forall|i: int| 0 <= i < keys@.len() ==> (#[trigger] keys@[i])@ == listing_key()(files@[i]),
        decreases files@.len() - keys@.len(),
    {
        let key = files[keys.len()].candidate.path.sort_key();
        keys.push(key);
    }
    let sorted = sorted_with(files, &keys, Ghost(listing_key()));
    proof {
        sorted_has_the_same_items(files@, listing_key(), sorted@, files@[0]);
    }
    let ghost list = sorted@;
    let hash: [u8; 32] = sorted[0].hashes.full;
    let size: u64 = sorted[0].candidate.size;
    let mut entries: Vec<FileEntry> = Vec::new();
    for h in it: sorted
        invariant
            it.seq() == list,
            entries@ =~= entries_for(list.take(it.index() as int)),
    {
        let c = h.candidate;
        entries.push(FileEntry::new_protected(c.path, c.size, c.modified, c.protected));
    }
    assert(list.take(list.len() as int) =~= list);
    DupeGroup::new(hash, size, entries)
}

/// Groups that waste most come first, smaller files before larger ones.
pub open spec fn finding_key() -> spec_fn(DupeGroup) -> Seq<u64> {
    |g: DupeGroup| descending(g.wasted_bytes()) + seq![g.size]
}

/// The groups that surviving buckets make, the most wasteful first.
pub open spec fn finalized(
    buckets: Seq<Vec<FullyHashed>>,
    ids: Seq<Vec<Option<u64>>>,
    options: ScanOptions,
    groups: Seq<DupeGroup>,
) -> bool {
    &&& exists|made: Seq<DupeGroup>| #[trigger]
        are_groups_of(made, duplicates(buckets, ids, options.collapse_hardlinks)) && groups
            == sorted_from(made, finding_key()) && is_sorted_from(made, finding_key(), groups)
    &&& forall|g: int| 0 <= g < groups.len() ==> (#[trigger] groups[g]).keeps_a_copy()
    &&& forall|g: int| 0 <= g < groups.len() ==> (#[trigger] groups[g]).files@.len() >= 2
}

/// Phase 5: turn surviving buckets into groups, collapsing hardlinks, and list the
/// most wasteful first.
pub fn finalize(
    buckets: Vec<Vec<FullyHashed>>,
    ids: &Vec<Vec<Option<u64>>>,
    options: &ScanOptions,
) -> (groups: Vec<DupeGroup>)
    requires
        ids@.len() == buckets@.len(),
        forall|b: int|
            0 <= b < buckets@.len() ==> (#[trigger] ids@[b])@.len() == buckets@[b]@.len(),
    ensures
        finalized(buckets@, ids@, *options, groups@),
{
    let ghost given = buckets@;
    let collapse: bool = options.collapse_hardlinks;
    let n: usize = ids.len();
    let mut groups: Vec<DupeGroup> = Vec::new();
    let mut at: usize = 0;
    for bucket in it: buckets
        invariant
            it.seq() == given,
            at == it.index(),
            n == ids@.len(),
            ids@.len() == given.len(),
            collapse == options.collapse_hardlinks,
            forall|b: int|
                0 <= b < given.len() ==> (#[trigger] ids@[b])@.len() == given[b]@.len(),
            are_groups_of(groups@, duplicates(given.take(at as int), ids@, collapse)),
            forall|g: int| 0 <= g < groups@.len() ==> (#[trigger] groups@[g]).keeps_a_copy(),
            forall|g: int| 0 <= g < groups@.len() ==> (#[trigger] groups@[g]).files@.len() >= 2,
    {
        let ghost whole = bucket@;
        assert(bucket == given[at as int]);
        assert(ids@[at as int]@.len() == bucket@.len());
        let files = if collapse {
            collapse_hardlinks(bucket, &ids[at])
        } else {
            bucket
        };
        proof {
            let more = given.take(at + 1);
            assert(more.drop_last() =~= given.take(at as int));
            assert(more.last() == given[at as int]);
            assert(files@ == listed(whole, ids@[at as int]@, collapse));
        }
        // A group of hardlinks to one inode is not a duplicate at all.
        if files.len() >= 2 {
            let group = group_of(files);
            groups.push(group);
        }
        at += 1;
    }
    assert(given.take(at as int) =~= given);
    let ghost made = groups@;
    let mut keys: Vec<Vec<u64>> = Vec::new();
    while keys.len() < groups.len()
        invariant
            keys@.len() <= groups@.len(),
            forall|i: int| 0 <= i < keys@.len() ==> (#[trigger] keys@[i])@ == finding_key()(groups@[i]),
        decreases groups@.len() - keys@.len(),
    {
        let group = &groups[keys.len()];
        let mut key = descending_key(group.wasted_wide());
        key.push(group.size);
        assert(key@ =~= finding_key()(*group));
        keys.push(key);
    }
    let groups = sorted_with(groups, &keys, Ghost(finding_key()));
    proof {
        assert forall|g: int| 0 <= g < groups@.len() implies (#[trigger] groups@[g]).keeps_a_copy()
            && groups@[g].files@.len() >= 2 by {
            sorted_has_the_same_items(made, finding_key(), groups@, groups@[g]);
            assert(groups@.contains(groups@[g]));
            let i = choose|i: int| 0 <= i < made.len() && made[i] == groups@[g];
            assert(made[i].keeps_a_copy());
        }
    }
    groups
}

/// Note that one more file of a surviving group was identified.
pub fn note_checked(state: &mut ScanState)
    ensures
        *final(state) == (ScanState {
            files_checked: bumped(old(state).files_checked, 1),
            ..*old(state)
        }),
{
    ScanState::bump(&mut state.files_checked, 1);
}

/// Phase 5 is over: the result, or that the scan was cancelled.
pub fn scan_result(groups: Vec<DupeGroup>, state: &ScanState) -> (msg: ScanMsg)
    ensures
        msg == if state.cancel {
            ScanMsg::Cancelled
        } else {
            ScanMsg::Done(groups)
        },
{
    if state.is_cancelled() {
        ScanMsg::Cancelled
    } else {
        ScanMsg::Done(groups)
    }
}

/// Number of files hashed so far and of all to be hashed, for the progress gauge.
pub fn hashed_of(state: &ScanState) -> (r: (u64, u64))
    ensures
        r == (state.files_hashed, state.candidates),
{
    (ScanState::get(&state.files_hashed), ScanState::get(&state.candidates))
}

/// Number of files identified so far and of all in surviving groups.
pub fn checked_of(state: &ScanState) -> (r: (u64, u64))
    ensures
        r == (state.files_checked, state.files_to_check),
{
    (ScanState::get(&state.files_checked), ScanState::get(&state.files_to_check))
}

} // verus!
