//! What a scan comes to from its first phase to its last.

use super::laws::{
    all_probed, all_read, duplicates_are_listed_together, equal_sizes_survive_pruning,
    hashes_are_right, listed_files_agree_in_every_byte, lists, lone_heads_are_not_read,
    unique_sizes_are_pruned,
};
use super::{
    are_groups_of, bucket_total, contents_finished, duplicates, finalized, finding_key,
    heads_finished, is_touched, known, known_count, large_flags, place_key, pruned, size_key,
    walk_finished, with_known, Candidate, FullyHashed, Hashed,
};
use crate::cache::HashCache;
use crate::export::laws::sum_of;
use crate::grouping::{picked, picked_holds, picked_is_part, repeated, repeated_flags};
use crate::hashing::content_hash;
use crate::model::{DupeGroup, ScanOptions, ScanState};
use crate::order::{is_sorted_from, sort_exists, sorted_from};
use crate::path::components;
use crate::time::Duration;
use vstd::prelude::*;

verus! {

/// When the walk ends, files larger than the options say are probed by their head, the
/// other ones are read at once, and files with a size of their own are neither. Only a
/// cancelled scan stops here.
pub proof fn the_walk_ends_in_two_lists(
    found: Seq<Candidate>,
    options: ScanOptions,
    cache: HashCache,
    cache_after: HashCache,
    state: ScanState,
    state_after: ScanState,
    at: Duration,
    now: u64,
    r: Option<(Vec<Candidate>, Vec<Candidate>)>,
    c: Candidate,
    i: int,
    j: int,
)
    requires
        walk_finished(found, options, cache, cache_after, state, state_after, at, now, r),
        0 <= i < found.len(),
        0 <= j < found.len(),
        i != j,
        found[i].size == found[j].size,
    ensures
        r is Some <==> !state.cancel,
        r is Some ==> {
            &&& (r->0).0@.contains(c) ==> c.size > options.head_hash_min
            &&& (r->0).1@.contains(c) ==> c.size <= options.head_hash_min
            &&& (r->0).0@.contains(c) || (r->0).1@.contains(c) ==> exists|x: int, y: int|
                #![trigger found[x], found[y]]
                0 <= x < found.len() && 0 <= y < found.len() && x != y && found[x].path == c.path
                    && found[x].size == c.size && found[y].size == c.size && found[x].modified
                    == c.modified && found[x].protected == c.protected
            &&& exists|d: Candidate|
                {
                    &&& if found[i].size > options.head_hash_min {
                        #[trigger] (r->0).0@.contains(d)
                    } else {
                        (r->0).1@.contains(d)
                    }
                    &&& d.path == found[i].path
                    &&& d.size == found[i].size
                    &&& d.modified == found[i].modified
                    &&& d.protected == found[i].protected
                }
            &&& state_after.hashing_began == Some(at)
        },
{
    let min = options.head_hash_min;
    let kept = pruned(found);
    let list = with_known(cache, kept);
    let large = large_flags(list, min);
    let small = large.map_values(|b: bool| !b);
    picked_holds(list, large, c);
    picked_holds(list, small, c);
    equal_sizes_survive_pruning(found, i, j);
    let q = choose|q: int| 0 <= q < kept.len() && kept[q] == found[i];
    let d = list[q];
    picked_holds(list, large, d);
    picked_holds(list, small, d);
    assert(large[q] == (found[i].size > min) && small[q] == !large[q]);
    if r is Some {
        assert((r->0).0@.contains(d) == (found[i].size > min)) by {
            if picked(list, large).contains(d) {
                let t = choose|t: int| 0 <= t < list.len() && large[t] && #[trigger] list[t] == d;
                assert(list[t].size > min);
            }
        }
    }
    if r is Some && ((r->0).0@.contains(c) || (r->0).1@.contains(c)) {
        let p = choose|p: int| 0 <= p < list.len() && #[trigger] list[p] == c;
        assert(kept.contains(kept[p]));
        unique_sizes_are_pruned(found, kept[p]);
        let (x, y) = choose|x: int, y: int|
            #![trigger found[x], found[y]]
            0 <= x < found.len() && 0 <= y < found.len() && x != y && found[x] == kept[p]
                && found[y].size == kept[p].size;
        assert(found[x].path == c.path && found[y].size == c.size);
    }
}

/// A record of the cache that is used counts as used now, and no other record changes.
pub proof fn used_records_are_renewed(
    found: Seq<Candidate>,
    options: ScanOptions,
    cache: HashCache,
    cache_after: HashCache,
    state: ScanState,
    state_after: ScanState,
    at: Duration,
    now: u64,
    r: Option<(Vec<Candidate>, Vec<Candidate>)>,
    c: Seq<Seq<u8>>,
)
    requires
        walk_finished(found, options, cache, cache_after, state, state_after, at, now, r),
    ensures
        cache.entry(c) is None ==> cache_after.entry(c) is None,
        cache.entry(c) is Some ==> {
            &&& cache_after.entry(c) is Some
            &&& cache_after.entry(c)->0.size == cache.entry(c)->0.size
            &&& cache_after.entry(c)->0.modified_ns == cache.entry(c)->0.modified_ns
            &&& cache_after.entry(c)->0.hashes == cache.entry(c)->0.hashes
            &&& cache_after.entry(c)->0.last_seen == cache.entry(c)->0.last_seen
                || cache_after.entry(c)->0.last_seen == now
        },
        r is Some ==> forall|p: int|
            0 <= p < pruned(found).len() && components((#[trigger] pruned(found)[p]).path@) == c
                && with_known(cache, pruned(found))[p].cached is Some
                ==> cache_after.entry(c)->0.last_seen == now,
{
    if is_touched(cache, pruned(found), c) {
        let i = choose|i: int|
            0 <= i < pruned(found).len() && known(cache, #[trigger] pruned(found)[i]) is Some
                && components(pruned(found)[i].path@) == c;
        assert(cache.entry(c) is Some);
    }
    if r is Some {
        assert(cache_after.entry(c) == cache_after.entry(c));
        assert forall|p: int|
            0 <= p < pruned(found).len() && components((#[trigger] pruned(found)[p]).path@) == c
                && with_known(cache, pruned(found))[p].cached is Some implies cache_after.entry(
            c,
        )->0.last_seen == now by {
            assert(known(cache, pruned(found)[p]) is Some);
            assert(is_touched(cache, pruned(found), c));
        }
    }
}

/// From the walk to the list of groups: two files with the same contents are listed in one
/// group, where everything that had to be read could be and no one cancelled; where
/// hardlinks are collapsed, unless one of the two is another name for a file before it.
pub proof fn a_scan_lists_duplicates_together(
    found: Seq<Candidate>,
    options: ScanOptions,
    cache: HashCache,
    cache_after: HashCache,
    walked: (ScanState, ScanState),
    at: Duration,
    now: u64,
    probed: Vec<Candidate>,
    others: Vec<Candidate>,
    heads: Seq<Hashed>,
    probing: (ScanState, ScanState),
    read: Vec<Candidate>,
    hashed: Seq<FullyHashed>,
    reading: (ScanState, ScanState),
    then: Duration,
    buckets: Vec<Vec<FullyHashed>>,
    ids: Seq<Vec<Option<u64>>>,
    groups: Seq<DupeGroup>,
    contents: spec_fn(Seq<u8>) -> Seq<u8>,
    i: int,
    j: int,
)
    requires
        walk_finished(
            found,
            options,
            cache,
            cache_after,
            walked.0,
            walked.1,
            at,
            now,
            Some((probed, others)),
        ),
        all_probed(probed@, heads, contents),
        heads_finished(heads, others@, probing.0, probing.1, Some(read)),
        all_read(read@, hashed, contents),
        contents_finished(hashed, reading.0, reading.1, then, Some(buckets)),
        forall|b: int| 0 <= b < buckets@.len() ==> (#[trigger] ids[b])@.len() == buckets@[b]@.len(),
        finalized(buckets@, ids, options, groups),
        0 <= i < found.len(),
        0 <= j < found.len(),
        found[i].path@ != found[j].path@,
        contents(found[i].path@) == contents(found[j].path@),
        found[i].size == contents(found[i].path@).len(),
        found[j].size == contents(found[j].path@).len(),
        options.collapse_hardlinks ==> forall|b: int, x: int|
            0 <= b < buckets@.len() && 0 <= x < buckets@[b]@.len() && (
            (#[trigger] buckets@[b]@[x]).candidate.path@ == found[i].path@
                || buckets@[b]@[x].candidate.path@ == found[j].path@) ==> ids[b]@[x] is None
                || forall|k: int| 0 <= k < x ==> #[trigger] ids[b]@[k] != ids[b]@[x],
    ensures
        exists|g: int|
            0 <= g < groups.len() && lists(#[trigger] groups[g], found[i].path@) && lists(
                groups[g],
                found[j].path@,
            ),
{
    let collapse = options.collapse_hardlinks;
    let made = choose|made: Seq<DupeGroup>| #[trigger]
        are_groups_of(made, duplicates(buckets@, ids, collapse)) && groups == sorted_from(
            made,
            finding_key(),
        ) && is_sorted_from(made, finding_key(), groups);
    duplicates_are_listed_together(
        found,
        cache,
        options.head_hash_min,
        heads,
        hashed,
        buckets@,
        ids,
        collapse,
        made,
        groups,
        contents,
        i,
        j,
    );
}

/// From the contents to the list of groups: the files of a group agree in every byte, where
/// the digests are right and tell the contents apart.
pub proof fn a_scan_lists_only_equal_files(
    options: ScanOptions,
    hashed: Seq<FullyHashed>,
    reading: (ScanState, ScanState),
    then: Duration,
    buckets: Vec<Vec<FullyHashed>>,
    ids: Seq<Vec<Option<u64>>>,
    groups: Seq<DupeGroup>,
    contents: spec_fn(Seq<u8>) -> Seq<u8>,
    g: int,
    f: int,
    k: int,
)
    requires
        hashes_are_right(hashed, contents),
        forall|x: int, y: int|
            #![trigger hashed[x], hashed[y]]
            0 <= x < hashed.len() && 0 <= y < hashed.len() && content_hash(
                contents(hashed[x].candidate.path@),
            ) == content_hash(contents(hashed[y].candidate.path@)) ==> contents(
                hashed[x].candidate.path@,
            ) == contents(hashed[y].candidate.path@),
        contents_finished(hashed, reading.0, reading.1, then, Some(buckets)),
        forall|b: int| 0 <= b < buckets@.len() ==> (#[trigger] ids[b])@.len() == buckets@[b]@.len(),
        finalized(buckets@, ids, options, groups),
        0 <= g < groups.len(),
        0 <= f < groups[g].files@.len(),
        0 <= k < groups[g].files@.len(),
    ensures
        contents(groups[g].files@[f].path@) == contents(groups[g].files@[k].path@),
        groups[g].files@.len() >= 2,
{
    let collapse = options.collapse_hardlinks;
    let made = choose|made: Seq<DupeGroup>| #[trigger]
        are_groups_of(made, duplicates(buckets@, ids, collapse)) && groups == sorted_from(
            made,
            finding_key(),
        ) && is_sorted_from(made, finding_key(), groups);
    listed_files_agree_in_every_byte(
        hashed,
        buckets@,
        ids,
        collapse,
        made,
        groups,
        contents,
        g,
        f,
        k,
    );
}

/// Where hardlinks are not collapsed, every file that was hashed and has an equal is listed.
pub proof fn hardlinks_are_listed_as_asked(
    options: ScanOptions,
    hashed: Seq<FullyHashed>,
    reading: (ScanState, ScanState),
    then: Duration,
    buckets: Vec<Vec<FullyHashed>>,
    ids: Seq<Vec<Option<u64>>>,
    groups: Seq<DupeGroup>,
    x: int,
    y: int,
)
    requires
        contents_finished(hashed, reading.0, reading.1, then, Some(buckets)),
        forall|b: int| 0 <= b < buckets@.len() ==> (#[trigger] ids[b])@.len() == buckets@[b]@.len(),
        finalized(buckets@, ids, options, groups),
        0 <= x < hashed.len(),
        0 <= y < hashed.len(),
        hashed[x].candidate.path@ != hashed[y].candidate.path@,
        hashed[x].candidate.size == hashed[y].candidate.size,
        hashed[x].hashes.full == hashed[y].hashes.full,
        !options.collapse_hardlinks,
    ensures
        exists|g: int|
            0 <= g < groups.len() && lists(
                #[trigger] groups[g],
                hashed[x].candidate.path@,
            ) && lists(groups[g], hashed[y].candidate.path@),
{
    let made = choose|made: Seq<DupeGroup>| #[trigger]
        are_groups_of(made, duplicates(buckets@, ids, options.collapse_hardlinks)) && groups
            == sorted_from(made, finding_key()) && is_sorted_from(made, finding_key(), groups);
    super::laws::equal_files_share_a_bucket(hashed, buckets@, x, y);
    let b = choose|b: int|
        0 <= b < buckets@.len() && (#[trigger] buckets@[b])@.contains(hashed[x])
            && buckets@[b]@.contains(hashed[y]);
    let bucket = buckets@[b]@;
    assert(ids[b]@.len() == bucket.len());
    let m = choose|m: int| 0 <= m < bucket.len() && bucket[m] == hashed[x];
    let n = choose|n: int| 0 <= n < bucket.len() && bucket[n] == hashed[y];
    super::laws::bucket_mates_share_a_group(buckets@, ids, false, made, groups, b, m, n);
}

/// Nothing is read in full that was not met by the walk.
pub proof fn only_what_was_found_is_read(
    found: Seq<Candidate>,
    options: ScanOptions,
    cache: HashCache,
    cache_after: HashCache,
    walked: (ScanState, ScanState),
    at: Duration,
    now: u64,
    probed: Vec<Candidate>,
    others: Vec<Candidate>,
    heads: Seq<Hashed>,
    probing: (ScanState, ScanState),
    read: Vec<Candidate>,
    c: Candidate,
)
    requires
        walk_finished(
            found,
            options,
            cache,
            cache_after,
            walked.0,
            walked.1,
            at,
            now,
            Some((probed, others)),
        ),
        forall|h: int|
            0 <= h < heads.len() ==> probed@.contains((#[trigger] heads[h]).candidate),
        heads_finished(heads, others@, probing.0, probing.1, Some(read)),
        read@.contains(c),
    ensures
        exists|i: int|
            0 <= i < found.len() && (#[trigger] found[i]).path == c.path && found[i].size == c.size
                && found[i].modified == c.modified && found[i].protected == c.protected,
{
    let kept = pruned(found);
    let list = with_known(cache, kept);
    let large = large_flags(list, options.head_hash_min);
    let small = large.map_values(|b: bool| !b);
    picked_holds(list, large, c);
    picked_holds(list, small, c);
    if !others@.contains(c) {
        lone_heads_are_not_read(heads, others@, c);
        let (i, j) = choose|i: int, j: int|
            #![trigger heads[i], heads[j]]
            0 <= i < heads.len() && 0 <= j < heads.len() && i != j && heads[i].candidate == c
                && heads[j].candidate.size == c.size && heads[j].hash == heads[i].hash;
        assert(probed@.contains(heads[i].candidate));
    }
    let p = choose|p: int| 0 <= p < list.len() && #[trigger] list[p] == c;
    assert(kept.contains(kept[p]));
    unique_sizes_are_pruned(found, kept[p]);
    let (x, y) = choose|x: int, y: int|
        #![trigger found[x], found[y]]
        0 <= x < found.len() && 0 <= y < found.len() && x != y && found[x] == kept[p]
            && found[y].size == kept[p].size;
    assert(found[x].path == c.path);
}

/// Each phase ends the scan exactly where it was cancelled.
pub proof fn a_cancelled_scan_goes_no_further(
    heads: Seq<Hashed>,
    others: Seq<Candidate>,
    hashed: Seq<FullyHashed>,
    state: ScanState,
    after_heads: ScanState,
    after_contents: ScanState,
    at: Duration,
    read: Option<Vec<Candidate>>,
    buckets: Option<Vec<Vec<FullyHashed>>>,
)
    requires
        heads_finished(heads, others, state, after_heads, read),
        contents_finished(hashed, state, after_contents, at, buckets),
    ensures
        state.cancel <==> read is None,
        state.cancel <==> buckets is None,
        state.cancel ==> after_heads == state && after_contents == state,
        !state.cancel ==> after_heads.files_hashed == 0 && after_heads.candidates
            == read->0@.len() && after_contents.hashing_ended == Some(at),
{
    if read is Some {
        assert(read->0.len() <= usize::MAX);
    }
}

/// When the walk ends, the candidates are counted anew, and the hits are those that the cache
/// knows; reading begins now. A cancelled scan asks the cache nothing.
pub proof fn the_walk_is_counted(
    found: Seq<Candidate>,
    options: ScanOptions,
    cache: HashCache,
    cache_after: HashCache,
    state: ScanState,
    state_after: ScanState,
    at: Duration,
    now: u64,
    r: Option<(Vec<Candidate>, Vec<Candidate>)>,
)
    requires
        walk_finished(found, options, cache, cache_after, state, state_after, at, now, r),
        found.len() + state.cache_hits <= u64::MAX,
    ensures
        r is Some ==> {
            let known = |c: Candidate| c.cached is Some;
            let hits = (r->0).0@.filter(known).len() + (r->0).1@.filter(known).len();
            &&& state_after.candidates == (r->0).0@.len() + (r->0).1@.len()
            &&& state_after.cache_hits == state.cache_hits + hits
            &&& state_after.hashing_began == Some(at)
            &&& cache_after.changed() <==> cache.changed() || hits > 0
        },
        r is None ==> cache_after == cache && state_after.cache_hits == state.cache_hits
            && state_after.hashing_began == state.hashing_began,
        cache_after.in_use() == cache.in_use(),
        cache_after.smallest() == cache.smallest(),
        cache_after.place() == cache.place(),
        cache_after.record_count() == cache.record_count(),
        state_after.files_seen == state.files_seen,
        state_after.dirs_seen == state.dirs_seen,
        state_after.bytes_seen == state.bytes_seen,
        state_after.files_skipped == state.files_skipped,
        state_after.files_hashed == state.files_hashed,
        state_after.bytes_hashed == state.bytes_hashed,
        state_after.errors == state.errors,
        state_after.cancel == state.cancel,
{
    let kept = pruned(found);
    picked_is_part(found, repeated_flags(found, size_key()));
    sort_exists(repeated(found, size_key()), place_key());
    if r is Some {
        let list = with_known(cache, kept);
        let large = large_flags(list, options.head_hash_min);
        let known = |c: Candidate| c.cached is Some;
        hits_are_counted(cache, kept);
        parts_add_up(list, large, known);
    }
}

proof fn hits_are_counted(cache: HashCache, list: Seq<Candidate>)
    ensures
        known_count(cache, list) == with_known(cache, list).filter(
            |c: Candidate| c.cached is Some,
        ).len(),
        known_count(cache, list) <= list.len(),
    decreases list.len(),
{
    reveal(Seq::filter);
    if list.len() > 0 {
        hits_are_counted(cache, list.drop_last());
        assert(with_known(cache, list).drop_last() =~= with_known(cache, list.drop_last()));
    }
}

/// Two lists that a list was parted into hold as many of a kind as the list did.
proof fn parts_add_up(list: Seq<Candidate>, flags: Seq<bool>, p: spec_fn(Candidate) -> bool)
    requires
        flags.len() >= list.len(),
    ensures
        ({
            let yes = picked(list, flags);
            let no = picked(list, flags.map_values(|b: bool| !b));
            &&& yes.len() + no.len() == list.len()
            &&& yes.filter(p).len() + no.filter(p).len() == list.filter(p).len()
        }),
    decreases list.len(),
{
    reveal(Seq::filter);
    let nots = flags.map_values(|b: bool| !b);
    if list.len() > 0 {
        parts_add_up(list.drop_last(), flags, p);
        let yes = picked(list.drop_last(), flags);
        let no = picked(list.drop_last(), nots);
        assert(yes.push(list.last()).drop_last() =~= yes);
        assert(no.push(list.last()).drop_last() =~= no);
    }
}

/// When the contents were read, the files that have to be identified are those in the
/// buckets, and nothing else is counted.
pub proof fn the_contents_are_counted(
    hashed: Seq<FullyHashed>,
    state: ScanState,
    after: ScanState,
    at: Duration,
    buckets: Vec<Vec<FullyHashed>>,
)
    requires
        contents_finished(hashed, state, after, at, Some(buckets)),
        sum_of(buckets@.map_values(|b: Vec<FullyHashed>| b@.len() as int)) <= u64::MAX,
    ensures
        after.files_to_check == sum_of(buckets@.map_values(|b: Vec<FullyHashed>| b@.len() as int)),
        after.hashing_ended == Some(at),
        after.files_hashed == state.files_hashed,
        after.candidates == state.candidates,
        after.errors == state.errors,
        after.bytes_hashed == state.bytes_hashed,
        after.cancel == state.cancel,
{
    buckets_are_summed(buckets@);
}

proof fn buckets_are_summed(buckets: Seq<Vec<FullyHashed>>)
    ensures
        bucket_total(buckets) == sum_of(
            buckets.map_values(|b: Vec<FullyHashed>| b@.len() as int),
        ),
        bucket_total(buckets) >= 0,
    decreases buckets.len(),
{
    if buckets.len() > 0 {
        buckets_are_summed(buckets.drop_last());
        assert(buckets.map_values(|b: Vec<FullyHashed>| b@.len() as int).drop_last()
            =~= buckets.drop_last().map_values(|b: Vec<FullyHashed>| b@.len() as int));
    }
}

} // verus!
