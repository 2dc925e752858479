//! What the phases of a scan guarantee together.

use super::{
    are_groups_of, candidates_of, content_key, duplicates, entries_for, entry_after, entry_for,
    finalized, finding_key, first_names, head_key, is_first_name, is_group_of, large_flags, listed, listing_key,
    place_key, pruned, size_key, survivors, with_known, Candidate, FullyHashed, Hashed,
};
use crate::cache::HashCache;
use crate::grouping::{
    are_buckets, bucket_key, has_bucket, key_flags, picked, picked_holds, repeated,
    repeated_flags, repeats,
};
use crate::hashing::{content_hash, covered, HEAD_HASH_BYTES};
use crate::model::{wasted_is_bounded, DupeGroup, ScanOptions};
use crate::order::{
    arranged_by, arranged_places_differ, descending_decides, is_sorted_from, key_less_irreflexive,
    sort_exists, sorted_from, sorted_has_the_same_items, sorted_keys_ascend,
};
use crate::path::{components, components_before, path_keys_order_components};
use crate::selection::{hash_key, hash_key_tells_apart};
use vstd::prelude::*;

verus! {

/// A file whose size another file has survives the first pruning: no duplicate is
/// lost before anything is read.
pub proof fn equal_sizes_survive_pruning(found: Seq<Candidate>, i: int, j: int)
    requires
        0 <= i < found.len(),
        0 <= j < found.len(),
        i != j,
        found[i].size == found[j].size,
    ensures
        pruned(found).contains(found[i]),
{
    let key = size_key();
    assert(repeats(found, key, i, j));
    assert(repeated_flags(found, key)[i]);
    picked_holds(found, repeated_flags(found, key), found[i]);
    let kept = repeated(found, key);
    assert(kept.contains(found[i]));
    sort_exists(kept, place_key());
    sorted_has_the_same_items(kept, place_key(), pruned(found), found[i]);
}

/// A file with a size of its own is never opened.
pub proof fn unique_sizes_are_pruned(found: Seq<Candidate>, c: Candidate)
    requires
        pruned(found).contains(c),
    ensures
        exists|i: int, j: int|
            #![trigger found[i], found[j]]
            0 <= i < found.len() && 0 <= j < found.len() && i != j && found[i] == c
                && found[j].size == c.size,
{
    let key = size_key();
    let kept = repeated(found, key);
    sort_exists(kept, place_key());
    sorted_has_the_same_items(kept, place_key(), pruned(found), c);
    picked_holds(found, repeated_flags(found, key), c);
    let i = choose|i: int|
        0 <= i < found.len() && repeated_flags(found, key)[i] && #[trigger] found[i] == c;
    let j = choose|j: int| repeats(found, key, i, j);
    assert(key(found[i])[0] == found[i].size && key(found[j])[0] == found[j].size);
    assert(found[i] == c && found[j].size == c.size);
}

/// A file that shares size and head with another one is read in full, and so is
/// every file that was not probed.
pub proof fn equal_heads_survive(heads: Seq<Hashed>, others: Seq<Candidate>, i: int, j: int)
    requires
        0 <= i < heads.len(),
        0 <= j < heads.len(),
        i != j,
        heads[i].candidate.size == heads[j].candidate.size,
        heads[i].hash == heads[j].hash,
    ensures
        survivors(heads, others).contains(heads[i].candidate),
{
    let key = head_key();
    assert(repeats(heads, key, i, j));
    assert(repeated_flags(heads, key)[i]);
    picked_holds(heads, repeated_flags(heads, key), heads[i]);
    let kept = repeated(heads, key);
    let at = choose|at: int| 0 <= at < kept.len() && kept[at] == heads[i];
    let list = candidates_of(kept) + others;
    assert(list[at] == heads[i].candidate);
    sort_exists(list, place_key());
    sorted_has_the_same_items(list, place_key(), survivors(heads, others), heads[i].candidate);
}

/// A file that was not probed is read in full.
pub proof fn unprobed_files_survive(heads: Seq<Hashed>, others: Seq<Candidate>, c: Candidate)
    requires
        others.contains(c),
    ensures
        survivors(heads, others).contains(c),
{
    let kept = candidates_of(repeated(heads, head_key()));
    let list = kept + others;
    let i = choose|i: int| 0 <= i < others.len() && others[i] == c;
    assert(list[kept.len() + i] == c);
    sort_exists(list, place_key());
    sorted_has_the_same_items(list, place_key(), survivors(heads, others), c);
}

/// Files with the same size and the same digest share a bucket.
pub proof fn equal_files_share_a_bucket(
    hashed: Seq<FullyHashed>,
    buckets: Seq<Vec<FullyHashed>>,
    i: int,
    j: int,
)
    requires
        are_buckets(hashed, content_key(), buckets),
        0 <= i < hashed.len(),
        0 <= j < hashed.len(),
        i != j,
        hashed[i].candidate.size == hashed[j].candidate.size,
        hashed[i].hashes.full == hashed[j].hashes.full,
    ensures
        exists|b: int|
            0 <= b < buckets.len() && (#[trigger] buckets[b])@.contains(hashed[i])
                && buckets[b]@.contains(hashed[j]),
{
    let key = content_key();
    assert(repeats(hashed, key, i, j));
    assert(has_bucket(buckets, key, key(hashed[i])));
    let k = key(hashed[i]);
    let b = choose|b: int|
        0 <= b < buckets.len() && bucket_key(#[trigger] buckets[b], key) == k;
    picked_holds(hashed, key_flags(hashed, key, k), hashed[i]);
    picked_holds(hashed, key_flags(hashed, key, k), hashed[j]);
    assert(key_flags(hashed, key, k)[i] && key_flags(hashed, key, k)[j]);
    assert(buckets[b]@.contains(hashed[i]) && buckets[b]@.contains(hashed[j]));
}

/// Files that share a bucket have the same size and the same digest.
pub proof fn bucket_mates_are_equal(
    hashed: Seq<FullyHashed>,
    buckets: Seq<Vec<FullyHashed>>,
    b: int,
    i: int,
    j: int,
)
    requires
        are_buckets(hashed, content_key(), buckets),
        0 <= b < buckets.len(),
        0 <= i < buckets[b]@.len(),
        0 <= j < buckets[b]@.len(),
    ensures
        hashed.contains(buckets[b]@[i]),
        buckets[b]@[i].candidate.size == buckets[b]@[j].candidate.size,
        buckets[b]@[i].hashes.full == buckets[b]@[j].hashes.full,
{
    let key = content_key();
    let bucket = buckets[b]@;
    let k = bucket_key(buckets[b], key);
    assert(bucket.contains(bucket[i]) && bucket.contains(bucket[j]));
    picked_holds(hashed, key_flags(hashed, key, k), bucket[i]);
    picked_holds(hashed, key_flags(hashed, key, k), bucket[j]);
    let x = choose|x: int|
        0 <= x < hashed.len() && key_flags(hashed, key, k)[x] && #[trigger] hashed[x] == bucket[i];
    let y = choose|y: int|
        0 <= y < hashed.len() && key_flags(hashed, key, k)[y] && #[trigger] hashed[y] == bucket[j];
    assert(hashed.contains(hashed[x]));
    assert(key(hashed[x]) == key(hashed[y]));
    let p = hash_key(hashed[x].hashes.full);
    let q = hash_key(hashed[y].hashes.full);
    assert(key(hashed[x])[0] == hashed[x].candidate.size);
    assert(key(hashed[y])[0] == hashed[y].candidate.size);
    assert(key(hashed[x]).skip(1) =~= p);
    assert(key(hashed[y]).skip(1) =~= q);
    hash_key_tells_apart(hashed[x].hashes.full, hashed[y].hashes.full);
}

proof fn duplicates_come_from_buckets(
    buckets: Seq<Vec<FullyHashed>>,
    ids: Seq<Vec<Option<u64>>>,
    collapse: bool,
    d: int,
)
    requires
        0 <= d < duplicates(buckets, ids, collapse).len(),
    ensures
        exists|b: int|
            0 <= b < buckets.len() && duplicates(buckets, ids, collapse)[d] == listed(
                (#[trigger] buckets[b])@,
                ids[b]@,
                collapse,
            ),
        duplicates(buckets, ids, collapse)[d].len() >= 2,
    decreases buckets.len(),
{
    let rest = buckets.drop_last();
    if d < duplicates(rest, ids, collapse).len() {
        duplicates_come_from_buckets(rest, ids, collapse, d);
        let b = choose|b: int|
            0 <= b < rest.len() && duplicates(rest, ids, collapse)[d] == listed(
                (#[trigger] rest[b])@,
                ids[b]@,
                collapse,
            );
        assert(buckets[b] == rest[b]);
    } else {
        assert(buckets.last() == buckets[buckets.len() - 1]);
    }
}

/// Where the files `f` and `k` of a group stand in the bucket that it was made of.
proof fn listed_files_come_from_one_bucket(
    hashed: Seq<FullyHashed>,
    buckets: Seq<Vec<FullyHashed>>,
    ids: Seq<Vec<Option<u64>>>,
    collapse: bool,
    made: Seq<DupeGroup>,
    g: int,
    f: int,
    k: int,
) -> (r: (int, int, int))
    requires
        are_buckets(hashed, content_key(), buckets),
        forall|b: int| 0 <= b < buckets.len() ==> (#[trigger] ids[b])@.len() == buckets[b]@.len(),
        are_groups_of(made, duplicates(buckets, ids, collapse)),
        0 <= g < made.len(),
        0 <= f < made[g].files@.len(),
        0 <= k < made[g].files@.len(),
    ensures
        0 <= r.0 < buckets.len(),
        0 <= r.1 < buckets[r.0]@.len(),
        0 <= r.2 < buckets[r.0]@.len(),
        made[g].files@[f].path == buckets[r.0]@[r.1].candidate.path,
        made[g].files@[k].path == buckets[r.0]@[r.2].candidate.path,
        made[g].files@[f].size == buckets[r.0]@[r.1].candidate.size,
        made[g].files@[k].size == buckets[r.0]@[r.2].candidate.size,
        made[g].files@[0].size == made[g].size,
{
    duplicates_come_from_buckets(buckets, ids, collapse, g);
    let b = choose|b: int|
        0 <= b < buckets.len() && duplicates(buckets, ids, collapse)[g] == listed(
            (#[trigger] buckets[b])@,
            ids[b]@,
            collapse,
        );
    let files = duplicates(buckets, ids, collapse)[g];
    let bucket = buckets[b]@;
    assert(ids[b]@.len() == bucket.len());
    assert(is_group_of(made[g], files));
    sort_exists(files, listing_key());
    let sorted = sorted_from(files, listing_key());
    sorted_has_the_same_items(files, listing_key(), sorted, sorted[f]);
    sorted_has_the_same_items(files, listing_key(), sorted, sorted[k]);
    assert(sorted.contains(sorted[f]) && sorted.contains(sorted[k]));
    if collapse {
        picked_holds(bucket, first_names(ids[b]@), sorted[f]);
        picked_holds(bucket, first_names(ids[b]@), sorted[k]);
    }
    assert(bucket.contains(sorted[f]) && bucket.contains(sorted[k]));
    let x = choose|x: int| 0 <= x < bucket.len() && bucket[x] == sorted[f];
    let y = choose|y: int| 0 <= y < bucket.len() && bucket[y] == sorted[k];
    assert(entries_for(sorted)[f] == entry_for(sorted[f]));
    assert(entries_for(sorted)[k] == entry_for(sorted[k]));
    assert(entries_for(sorted)[0] == entry_for(sorted[0]));
    (b, x, y)
}

/// All files of a group have the size of the group.
pub proof fn groups_have_one_size(
    hashed: Seq<FullyHashed>,
    buckets: Seq<Vec<FullyHashed>>,
    ids: Seq<Vec<Option<u64>>>,
    collapse: bool,
    made: Seq<DupeGroup>,
    groups: Seq<DupeGroup>,
    g: int,
    f: int,
)
    requires
        are_buckets(hashed, content_key(), buckets),
        forall|b: int| 0 <= b < buckets.len() ==> (#[trigger] ids[b])@.len() == buckets[b]@.len(),
        are_groups_of(made, duplicates(buckets, ids, collapse)),
        is_sorted_from(made, finding_key(), groups),
        0 <= g < groups.len(),
        0 <= f < groups[g].files@.len(),
    ensures
        groups[g].files@[f].size == groups[g].size,
{
    sorted_has_the_same_items(made, finding_key(), groups, groups[g]);
    assert(groups.contains(groups[g]));
    let m = choose|m: int| 0 <= m < made.len() && made[m] == groups[g];
    let (b, x, y) = listed_files_come_from_one_bucket(
        hashed,
        buckets,
        ids,
        collapse,
        made,
        m,
        f,
        0,
    );
    bucket_mates_are_equal(hashed, buckets, b, x, y);
}

/// The most wasteful group comes first.
pub proof fn findings_are_sorted_by_waste(made: Seq<DupeGroup>, groups: Seq<DupeGroup>, i: int, j: int)
    requires
        is_sorted_from(made, finding_key(), groups),
        0 <= i <= j < groups.len(),
    ensures
        groups[j].wasted_bytes() <= groups[i].wasted_bytes(),
{
    sorted_keys_ascend(made, finding_key(), groups, i, j);
    let a = groups[i];
    let b = groups[j];
    wasted_is_bounded(a);
    wasted_is_bounded(b);
    descending_decides(b.wasted_bytes(), seq![b.size], a.wasted_bytes(), seq![a.size]);
}

/// Everything that was to be probed was, and the hashes are those of the heads of
/// the files at these paths.
pub open spec fn all_probed(
    large: Seq<Candidate>,
    heads: Seq<Hashed>,
    contents: spec_fn(Seq<u8>) -> Seq<u8>,
) -> bool {
    &&& forall|c: Candidate| #[trigger]
        large.contains(c) ==> candidates_of(heads).contains(c)
    &&& forall|h: int|
        0 <= h < heads.len() ==> (#[trigger] heads[h]).hash@ == content_hash(
            covered(contents(heads[h].candidate.path@), Some(HEAD_HASH_BYTES)),
        )
}

/// The candidates of fully hashed files.
pub open spec fn files_of(hashed: Seq<FullyHashed>) -> Seq<Candidate> {
    hashed.map_values(|h: FullyHashed| h.candidate)
}

/// The hashes are those of the files at these paths.
pub open spec fn hashes_are_right(
    hashed: Seq<FullyHashed>,
    contents: spec_fn(Seq<u8>) -> Seq<u8>,
) -> bool {
    forall|h: int|
        0 <= h < hashed.len() ==> (#[trigger] hashed[h]).hashes.full@ == content_hash(
            contents(hashed[h].candidate.path@),
        )
}

/// Everything that was to be read was, and the hashes are right.
pub open spec fn all_read(
    list: Seq<Candidate>,
    hashed: Seq<FullyHashed>,
    contents: spec_fn(Seq<u8>) -> Seq<u8>,
) -> bool {
    &&& forall|c: Candidate| #[trigger] list.contains(c) ==> files_of(hashed).contains(c)
    &&& hashes_are_right(hashed, contents)
}

/// A file at this path is in the bucket.
pub open spec fn holds(bucket: Seq<FullyHashed>, path: Seq<u8>) -> bool {
    exists|x: int| 0 <= x < bucket.len() && (#[trigger] bucket[x]).candidate.path@ == path
}

/// The group lists a file at this path.
pub open spec fn lists(group: DupeGroup, path: Seq<u8>) -> bool {
    exists|f: int| 0 <= f < group.files@.len() && (#[trigger] group.files@[f]).path@ == path
}

/// Two files with the same contents come out of the phases in one bucket, where the
/// sizes are those of the contents and everything that had to be read could be.
pub proof fn no_duplicate_is_missed(
    found: Seq<Candidate>,
    cache: HashCache,
    min: u64,
    heads: Seq<Hashed>,
    hashed: Seq<FullyHashed>,
    buckets: Seq<Vec<FullyHashed>>,
    contents: spec_fn(Seq<u8>) -> Seq<u8>,
    i: int,
    j: int,
)
    requires
        0 <= i < found.len(),
        0 <= j < found.len(),
        found[i].path@ != found[j].path@,
        contents(found[i].path@) == contents(found[j].path@),
        found[i].size == contents(found[i].path@).len(),
        found[j].size == contents(found[j].path@).len(),
        ({
            let list = with_known(cache, pruned(found));
            let large = large_flags(list, min);
            let others = picked(list, large.map_values(|b: bool| !b));
            &&& all_probed(picked(list, large), heads, contents)
            &&& all_read(survivors(heads, others), hashed, contents)
        }),
        are_buckets(hashed, content_key(), buckets),
    ensures
        exists|b: int|
            0 <= b < buckets.len() && holds((#[trigger] buckets[b])@, found[i].path@) && holds(
                buckets[b]@,
                found[j].path@,
            ),
{
    equal_sizes_survive_pruning(found, i, j);
    equal_sizes_survive_pruning(found, j, i);
    let kept = pruned(found);
    let list = with_known(cache, kept);
    let large = large_flags(list, min);
    let small = large.map_values(|b: bool| !b);
    let others = picked(list, small);
    let p = choose|p: int| 0 <= p < kept.len() && kept[p] == found[i];
    let q = choose|q: int| 0 <= q < kept.len() && kept[q] == found[j];
    let a = list[p];
    let c = list[q];
    if a.size > min {
        assert(large[p] && large[q]);
        picked_holds(list, large, a);
        picked_holds(list, large, c);
        assert(candidates_of(heads).contains(a) && candidates_of(heads).contains(c));
        let x = choose|x: int|
            0 <= x < candidates_of(heads).len() && candidates_of(heads)[x] == a;
        let y = choose|y: int|
            0 <= y < candidates_of(heads).len() && candidates_of(heads)[y] == c;
        assert(heads[x].candidate == a && heads[y].candidate == c);
        assert(heads[x].hash@ == heads[y].hash@);
        assert(heads[x].hash =~= heads[y].hash);
        equal_heads_survive(heads, others, x, y);
        equal_heads_survive(heads, others, y, x);
    } else {
        assert(small[p] && small[q]);
        picked_holds(list, small, a);
        picked_holds(list, small, c);
        unprobed_files_survive(heads, others, a);
        unprobed_files_survive(heads, others, c);
    }
    let read = survivors(heads, others);
    assert(read.contains(a) && read.contains(c));
    let x = choose|x: int| 0 <= x < files_of(hashed).len() && files_of(hashed)[x] == a;
    let y = choose|y: int| 0 <= y < files_of(hashed).len() && files_of(hashed)[y] == c;
    assert(hashed[x].candidate == a && hashed[y].candidate == c);
    assert(hashed[x].hashes.full@ == hashed[y].hashes.full@);
    assert(hashed[x].hashes.full =~= hashed[y].hashes.full);
    equal_files_share_a_bucket(hashed, buckets, x, y);
    let b = choose|b: int|
        0 <= b < buckets.len() && (#[trigger] buckets[b])@.contains(hashed[x])
            && buckets[b]@.contains(hashed[y]);
    let bucket = buckets[b]@;
    let m = choose|m: int| 0 <= m < bucket.len() && bucket[m] == hashed[x];
    let n = choose|n: int| 0 <= n < bucket.len() && bucket[n] == hashed[y];
    assert(bucket[m].candidate.path@ == found[i].path@);
    assert(bucket[n].candidate.path@ == found[j].path@);
}

proof fn buckets_become_duplicates(
    buckets: Seq<Vec<FullyHashed>>,
    ids: Seq<Vec<Option<u64>>>,
    collapse: bool,
    b: int,
)
    requires
        0 <= b < buckets.len(),
        listed(buckets[b]@, ids[b]@, collapse).len() >= 2,
    ensures
        duplicates(buckets, ids, collapse).contains(listed(buckets[b]@, ids[b]@, collapse)),
    decreases buckets.len(),
{
    let rest = buckets.drop_last();
    let files = listed(buckets[b]@, ids[b]@, collapse);
    let all = duplicates(buckets, ids, collapse);
    if b < rest.len() {
        assert(rest[b] == buckets[b]);
        buckets_become_duplicates(rest, ids, collapse, b);
        let below = duplicates(rest, ids, collapse);
        let d = choose|d: int| 0 <= d < below.len() && below[d] == files;
        assert(all[d] == files);
    } else {
        assert(all[all.len() - 1] == files);
    }
}

proof fn a_group_lists_its_files(group: DupeGroup, files: Seq<FullyHashed>, h: FullyHashed)
    requires
        is_group_of(group, files),
        files.contains(h),
    ensures
        lists(group, h.candidate.path@),
{
    sort_exists(files, listing_key());
    let sorted = sorted_from(files, listing_key());
    sorted_has_the_same_items(files, listing_key(), sorted, h);
    let f = choose|f: int| 0 <= f < sorted.len() && sorted[f] == h;
    assert(entries_for(sorted)[f] == entry_for(h));
    assert(group.files@[f].path@ == h.candidate.path@);
}

/// Two files of a bucket are listed in one group; where hardlinks are collapsed,
/// unless one of them is another name for a file that comes before it.
pub proof fn bucket_mates_share_a_group(
    buckets: Seq<Vec<FullyHashed>>,
    ids: Seq<Vec<Option<u64>>>,
    collapse: bool,
    made: Seq<DupeGroup>,
    groups: Seq<DupeGroup>,
    b: int,
    x: int,
    y: int,
)
    requires
        0 <= b < buckets.len(),
        ids[b]@.len() == buckets[b]@.len(),
        0 <= x < buckets[b]@.len(),
        0 <= y < buckets[b]@.len(),
        buckets[b]@[x].candidate.path@ != buckets[b]@[y].candidate.path@,
        collapse ==> {
            &&& ids[b]@[x] is None || forall|j: int|
                0 <= j < x ==> #[trigger] ids[b]@[j] != ids[b]@[x]
            &&& ids[b]@[y] is None || forall|j: int|
                0 <= j < y ==> #[trigger] ids[b]@[j] != ids[b]@[y]
        },
        are_groups_of(made, duplicates(buckets, ids, collapse)),
        is_sorted_from(made, finding_key(), groups),
    ensures
        exists|g: int|
            0 <= g < groups.len() && lists(
                #[trigger] groups[g],
                buckets[b]@[x].candidate.path@,
            ) && lists(groups[g], buckets[b]@[y].candidate.path@),
{
    let bucket = buckets[b]@;
    let files = listed(bucket, ids[b]@, collapse);
    if collapse {
        picked_holds(bucket, first_names(ids[b]@), bucket[x]);
        picked_holds(bucket, first_names(ids[b]@), bucket[y]);
        assert(first_names(ids[b]@)[x] && first_names(ids[b]@)[y]);
    } else {
        assert(bucket.contains(bucket[x]) && bucket.contains(bucket[y]));
    }
    assert(files.contains(bucket[x]) && files.contains(bucket[y]));
    let m = choose|m: int| 0 <= m < files.len() && files[m] == bucket[x];
    let n = choose|n: int| 0 <= n < files.len() && files[n] == bucket[y];
    assert(m != n);
    buckets_become_duplicates(buckets, ids, collapse, b);
    let all = duplicates(buckets, ids, collapse);
    let d = choose|d: int| 0 <= d < all.len() && all[d] == files;
    assert(is_group_of(made[d], all[d]));
    a_group_lists_its_files(made[d], files, bucket[x]);
    a_group_lists_its_files(made[d], files, bucket[y]);
    sorted_has_the_same_items(made, finding_key(), groups, made[d]);
    assert(made.contains(made[d]));
    let g = choose|g: int| 0 <= g < groups.len() && groups[g] == made[d];
    assert(lists(groups[g], bucket[x].candidate.path@));
}

/// Two files with the same contents are listed in one group, where everything could
/// be read; where hardlinks are collapsed, unless one of the two is another name for a
/// file that comes before it.
pub proof fn duplicates_are_listed_together(
    found: Seq<Candidate>,
    cache: HashCache,
    min: u64,
    heads: Seq<Hashed>,
    hashed: Seq<FullyHashed>,
    buckets: Seq<Vec<FullyHashed>>,
    ids: Seq<Vec<Option<u64>>>,
    collapse: bool,
    made: Seq<DupeGroup>,
    groups: Seq<DupeGroup>,
    contents: spec_fn(Seq<u8>) -> Seq<u8>,
    i: int,
    j: int,
)
    requires
        0 <= i < found.len(),
        0 <= j < found.len(),
        found[i].path@ != found[j].path@,
        contents(found[i].path@) == contents(found[j].path@),
        found[i].size == contents(found[i].path@).len(),
        found[j].size == contents(found[j].path@).len(),
        ({
            let list = with_known(cache, pruned(found));
            let large = large_flags(list, min);
            let others = picked(list, large.map_values(|b: bool| !b));
            &&& all_probed(picked(list, large), heads, contents)
            &&& all_read(survivors(heads, others), hashed, contents)
        }),
        are_buckets(hashed, content_key(), buckets),
        forall|b: int| 0 <= b < buckets.len() ==> (#[trigger] ids[b])@.len() == buckets[b]@.len(),
        collapse ==> forall|b: int, x: int|
            0 <= b < buckets.len() && 0 <= x < buckets[b]@.len() && (
            (#[trigger] buckets[b]@[x]).candidate.path@ == found[i].path@
                || buckets[b]@[x].candidate.path@ == found[j].path@) ==> ids[b]@[x] is None
                || forall|z: int| 0 <= z < x ==> #[trigger] ids[b]@[z] != ids[b]@[x],
        are_groups_of(made, duplicates(buckets, ids, collapse)),
        is_sorted_from(made, finding_key(), groups),
    ensures
        exists|g: int|
            0 <= g < groups.len() && lists(#[trigger] groups[g], found[i].path@) && lists(
                groups[g],
                found[j].path@,
            ),
{
    no_duplicate_is_missed(found, cache, min, heads, hashed, buckets, contents, i, j);
    let b = choose|b: int|
        0 <= b < buckets.len() && holds((#[trigger] buckets[b])@, found[i].path@) && holds(
            buckets[b]@,
            found[j].path@,
        );
    let bucket = buckets[b]@;
    assert(ids[b]@.len() == bucket.len());
    let x = choose|x: int|
        0 <= x < bucket.len() && (#[trigger] bucket[x]).candidate.path@ == found[i].path@;
    let y = choose|y: int|
        0 <= y < bucket.len() && (#[trigger] bucket[y]).candidate.path@ == found[j].path@;
    assert(bucket[x] == buckets[b]@[x] && bucket[y] == buckets[b]@[y]);
    bucket_mates_share_a_group(buckets, ids, collapse, made, groups, b, x, y);
}

/// No two of these files have the same path.
pub open spec fn no_path_twice(files: Seq<FullyHashed>) -> bool {
    forall|x: int, y: int|
        0 <= x < y < files.len() ==> (#[trigger] files[x]).candidate.path@ != (
        #[trigger] files[y]).candidate.path@
}

proof fn picked_have_no_path_twice(files: Seq<FullyHashed>, flags: Seq<bool>)
    requires
        files.len() <= flags.len(),
        no_path_twice(files),
    ensures
        no_path_twice(picked(files, flags)),
    decreases files.len(),
{
    if files.len() > 0 {
        let rest = files.drop_last();
        let n = files.len() - 1;
        let below = picked(rest, flags);
        let all = picked(files, flags);
        assert forall|x: int, y: int| 0 <= x < y < rest.len() implies (
        #[trigger] rest[x]).candidate.path@ != (#[trigger] rest[y]).candidate.path@ by {
            assert(rest[x] == files[x] && rest[y] == files[y]);
        }
        picked_have_no_path_twice(rest, flags);
        assert forall|x: int, y: int| 0 <= x < y < all.len() implies (
        #[trigger] all[x]).candidate.path@ != (#[trigger] all[y]).candidate.path@ by {
            assert(all[x] == below[x]);
            if y < below.len() {
                assert(all[y] == below[y]);
            } else {
                assert(below.contains(below[x]));
                picked_holds(rest, flags, below[x]);
                let i = choose|i: int|
                    0 <= i < rest.len() && flags[i] && #[trigger] rest[i] == below[x];
                assert(files[i] == rest[i]);
                assert(all[y] == files[n]);
            }
        }
    }
}

/// Two groups are made of two buckets.
proof fn groups_come_from_different_buckets(
    buckets: Seq<Vec<FullyHashed>>,
    ids: Seq<Vec<Option<u64>>>,
    collapse: bool,
    d: int,
    e: int,
) -> (r: (int, int))
    requires
        0 <= d < e < duplicates(buckets, ids, collapse).len(),
    ensures
        0 <= r.0 < r.1 < buckets.len(),
        duplicates(buckets, ids, collapse)[d] == listed(buckets[r.0]@, ids[r.0]@, collapse),
        duplicates(buckets, ids, collapse)[e] == listed(buckets[r.1]@, ids[r.1]@, collapse),
    decreases buckets.len(),
{
    let rest = buckets.drop_last();
    if e < duplicates(rest, ids, collapse).len() {
        let r = groups_come_from_different_buckets(rest, ids, collapse, d, e);
        assert(buckets[r.0] == rest[r.0] && buckets[r.1] == rest[r.1]);
        r
    } else {
        duplicates_come_from_buckets(rest, ids, collapse, d);
        let b = choose|b: int|
            0 <= b < rest.len() && duplicates(rest, ids, collapse)[d] == listed(
                (#[trigger] rest[b])@,
                ids[b]@,
                collapse,
            );
        assert(buckets[b] == rest[b]);
        (b, buckets.len() - 1)
    }
}

/// Where a file of a group stands in the list that the group was made of; two files
/// stand in two places.
proof fn listed_files_stand_apart(
    group: DupeGroup,
    files: Seq<FullyHashed>,
    f: int,
    k: int,
) -> (r: (int, int))
    requires
        is_group_of(group, files),
        0 <= f < group.files@.len(),
        0 <= k < group.files@.len(),
    ensures
        0 <= r.0 < files.len(),
        0 <= r.1 < files.len(),
        f != k ==> r.0 != r.1,
        group.files@[f].path == files[r.0].candidate.path,
        group.files@[k].path == files[r.1].candidate.path,
{
    let key = listing_key();
    let sorted = sorted_from(files, key);
    sort_exists(files, key);
    let order = choose|order: Seq<int>| arranged_by(files, key, sorted, order);
    assert(entries_for(sorted)[f] == entry_for(sorted[f]));
    assert(entries_for(sorted)[k] == entry_for(sorted[k]));
    if f != k {
        arranged_places_differ(files, key, sorted, order, f, k);
    }
    (order[f], order[k])
}

/// The place in `hashed` of a file that is listed for bucket `b`.
proof fn a_listed_file_was_hashed(
    hashed: Seq<FullyHashed>,
    buckets: Seq<Vec<FullyHashed>>,
    ids: Seq<Option<u64>>,
    collapse: bool,
    b: int,
    file: FullyHashed,
) -> (x: int)
    requires
        are_buckets(hashed, content_key(), buckets),
        0 <= b < buckets.len(),
        ids.len() == buckets[b]@.len(),
        listed(buckets[b]@, ids, collapse).contains(file),
    ensures
        0 <= x < hashed.len(),
        hashed[x] == file,
        content_key()(hashed[x]) == bucket_key(buckets[b], content_key()),
{
    let key = content_key();
    let bucket = buckets[b]@;
    if collapse {
        picked_holds(bucket, first_names(ids), file);
    }
    assert(bucket.contains(file));
    let flags = key_flags(hashed, key, bucket_key(buckets[b], key));
    picked_holds(hashed, flags, file);
    choose|x: int| 0 <= x < hashed.len() && flags[x] && #[trigger] hashed[x] == file
}

/// No path is listed twice, in one group or in two, where none was read twice.
pub proof fn no_path_is_listed_twice(
    hashed: Seq<FullyHashed>,
    buckets: Seq<Vec<FullyHashed>>,
    ids: Seq<Vec<Option<u64>>>,
    collapse: bool,
    made: Seq<DupeGroup>,
    groups: Seq<DupeGroup>,
    g: int,
    f: int,
    h: int,
    k: int,
)
    requires
        no_path_twice(hashed),
        are_buckets(hashed, content_key(), buckets),
        forall|b: int| 0 <= b < buckets.len() ==> (#[trigger] ids[b])@.len() == buckets[b]@.len(),
        are_groups_of(made, duplicates(buckets, ids, collapse)),
        is_sorted_from(made, finding_key(), groups),
        0 <= g < groups.len(),
        0 <= f < groups[g].files@.len(),
        0 <= h < groups.len(),
        0 <= k < groups[h].files@.len(),
        g != h || f != k,
    ensures
        groups[g].files@[f].path@ != groups[h].files@[k].path@,
{
    let key = content_key();
    let order = choose|order: Seq<int>| arranged_by(made, finding_key(), groups, order);
    let d = order[g];
    let e = order[h];
    let all = duplicates(buckets, ids, collapse);
    assert(groups[g] == made[d] && groups[h] == made[e]);
    assert(is_group_of(made[d], all[d]) && is_group_of(made[e], all[e]));
    if g == h {
        duplicates_come_from_buckets(buckets, ids, collapse, d);
        let b = choose|b: int|
            0 <= b < buckets.len() && all[d] == listed((#[trigger] buckets[b])@, ids[b]@, collapse);
        let (x, y) = listed_files_stand_apart(made[d], all[d], f, k);
        assert(ids[b]@.len() == buckets[b]@.len());
        picked_have_no_path_twice(hashed, key_flags(hashed, key, bucket_key(buckets[b], key)));
        if collapse {
            picked_have_no_path_twice(buckets[b]@, first_names(ids[b]@));
        }
        assert(no_path_twice(all[d]));
        assert(all[d][x].candidate.path@ != all[d][y].candidate.path@);
    } else {
        arranged_places_differ(made, finding_key(), groups, order, g, h);
        let (b, c) = if d < e {
            groups_come_from_different_buckets(buckets, ids, collapse, d, e)
        } else {
            let r = groups_come_from_different_buckets(buckets, ids, collapse, e, d);
            (r.1, r.0)
        };
        assert(ids[b]@.len() == buckets[b]@.len() && ids[c]@.len() == buckets[c]@.len());
        let (x, _) = listed_files_stand_apart(made[d], all[d], f, f);
        let (y, _) = listed_files_stand_apart(made[e], all[e], k, k);
        assert(all[d].contains(all[d][x]) && all[e].contains(all[e][y]));
        let u = a_listed_file_was_hashed(hashed, buckets, ids[b]@, collapse, b, all[d][x]);
        let v = a_listed_file_was_hashed(hashed, buckets, ids[c]@, collapse, c, all[e][y]);
        let p = bucket_key(buckets[b], key);
        key_less_irreflexive(p);
        assert(p != bucket_key(buckets[c], key));
        assert(u != v);
        assert(hashed[u].candidate.path@ != hashed[v].candidate.path@);
    }
}

/// The files of a group agree in every byte, where the digests are those of the
/// files' contents and tell these contents apart.
pub proof fn listed_files_agree_in_every_byte(
    hashed: Seq<FullyHashed>,
    buckets: Seq<Vec<FullyHashed>>,
    ids: Seq<Vec<Option<u64>>>,
    collapse: bool,
    made: Seq<DupeGroup>,
    groups: Seq<DupeGroup>,
    contents: spec_fn(Seq<u8>) -> Seq<u8>,
    g: int,
    f: int,
    k: int,
)
    requires
        are_buckets(hashed, content_key(), buckets),
        hashes_are_right(hashed, contents),
        forall|x: int, y: int|
            #![trigger hashed[x], hashed[y]]
            0 <= x < hashed.len() && 0 <= y < hashed.len() && content_hash(
                contents(hashed[x].candidate.path@),
            ) == content_hash(contents(hashed[y].candidate.path@)) ==> contents(
                hashed[x].candidate.path@,
            ) == contents(hashed[y].candidate.path@),
        forall|b: int| 0 <= b < buckets.len() ==> (#[trigger] ids[b])@.len() == buckets[b]@.len(),
        are_groups_of(made, duplicates(buckets, ids, collapse)),
        is_sorted_from(made, finding_key(), groups),
        0 <= g < groups.len(),
        0 <= f < groups[g].files@.len(),
        0 <= k < groups[g].files@.len(),
    ensures
        contents(groups[g].files@[f].path@) == contents(groups[g].files@[k].path@),
{
    sorted_has_the_same_items(made, finding_key(), groups, groups[g]);
    assert(groups.contains(groups[g]));
    let m = choose|m: int| 0 <= m < made.len() && made[m] == groups[g];
    let (b, x, y) = listed_files_come_from_one_bucket(
        hashed,
        buckets,
        ids,
        collapse,
        made,
        m,
        f,
        k,
    );
    bucket_mates_are_equal(hashed, buckets, b, x, y);
    bucket_mates_are_equal(hashed, buckets, b, y, x);
    let p = choose|p: int| 0 <= p < hashed.len() && hashed[p] == buckets[b]@[x];
    let q = choose|q: int| 0 <= q < hashed.len() && hashed[q] == buckets[b]@[y];
    assert(hashed[p].hashes.full@ == hashed[q].hashes.full@);
}

/// What the cache remembers of a file is taken over exactly where the file has the size and
/// the time that are remembered, and the cache is in use and takes files of that size.
pub proof fn cached_hashes_are_taken_over(cache: HashCache, list: Seq<Candidate>, i: int)
    requires
        0 <= i < list.len(),
    ensures
        with_known(cache, list).len() == list.len(),
        with_known(cache, list)[i] == (Candidate {
            cached: with_known(cache, list)[i].cached,
            ..list[i]
        }),
        ({
            let entry = cache.entry(components(list[i].path@));
            with_known(cache, list)[i].cached == if cache.in_use() && list[i].size
                >= cache.smallest() && entry is Some && entry->0.size == list[i].size
                && list[i].modified is Some && entry->0.modified_ns
                == list[i].modified->0.secs * 1_000_000_000 + list[i].modified->0.nanos {
                Some(entry->0.hashes)
            } else {
                None
            }
        }),
{
}

/// What is read in full shares its size and its head with another file, or was not probed.
pub proof fn lone_heads_are_not_read(heads: Seq<Hashed>, others: Seq<Candidate>, c: Candidate)
    requires
        survivors(heads, others).contains(c),
        !others.contains(c),
    ensures
        exists|i: int, j: int|
            #![trigger heads[i], heads[j]]
            0 <= i < heads.len() && 0 <= j < heads.len() && i != j && heads[i].candidate == c
                && heads[j].candidate.size == c.size && heads[j].hash == heads[i].hash,
{
    let key = head_key();
    let kept = repeated(heads, key);
    let list = candidates_of(kept) + others;
    sort_exists(list, place_key());
    sorted_has_the_same_items(list, place_key(), survivors(heads, others), c);
    let x = choose|x: int| 0 <= x < list.len() && list[x] == c;
    if x >= kept.len() {
        assert(others[x - kept.len()] == c);
    }
    assert(kept.contains(kept[x]));
    picked_holds(heads, repeated_flags(heads, key), kept[x]);
    let i = choose|i: int|
        0 <= i < heads.len() && repeated_flags(heads, key)[i] && #[trigger] heads[i] == kept[x];
    let j = choose|j: int| repeats(heads, key, i, j);
    assert(key(heads[i])[0] == heads[i].candidate.size);
    assert(key(heads[j])[0] == heads[j].candidate.size);
    assert(key(heads[i]).skip(1) =~= hash_key(heads[i].hash));
    assert(key(heads[j]).skip(1) =~= hash_key(heads[j].hash));
    hash_key_tells_apart(heads[i].hash, heads[j].hash);
    assert(heads[i].candidate == c && heads[j].hash == heads[i].hash);
}

/// What is read in full is read in the order of the paths.
pub proof fn files_are_read_in_path_order(
    heads: Seq<Hashed>,
    others: Seq<Candidate>,
    i: int,
    j: int,
)
    requires
        0 <= i <= j < survivors(heads, others).len(),
    ensures
        !components_before(
            components(survivors(heads, others)[j].path@),
            components(survivors(heads, others)[i].path@),
        ),
{
    let list = candidates_of(repeated(heads, head_key())) + others;
    let out = survivors(heads, others);
    sort_exists(list, place_key());
    sorted_keys_ascend(list, place_key(), out, i, j);
    path_keys_order_components(components(out[j].path@), components(out[i].path@));
}

/// Where hardlinks are collapsed every file is still listed under one of its names: its own
/// place in the bucket, or that of an earlier name of the same physical file.
pub proof fn one_name_of_each_file_is_listed(
    bucket: Seq<FullyHashed>,
    ids: Seq<Option<u64>>,
    x: int,
) -> (y: int)
    requires
        ids.len() == bucket.len(),
        0 <= x < bucket.len(),
    ensures
        0 <= y <= x,
        y == x || (ids[x] is Some && ids[y] == ids[x]),
        listed(bucket, ids, true).contains(bucket[y]),
        listed(bucket, ids, false) == bucket,
    decreases x,
{
    if is_first_name(ids, x) {
        picked_holds(bucket, first_names(ids), bucket[x]);
        assert(first_names(ids)[x]);
        x
    } else {
        let j = choose|j: int| 0 <= j < x && #[trigger] ids[j] == ids[x];
        one_name_of_each_file_is_listed(bucket, ids, j)
    }
}

/// Where hardlinks are collapsed no physical file is listed under two names, and the files
/// keep their order: entry `t` is file `places[t]` of the bucket.
pub proof fn no_file_is_listed_under_two_names(
    bucket: Seq<FullyHashed>,
    ids: Seq<Option<u64>>,
) -> (places: Seq<int>)
    requires
        ids.len() == bucket.len(),
    ensures
        places.len() == listed(bucket, ids, true).len(),
        forall|t: int|
            0 <= t < places.len() ==> 0 <= #[trigger] places[t] < bucket.len() && listed(
                bucket,
                ids,
                true,
            )[t] == bucket[places[t]],
        forall|t: int, u: int|
            0 <= t < u < places.len() ==> #[trigger] places[t] < #[trigger] places[u] && (
            ids[places[u]] is None || ids[places[t]] != ids[places[u]]),
{
    let places = crate::grouping::picked_places(bucket, first_names(ids));
    assert forall|t: int, u: int| 0 <= t < u < places.len() implies #[trigger] places[t]
        < #[trigger] places[u] && (ids[places[u]] is None || ids[places[t]] != ids[places[u]]) by {
        assert(first_names(ids)[places[u]]);
        assert(is_first_name(ids, places[u]));
    }
    places
}

/// A group shows what was read: each of its files has the path, size, time and protection
/// of a file that was hashed, and the group has that file's digest and size. At first the
/// first file is kept, and what is protected; nothing is skipped.
pub proof fn a_group_shows_what_was_read(
    hashed: Seq<FullyHashed>,
    buckets: Seq<Vec<FullyHashed>>,
    ids: Seq<Vec<Option<u64>>>,
    collapse: bool,
    made: Seq<DupeGroup>,
    groups: Seq<DupeGroup>,
    g: int,
    f: int,
) -> (x: int)
    requires
        are_buckets(hashed, content_key(), buckets),
        forall|b: int| 0 <= b < buckets.len() ==> (#[trigger] ids[b])@.len() == buckets[b]@.len(),
        are_groups_of(made, duplicates(buckets, ids, collapse)),
        is_sorted_from(made, finding_key(), groups),
        0 <= g < groups.len(),
        0 <= f < groups[g].files@.len(),
    ensures
        0 <= x < hashed.len(),
        groups[g].files@[f].path == hashed[x].candidate.path,
        groups[g].files@[f].size == hashed[x].candidate.size,
        groups[g].files@[f].modified == hashed[x].candidate.modified,
        groups[g].files@[f].protected == hashed[x].candidate.protected,
        groups[g].files@[f].keep == (f == 0 || hashed[x].candidate.protected),
        groups[g].hash == hashed[x].hashes.full,
        groups[g].size == hashed[x].candidate.size,
        !groups[g].skipped,
        groups[g].files@.len() >= 2,
{
    sorted_has_the_same_items(made, finding_key(), groups, groups[g]);
    assert(groups.contains(groups[g]));
    let d = choose|d: int| 0 <= d < made.len() && made[d] == groups[g];
    let all = duplicates(buckets, ids, collapse);
    duplicates_come_from_buckets(buckets, ids, collapse, d);
    let b = choose|b: int|
        0 <= b < buckets.len() && all[d] == listed((#[trigger] buckets[b])@, ids[b]@, collapse);
    assert(ids[b]@.len() == buckets[b]@.len());
    let files = all[d];
    assert(is_group_of(made[d], files));
    sort_exists(files, listing_key());
    let sorted = sorted_from(files, listing_key());
    sorted_has_the_same_items(files, listing_key(), sorted, sorted[f]);
    sorted_has_the_same_items(files, listing_key(), sorted, sorted[0]);
    assert(sorted.contains(sorted[f]) && sorted.contains(sorted[0]));
    let x = a_listed_file_was_hashed(hashed, buckets, ids[b]@, collapse, b, sorted[f]);
    let y = a_listed_file_was_hashed(hashed, buckets, ids[b]@, collapse, b, sorted[0]);
    assert(entries_for(sorted)[f] == entry_for(sorted[f]));
    let key = content_key();
    assert(key(hashed[x]) == key(hashed[y]));
    assert(key(hashed[x])[0] == hashed[x].candidate.size);
    assert(key(hashed[y])[0] == hashed[y].candidate.size);
    assert(key(hashed[x]).skip(1) =~= hash_key(hashed[x].hashes.full));
    assert(key(hashed[y]).skip(1) =~= hash_key(hashed[y].hashes.full));
    hash_key_tells_apart(hashed[x].hashes.full, hashed[y].hashes.full);
    x
}

/// The files of a group are listed in the order of their paths.
pub proof fn files_are_listed_by_path(
    buckets: Seq<Vec<FullyHashed>>,
    ids: Seq<Vec<Option<u64>>>,
    collapse: bool,
    made: Seq<DupeGroup>,
    groups: Seq<DupeGroup>,
    g: int,
    f: int,
    k: int,
)
    requires
        are_groups_of(made, duplicates(buckets, ids, collapse)),
        is_sorted_from(made, finding_key(), groups),
        0 <= g < groups.len(),
        0 <= f <= k < groups[g].files@.len(),
    ensures
        !components_before(
            components(groups[g].files@[k].path@),
            components(groups[g].files@[f].path@),
        ),
{
    sorted_has_the_same_items(made, finding_key(), groups, groups[g]);
    assert(groups.contains(groups[g]));
    let d = choose|d: int| 0 <= d < made.len() && made[d] == groups[g];
    let files = duplicates(buckets, ids, collapse)[d];
    assert(is_group_of(made[d], files));
    let sorted = sorted_from(files, listing_key());
    sort_exists(files, listing_key());
    sorted_keys_ascend(files, listing_key(), sorted, f, k);
    assert(entries_for(sorted)[f] == entry_for(sorted[f]));
    assert(entries_for(sorted)[k] == entry_for(sorted[k]));
    path_keys_order_components(
        components(sorted[k].candidate.path@),
        components(sorted[f].candidate.path@),
    );
}

/// The group with most wasted bytes, beyond one copy, comes first; between equal ones the
/// one with the smaller files.
pub proof fn the_most_wasteful_group_comes_first(
    made: Seq<DupeGroup>,
    groups: Seq<DupeGroup>,
    i: int,
    j: int,
)
    requires
        is_sorted_from(made, finding_key(), groups),
        0 <= i <= j < groups.len(),
        groups[i].files@.len() > 0,
        groups[j].files@.len() > 0,
    ensures
        ({
            let a = groups[i].size * (groups[i].files@.len() - 1);
            let b = groups[j].size * (groups[j].files@.len() - 1);
            b < a || (b == a && groups[i].size <= groups[j].size)
        }),
{
    sorted_keys_ascend(made, finding_key(), groups, i, j);
    let a = groups[i];
    let b = groups[j];
    wasted_is_bounded(a);
    wasted_is_bounded(b);
    descending_decides(b.wasted_bytes(), seq![b.size], a.wasted_bytes(), seq![a.size]);
    if b.size < a.size {
        let none = Seq::<u64>::empty();
        crate::order::key_less_headed(b.size, none, a.size, none);
        assert(seq![b.size] + none =~= seq![b.size]);
        assert(seq![a.size] + none =~= seq![a.size]);
    }
}

/// The hashes of a file that had to be read are remembered, with its size, its time and
/// now, where the cache is in use, takes files of that size and the file has a time that is
/// not before the epoch; unless another name of the same file follows in the list.
pub proof fn what_was_read_is_remembered(
    cache: HashCache,
    list: Seq<FullyHashed>,
    now: u64,
    i: int,
)
    requires
        0 <= i < list.len(),
        list[i].candidate.cached is None,
        cache.in_use(),
        list[i].candidate.size >= cache.smallest(),
        list[i].candidate.modified is Some,
        list[i].candidate.modified->0.secs >= 0,
        forall|j: int|
            i < j < list.len() ==> components((#[trigger] list[j]).candidate.path@) != components(
                list[i].candidate.path@,
            ),
    ensures
        ({
            let t = list[i].candidate.modified->0;
            let entry = entry_after(cache, list, now, components(list[i].candidate.path@));
            &&& entry is Some
            &&& entry->0.size == list[i].candidate.size
            &&& entry->0.modified_ns == t.secs * 1_000_000_000 + t.nanos
            &&& entry->0.hashes == list[i].hashes
            &&& entry->0.last_seen == now
        }),
    decreases list.len(),
{
    let rest = list.drop_last();
    if i < rest.len() {
        assert forall|j: int| i < j < rest.len() implies components(
            (#[trigger] rest[j]).candidate.path@,
        ) != components(rest[i].candidate.path@) by {
            assert(rest[j] == list[j]);
        }
        what_was_read_is_remembered(cache, rest, now, i);
        assert(components(list[list.len() - 1].candidate.path@) != components(
            list[i].candidate.path@,
        ));
    } else {
        assert(0 <= list[i].candidate.modified->0.at() <= u128::MAX);
    }
}

/// What the cache knows of other files does not change.
pub proof fn other_records_stay(cache: HashCache, list: Seq<FullyHashed>, now: u64, c: Seq<Seq<u8>>)
    requires
        forall|j: int|
            0 <= j < list.len() ==> components((#[trigger] list[j]).candidate.path@) != c
                || list[j].candidate.cached is Some,
    ensures
        entry_after(cache, list, now, c) == cache.entry(c),
    decreases list.len(),
{
    if list.len() > 0 {
        let rest = list.drop_last();
        assert forall|j: int| 0 <= j < rest.len() implies components(
            (#[trigger] rest[j]).candidate.path@,
        ) != c || rest[j].candidate.cached is Some by {
            assert(rest[j] == list[j]);
        }
        other_records_stay(cache, rest, now, c);
        assert(list[list.len() - 1] == list.last());
    }
}

/// No two of these candidates have the same path.
pub open spec fn no_candidate_twice(list: Seq<Candidate>) -> bool {
    forall|i: int, j: int|
        0 <= i < j < list.len() ==> (#[trigger] list[i]).path@ != (#[trigger] list[j]).path@
}

proof fn sorted_candidates_stay_apart(list: Seq<Candidate>)
    requires
        no_candidate_twice(list),
    ensures
        no_candidate_twice(sorted_from(list, place_key())),
{
    let out = sorted_from(list, place_key());
    sort_exists(list, place_key());
    let order = choose|order: Seq<int>| arranged_by(list, place_key(), out, order);
    assert forall|i: int, j: int| 0 <= i < j < out.len() implies (#[trigger] out[i]).path@ != (
    #[trigger] out[j]).path@ by {
        arranged_places_differ(list, place_key(), out, order, i, j);
        let x = order[i];
        let y = order[j];
        assert(out[i] == list[x] && out[j] == list[y]);
        if x < y {
            assert(list[x].path@ != list[y].path@);
        } else {
            assert(list[y].path@ != list[x].path@);
        }
    }
}

/// What was found once is considered once.
pub proof fn pruning_repeats_nothing(found: Seq<Candidate>)
    requires
        no_candidate_twice(found),
    ensures
        no_candidate_twice(pruned(found)),
{
    let flags = repeated_flags(found, size_key());
    let kept = repeated(found, size_key());
    let at = crate::grouping::picked_places(found, flags);
    assert forall|i: int, j: int| 0 <= i < j < kept.len() implies (#[trigger] kept[i]).path@ != (
    #[trigger] kept[j]).path@ by {
        assert(at[i] < at[j]);
        assert(found[at[i]].path@ != found[at[j]].path@);
    }
    sorted_candidates_stay_apart(kept);
}

/// What was probed or left to be read once is read once.
pub proof fn nothing_is_read_twice(heads: Seq<Hashed>, others: Seq<Candidate>)
    requires
        no_candidate_twice(candidates_of(heads) + others),
    ensures
        no_candidate_twice(survivors(heads, others)),
{
    let flags = repeated_flags(heads, head_key());
    let kept = candidates_of(repeated(heads, head_key()));
    let whole = candidates_of(heads) + others;
    let list = kept + others;
    let at = crate::grouping::picked_places(heads, flags);
    assert forall|i: int, j: int| 0 <= i < j < list.len() implies (#[trigger] list[i]).path@ != (
    #[trigger] list[j]).path@ by {
        let x = if i < kept.len() {
            at[i]
        } else {
            heads.len() + i - kept.len()
        };
        let y = if j < kept.len() {
            at[j]
        } else {
            heads.len() + j - kept.len()
        };
        if j < kept.len() {
            assert(at[i] < at[j]);
        }
        if i < kept.len() {
            assert(0 <= at[i] < heads.len());
            assert(whole[x] == heads[x].candidate);
        }
        if j < kept.len() {
            assert(whole[y] == heads[y].candidate);
        }
        assert(whole[x] == list[i] && whole[y] == list[j]);
        assert(x < y);
        assert(whole[x].path@ != whole[y].path@);
    }
    sorted_candidates_stay_apart(list);
}

/// Where hardlinks are collapsed, no two files of a group are the same physical file: they
/// stand at the places `r.1` and `r.2` of bucket `r.0`, under different numbers.
pub proof fn a_group_holds_no_hardlinks(
    buckets: Seq<Vec<FullyHashed>>,
    ids: Seq<Vec<Option<u64>>>,
    options: ScanOptions,
    groups: Seq<DupeGroup>,
    g: int,
    f: int,
    k: int,
) -> (r: (int, int, int))
    requires
        finalized(buckets, ids, options, groups),
        options.collapse_hardlinks,
        forall|b: int| 0 <= b < buckets.len() ==> (#[trigger] ids[b])@.len() == buckets[b]@.len(),
        0 <= g < groups.len(),
        0 <= f < groups[g].files@.len(),
        0 <= k < groups[g].files@.len(),
        f != k,
    ensures
        0 <= r.0 < buckets.len(),
        0 <= r.1 < buckets[r.0]@.len(),
        0 <= r.2 < buckets[r.0]@.len(),
        r.1 != r.2,
        groups[g].files@[f].path == buckets[r.0]@[r.1].candidate.path,
        groups[g].files@[k].path == buckets[r.0]@[r.2].candidate.path,
        ids[r.0]@[r.1] is None || ids[r.0]@[r.1] != ids[r.0]@[r.2],
{
    let made = choose|made: Seq<DupeGroup>| #[trigger]
        are_groups_of(made, duplicates(buckets, ids, options.collapse_hardlinks)) && groups
            == sorted_from(made, finding_key()) && is_sorted_from(made, finding_key(), groups);
    sorted_has_the_same_items(made, finding_key(), groups, groups[g]);
    assert(groups.contains(groups[g]));
    let d = choose|d: int| 0 <= d < made.len() && made[d] == groups[g];
    let all = duplicates(buckets, ids, true);
    duplicates_come_from_buckets(buckets, ids, true, d);
    let b = choose|b: int|
        0 <= b < buckets.len() && all[d] == listed((#[trigger] buckets[b])@, ids[b]@, true);
    assert(ids[b]@.len() == buckets[b]@.len());
    assert(is_group_of(made[d], all[d]));
    let (x, y) = listed_files_stand_apart(made[d], all[d], f, k);
    let places = no_file_is_listed_under_two_names(buckets[b]@, ids[b]@);
    if x < y {
        assert(places[x] < places[y]);
    } else {
        assert(places[y] < places[x]);
    }
    (b, places[x], places[y])
}

} // verus!
