//! The dashboard: sorting, the cursor, the selection and the bulk actions.

use super::App;
use crate::delete::{
    pending, pending_agrees_with_marked, pending_agrees_with_reclaimable, pending_of, push_pending,
    target_bytes, targets_in,
};
use crate::grouping::picked;
use crate::model::{bytes_in, files_in, fit, reclaimable_is_part, totals_grow, DupeGroup, SortKey};
use crate::order::{
    arranged_by, descending, descending_key, is_sorted_from, sorted_from, sorted_has_the_same_items,
    sorted_with,
};
use crate::path::FilePath;
use crate::selection::{same_hash, Selection};
use crate::text::{
    decimal, decimal_of, lower_case, text_from, text_in, text_key, text_sort_key,
};
use vstd::prelude::*;

verus! {

/// How the groups are listed: larger numbers first, names in ascending order.
pub open spec fn group_key(sort: SortKey) -> spec_fn(DupeGroup) -> Seq<u64> {
    match sort {
        SortKey::Wasted => |g: DupeGroup| descending(g.wasted_bytes()) + text_key(g.name()),
        SortKey::Size => |g: DupeGroup| descending(g.size as int) + text_key(g.name()),
        SortKey::Count => |g: DupeGroup|
            descending(g.files@.len() as int) + descending(g.wasted_bytes()),
        SortKey::Name => |g: DupeGroup|
            text_key(lower_case(g.name())) + descending(g.wasted_bytes()),
    }
}

/// The key by which a group is listed.
pub fn group_sort_key(group: &DupeGroup, sort: SortKey) -> (key: Vec<u64>)
    ensures
        key@ == group_key(sort)(*group),
{
    match sort {
        SortKey::Wasted => {
            let mut key = descending_key(group.wasted_wide());
            let mut rest = text_sort_key(group.label().as_str());
            key.append(&mut rest);
            key
        },
        SortKey::Size => {
            let mut key = descending_key(group.size as u128);
            let mut rest = text_sort_key(group.label().as_str());
            key.append(&mut rest);
            key
        },
        SortKey::Count => {
            let mut key = descending_key(group.files.len() as u128);
            let mut rest = descending_key(group.wasted_wide());
            key.append(&mut rest);
            key
        },
        SortKey::Name => {
            let label = group.label();
            let lower = label.as_str().to_lowercase();
            let mut key = text_sort_key(lower.as_str());
            let mut rest = descending_key(group.wasted_wide());
            key.append(&mut rest);
            key
        },
    }
}

/// The first group with this hash.
pub open spec fn is_first_with(groups: Seq<DupeGroup>, hash: [u8; 32], i: int) -> bool {
    &&& 0 <= i < groups.len()
    &&& groups[i].hash == hash
    &&& forall|j: int| 0 <= j < i ==> (#[trigger] groups[j]).hash != hash
}

/// An index moved into a list, or 0 where it is empty.
pub open spec fn clamped(i: int, len: int) -> int {
    if len == 0 {
        0
    } else if i < 0 {
        0
    } else if i >= len {
        len - 1
    } else {
        i
    }
}

/// A sorted list of groups fits where the groups did.
pub proof fn sorting_keeps_fit(
    groups: Seq<DupeGroup>,
    key: spec_fn(DupeGroup) -> Seq<u64>,
    out: Seq<DupeGroup>,
)
    requires
        fit(groups),
        is_sorted_from(groups, key, out),
    ensures
        fit(out),
{
    let order = choose|order: Seq<int>| arranged_by(groups, key, out, order);
    assert forall|g: int| 0 <= g < out.len() implies (#[trigger] out[g]).wf() by {
        assert(out[g] == groups[order[g]]);
    }
    totals_of_permutation(groups, out, order);
}

/// Totals do not depend on the order.
proof fn totals_of_permutation(a: Seq<DupeGroup>, b: Seq<DupeGroup>, order: Seq<int>)
    requires
        order.len() == a.len(),
        b.len() == a.len(),
        forall|i: int| 0 <= i < order.len() ==> 0 <= #[trigger] order[i] < a.len(),
        forall|i: int| 0 <= i < b.len() ==> #[trigger] b[i] == a[order[i]],
        forall|x: int| 0 <= x < a.len() ==> #[trigger] order.contains(x),
        forall|i: int, j: int|
            0 <= i < j < order.len() ==> #[trigger] order[i] != #[trigger] order[j],
    ensures
        files_in(a) == files_in(b),
        bytes_in(a) == bytes_in(b),
    decreases a.len(),
{
    if a.len() > 0 {
        let n = a.len() - 1;
        assert(order.contains(n));
        let p = choose|p: int| 0 <= p < order.len() && order[p] == n;
        let a2 = a.drop_last();
        let b2 = b.remove(p);
        let order2 = order.remove(p);
        assert forall|i: int| 0 <= i < order2.len() implies 0 <= #[trigger] order2[i] < a2.len() by {
            let k = if i < p {
                i
            } else {
                i + 1
            };
            assert(order2[i] == order[k]);
            if k < p {
                assert(order[k] != order[p]);
            } else {
                assert(order[p] != order[k]);
            }
        }
        assert forall|i: int| 0 <= i < b2.len() implies #[trigger] b2[i] == a2[order2[i]] by {
            let k = if i < p {
                i
            } else {
                i + 1
            };
            assert(order2[i] == order[k]);
            assert(b2[i] == b[k]);
            assert(0 <= order2[i] < a2.len());
        }
        assert forall|x: int| 0 <= x < a2.len() implies #[trigger] order2.contains(x) by {
            assert(order.contains(x));
            let k = choose|k: int| 0 <= k < order.len() && order[k] == x;
            if k < p {
                assert(order2[k] == x);
            } else {
                assert(k != p);
                assert(order2[k - 1] == x);
            }
        }
        assert forall|i: int, j: int| 0 <= i < j < order2.len() implies #[trigger] order2[i]
            != #[trigger] order2[j] by {
            let k = if i < p {
                i
            } else {
                i + 1
            };
            let m = if j < p {
                j
            } else {
                j + 1
            };
            assert(order2[i] == order[k] && order2[j] == order[m]);
        }
        totals_of_permutation(a2, b2, order2);
        totals_without(b, p);
        assert(b[p] == a[n]);
    }
}

/// Totals depend only on the sizes and counts of the groups.
pub proof fn totals_unchanged(a: Seq<DupeGroup>, b: Seq<DupeGroup>)
    requires
        a.len() == b.len(),
        forall|i: int|
            0 <= i < a.len() ==> (#[trigger] b[i]).size == a[i].size && b[i].files@.len()
                == a[i].files@.len(),
    ensures
        files_in(a) == files_in(b),
        bytes_in(a) == bytes_in(b),
    decreases a.len(),
{
    if a.len() > 0 {
        let c = a.drop_last();
        let d = b.drop_last();
        assert forall|i: int| 0 <= i < c.len() implies (#[trigger] d[i]).size == c[i].size
            && d[i].files@.len() == c[i].files@.len() by {
            assert(b[i].size == a[i].size);
        }
        totals_unchanged(c, d);
        assert(b[b.len() - 1].size == a[a.len() - 1].size);
    }
}

/// What one group adds to the totals.
proof fn totals_without(groups: Seq<DupeGroup>, p: int)
    requires
        0 <= p < groups.len(),
    ensures
        files_in(groups) == files_in(groups.remove(p)) + groups[p].files@.len(),
        bytes_in(groups) == bytes_in(groups.remove(p)) + groups[p].total_bytes(),
    decreases groups.len(),
{
    if p == groups.len() - 1 {
        assert(groups.remove(p) =~= groups.drop_last());
    } else {
        totals_without(groups.drop_last(), p);
        assert(groups.remove(p).drop_last() =~= groups.drop_last().remove(p));
        assert(groups.remove(p).last() == groups.last());
    }
}

impl App {
    /// Sort the groups. The cursor stays on the group it was on rather than moving
    /// to an unrelated row underneath the user.
    pub open spec fn sorted_groups(self, after: App) -> bool {
        &&& after == (App {
            groups: after.groups,
            group_selected: after.group_selected,
            file_selected: after.file_selected,
            ..self
        })
        &&& after.groups@ == sorted_from(self.groups@, group_key(self.sort))
        &&& if self.group_selected < self.groups@.len() {
            is_first_with(
                after.groups@,
                self.groups@[self.group_selected as int].hash,
                after.group_selected as int,
            )
        } else {
            after.group_selected == clamped(self.group_selected as int, self.groups@.len() as int)
        }
        &&& after.file_selected == if self.groups@.len() == 0 {
            0
        } else {
            clamped(
                self.file_selected as int,
                after.groups@[after.group_selected as int].files@.len() as int,
            )
        }
    }

    /// Sort the groups by the current key.
    pub fn sort_groups(&mut self)
        requires
            old(self).wf(),
        ensures
            final(self).wf(),
            old(self).sorted_groups(*final(self)),
            is_sorted_from(old(self).groups@, group_key(old(self).sort), final(self).groups@),
    {
        let ghost before = self.groups@;
        let ghost cursor = self.group_selected as int;
        let anchor: Option<[u8; 32]> = if self.group_selected < self.groups.len() {
            Some(self.groups[self.group_selected].hash)
        } else {
            None
        };
        let mut keys: Vec<Vec<u64>> = Vec::new();
        while keys.len() < self.groups.len()
            invariant
                *self == *old(self),
                keys@.len() <= self.groups@.len(),
                forall|i: int|
                    0 <= i < keys@.len() ==> (#[trigger] keys@[i])@ == group_key(self.sort)(
                        self.groups@[i],
                    ),
            decreases self.groups@.len() - keys@.len(),
        {
            let key = group_sort_key(&self.groups[keys.len()], self.sort);
            keys.push(key);
        }
        let mut groups: Vec<DupeGroup> = Vec::new();
        core::mem::swap(&mut groups, &mut self.groups);
        self.groups = sorted_with(groups, &keys, Ghost(group_key(self.sort)));
        proof {
            sorting_keeps_fit(before, group_key(self.sort), self.groups@);
            if before.len() > 0 {
                sorted_has_the_same_items(before, group_key(self.sort), self.groups@, before[0]);
            } else {
                let order = choose|order: Seq<int>|
                    arranged_by(before, group_key(self.sort), self.groups@, order);
            }
        }
        if let Some(hash) = anchor {
            proof {
                let g = before[cursor];
                sorted_has_the_same_items(before, group_key(self.sort), self.groups@, g);
                assert(before.contains(g));
                let i = choose|i: int| 0 <= i < self.groups@.len() && self.groups@[i] == g;
                assert(self.groups@[i].hash == hash);
            }
            let mut i: usize = 0;
            while !same_hash(&self.groups[i].hash, &hash)
                invariant
                    i < self.groups@.len(),
                    forall|j: int| 0 <= j < i ==> (#[trigger] self.groups@[j]).hash != hash,
                    exists|j: int|
                        0 <= j < self.groups@.len() && (#[trigger] self.groups@[j]).hash == hash,
                decreases self.groups@.len() - i,
            {
                assert(self.groups.len() <= usize::MAX);
                i += 1;
            }
            assert(is_first_with(self.groups@, hash, i as int));
            self.group_selected = i;
        }
        self.clamp_selection();
    }

    /// Keep the cursor inside the list.
    pub fn clamp_selection(&mut self)
        ensures
            *final(self) == (App {
                group_selected: final(self).group_selected,
                file_selected: final(self).file_selected,
                ..*old(self)
            }),
            final(self).group_selected == clamped(
                old(self).group_selected as int,
                old(self).groups@.len() as int,
            ),
            final(self).file_selected == if old(self).groups@.len() == 0 {
                0
            } else {
                clamped(
                    old(self).file_selected as int,
                    old(self).groups@[final(self).group_selected as int].files@.len() as int,
                )
            },
    {
        if self.groups.len() == 0 {
            self.group_selected = 0;
            self.file_selected = 0;
            return;
        }
        if self.group_selected >= self.groups.len() {
            self.group_selected = self.groups.len() - 1;
        }
        let files: usize = self.groups[self.group_selected].files.len();
        if files == 0 {
            self.file_selected = 0;
        } else if self.file_selected >= files {
            self.file_selected = files - 1;
        }
    }
}

/// Which groups a bulk action applies to: the selection where there is one,
/// otherwise every group.
pub open spec fn scope_flags(groups: Seq<DupeGroup>, selected: Set<[u8; 32]>) -> Seq<bool> {
    Seq::new(
        groups.len(),
        |i: int| selected == Set::<[u8; 32]>::empty() || selected.contains(groups[i].hash),
    )
}

/// The groups that a bulk action applies to.
pub open spec fn in_scope_of(groups: Seq<DupeGroup>, selected: Set<[u8; 32]>) -> Seq<DupeGroup> {
    picked(groups, scope_flags(groups, selected))
}

proof fn target_bytes_of_both(a: Seq<(Seq<u8>, u64)>, b: Seq<(Seq<u8>, u64)>)
    ensures
        target_bytes(a + b) == target_bytes(a) + target_bytes(b),
    decreases b.len(),
{
    if b.len() == 0 {
        assert(a + b =~= a);
    } else {
        assert((a + b).drop_last() =~= a + b.drop_last());
        target_bytes_of_both(a, b.drop_last());
    }
}

/// What some of the groups would lose is at most what all of them hold.
pub proof fn pending_is_part(groups: Seq<DupeGroup>, flags: Seq<bool>)
    requires
        forall|g: int| 0 <= g < groups.len() ==> (#[trigger] groups[g]).wf(),
        groups.len() <= flags.len(),
    ensures
        pending(picked(groups, flags)).len() <= files_in(groups),
        0 <= target_bytes(pending(picked(groups, flags))) <= bytes_in(groups),
    decreases groups.len(),
{
    if groups.len() > 0 {
        let rest = groups.drop_last();
        let last = groups.last();
        assert forall|g: int| 0 <= g < rest.len() implies (#[trigger] rest[g]).wf() by {
            assert(rest[g] == groups[g]);
        }
        pending_is_part(rest, flags);
        assert(groups[groups.len() - 1].wf());
        pending_agrees_with_marked(last);
        pending_agrees_with_reclaimable(last);
        reclaimable_is_part(last);
        if flags[groups.len() - 1] {
            let some = picked(rest, flags);
            assert(picked(groups, flags).drop_last() =~= some);
            target_bytes_of_both(pending(some), pending_of(last));
        }
    }
}

proof fn pending_grows(groups: Seq<DupeGroup>, flags: Seq<bool>, n: int)
    requires
        0 <= n < groups.len(),
    ensures
        picked(groups.take(n + 1), flags) == if flags[n] {
            picked(groups.take(n), flags).push(groups[n])
        } else {
            picked(groups.take(n), flags)
        },
        pending(picked(groups.take(n + 1), flags)) == if flags[n] {
            pending(picked(groups.take(n), flags)) + pending_of(groups[n])
        } else {
            pending(picked(groups.take(n), flags))
        },
{
    assert(groups.take(n + 1).drop_last() =~= groups.take(n));
    if flags[n] {
        let some = picked(groups.take(n), flags);
        assert(some.push(groups[n]).drop_last() =~= some);
    }
}

/// Copies beyond the first in all groups together.
pub open spec fn surplus_in(groups: Seq<DupeGroup>) -> int
    decreases groups.len(),
{
    if groups.len() == 0 {
        0
    } else {
        surplus_in(groups.drop_last()) + if groups.last().files@.len() == 0 {
            0
        } else {
            groups.last().files@.len() - 1
        }
    }
}

proof fn surplus_is_part(groups: Seq<DupeGroup>)
    ensures
        0 <= surplus_in(groups) <= files_in(groups),
    decreases groups.len(),
{
    if groups.len() > 0 {
        surplus_is_part(groups.drop_last());
    }
}

impl App {
    /// The groups that a bulk action applies to.
    pub open spec fn scoped(self) -> Seq<DupeGroup> {
        in_scope_of(self.groups@, self.selected@)
    }

    /// Every marked copy the selection scope covers.
    pub open spec fn marks(self) -> Seq<(Seq<u8>, u64)> {
        pending(self.scoped())
    }

    /// The group under the cursor.
    pub fn selected_group(&self) -> (g: Option<&DupeGroup>)
        ensures
            g == if self.group_selected < self.groups@.len() {
                Some(&self.groups@[self.group_selected as int])
            } else {
                None
            },
    {
        if self.group_selected < self.groups.len() {
            Some(&self.groups[self.group_selected])
        } else {
            None
        }
    }

    /// Whether the group at `idx` is in scope for a bulk action: the selection
    /// when there is one, otherwise every group.
    pub fn in_scope(&self, idx: usize) -> (b: bool)
        requires
            self.wf(),
        ensures
            b == (idx < self.groups@.len() && scope_flags(self.groups@, self.selected@)[idx as int]),
    {
        if idx >= self.groups.len() {
            return false;
        }
        self.selected.is_empty() || self.selected.contains(&self.groups[idx].hash)
    }

    /// Whether the group at `idx` is selected.
    pub fn is_selected(&self, idx: usize) -> (b: bool)
        requires
            self.wf(),
        ensures
            b == (idx < self.groups@.len() && self.selected@.contains(
                self.groups@[idx as int].hash,
            )),
    {
        idx < self.groups.len() && self.selected.contains(&self.groups[idx].hash)
    }

    /// How many groups are selected.
    pub fn selected_count(&self) -> (n: usize)
        requires
            self.wf(),
        ensures
            n == self.selected@.len(),
    {
        self.selected.len()
    }

    /// Every marked copy the selection scope covers.
    ///
    /// Scoped, so the number in the header is exactly what `D` will act on. An
    /// unscoped header beside a scoped delete would mislead about an irreversible
    /// action.
    pub fn marked_targets(&self) -> (targets: Vec<(FilePath, u64)>)
        requires
            self.wf(),
        ensures
            targets_in(targets@) == self.marks(),
            target_bytes(self.marks()) <= u64::MAX,
    {
        let ghost flags = scope_flags(self.groups@, self.selected@);
        let mut targets: Vec<(FilePath, u64)> = Vec::new();
        let mut i: usize = 0;
        while i < self.groups.len()
            invariant
                self.wf(),
                flags == scope_flags(self.groups@, self.selected@),
                i <= self.groups@.len(),
                targets_in(targets@) =~= pending(picked(self.groups@.take(i as int), flags)),
            decreases self.groups@.len() - i,
        {
            proof {
                pending_grows(self.groups@, flags, i as int);
            }
            if self.in_scope(i) {
                push_pending(&mut targets, &self.groups[i]);
            }
            i += 1;
        }
        proof {
            assert(self.groups@.take(i as int) =~= self.groups@);
            pending_is_part(self.groups@, flags);
        }
        targets
    }

    /// How many files the marks would remove and how many bytes that frees, within
    /// scope.
    pub fn marked_summary(&self) -> (r: (usize, u64))
        requires
            self.wf(),
        ensures
            r.0 == self.marks().len(),
            r.1 == target_bytes(self.marks()),
    {
        let targets = self.marked_targets();
        let ghost all = targets_in(targets@);
        let mut bytes: u64 = 0;
        let mut i: usize = 0;
        while i < targets.len()
            invariant
                all == targets_in(targets@),
                target_bytes(all) <= u64::MAX,
                i <= targets@.len(),
                bytes == target_bytes(all.take(i as int)),
            decreases targets@.len() - i,
        {
            proof {
                assert(all.take(i + 1).drop_last() =~= all.take(i as int));
                assert(all.take(i + 1) + all.skip(i + 1) =~= all);
                target_bytes_of_both(all.take(i + 1), all.skip(i + 1));
                target_bytes_not_negative(all.skip(i + 1));
            }
            bytes += targets[i].1;
            i += 1;
        }
        assert(all.take(i as int) =~= all);
        (targets.len(), bytes)
    }

    /// Bytes the current marks would free within scope.
    pub fn total_reclaimable(&self) -> (n: u64)
        requires
            self.wf(),
        ensures
            n == target_bytes(self.marks()),
    {
        self.marked_summary().1
    }

    /// Files the current marks would remove within scope.
    pub fn total_marked(&self) -> (n: usize)
        requires
            self.wf(),
        ensures
            n == self.marks().len(),
    {
        self.marked_summary().0
    }

    /// Number of redundant copies across all groups, ignoring the marks.
    pub fn total_duplicates(&self) -> (n: usize)
        requires
            self.wf(),
        ensures
            n == surplus_in(self.groups@),
    {
        let mut n: usize = 0;
        let mut i: usize = 0;
        while i < self.groups.len()
            invariant
                self.wf(),
                i <= self.groups@.len(),
                n == surplus_in(self.groups@.take(i as int)),
            decreases self.groups@.len() - i,
        {
            proof {
                assert(self.groups@.take(i + 1).drop_last() =~= self.groups@.take(i as int));
                surplus_is_part(self.groups@.take(i + 1));
                totals_grow(self.groups@, i + 1);
            }
            let files: usize = self.groups[i].files.len();
            if files > 0 {
                n += files - 1;
            }
            i += 1;
        }
        assert(self.groups@.take(i as int) =~= self.groups@);
        n
    }
}

proof fn target_bytes_not_negative(a: Seq<(Seq<u8>, u64)>)
    ensures
        target_bytes(a) >= 0,
    decreases a.len(),
{
    if a.len() > 0 {
        target_bytes_not_negative(a.drop_last());
    }
}

/// The hashes of the groups `lo..=hi`.
pub open spec fn block_of(groups: Seq<DupeGroup>, lo: int, hi: int) -> Set<[u8; 32]> {
    Set::new(|h: [u8; 32]| exists|i: int| lo <= i <= hi && (#[trigger] groups[i]).hash == h)
}

/// Put the hashes of the groups `lo..hi` into the set.
fn insert_block(set: &mut Selection, groups: &Vec<DupeGroup>, lo: usize, hi: usize)
    requires
        old(set).wf(),
        lo <= hi <= groups@.len(),
    ensures
        final(set).wf(),
        final(set)@ == old(set)@.union(block_of(groups@, lo as int, hi - 1)),
{
    let ghost before = set@;
    let mut i: usize = lo;
    assert(before.union(block_of(groups@, lo as int, lo - 1)) =~= before);
    while i < hi
        invariant
            lo <= i <= hi <= groups@.len(),
            set.wf(),
            set@ == before.union(block_of(groups@, lo as int, i - 1)),
        decreases hi - i,
    {
        let ghost held = set@;
        set.insert(groups[i].hash);
        proof {
            let more = block_of(groups@, lo as int, i as int);
            assert forall|h: [u8; 32]| set@.contains(h) == before.union(more).contains(h) by {
                if block_of(groups@, lo as int, i - 1).contains(h) {
                    let j = choose|j: int| lo <= j <= i - 1 && (#[trigger] groups@[j]).hash == h;
                    assert(groups@[j].hash == h);
                }
                if h == groups@[i as int].hash {
                    assert(more.contains(h));
                }
                if more.contains(h) {
                    let j = choose|j: int| lo <= j <= i && (#[trigger] groups@[j]).hash == h;
                    if j < i {
                        assert(block_of(groups@, lo as int, i - 1).contains(h));
                    }
                }
            }
            assert(set@ =~= before.union(more));
        }
        i += 1;
    }
}

impl App {
    /// Any cursor move or toggle that is not a Shift-extension ends the block.
    pub open spec fn extension_ended(self, after: App) -> bool {
        &&& after == (App { shift_anchor: None, shift_base: after.shift_base, ..self })
        &&& after.shift_base@ == Set::<[u8; 32]>::empty()
        &&& after.shift_base.wf()
    }

    /// Any cursor move or toggle that is not a Shift-extension ends the block.
    pub fn end_extension(&mut self)
        ensures
            old(self).extension_ended(*final(self)),
    {
        self.shift_anchor = None;
        self.shift_base.clear();
    }

    /// Toggling the highlighted group takes it into the selection or out of it.
    pub open spec fn selection_toggled(self, after: App) -> bool {
        &&& after == (App {
            shift_anchor: None,
            shift_base: after.shift_base,
            selected: after.selected,
            ..self
        })
        &&& after.shift_base@ == Set::<[u8; 32]>::empty()
        &&& after.selected@ == if self.group_selected < self.groups@.len() {
            let hash = self.groups@[self.group_selected as int].hash;
            if self.selected@.contains(hash) {
                self.selected@.remove(hash)
            } else {
                self.selected@.insert(hash)
            }
        } else {
            self.selected@
        }
    }

    /// Toggle the highlighted group in or out of the selection.
    pub fn toggle_selection(&mut self)
        requires
            old(self).wf(),
        ensures
            final(self).wf(),
            old(self).selection_toggled(*final(self)),
    {
        self.end_extension();
        if self.group_selected < self.groups.len() {
            let hash: [u8; 32] = self.groups[self.group_selected].hash;
            if !self.selected.remove(&hash) {
                proof {
                    assert(old(self).selected@.remove(hash) =~= old(self).selected@);
                }
                self.selected.insert(hash);
            }
        }
    }

    /// There are groups, and every one of them is selected.
    pub open spec fn has_all_selected(self) -> bool {
        &&& self.groups@.len() > 0
        &&& forall|i: int|
            0 <= i < self.groups@.len() ==> self.selected@.contains(
                (#[trigger] self.groups@[i]).hash,
            )
    }

    fn all_are_selected(&self) -> (b: bool)
        requires
            self.wf(),
        ensures
            b == self.has_all_selected(),
    {
        let mut i: usize = 0;
        while i < self.groups.len()
            invariant
                self.wf(),
                i <= self.groups@.len(),
                forall|j: int|
                    0 <= j < i ==> self.selected@.contains((#[trigger] self.groups@[j]).hash),
            decreases self.groups@.len() - i,
        {
            if !self.selected.contains(&self.groups[i].hash) {
                return false;
            }
            i += 1;
        }
        self.groups.len() > 0
    }

    /// Selecting all takes exactly the groups in, or clears the selection where they
    /// all are in already.
    pub open spec fn all_toggled(self, after: App) -> bool {
        let n = self.groups@.len();
        &&& after == (App {
            shift_anchor: None,
            shift_base: after.shift_base,
            selected: after.selected,
            status: after.status,
            ..self
        })
        &&& after.shift_base@ == Set::<[u8; 32]>::empty()
        &&& if self.has_all_selected() {
            &&& after.selected@ == Set::<[u8; 32]>::empty()
            &&& text_in(after.status) == Some("Selection cleared"@)
        } else {
            &&& after.selected@ == block_of(self.groups@, 0, n - 1)
            &&& text_in(after.status) == Some("Selected all "@ + decimal(n) + " groups"@)
        }
    }

    /// Select every group, or clear the selection if everything is already in.
    pub fn toggle_select_all(&mut self)
        requires
            old(self).wf(),
        ensures
            final(self).wf(),
            old(self).all_toggled(*final(self)),
    {
        self.end_extension();
        if self.all_are_selected() {
            self.selected.clear();
            self.status = Some(text_from("Selection cleared"));
        } else {
            let mut all = Selection::new();
            insert_block(&mut all, &self.groups, 0, self.groups.len());
            assert(all@ =~= block_of(self.groups@, 0, self.groups@.len() - 1));
            self.selected = all;
            let mut message = text_from("Selected all ");
            message.append(decimal_of(self.groups.len()).as_str());
            message.append(" groups");
            self.status = Some(message);
        }
    }

    /// The selection that a Shift-extension starts from.
    pub open spec fn extension_base(self) -> Set<[u8; 32]> {
        if self.shift_anchor is None {
            self.selected@
        } else {
            self.shift_base@
        }
    }

    /// Where a Shift-extension started.
    pub open spec fn extension_anchor(self) -> int {
        match self.shift_anchor {
            None => self.group_selected as int,
            Some(a) => a as int,
        }
    }

    /// A Shift-extension moves the cursor by `step` and selects the block between
    /// the anchor and the cursor on top of what was selected when it began, so
    /// reversing direction shrinks the block.
    pub open spec fn extended(self, after: App, step: int) -> bool {
        let n = self.groups@.len() as int;
        if n == 0 {
            after == self
        } else {
            let next = clamped(self.group_selected + step, n);
            let anchor = clamped(self.extension_anchor(), n);
            &&& after == (App {
                shift_anchor: Some(self.extension_anchor() as usize),
                shift_base: after.shift_base,
                group_selected: next as usize,
                file_selected: 0,
                selected: after.selected,
                ..self
            })
            &&& after.shift_base@ == self.extension_base()
            &&& after.selected@ == self.extension_base().union(
                block_of(
                    self.groups@,
                    if anchor <= next {
                        anchor
                    } else {
                        next
                    },
                    if anchor <= next {
                        next
                    } else {
                        anchor
                    },
                ),
            )
        }
    }

    /// Move the cursor down or up and select the block between the anchor and the
    /// cursor.
    pub fn extend_selection(&mut self, down: bool)
        requires
            old(self).wf(),
        ensures
            final(self).wf(),
            old(self).extended(
                *final(self),
                if down {
                    1
                } else {
                    -1
                },
            ),
    {
        let n: usize = self.groups.len();
        if n == 0 {
            return;
        }
        let base = match self.shift_anchor {
            Some(_) => self.shift_base.clone(),
            None => self.selected.clone(),
        };
        let from: usize = match self.shift_anchor {
            Some(a) => a,
            None => self.group_selected,
        };
        let next: usize = stepped(self.group_selected, n, down);
        let anchor: usize = if from >= n {
            n - 1
        } else {
            from
        };
        let (lo, hi): (usize, usize) = if anchor <= next {
            (anchor, next)
        } else {
            (next, anchor)
        };
        let mut selected = base.clone();
        insert_block(&mut selected, &self.groups, lo, hi + 1);
        self.shift_anchor = Some(from);
        self.shift_base = base;
        self.group_selected = next;
        self.file_selected = 0;
        self.selected = selected;
    }
}

/// The index one down or up, inside a list.
fn stepped(i: usize, len: usize, down: bool) -> (next: usize)
    requires
        len > 0,
    ensures
        next == clamped(
            if down {
                i + 1
            } else {
                i - 1
            },
            len as int,
        ),
{
    if down {
        if i < len - 1 {
            i + 1
        } else {
            len - 1
        }
    } else if i == 0 {
        0
    } else if i > len {
        len - 1
    } else {
        i - 1
    }
}

} // verus!
