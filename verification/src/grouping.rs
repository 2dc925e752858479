//! Grouping items that have the same key.

use crate::order::{
    is_less, is_sorting_order, key_less, key_less_irreflexive,
    key_less_transitive, listed_before, sorting_order,
};
use vstd::prelude::*;

verus! {

/// `class` lists, in ascending order, exactly the items that have one key.
pub open spec fn is_class(keys: Seq<Vec<u64>>, class: Seq<usize>) -> bool {
    &&& class.len() > 0
    &&& forall|i: int| 0 <= i < class.len() ==> #[trigger] class[i] < keys.len()
    &&& forall|i: int, j: int| 0 <= i < j < class.len() ==> #[trigger] class[i] < #[trigger] class[j]
    &&& forall|i: int|
        0 <= i < class.len() ==> keys[#[trigger] class[i] as int]@ == keys[class[0] as int]@
    &&& forall|x: usize|
        x < keys.len() && keys[x as int]@ == keys[class[0] as int]@ ==> #[trigger] class.contains(x)
}

/// The items `x` and `y` are different and have the same key.
pub open spec fn are_twins(keys: Seq<Vec<u64>>, x: int, y: int) -> bool {
    0 <= x < keys.len() && 0 <= y < keys.len() && x != y && keys[x]@ == keys[y]@
}

/// Some other item has the same key.
pub open spec fn has_twin(keys: Seq<Vec<u64>>, x: int) -> bool {
    exists|y: int| are_twins(keys, x, y)
}

proof fn keys_ascend(keys: Seq<Vec<u64>>, order: Seq<usize>, a: int, b: int)
    requires
        is_sorting_order(keys, order),
        0 <= a <= b < order.len(),
    ensures
        keys[order[a] as int]@ == keys[order[b] as int]@ || key_less(
            keys[order[a] as int]@,
            keys[order[b] as int]@,
        ),
{
    if a < b {
        assert(listed_before(keys, order[a] as int, order[b] as int));
    }
}

/// A stretch of the sorting order with one key, bounded by other keys, is a class.
proof fn stretch_is_class(keys: Seq<Vec<u64>>, order: Seq<usize>, from: int, to: int)
    requires
        is_sorting_order(keys, order),
        0 <= from < to <= order.len(),
        forall|i: int|
            from <= i < to ==> keys[#[trigger] order[i] as int]@ == keys[order[from] as int]@,
        from > 0 ==> key_less(keys[order[from - 1] as int]@, keys[order[from] as int]@),
        to < order.len() ==> key_less(keys[order[from] as int]@, keys[order[to] as int]@),
    ensures
        is_class(keys, order.subrange(from, to)),
{
    let class = order.subrange(from, to);
    let key = keys[order[from] as int]@;
    assert(class[0] == order[from]);
    assert forall|i: int| 0 <= i < class.len() implies #[trigger] class[i] < keys.len() by {
        assert(class[i] == order[from + i]);
    }
    assert forall|i: int| 0 <= i < class.len() implies keys[#[trigger] class[i] as int]@
        == keys[class[0] as int]@ by {
        assert(class[i] == order[from + i]);
    }
    assert forall|i: int, j: int| 0 <= i < j < class.len() implies #[trigger] class[i]
        < #[trigger] class[j] by {
        assert(class[i] == order[from + i] && class[j] == order[from + j]);
        assert(listed_before(keys, order[from + i] as int, order[from + j] as int));
        key_less_irreflexive(key);
    }
    assert forall|x: usize|
        x < keys.len() && keys[x as int]@ == keys[class[0] as int]@ implies #[trigger] class.contains(
        x,
    ) by {
        assert(order.contains(x));
        let q = choose|q: int| 0 <= q < order.len() && order[q] == x;
        key_less_irreflexive(key);
        if q < from {
            keys_ascend(keys, order, q, from - 1);
            if key_less(key, keys[order[from - 1] as int]@) {
                key_less_transitive(key, keys[order[from - 1] as int]@, key);
            }
            assert(false);
        }
        if q >= to {
            keys_ascend(keys, order, to, q);
            if key_less(keys[order[to] as int]@, key) {
                key_less_transitive(key, keys[order[to] as int]@, key);
            }
            assert(false);
        }
        assert(class[q - from] == x);
    }
}

/// All classes of items with equal keys, smaller keys first.
pub open spec fn are_classes(keys: Seq<Vec<u64>>, classes: Seq<Vec<usize>>) -> bool {
    &&& forall|c: int| 0 <= c < classes.len() ==> is_class(keys, (#[trigger] classes[c])@)
    &&& forall|c: int, d: int|
        0 <= c < d < classes.len() ==> key_less(
            keys[(#[trigger] classes[c])@[0] as int]@,
            keys[(#[trigger] classes[d])@[0] as int]@,
        )
    &&& forall|x: usize| x < keys.len() ==> #[trigger] in_some_class(classes, x)
}

/// The item is in one of the classes.
pub open spec fn in_some_class(classes: Seq<Vec<usize>>, x: usize) -> bool {
    exists|c: int| 0 <= c < classes.len() && (#[trigger] classes[c])@.contains(x)
}

/// The classes of items with equal keys.
pub fn classes_of(keys: &Vec<Vec<u64>>) -> (classes: Vec<Vec<usize>>)
    ensures
        are_classes(keys@, classes@),
{
    let order = sorting_order(keys);
    let n: usize = order.len();
    let mut classes: Vec<Vec<usize>> = Vec::new();
    let mut from: usize = 0;
    while from < n
        invariant
            is_sorting_order(keys@, order@),
            n == order@.len(),
            from <= n,
            0 < from < n ==> key_less(
                keys@[order@[from - 1] as int]@,
                keys@[order@[from as int] as int]@,
            ),
            forall|c: int| 0 <= c < classes@.len() ==> is_class(keys@, (#[trigger] classes@[c])@),
            forall|c: int, d: int|
                0 <= c < d < classes@.len() ==> key_less(
                    keys@[(#[trigger] classes@[c])@[0] as int]@,
                    keys@[(#[trigger] classes@[d])@[0] as int]@,
                ),
            forall|c: int|
                0 <= c < classes@.len() && from < n ==> key_less(
                    keys@[(#[trigger] classes@[c])@[0] as int]@,
                    keys@[order@[from as int] as int]@,
                ),
            forall|p: int| 0 <= p < from ==> in_some_class(classes@, #[trigger] order@[p]),
        decreases n - from,
    {
        let mut to: usize = from;
        let mut class: Vec<usize> = Vec::new();
        // One key after another never falls, so not being less means equal.
        while to < n && !is_less(&keys[order[from]], &keys[order[to]])
            invariant
                is_sorting_order(keys@, order@),
                n == order@.len(),
                from <= to <= n,
                from < n,
                class@ == order@.subrange(from as int, to as int),
                forall|i: int|
                    from <= i < to ==> keys@[#[trigger] order@[i] as int]@
                        == keys@[order@[from as int] as int]@,
            decreases n - to,
        {
            proof {
                keys_ascend(keys@, order@, from as int, to as int);
            }
            class.push(order[to]);
            to += 1;
        }
        proof {
            key_less_irreflexive(keys@[order@[from as int] as int]@);
            stretch_is_class(keys@, order@, from as int, to as int);
            assert(class@[0] == order@[from as int]);
        }
        let ghost before = classes@;
        let ghost members = class@;
        classes.push(class);
        proof {
            assert forall|p: int| 0 <= p < to implies in_some_class(
                classes@,
                #[trigger] order@[p],
            ) by {
                if p < from {
                    assert(in_some_class(before, order@[p]));
                    let c = choose|c: int|
                        0 <= c < before.len() && (#[trigger] before[c])@.contains(order@[p]);
                    assert(classes@[c]@.contains(order@[p]));
                } else {
                    assert(members[p - from] == order@[p]);
                    assert(classes@[before.len() as int]@.contains(order@[p]));
                }
            }
            if to < n {
                assert(keys@[order@[to - 1] as int]@ == keys@[order@[from as int] as int]@);
                assert forall|c: int| 0 <= c < classes@.len() implies key_less(
                    keys@[(#[trigger] classes@[c])@[0] as int]@,
                    keys@[order@[to as int] as int]@,
                ) by {
                    if c < before.len() {
                        key_less_transitive(
                            keys@[classes@[c]@[0] as int]@,
                            keys@[order@[from as int] as int]@,
                            keys@[order@[to as int] as int]@,
                        );
                    }
                }
            }
        }
        from = to;
    }
    proof {
        assert forall|x: usize| x < keys@.len() implies #[trigger] in_some_class(classes@, x) by {
            assert(order@.contains(x));
            let p = choose|p: int| 0 <= p < order@.len() && order@[p] == x;
            assert(in_some_class(classes@, order@[p]));
        }
    }
    classes
}

/// A class has several members exactly where its items have twins.
pub proof fn class_of_several(keys: Seq<Vec<u64>>, class: Seq<usize>, x: usize)
    requires
        is_class(keys, class),
        class.contains(x),
        keys.len() <= usize::MAX,
    ensures
        class.len() > 1 <==> has_twin(keys, x as int),
{
    let i = choose|i: int| 0 <= i < class.len() && class[i] == x;
    assert(keys[class[i] as int]@ == keys[class[0] as int]@);
    if class.len() > 1 {
        let j = if i == 0 {
            1int
        } else {
            0int
        };
        assert(keys[class[j] as int]@ == keys[class[0] as int]@);
        assert(class[0] < class[1]);
        if i > 1 {
            assert(class[0] < class[i]);
        }
        assert(are_twins(keys, x as int, class[j] as int));
    }
    if has_twin(keys, x as int) {
        let y = choose|y: int| are_twins(keys, x as int, y);
        assert(class.contains(y as usize));
        let j = choose|j: int| 0 <= j < class.len() && class[j] == y as usize;
        assert(i != j);
    }
}

/// Which items have a twin.
pub fn twins(keys: &Vec<Vec<u64>>) -> (flags: Vec<bool>)
    ensures
        flags@.len() == keys@.len(),
        forall|x: int| 0 <= x < keys@.len() ==> #[trigger] flags@[x] == has_twin(keys@, x),
{
    let classes = classes_of(keys);
    let mut flags: Vec<bool> = Vec::new();
    let n: usize = keys.len();
    while flags.len() < n
        invariant
            n == keys@.len(),
            flags@.len() <= n,
            forall|x: int| 0 <= x < flags@.len() ==> !(#[trigger] flags@[x]),
        decreases n - flags@.len(),
    {
        flags.push(false);
    }
    let mut c: usize = 0;
    while c < classes.len()
        invariant
            are_classes(keys@, classes@),
            n == keys@.len(),
            flags@.len() == n,
            c <= classes@.len(),
            forall|x: int|
                0 <= x < n && #[trigger] flags@[x] ==> has_twin(keys@, x),
            forall|d: int, i: int|
                #![trigger classes@[d]@[i]]
                0 <= d < c && 0 <= i < classes@[d]@.len() ==> flags@[classes@[d]@[i] as int]
                    == has_twin(keys@, classes@[d]@[i] as int),
        decreases classes@.len() - c,
    {
        let class = &classes[c];
        if class.len() > 1 {
            let mut i: usize = 0;
            while i < class.len()
                invariant
                    class@ == classes@[c as int]@,
                    c < classes@.len(),
                    is_class(keys@, class@),
                    class@.len() > 1,
                    n == keys@.len(),
                    flags@.len() == n,
                    i <= class@.len(),
                    forall|x: int|
                        0 <= x < n && #[trigger] flags@[x] ==> has_twin(keys@, x),
                    forall|j: int| 0 <= j < i ==> flags@[#[trigger] class@[j] as int],
                    are_classes(keys@, classes@),
                    forall|d: int, i: int|
                        #![trigger classes@[d]@[i]]
                        0 <= d < c && 0 <= i < classes@[d]@.len() ==> flags@[classes@[d]@[i] as int]
                            == has_twin(keys@, classes@[d]@[i] as int),
                decreases class@.len() - i,
            {
                let x: usize = class[i];
                proof {
                    assert(class@.contains(x));
                    class_of_several(keys@, class@, x);
                }
                flags[x] = true;
                i += 1;
            }
        }
        proof {
            assert forall|i: int| 0 <= i < class@.len() implies flags@[#[trigger] class@[i] as int]
                == has_twin(keys@, class@[i] as int) by {
                assert(class@.contains(class@[i]));
                class_of_several(keys@, class@, class@[i]);
            }
        }
        c += 1;
    }
    proof {
        assert forall|x: int| 0 <= x < keys@.len() implies #[trigger] flags@[x] == has_twin(
            keys@,
            x,
        ) by {
            assert(in_some_class(classes@, x as usize));
            let d = choose|d: int|
                0 <= d < classes@.len() && (#[trigger] classes@[d])@.contains(x as usize);
            let i = choose|i: int| 0 <= i < classes@[d]@.len() && classes@[d]@[i] == x as usize;
            assert(flags@[classes@[d]@[i] as int] == has_twin(keys@, classes@[d]@[i] as int));
        }
    }
    flags
}

/// The items whose flag is set, in their order.
pub open spec fn picked<T>(items: Seq<T>, flags: Seq<bool>) -> Seq<T>
    decreases items.len(),
{
    if items.len() == 0 {
        Seq::empty()
    } else {
        let rest = picked(items.drop_last(), flags);
        if flags[items.len() - 1] {
            rest.push(items.last())
        } else {
            rest
        }
    }
}

/// The items whose flag is set, and those whose flag is not, in their order.
pub fn parted<T>(items: Vec<T>, flags: &Vec<bool>) -> (r: (Vec<T>, Vec<T>))
    requires
        items@.len() == flags@.len(),
    ensures
        r.0@ == picked(items@, flags@),
        r.1@ == picked(items@, flags@.map_values(|b: bool| !b)),
{
    let ghost given = items@;
    let ghost unset = flags@.map_values(|b: bool| !b);
    let mut set: Vec<T> = Vec::new();
    let mut others: Vec<T> = Vec::new();
    let mut at: usize = 0;
    let n: usize = flags.len();
    for item in it: items
        invariant
            it.seq() == given,
            at == it.index(),
            n == flags@.len(),
            given.len() == flags@.len(),
            unset == flags@.map_values(|b: bool| !b),
            set@ == picked(given.take(at as int), flags@),
            others@ == picked(given.take(at as int), unset),
    {
        assert(given.take(at + 1).drop_last() =~= given.take(at as int));
        if flags[at] {
            set.push(item);
        } else {
            others.push(item);
        }
        at += 1;
    }
    assert(given.take(at as int) =~= given);
    (set, others)
}

/// No more items are picked than there are.
pub proof fn picked_is_part<T>(items: Seq<T>, flags: Seq<bool>)
    ensures
        picked(items, flags).len() <= items.len(),
    decreases items.len(),
{
    if items.len() > 0 {
        picked_is_part(items.drop_last(), flags);
    }
}

/// Where the picked items stand: their flags are set, no other flag is, and they keep their
/// order.
pub proof fn picked_places<T>(items: Seq<T>, flags: Seq<bool>) -> (at: Seq<int>)
    requires
        items.len() <= flags.len(),
    ensures
        at.len() == picked(items, flags).len(),
        forall|t: int|
            0 <= t < at.len() ==> 0 <= #[trigger] at[t] < items.len() && flags[at[t]] && picked(
                items,
                flags,
            )[t] == items[at[t]],
        forall|t: int, u: int| 0 <= t < u < at.len() ==> #[trigger] at[t] < #[trigger] at[u],
        forall|i: int| 0 <= i < items.len() && flags[i] ==> #[trigger] at.contains(i),
    decreases items.len(),
{
    if items.len() == 0 {
        Seq::empty()
    } else {
        let rest = items.drop_last();
        let n = items.len() - 1;
        let below = picked_places(rest, flags);
        let at = if flags[n] {
            below.push(n)
        } else {
            below
        };
        assert forall|i: int| 0 <= i < items.len() && flags[i] implies #[trigger] at.contains(i) by {
            if i < n {
                assert(below.contains(i));
                let t = choose|t: int| 0 <= t < below.len() && below[t] == i;
                assert(at[t] == i);
            } else {
                assert(at[below.len() as int] == i);
            }
        }
        at
    }
}

/// An item is picked exactly where its flag is set.
pub proof fn picked_holds<T>(items: Seq<T>, flags: Seq<bool>, item: T)
    requires
        items.len() <= flags.len(),
    ensures
        picked(items, flags).contains(item) <==> exists|i: int|
            0 <= i < items.len() && flags[i] && #[trigger] items[i] == item,
    decreases items.len(),
{
    if items.len() > 0 {
        let rest = items.drop_last();
        let n = items.len() - 1;
        picked_holds(rest, flags, item);
        let below = picked(rest, flags);
        let all = picked(items, flags);
        if all.contains(item) {
            let k = choose|k: int| 0 <= k < all.len() && all[k] == item;
            if k < below.len() {
                assert(below[k] == item);
                let i = choose|i: int| 0 <= i < rest.len() && flags[i] && #[trigger] rest[i] == item;
                assert(items[i] == item);
            } else {
                assert(items[n] == item);
            }
        }
        if exists|i: int| 0 <= i < items.len() && flags[i] && #[trigger] items[i] == item {
            let i = choose|i: int| 0 <= i < items.len() && flags[i] && #[trigger] items[i] == item;
            if i < n {
                assert(rest[i] == item);
                let k = choose|k: int| 0 <= k < below.len() && below[k] == item;
                assert(all[k] == item);
            } else {
                assert(all[all.len() - 1] == item);
            }
        }
    }
}

/// Item `j` is another one with the key of item `i`.
pub open spec fn repeats<T>(
    items: Seq<T>,
    key: spec_fn(T) -> Seq<u64>,
    i: int,
    j: int,
) -> bool {
    0 <= j < items.len() && j != i && key(items[j]) == key(items[i])
}

/// Some other item has the key of item `i`.
pub open spec fn is_repeated<T>(items: Seq<T>, key: spec_fn(T) -> Seq<u64>, i: int) -> bool {
    exists|j: int| repeats(items, key, i, j)
}

/// Which items have a key that some other item has too.
pub open spec fn repeated_flags<T>(items: Seq<T>, key: spec_fn(T) -> Seq<u64>) -> Seq<bool> {
    Seq::new(items.len(), |i: int| is_repeated(items, key, i))
}

/// The items whose key some other item has too, in their order.
pub open spec fn repeated<T>(items: Seq<T>, key: spec_fn(T) -> Seq<u64>) -> Seq<T> {
    picked(items, repeated_flags(items, key))
}

/// Which items have this key.
pub open spec fn key_flags<T>(
    items: Seq<T>,
    key: spec_fn(T) -> Seq<u64>,
    k: Seq<u64>,
) -> Seq<bool> {
    Seq::new(items.len(), |i: int| key(items[i]) == k)
}

/// The items with this key, in their order.
pub open spec fn with_key<T>(
    items: Seq<T>,
    key: spec_fn(T) -> Seq<u64>,
    k: Seq<u64>,
) -> Seq<T> {
    picked(items, key_flags(items, key, k))
}

proof fn twins_are_repeats<T>(
    items: Seq<T>,
    key: spec_fn(T) -> Seq<u64>,
    keys: Seq<Vec<u64>>,
    i: int,
)
    requires
        keys.len() == items.len(),
        forall|i: int| 0 <= i < items.len() ==> (#[trigger] keys[i])@ == key(items[i]),
        0 <= i < items.len(),
    ensures
        has_twin(keys, i) == is_repeated(items, key, i),
{
    assert(keys[i]@ == key(items[i]));
    if has_twin(keys, i) {
        let j = choose|j: int| are_twins(keys, i, j);
        assert(keys[j]@ == key(items[j]));
        assert(repeats(items, key, i, j));
    }
    if is_repeated(items, key, i) {
        let j = choose|j: int| repeats(items, key, i, j);
        assert(keys[j]@ == key(items[j]));
        assert(are_twins(keys, i, j));
    }
}

/// The items whose key some other item has too.
pub(crate) fn keep_repeated<T>(
    items: Vec<T>,
    keys: &Vec<Vec<u64>>,
    Ghost(key): Ghost<spec_fn(T) -> Seq<u64>>,
) -> (out: Vec<T>)
    requires
        keys@.len() == items@.len(),
        forall|i: int| 0 <= i < items@.len() ==> (#[trigger] keys@[i])@ == key(items@[i]),
    ensures
        out@ == repeated(items@, key),
{
    let flags = twins(keys);
    proof {
        let wanted = repeated_flags(items@, key);
        assert forall|i: int| 0 <= i < wanted.len() implies flags@[i] == #[trigger] wanted[i] by {
            twins_are_repeats(items@, key, keys@, i);
        }
        assert(flags@ =~= wanted);
    }
    parted(items, &flags).0
}

/// The items at the positions of an ascending list that has every set flag are
/// the ones picked.
proof fn picked_by_positions<T>(items: Seq<T>, flags: Seq<bool>, class: Seq<usize>)
    requires
        items.len() <= flags.len(),
        items.len() <= usize::MAX,
        forall|i: int| 0 <= i < class.len() ==> #[trigger] class[i] < items.len() && flags[class[i] as int],
        forall|i: int, j: int|
            0 <= i < j < class.len() ==> #[trigger] class[i] < #[trigger] class[j],
        forall|x: usize| x < items.len() && flags[x as int] ==> #[trigger] class.contains(x),
    ensures
        picked(items, flags) == class.map_values(|x: usize| items[x as int]),
    decreases items.len(),
{
    if items.len() == 0 {
        assert(class.len() == 0) by {
            if class.len() > 0 {
                assert(class[0] < items.len());
            }
        }
        assert(picked(items, flags) =~= class.map_values(|x: usize| items[x as int]));
    } else {
        let n = items.len() - 1;
        let rest = items.drop_last();
        if flags[n] {
            assert(class.contains(n as usize));
            let at = choose|at: int| 0 <= at < class.len() && class[at] == n as usize;
            if at < class.len() - 1 {
                assert(class[at] < class[class.len() - 1]);
            }
            let below = class.drop_last();
            assert forall|i: int| 0 <= i < below.len() implies #[trigger] below[i] < rest.len()
                && flags[below[i] as int] by {
                assert(class[i] < class[at]);
            }
            assert forall|x: usize| x < rest.len() && flags[x as int] implies #[trigger] below.contains(
                x,
            ) by {
                assert(class.contains(x));
                let i = choose|i: int| 0 <= i < class.len() && class[i] == x;
                assert(below[i] == x);
            }
            picked_by_positions(rest, flags, below);
            assert(picked(items, flags) =~= class.map_values(|x: usize| items[x as int]));
        } else {
            assert forall|i: int| 0 <= i < class.len() implies #[trigger] class[i] < rest.len()
                && flags[class[i] as int] by {
                assert(class[i] < items.len());
            }
            picked_by_positions(rest, flags, class);
            assert(picked(items, flags) =~= class.map_values(|x: usize| items[x as int]));
        }
    }
}

/// The key of a bucket is that of its first item.
pub open spec fn bucket_key<T>(bucket: Vec<T>, key: spec_fn(T) -> Seq<u64>) -> Seq<u64> {
    key(bucket@[0])
}

/// Some bucket is the one for this key.
pub open spec fn has_bucket<T>(
    buckets: Seq<Vec<T>>,
    key: spec_fn(T) -> Seq<u64>,
    k: Seq<u64>,
) -> bool {
    exists|c: int| 0 <= c < buckets.len() && bucket_key(#[trigger] buckets[c], key) == k
}

/// The items by their keys: a bucket for each key that several items have, with
/// all of those items, smaller keys first.
pub open spec fn are_buckets<T>(
    items: Seq<T>,
    key: spec_fn(T) -> Seq<u64>,
    buckets: Seq<Vec<T>>,
) -> bool {
    &&& forall|c: int|
        0 <= c < buckets.len() ==> {
            &&& (#[trigger] buckets[c])@.len() > 1
            &&& buckets[c]@ == with_key(items, key, bucket_key(buckets[c], key))
        }
    &&& forall|c: int, d: int|
        0 <= c < d < buckets.len() ==> key_less(
            bucket_key(#[trigger] buckets[c], key),
            bucket_key(#[trigger] buckets[d], key),
        )
    &&& forall|i: int|
        0 <= i < items.len() && is_repeated(items, key, i) ==> has_bucket(
            buckets,
            key,
            key(#[trigger] items[i]),
        )
}

/// The items by their keys, without those whose key nothing else has.
pub(crate) fn bucketed<T>(
    items: Vec<T>,
    keys: &Vec<Vec<u64>>,
    Ghost(key): Ghost<spec_fn(T) -> Seq<u64>>,
) -> (buckets: Vec<Vec<T>>)
    requires
        keys@.len() == items@.len(),
        forall|i: int| 0 <= i < items@.len() ==> (#[trigger] keys@[i])@ == key(items@[i]),
    ensures
        are_buckets(items@, key, buckets@),
{
    let ghost given = items@;
    let classes = classes_of(keys);
    let mut slots: Vec<Option<T>> = Vec::new();
    for item in it: items
        invariant
            it.seq() == given,
            slots@.len() == it.index(),
            forall|x: int| 0 <= x < slots@.len() ==> #[trigger] slots@[x] == Some(given[x]),
    {
        slots.push(Some(item));
    }
    assert(keys.len() <= usize::MAX);
    let mut buckets: Vec<Vec<T>> = Vec::new();
    let ghost mut taken: Seq<int> = Seq::empty();
    let mut c: usize = 0;
    while c < classes.len()
        invariant
            are_classes(keys@, classes@),
            keys@.len() == given.len() == slots@.len(),
            given.len() <= usize::MAX,
            forall|i: int| 0 <= i < given.len() ==> (#[trigger] keys@[i])@ == key(given[i]),
            c <= classes@.len(),
            forall|d: int, i: int|
                #![trigger classes@[d]@[i]]
                c <= d < classes@.len() && 0 <= i < classes@[d]@.len()
                    ==> slots@[classes@[d]@[i] as int] == Some(given[classes@[d]@[i] as int]),
            taken.len() == buckets@.len(),
            forall|b: int| 0 <= b < taken.len() ==> 0 <= #[trigger] taken[b] < c,
            forall|b: int, d: int|
                0 <= b < d < taken.len() ==> #[trigger] taken[b] < #[trigger] taken[d],
            forall|b: int|
                0 <= b < buckets@.len() ==> {
                    &&& (#[trigger] buckets@[b])@.len() > 1
                    &&& buckets@[b]@ == with_key(given, key, bucket_key(buckets@[b], key))
                    &&& bucket_key(buckets@[b], key) == keys@[classes@[taken[b]]@[0] as int]@
                },
            forall|d: int|
                0 <= d < c && (#[trigger] classes@[d])@.len() > 1 ==> has_bucket(
                    buckets@,
                    key,
                    keys@[classes@[d]@[0] as int]@,
                ),
        decreases classes@.len() - c,
    {
        let class = &classes[c];
        if class.len() > 1 {
            let mut bucket: Vec<T> = Vec::new();
            let mut i: usize = 0;
            while i < class.len()
                invariant
                    are_classes(keys@, classes@),
                    keys@.len() == given.len() == slots@.len(),
                    c < classes@.len(),
                    *class == classes@[c as int],
                    is_class(keys@, class@),
                    i <= class@.len(),
                    bucket@.len() == i,
                    forall|j: int| 0 <= j < i ==> #[trigger] bucket@[j] == given[class@[j] as int],
                    forall|j: int|
                        i <= j < class@.len() ==> slots@[#[trigger] class@[j] as int] == Some(
                            given[class@[j] as int],
                        ),
                    forall|d: int, j: int|
                        #![trigger classes@[d]@[j]]
                        c < d < classes@.len() && 0 <= j < classes@[d]@.len()
                            ==> slots@[classes@[d]@[j] as int] == Some(
                            given[classes@[d]@[j] as int],
                        ),
                decreases class@.len() - i,
            {
                let x: usize = class[i];
                proof {
                    assert forall|d: int, j: int|
                        #![trigger classes@[d]@[j]]
                        c < d < classes@.len() && 0 <= j < classes@[d]@.len() implies classes@[d]@[j]
                        != x by {
                        assert(is_class(keys@, classes@[d]@));
                        key_less_irreflexive(keys@[x as int]@);
                        assert(key_less(
                            keys@[classes@[c as int]@[0] as int]@,
                            keys@[classes@[d]@[0] as int]@,
                        ));
                        assert(keys@[classes@[d]@[j] as int]@ == keys@[classes@[d]@[0] as int]@);
                        assert(keys@[class@[i as int] as int]@ == keys@[class@[0] as int]@);
                    }
                }
                let slot = &mut slots[x];
                match slot.take() {
                    Some(item) => {
                        bucket.push(item);
                    },
                    None => {
                        assert(false);
                    },
                }
                i += 1;
            }
            let ghost before = buckets@;
            let ghost made = bucket@;
            let ghost k = keys@[class@[0] as int]@;
            proof {
                let flags = key_flags(given, key, k);
                assert forall|j: int| 0 <= j < class@.len() implies #[trigger] class@[j]
                    < given.len() && flags[class@[j] as int] by {
                    assert(keys@[class@[j] as int]@ == k);
                }
                assert forall|x: usize|
                    x < given.len() && flags[x as int] implies #[trigger] class@.contains(x) by {
                    assert(keys@[x as int]@ == k);
                }
                picked_by_positions(given, flags, class@);
                assert(bucket@ =~= class@.map_values(|x: usize| given[x as int]));
                assert(keys@[class@[0] as int]@ == key(given[class@[0] as int]));
            }
            buckets.push(bucket);
            proof {
                let held = taken;
                taken = taken.push(c as int);
                assert(bucket_key(buckets@[before.len() as int], key) == k);
                assert(made == with_key(given, key, k));
                assert forall|b: int| 0 <= b < buckets@.len() implies {
                    &&& (#[trigger] buckets@[b])@.len() > 1
                    &&& buckets@[b]@ == with_key(given, key, bucket_key(buckets@[b], key))
                    &&& bucket_key(buckets@[b], key) == keys@[classes@[taken[b]]@[0] as int]@
                } by {
                    if b < before.len() {
                        assert(buckets@[b] == before[b]);
                        assert(taken[b] == held[b]);
                    } else {
                        assert(buckets@[b]@ == made);
                        assert(taken[b] == c);
                    }
                }
                assert forall|d: int| 0 <= d < c + 1 && (#[trigger] classes@[d])@.len() > 1 implies has_bucket(
                    buckets@,
                    key,
                    keys@[classes@[d]@[0] as int]@,
                ) by {
                    if d < c {
                        assert(has_bucket(before, key, keys@[classes@[d]@[0] as int]@));
                        let b = choose|b: int|
                            0 <= b < before.len() && bucket_key(#[trigger] before[b], key)
                                == keys@[classes@[d]@[0] as int]@;
                        assert(buckets@[b] == before[b]);
                    }
                }
            }
        }
        c += 1;
    }
    proof {
        assert forall|b: int, d: int| 0 <= b < d < buckets@.len() implies key_less(
            bucket_key(#[trigger] buckets@[b], key),
            bucket_key(#[trigger] buckets@[d], key),
        ) by {
            assert(taken[b] < taken[d]);
            assert(key_less(
                keys@[classes@[taken[b]]@[0] as int]@,
                keys@[classes@[taken[d]]@[0] as int]@,
            ));
        }
        assert forall|i: int| 0 <= i < given.len() && is_repeated(given, key, i) implies has_bucket(
            buckets@,
            key,
            key(#[trigger] given[i]),
        ) by {
            twins_are_repeats(given, key, keys@, i);
            assert(in_some_class(classes@, i as usize));
            let d = choose|d: int|
                0 <= d < classes@.len() && (#[trigger] classes@[d])@.contains(i as usize);
            class_of_several(keys@, classes@[d]@, i as usize);
            let j = choose|j: int| 0 <= j < classes@[d]@.len() && classes@[d]@[j] == i as usize;
            assert(keys@[classes@[d]@[j] as int]@ == keys@[classes@[d]@[0] as int]@);
            assert(keys@[i]@ == key(given[i]));
        }
    }
    buckets
}

} // verus!
