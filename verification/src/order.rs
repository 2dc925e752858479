//! Ordering by keys.
//!
//! Whatever is sorted is given a key, a sequence of numbers compared
//! lexicographically. One stable sort then serves every list.

use vstd::prelude::*;

verus! {

/// `a` and `b` agree before position `i`, and `a` is the smaller one there.
pub open spec fn smaller_at(a: Seq<u64>, b: Seq<u64>, i: int) -> bool {
    &&& 0 <= i <= a.len()
    &&& i < b.len()
    &&& forall|j: int| 0 <= j < i ==> #[trigger] a[j] == b[j]
    &&& i == a.len() || a[i] < b[i]
}

/// Lexicographic order: a proper prefix comes before what it is a prefix of.
pub open spec fn key_less(a: Seq<u64>, b: Seq<u64>) -> bool {
    exists|i: int| smaller_at(a, b, i)
}

/// The order never puts a key before itself.
pub proof fn key_less_irreflexive(a: Seq<u64>)
    ensures
        !key_less(a, a),
{
}

/// The order is transitive.
pub proof fn key_less_transitive(a: Seq<u64>, b: Seq<u64>, c: Seq<u64>)
    requires
        key_less(a, b),
        key_less(b, c),
    ensures
        key_less(a, c),
{
    let i = choose|i: int| smaller_at(a, b, i);
    let j = choose|j: int| smaller_at(b, c, j);
    let k = if i < j { i } else { j };
    assert forall|m: int| 0 <= m < k implies #[trigger] a[m] == c[m] by {
        assert(a[m] == b[m]);
        assert(b[m] == c[m]);
    }
    if i < j {
        assert(b[i] == c[i]);
    } else if j < i {
        assert(a[j] == b[j]);
    }
    assert(smaller_at(a, c, k));
}

/// Two keys are equal or one of them comes first.
pub proof fn key_less_total(a: Seq<u64>, b: Seq<u64>)
    ensures
        key_less(a, b) || key_less(b, a) || a == b,
{
    key_less_total_from(a, b, 0);
}

proof fn key_less_total_from(a: Seq<u64>, b: Seq<u64>, n: int)
    requires
        0 <= n <= a.len(),
        n <= b.len(),
        forall|j: int| 0 <= j < n ==> #[trigger] a[j] == b[j],
    ensures
        key_less(a, b) || key_less(b, a) || a == b,
    decreases a.len() - n,
{
    if n == a.len() && n == b.len() {
        assert(a =~= b);
    } else if n == a.len() {
        assert(smaller_at(a, b, n));
    } else if n == b.len() {
        assert forall|j: int| 0 <= j < n implies #[trigger] b[j] == a[j] by {
            assert(a[j] == b[j]);
        }
        assert(smaller_at(b, a, n));
    } else if a[n] == b[n] {
        key_less_total_from(a, b, n + 1);
    } else {
        assert forall|j: int| 0 <= j < n implies #[trigger] b[j] == a[j] by {
            assert(a[j] == b[j]);
        }
        if a[n] < b[n] {
            assert(smaller_at(a, b, n));
        } else {
            assert(smaller_at(b, a, n));
        }
    }
}

/// Two keys are never before one another.
pub proof fn key_less_asymmetric(a: Seq<u64>, b: Seq<u64>)
    requires
        key_less(a, b),
    ensures
        !key_less(b, a),
{
    if key_less(b, a) {
        key_less_transitive(a, b, a);
        key_less_irreflexive(a);
    }
}

/// Putting the same number in front of two keys does not change their order,
/// and a smaller number in front decides it.
pub proof fn key_less_headed(x: u64, a: Seq<u64>, y: u64, b: Seq<u64>)
    ensures
        key_less(seq![x] + a, seq![y] + b) <==> x < y || (x == y && key_less(a, b)),
{
    let p = seq![x] + a;
    let q = seq![y] + b;
    if x < y {
        assert(smaller_at(p, q, 0));
    }
    if x == y && key_less(a, b) {
        let i = choose|i: int| smaller_at(a, b, i);
        assert forall|j: int| 0 <= j < i + 1 implies #[trigger] p[j] == q[j] by {
            if j > 0 {
                assert(a[j - 1] == b[j - 1]);
            }
        }
        assert(smaller_at(p, q, i + 1));
    }
    if key_less(p, q) {
        let i = choose|i: int| smaller_at(p, q, i);
        if i == 0 {
            assert(p[0] == x && q[0] == y);
        } else {
            assert(p[0] == q[0]);
            assert forall|j: int| 0 <= j < i - 1 implies #[trigger] a[j] == b[j] by {
                assert(p[j + 1] == q[j + 1]);
            }
            assert(smaller_at(a, b, i - 1));
        }
    }
}

/// Whether key `a` comes before key `b`.
pub fn is_less(a: &Vec<u64>, b: &Vec<u64>) -> (less: bool)
    ensures
        less == key_less(a@, b@),
{
    let mut i: usize = 0;
    while i < a.len() && i < b.len() && a[i] == b[i]
        invariant
            i <= a.len(),
            i <= b.len(),
            forall|j: int| 0 <= j < i ==> #[trigger] a@[j] == b@[j],
        decreases a.len() - i,
    {
        i += 1;
    }
    if i == b.len() {
        proof {
            if key_less(a@, b@) {
                let k = choose|k: int| smaller_at(a@, b@, k);
                assert(a@[k] == b@[k]);
            }
        }
        return false;
    }
    if i == a.len() || a[i] < b[i] {
        assert(smaller_at(a@, b@, i as int));
        return true;
    }
    proof {
        assert forall|j: int| 0 <= j < i implies #[trigger] b@[j] == a@[j] by {
            assert(a@[j] == b@[j]);
        }
        assert(smaller_at(b@, a@, i as int));
        key_less_asymmetric(b@, a@);
    }
    false
}

/// Item `x` is listed before item `y`: its key is smaller, or the keys are equal
/// and `x` stood first already.
pub open spec fn listed_before(keys: Seq<Vec<u64>>, x: int, y: int) -> bool {
    key_less(keys[x]@, keys[y]@) || (keys[x]@ == keys[y]@ && x < y)
}

proof fn listed_before_transitive(keys: Seq<Vec<u64>>, x: int, y: int, z: int)
    requires
        listed_before(keys, x, y),
        listed_before(keys, y, z),
    ensures
        listed_before(keys, x, z),
{
    if key_less(keys[x]@, keys[y]@) && key_less(keys[y]@, keys[z]@) {
        key_less_transitive(keys[x]@, keys[y]@, keys[z]@);
    }
}

/// `order` lists the items `lo..hi`, each once, in the order of their keys.
pub open spec fn lists_range(keys: Seq<Vec<u64>>, order: Seq<usize>, lo: int, hi: int) -> bool {
    &&& order.len() == hi - lo
    &&& forall|i: int| 0 <= i < order.len() ==> lo <= #[trigger] order[i] < hi
    &&& forall|x: usize| lo <= x < hi ==> #[trigger] order.contains(x)
    &&& forall|i: int, j: int|
        0 <= i < j < order.len() ==> listed_before(keys, #[trigger] order[i] as int, #[trigger] order[j] as int)
}

/// `order` is the stable sorting order of `keys`: it lists every index once,
/// smaller keys first, and keeps equal keys in the order they had.
pub open spec fn is_sorting_order(keys: Seq<Vec<u64>>, order: Seq<usize>) -> bool {
    lists_range(keys, order, 0, keys.len() as int)
}

/// No index is listed twice.
pub proof fn sorting_order_is_distinct(keys: Seq<Vec<u64>>, order: Seq<usize>)
    requires
        is_sorting_order(keys, order),
    ensures
        forall|i: int, j: int|
            0 <= i < order.len() && 0 <= j < order.len() && i != j ==> #[trigger] order[i]
                != #[trigger] order[j],
{
    assert forall|i: int, j: int|
        0 <= i < order.len() && 0 <= j < order.len() && i != j implies #[trigger] order[i]
        != #[trigger] order[j] by {
        if i < j {
            assert(listed_before(keys, order[i] as int, order[j] as int));
        } else {
            assert(listed_before(keys, order[j] as int, order[i] as int));
        }
        key_less_irreflexive(keys[order[i] as int]@);
    }
}

fn merge(
    keys: &Vec<Vec<u64>>,
    left: &Vec<usize>,
    right: &Vec<usize>,
    Ghost(lo): Ghost<int>,
    Ghost(mid): Ghost<int>,
    Ghost(hi): Ghost<int>,
) -> (merged: Vec<usize>)
    requires
        0 <= lo <= mid <= hi <= keys@.len(),
        lists_range(keys@, left@, lo, mid),
        lists_range(keys@, right@, mid, hi),
    ensures
        lists_range(keys@, merged@, lo, hi),
{
    let mut merged: Vec<usize> = Vec::new();
    let mut l: usize = 0;
    let mut r: usize = 0;
    while l < left.len() || r < right.len()
        invariant
            0 <= lo <= mid <= hi <= keys@.len(),
            lists_range(keys@, left@, lo, mid),
            lists_range(keys@, right@, mid, hi),
            l <= left@.len(),
            r <= right@.len(),
            merged@.len() == l + r,
            forall|i: int| 0 <= i < merged@.len() ==> lo <= #[trigger] merged@[i] < hi,
            forall|a: int| 0 <= a < l ==> merged@.contains(#[trigger] left@[a]),
            forall|b: int| 0 <= b < r ==> merged@.contains(#[trigger] right@[b]),
            forall|i: int, j: int|
                0 <= i < j < merged@.len() ==> listed_before(
                    keys@,
                    #[trigger] merged@[i] as int,
                    #[trigger] merged@[j] as int,
                ),
            forall|i: int, a: int|
                0 <= i < merged@.len() && l <= a < left@.len() ==> listed_before(
                    keys@,
                    #[trigger] merged@[i] as int,
                    #[trigger] left@[a] as int,
                ),
            forall|i: int, b: int|
                0 <= i < merged@.len() && r <= b < right@.len() ==> listed_before(
                    keys@,
                    #[trigger] merged@[i] as int,
                    #[trigger] right@[b] as int,
                ),
        decreases left@.len() - l + right@.len() - r,
    {
        let from_left: bool = if l == left.len() {
            false
        } else if r == right.len() {
            true
        } else {
            !is_less(&keys[right[r]], &keys[left[l]])
        };
        let ghost before = merged@;
        if from_left {
            let x: usize = left[l];
            proof {
                if r < right@.len() {
                    key_less_total(keys@[x as int]@, keys@[right@[r as int] as int]@);
                    assert(listed_before(keys@, x as int, right@[r as int] as int));
                    assert forall|b: int| r <= b < right@.len() implies listed_before(
                        keys@,
                        x as int,
                        #[trigger] right@[b] as int,
                    ) by {
                        if b > r {
                            listed_before_transitive(
                                keys@,
                                x as int,
                                right@[r as int] as int,
                                right@[b] as int,
                            );
                        }
                    }
                }
            }
            merged.push(x);
            l += 1;
        } else {
            let x: usize = right[r];
            proof {
                if l < left@.len() {
                    assert(listed_before(keys@, x as int, left@[l as int] as int));
                    assert forall|a: int| l <= a < left@.len() implies listed_before(
                        keys@,
                        x as int,
                        #[trigger] left@[a] as int,
                    ) by {
                        if a > l {
                            listed_before_transitive(
                                keys@,
                                x as int,
                                left@[l as int] as int,
                                left@[a] as int,
                            );
                        }
                    }
                }
            }
            merged.push(x);
            r += 1;
        }
        proof {
            assert(merged@.last() == merged@[merged@.len() - 1]);
            assert forall|y: usize| before.contains(y) implies merged@.contains(y) by {
                let k = choose|k: int| 0 <= k < before.len() && before[k] == y;
                assert(merged@[k] == y);
            }
            assert(merged@.contains(merged@.last()));
        }
    }
    proof {
        assert forall|x: usize| lo <= x < hi implies #[trigger] merged@.contains(x) by {
            if x < mid {
                assert(left@.contains(x));
                let a = choose|a: int| 0 <= a < left@.len() && left@[a] == x;
                assert(merged@.contains(left@[a]));
            } else {
                assert(right@.contains(x));
                let b = choose|b: int| 0 <= b < right@.len() && right@[b] == x;
                assert(merged@.contains(right@[b]));
            }
        }
    }
    merged
}

fn order_of_range(keys: &Vec<Vec<u64>>, lo: usize, hi: usize) -> (order: Vec<usize>)
    requires
        lo <= hi <= keys@.len(),
    ensures
        lists_range(keys@, order@, lo as int, hi as int),
    decreases hi - lo,
{
    let mut order: Vec<usize> = Vec::new();
    if lo == hi {
        return order;
    }
    if hi - lo == 1 {
        order.push(lo);
        assert(order@[0] == lo);
        return order;
    }
    let mid: usize = lo + (hi - lo) / 2;
    let left = order_of_range(keys, lo, mid);
    let right = order_of_range(keys, mid, hi);
    merge(keys, &left, &right, Ghost(lo as int), Ghost(mid as int), Ghost(hi as int))
}

/// The order in which the items with these keys are listed.
pub fn sorting_order(keys: &Vec<Vec<u64>>) -> (order: Vec<usize>)
    ensures
        is_sorting_order(keys@, order@),
{
    order_of_range(keys, 0, keys.len())
}

/// Put `items` into the order given by their indices.
pub fn rearranged<T>(items: Vec<T>, order: &Vec<usize>) -> (out: Vec<T>)
    requires
        order@.len() == items@.len(),
        forall|i: int| 0 <= i < order@.len() ==> #[trigger] order@[i] < items@.len(),
        forall|i: int, j: int|
            0 <= i < order@.len() && 0 <= j < order@.len() && i != j ==> #[trigger] order@[i]
                != #[trigger] order@[j],
    ensures
        out@.len() == items@.len(),
        forall|i: int| 0 <= i < out@.len() ==> #[trigger] out@[i] == items@[order@[i] as int],
{
    let ghost given = items@;
    let n: usize = items.len();
    let mut rest = items;
    let mut backwards: Vec<Option<T>> = Vec::new();
    while backwards.len() < n
        invariant
            n == given.len(),
            backwards@.len() <= n,
            rest@ == given.take(n - backwards@.len()),
            forall|i: int|
                0 <= i < backwards@.len() ==> #[trigger] backwards@[i] == Some(given[n - 1 - i]),
        decreases n - backwards@.len(),
    {
        let item = rest.pop();
        backwards.push(item);
    }
    let mut out: Vec<T> = Vec::new();
    while out.len() < n
        invariant
            n == given.len(),
            n == order@.len(),
            backwards@.len() == n,
            out@.len() <= n,
            forall|i: int| 0 <= i < n ==> #[trigger] order@[i] < n,
            forall|i: int, j: int|
                0 <= i < n && 0 <= j < n && i != j ==> #[trigger] order@[i]
                    != #[trigger] order@[j],
            forall|i: int|
                0 <= i < out@.len() ==> #[trigger] out@[i] == given[order@[i] as int],
            forall|i: int|
                out@.len() <= i < n ==> backwards@[n - 1 - #[trigger] order@[i]] == Some(
                    given[order@[i] as int],
                ),
        decreases n - out@.len(),
    {
        let at: usize = order[out.len()];
        let slot = &mut backwards[n - 1 - at];
        match slot.take() {
            Some(item) => {
                out.push(item);
            },
            None => {
                assert(false);
            },
        }
    }
    out
}

/// `out` has the items at these positions, each position once, smaller keys first
/// and equal keys in the order they had.
pub open spec fn arranged_by<T>(
    items: Seq<T>,
    key: spec_fn(T) -> Seq<u64>,
    out: Seq<T>,
    order: Seq<int>,
) -> bool {
    &&& order.len() == items.len()
    &&& out.len() == items.len()
    &&& forall|i: int| 0 <= i < order.len() ==> 0 <= #[trigger] order[i] < items.len()
    &&& forall|i: int| 0 <= i < out.len() ==> #[trigger] out[i] == items[order[i]]
    &&& forall|x: int| 0 <= x < items.len() ==> #[trigger] order.contains(x)
    &&& forall|i: int, j: int|
        0 <= i < j < order.len() ==> goes_before(
            items,
            key,
            #[trigger] order[i],
            #[trigger] order[j],
        )
}

/// Item `x` has a smaller key than item `y`, or the same key and stands first.
pub open spec fn goes_before<T>(
    items: Seq<T>,
    key: spec_fn(T) -> Seq<u64>,
    x: int,
    y: int,
) -> bool {
    key_less(key(items[x]), key(items[y])) || (key(items[x]) == key(items[y]) && x < y)
}

/// `out` has the same items, stably sorted by their keys.
pub open spec fn is_sorted_from<T>(
    items: Seq<T>,
    key: spec_fn(T) -> Seq<u64>,
    out: Seq<T>,
) -> bool {
    exists|order: Seq<int>| arranged_by(items, key, out, order)
}

/// The items, stably sorted by their keys.
pub open spec fn sorted_from<T>(items: Seq<T>, key: spec_fn(T) -> Seq<u64>) -> Seq<T> {
    choose|out: Seq<T>| is_sorted_from(items, key, out)
}

/// The items, stably sorted by their keys.
pub(crate) fn sorted_with<T>(
    items: Vec<T>,
    keys: &Vec<Vec<u64>>,
    Ghost(key): Ghost<spec_fn(T) -> Seq<u64>>,
) -> (out: Vec<T>)
    requires
        keys@.len() == items@.len(),
        forall|i: int| 0 <= i < items@.len() ==> (#[trigger] keys@[i])@ == key(items@[i]),
    ensures
        out@ == sorted_from(items@, key),
        is_sorted_from(items@, key, out@),
{
    let ghost given = items@;
    let order = sorting_order(keys);
    proof {
        sorting_order_is_distinct(keys@, order@);
    }
    let out = rearranged(items, &order);
    proof {
        let positions = order@.map_values(|x: usize| x as int);
        assert forall|i: int| 0 <= i < positions.len() implies 0 <= #[trigger] positions[i]
            < given.len() by {
            assert(order@[i] < given.len());
        }
        assert forall|i: int| 0 <= i < out@.len() implies #[trigger] out@[i]
            == given[positions[i]] by {
            assert(order@[i] < given.len());
        }
        assert(keys.len() <= usize::MAX);
        assert forall|x: int| 0 <= x < given.len() implies #[trigger] positions.contains(x) by {
            assert(order@.contains(x as usize));
            let i = choose|i: int| 0 <= i < order@.len() && order@[i] == x as usize;
            assert(positions[i] == x);
        }
        assert forall|i: int, j: int| 0 <= i < j < positions.len() implies goes_before(
            given,
            key,
            #[trigger] positions[i],
            #[trigger] positions[j],
        ) by {
            let x = order@[i] as int;
            let y = order@[j] as int;
            assert(listed_before(keys@, order@[i] as int, order@[j] as int));
            assert(keys@[x]@ == key(given[x]) && keys@[y]@ == key(given[y]));
        }
        assert(arranged_by(given, key, out@, positions));
        assert(is_sorted_from(given, key, out@));
        sorted_list_is_unique(given, key, out@, sorted_from(given, key));
    }
    out
}

/// Two places of a sorted list hold the items of two places.
pub proof fn arranged_places_differ<T>(
    items: Seq<T>,
    key: spec_fn(T) -> Seq<u64>,
    out: Seq<T>,
    order: Seq<int>,
    i: int,
    j: int,
)
    requires
        arranged_by(items, key, out, order),
        0 <= i < out.len(),
        0 <= j < out.len(),
        i != j,
    ensures
        order[i] != order[j],
{
    key_less_irreflexive(key(items[order[i]]));
    if i < j {
        assert(goes_before(items, key, order[i], order[j]));
    } else {
        assert(goes_before(items, key, order[j], order[i]));
    }
}

/// In a sorted list no later item has a smaller key.
pub proof fn sorted_keys_ascend<T>(
    items: Seq<T>,
    key: spec_fn(T) -> Seq<u64>,
    out: Seq<T>,
    i: int,
    j: int,
)
    requires
        is_sorted_from(items, key, out),
        0 <= i <= j < out.len(),
    ensures
        !key_less(key(out[j]), key(out[i])),
{
    let order = choose|order: Seq<int>| arranged_by(items, key, out, order);
    if i == j {
        key_less_irreflexive(key(out[i]));
    } else {
        assert(goes_before(items, key, order[i], order[j]));
        assert(out[i] == items[order[i]] && out[j] == items[order[j]]);
        if key_less(key(out[i]), key(out[j])) {
            key_less_asymmetric(key(out[i]), key(out[j]));
        } else {
            key_less_irreflexive(key(out[i]));
        }
    }
}

/// Sorting neither adds nor loses an item.
pub proof fn sorted_has_the_same_items<T>(
    items: Seq<T>,
    key: spec_fn(T) -> Seq<u64>,
    out: Seq<T>,
    item: T,
)
    requires
        is_sorted_from(items, key, out),
    ensures
        out.len() == items.len(),
        out.contains(item) <==> items.contains(item),
{
    let order = choose|order: Seq<int>| arranged_by(items, key, out, order);
    if out.contains(item) {
        let i = choose|i: int| 0 <= i < out.len() && out[i] == item;
        assert(out[i] == items[order[i]]);
    }
    if items.contains(item) {
        let x = choose|x: int| 0 <= x < items.len() && items[x] == item;
        assert(order.contains(x));
        let i = choose|i: int| 0 <= i < order.len() && order[i] == x;
        assert(out[i] == items[order[i]]);
    }
}

proof fn goes_before_is_strict<T>(items: Seq<T>, key: spec_fn(T) -> Seq<u64>, x: int, y: int)
    requires
        goes_before(items, key, x, y),
    ensures
        !goes_before(items, key, y, x),
        x != y,
{
    key_less_irreflexive(key(items[x]));
    if key_less(key(items[x]), key(items[y])) {
        key_less_asymmetric(key(items[x]), key(items[y]));
    }
}

/// There is only one stably sorted list of given items.
pub proof fn sorted_list_is_unique<T>(
    items: Seq<T>,
    key: spec_fn(T) -> Seq<u64>,
    a: Seq<T>,
    b: Seq<T>,
)
    requires
        is_sorted_from(items, key, a),
        is_sorted_from(items, key, b),
    ensures
        a == b,
{
    let p = choose|order: Seq<int>| arranged_by(items, key, a, order);
    let q = choose|order: Seq<int>| arranged_by(items, key, b, order);
    assert forall|n: int| 0 <= n < p.len() implies #[trigger] p[n] == q[n] by {
        orders_agree(items, key, a, p, b, q, n);
    }
    assert forall|n: int| 0 <= n < a.len() implies #[trigger] a[n] == b[n] by {
        assert(p[n] == q[n]);
        assert(b[n] == items[q[n]]);
    }
    assert(a =~= b);
}

proof fn orders_agree<T>(
    items: Seq<T>,
    key: spec_fn(T) -> Seq<u64>,
    a: Seq<T>,
    p: Seq<int>,
    b: Seq<T>,
    q: Seq<int>,
    n: int,
)
    requires
        arranged_by(items, key, a, p),
        arranged_by(items, key, b, q),
        0 <= n < items.len(),
    ensures
        p[n] == q[n],
    decreases n,
{
    assert forall|m: int| 0 <= m < n implies #[trigger] p[m] == q[m] by {
        orders_agree(items, key, a, p, b, q, m);
    }
    if p[n] != q[n] {
        // Each of the two stands later in the other list, so each goes first.
        assert(q.contains(p[n]));
        let j = choose|j: int| 0 <= j < q.len() && q[j] == p[n];
        assert(p.contains(q[n]));
        let i = choose|i: int| 0 <= i < p.len() && p[i] == q[n];
        if j < n {
            assert(p[j] == q[j]);
            assert(goes_before(items, key, p[j], p[n]));
            goes_before_is_strict(items, key, p[j], p[n]);
        }
        if i < n {
            assert(p[i] == q[i]);
            assert(goes_before(items, key, q[i], q[n]));
            goes_before_is_strict(items, key, q[i], q[n]);
        }
        assert(goes_before(items, key, q[n], q[j]));
        assert(goes_before(items, key, p[n], p[i]));
        goes_before_is_strict(items, key, p[n], p[i]);
    }
}

/// The start of a key that lists larger numbers first.
pub open spec fn descending(n: int) -> Seq<u64> {
    let high = (u64::MAX - n / 0x1_0000_0000_0000_0000) as u64;
    let low = (u64::MAX - n % 0x1_0000_0000_0000_0000) as u64;
    seq![high, low]
}

/// The start of a key that lists larger numbers first.
pub fn descending_key(n: u128) -> (key: Vec<u64>)
    ensures
        key@ == descending(n as int),
{
    let high: u64 = (n / 0x1_0000_0000_0000_0000) as u64;
    let low: u64 = (n % 0x1_0000_0000_0000_0000) as u64;
    let mut key: Vec<u64> = Vec::new();
    key.push(u64::MAX - high);
    key.push(u64::MAX - low);
    assert(key@ =~= descending(n as int));
    key
}

/// A larger number comes first; between equal numbers the rest decides.
pub proof fn descending_decides(a: int, x: Seq<u64>, b: int, y: Seq<u64>)
    requires
        0 <= a <= u128::MAX,
        0 <= b <= u128::MAX,
    ensures
        key_less(descending(a) + x, descending(b) + y) <==> a > b || (a == b && key_less(x, y)),
{
    let p = descending(a);
    let q = descending(b);
    assert(p + x =~= seq![p[0]] + (seq![p[1]] + x));
    assert(q + y =~= seq![q[0]] + (seq![q[1]] + y));
    key_less_headed(p[0], seq![p[1]] + x, q[0], seq![q[1]] + y);
    key_less_headed(p[1], x, q[1], y);
}

/// Every list can be sorted.
pub proof fn sort_exists<T>(items: Seq<T>, key: spec_fn(T) -> Seq<u64>)
    ensures
        is_sorted_from(items, key, sorted_from(items, key)),
{
    let order = order_exists(items, key);
    let out = Seq::new(items.len(), |i: int| items[order[i]]);
    assert(arranged_by(items, key, out, order));
    assert(is_sorted_from(items, key, out));
}

proof fn order_exists<T>(items: Seq<T>, key: spec_fn(T) -> Seq<u64>) -> (order: Seq<int>)
    ensures
        order.len() == items.len(),
        forall|i: int| 0 <= i < order.len() ==> 0 <= #[trigger] order[i] < items.len(),
        forall|x: int| 0 <= x < items.len() ==> #[trigger] order.contains(x),
        forall|i: int, j: int|
            0 <= i < j < order.len() ==> goes_before(
                items,
                key,
                #[trigger] order[i],
                #[trigger] order[j],
            ),
    decreases items.len(),
{
    if items.len() == 0 {
        Seq::empty()
    } else {
        let rest = items.drop_last();
        let n = items.len() - 1;
        let before = order_exists(rest, key);
        assert forall|i: int, j: int| 0 <= i < j < before.len() implies goes_before(
            items,
            key,
            #[trigger] before[i],
            #[trigger] before[j],
        ) by {
            assert(goes_before(rest, key, before[i], before[j]));
        }
        let p = insertion_point(items, key, before, n, before.len() as int);
        let order = before.insert(p, n);
        assert forall|i: int| 0 <= i < order.len() implies 0 <= #[trigger] order[i]
            < items.len() by {
            if i < p {
                assert(order[i] == before[i]);
            } else if i > p {
                assert(order[i] == before[i - 1]);
            }
        }
        assert forall|x: int| 0 <= x < items.len() implies #[trigger] order.contains(x) by {
            if x == n {
                assert(order[p] == n);
            } else {
                assert(before.contains(x));
                let i = choose|i: int| 0 <= i < before.len() && before[i] == x;
                if i < p {
                    assert(order[i] == x);
                } else {
                    assert(order[i + 1] == x);
                }
            }
        }
        assert forall|i: int, j: int| 0 <= i < j < order.len() implies goes_before(
            items,
            key,
            #[trigger] order[i],
            #[trigger] order[j],
        ) by {
            let a = if i < p {
                i
            } else {
                i - 1
            };
            let b = if j < p {
                j
            } else {
                j - 1
            };
            if i != p {
                assert(order[i] == before[a]);
            }
            if j != p {
                assert(order[j] == before[b]);
            }
        }
        order
    }
}

/// Where the last item belongs in a sorted list of the others.
proof fn insertion_point<T>(
    items: Seq<T>,
    key: spec_fn(T) -> Seq<u64>,
    order: Seq<int>,
    n: int,
    hi: int,
) -> (p: int)
    requires
        0 <= hi <= order.len(),
        forall|i: int| 0 <= i < order.len() ==> 0 <= #[trigger] order[i] < n,
        forall|i: int, j: int|
            0 <= i < j < order.len() ==> goes_before(
                items,
                key,
                #[trigger] order[i],
                #[trigger] order[j],
            ),
        forall|i: int| hi <= i < order.len() ==> goes_before(items, key, n, #[trigger] order[i]),
    ensures
        0 <= p <= order.len(),
        forall|i: int| 0 <= i < p ==> goes_before(items, key, #[trigger] order[i], n),
        forall|i: int| p <= i < order.len() ==> goes_before(items, key, n, #[trigger] order[i]),
    decreases hi,
{
    if hi == 0 {
        0
    } else {
        let last = order[hi - 1];
        key_less_total(key(items[n]), key(items[last]));
        if key_less(key(items[n]), key(items[last])) {
            insertion_point(items, key, order, n, hi - 1)
        } else {
            assert(goes_before(items, key, last, n));
            assert forall|i: int| 0 <= i < hi implies goes_before(
                items,
                key,
                #[trigger] order[i],
                n,
            ) by {
                if i < hi - 1 {
                    assert(goes_before(items, key, order[i], last));
                    if key_less(key(items[order[i]]), key(items[last])) && key_less(
                        key(items[last]),
                        key(items[n]),
                    ) {
                        key_less_transitive(
                            key(items[order[i]]),
                            key(items[last]),
                            key(items[n]),
                        );
                    }
                }
            }
            hi
        }
    }
}

/// A sequence of numbers as a part of a key that something else follows: each number
/// raised by one, and a zero below them all.
pub open spec fn terminated(a: Seq<u64>) -> Seq<u64> {
    Seq::new(a.len(), |i: int| (a[i] + 1) as u64).push(0)
}

/// A terminated part decides before anything that follows it.
pub proof fn terminated_decides(a: Seq<u64>, x: Seq<u64>, b: Seq<u64>, y: Seq<u64>)
    requires
        forall|i: int| 0 <= i < a.len() ==> #[trigger] a[i] < u64::MAX,
        forall|i: int| 0 <= i < b.len() ==> #[trigger] b[i] < u64::MAX,
    ensures
        key_less(terminated(a) + x, terminated(b) + y) <==> key_less(a, b) || (a == b && key_less(
            x,
            y,
        )),
    decreases a.len(),
{
    let a2 = a.drop_first();
    let b2 = b.drop_first();
    let none = Seq::<u64>::empty();
    if a.len() == 0 {
        assert(terminated(a) + x =~= seq![0u64] + x);
    } else {
        assert(a[0] < u64::MAX);
        assert(terminated(a) + x =~= seq![(a[0] + 1) as u64] + (terminated(a2) + x));
        assert(a =~= seq![a[0]] + a2);
    }
    if b.len() == 0 {
        assert(terminated(b) + y =~= seq![0u64] + y);
    } else {
        assert(b[0] < u64::MAX);
        assert(terminated(b) + y =~= seq![(b[0] + 1) as u64] + (terminated(b2) + y));
        assert(b =~= seq![b[0]] + b2);
    }
    if a.len() == 0 && b.len() == 0 {
        assert(a =~= b);
        key_less_headed(0, x, 0, y);
        key_less_irreflexive(a);
    } else if a.len() == 0 {
        key_less_headed(0, x, (b[0] + 1) as u64, terminated(b2) + y);
        assert(smaller_at(a, b, 0));
    } else if b.len() == 0 {
        key_less_headed((a[0] + 1) as u64, terminated(a2) + x, 0, y);
        assert(!key_less(a, b));
    } else {
        key_less_headed(
            (a[0] + 1) as u64,
            terminated(a2) + x,
            (b[0] + 1) as u64,
            terminated(b2) + y,
        );
        key_less_headed(a[0], a2, b[0], b2);
        assert forall|i: int| 0 <= i < a2.len() implies #[trigger] a2[i] < u64::MAX by {
            assert(a[i + 1] < u64::MAX);
        }
        assert forall|i: int| 0 <= i < b2.len() implies #[trigger] b2[i] < u64::MAX by {
            assert(b[i + 1] < u64::MAX);
        }
        terminated_decides(a2, x, b2, y);
    }
}

} // verus!
