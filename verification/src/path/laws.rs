//! Taking a path apart below a directory and putting it together again.

use super::{
    below, component_before, components, components_before, extension_of, is_absolute, joined,
    last_dot, lies_in, name_of, names_nothing, parent_of, part_end, parts, parts_are_ordered,
    parts_from, parts_from_are_ordered, path_key, path_keys_order_components, shown_name, top_of,
    wide, DOT, SLASH,
};
use crate::order::{key_less, key_less_irreflexive, smaller_at};
use crate::text::displayed;
use vstd::prelude::*;
use vstd::utf8::{decode_utf8, valid_utf8};

verus! {

/// The components from position `i` on.
spec fn components_from(raw: Seq<u8>, i: int) -> Seq<Seq<u8>> {
    parts_from(raw, i).map_values(|p: (int, int)| raw.subrange(p.0, p.1))
}

/// The part from `i` on ends at `end`.
spec fn ends_at(raw: Seq<u8>, i: int, end: int) -> bool {
    &&& i <= end <= raw.len()
    &&& forall|j: int| i <= j < end ==> #[trigger] raw[j] != SLASH
    &&& end == raw.len() || raw[end] == SLASH
}

proof fn part_end_ends(raw: Seq<u8>, i: int)
    requires
        0 <= i <= raw.len(),
    ensures
        ends_at(raw, i, part_end(raw, i)),
    decreases raw.len() - i,
{
    if i < raw.len() && raw[i] != SLASH {
        part_end_ends(raw, i + 1);
    }
}

proof fn part_end_is(raw: Seq<u8>, i: int, end: int)
    requires
        0 <= i,
        ends_at(raw, i, end),
    ensures
        part_end(raw, i) == end,
    decreases end - i,
{
    if i < end {
        assert(raw[i] != SLASH);
        part_end_is(raw, i + 1, end);
    }
}

proof fn components_step(raw: Seq<u8>, i: int)
    requires
        0 <= i < raw.len(),
    ensures
        ({
            let end = part_end(raw, i);
            components_from(raw, i) == if names_nothing(raw, i, end) {
                components_from(raw, end + 1)
            } else {
                seq![raw.subrange(i, end)] + components_from(raw, end + 1)
            }
        }),
{
    let end = part_end(raw, i);
    let rest = parts_from(raw, end + 1);
    if !names_nothing(raw, i, end) {
        assert(parts_from(raw, i) == seq![(i, end)] + rest);
        assert(components_from(raw, i) =~= seq![raw.subrange(i, end)] + components_from(
            raw,
            end + 1,
        ));
    }
}

proof fn components_are(raw: Seq<u8>)
    ensures
        is_absolute(raw) ==> components(raw) == seq![seq![SLASH]] + components_from(raw, 1),
        !is_absolute(raw) ==> components(raw) == components_from(raw, 0),
{
    if is_absolute(raw) {
        assert(raw.subrange(0, 1) =~= seq![SLASH]);
        assert(components(raw) =~= seq![seq![SLASH]] + components_from(raw, 1));
    }
}

/// What follows a position decides about the components from there on.
proof fn equal_tails_have_equal_components(x: Seq<u8>, k: int, y: Seq<u8>, m: int)
    requires
        0 < k <= x.len(),
        0 < m <= y.len(),
        x.skip(k) == y.skip(m),
    ensures
        components_from(x, k) == components_from(y, m),
    decreases x.len() - k,
{
    let tail = x.subrange(k, x.len() as int);
    assert(tail == y.subrange(m, y.len() as int));
    assert(tail.len() == x.len() - k && tail.len() == y.len() - m);
    assert forall|j: int| 0 <= j < x.len() - k implies #[trigger] x[k + j] == y[m + j] by {
        assert(tail[j] == x[k + j] && tail[j] == y[m + j]);
    }
    if k < x.len() {
        let e = part_end(x, k);
        part_end_ends(x, k);
        let f = m + (e - k);
        assert(ends_at(y, m, f)) by {
            assert forall|j: int| m <= j < f implies #[trigger] y[j] != SLASH by {
                assert(x[k + (j - m)] == y[m + (j - m)]);
                assert(x[k + (j - m)] != SLASH);
            }
            if f < y.len() {
                assert(x[k + (f - m)] == y[m + (f - m)]);
            }
        }
        part_end_is(y, m, f);
        components_step(x, k);
        components_step(y, m);
        assert(x[k + 0] == y[m + 0]);
        assert(x.subrange(k, e) =~= y.subrange(m, f)) by {
            assert forall|j: int| 0 <= j < e - k implies #[trigger] x.subrange(k, e)[j]
                == y.subrange(m, f)[j] by {
                assert(x[k + j] == y[m + j]);
            }
        }
        if e < x.len() {
            assert(x.skip(e + 1) =~= y.skip(f + 1)) by {
                assert forall|j: int| 0 <= j < x.len() - e - 1 implies #[trigger] x.skip(e + 1)[j]
                    == y.skip(f + 1)[j] by {
                    assert(x[k + (e + 1 - k + j)] == y[m + (e + 1 - k + j)]);
                }
            }
            equal_tails_have_equal_components(x, e + 1, y, f + 1);
        } else {
            assert(components_from(x, e + 1) =~= components_from(y, f + 1));
        }
    } else {
        assert(components_from(x, k) =~= components_from(y, m));
    }
}

/// The components of what starts with a directory and its slash are those of the
/// directory, and then the others.
proof fn directory_comes_first(x: Seq<u8>, dir: Seq<u8>, i: int)
    requires
        0 < dir.len() <= x.len(),
        x.take(dir.len() as int) == dir,
        dir.last() == SLASH,
        0 <= i <= dir.len(),
    ensures
        components_from(x, i) == components_from(dir, i) + components_from(x, dir.len() as int),
    decreases dir.len() - i,
{
    let k = dir.len() as int;
    assert forall|j: int| 0 <= j < k implies #[trigger] x[j] == dir[j] by {
        assert(x.take(k)[j] == x[j]);
    }
    if i < k {
        let e = part_end(dir, i);
        part_end_ends(dir, i);
        assert(e < k) by {
            if e == k {
                assert(dir[k - 1] != SLASH);
            }
        }
        assert(ends_at(x, i, e)) by {
            assert forall|j: int| i <= j < e implies #[trigger] x[j] != SLASH by {
                assert(dir[j] != SLASH);
            }
            assert(x[e] == dir[e]);
        }
        part_end_is(x, i, e);
        components_step(x, i);
        components_step(dir, i);
        directory_comes_first(x, dir, e + 1);
        assert(x[i] == dir[i]);
        assert(x.subrange(i, e) =~= dir.subrange(i, e));
        assert(components_from(x, i) =~= components_from(dir, i) + components_from(x, k));
    } else {
        assert(components_from(dir, i) =~= Seq::empty());
        assert(components_from(x, i) =~= components_from(dir, i) + components_from(x, k));
    }
}

/// A slash at the end names nothing.
proof fn trailing_slash_names_nothing(dir: Seq<u8>, i: int)
    requires
        0 <= i <= dir.len(),
    ensures
        components_from(dir.push(SLASH), i) == components_from(dir, i),
    decreases dir.len() - i,
{
    let more = dir.push(SLASH);
    if i < dir.len() {
        let e = part_end(dir, i);
        part_end_ends(dir, i);
        assert(ends_at(more, i, e)) by {
            assert forall|j: int| i <= j < e implies #[trigger] more[j] != SLASH by {
                assert(dir[j] != SLASH);
            }
        }
        part_end_is(more, i, e);
        components_step(dir, i);
        components_step(more, i);
        assert(more[i] == dir[i]);
        assert(more.subrange(i, e) =~= dir.subrange(i, e));
        if e < dir.len() {
            trailing_slash_names_nothing(dir, e + 1);
        } else {
            assert(components_from(more, e + 1) =~= components_from(dir, e + 1));
        }
    } else {
        assert(ends_at(more, i, i));
        part_end_is(more, i, i);
        components_step(more, i);
        assert(components_from(more, i) =~= components_from(dir, i));
    }
}

/// A path that is cut off behind part `m` has the components up to there.
proof fn a_prefix_has_the_first_components(raw: Seq<u8>, i: int, m: int)
    requires
        0 <= i,
        0 <= m < parts_from(raw, i).len(),
    ensures
        components_from(raw.take(parts_from(raw, i)[m].1), i) == components_from(raw, i).take(
            m + 1,
        ),
    decreases raw.len() + 1 - i,
{
    let all = parts_from(raw, i);
    let last = all[m].1;
    parts_from_are_ordered(raw, i);
    assert(all[m].0 >= i && last <= raw.len());
    let cut = raw.take(last);
    let e = part_end(raw, i);
    part_end_ends(raw, i);
    let rest = parts_from(raw, e + 1);
    parts_from_are_ordered(raw, e + 1);
    let named = !names_nothing(raw, i, e);
    // How many of the rest's parts are left in front of the cut.
    let more = if named {
        m
    } else {
        m + 1
    };
    if more > 0 {
        assert(all[m] == rest[more - 1]);
        assert(e < last);
    } else {
        assert(all[m] == (i, e));
        assert(e == last);
    }
    assert(ends_at(cut, i, e)) by {
        assert forall|j: int| i <= j < e implies #[trigger] cut[j] != SLASH by {
            assert(cut[j] == raw[j]);
            assert(raw[j] != SLASH);
        }
        if e < last {
            assert(cut[e] == raw[e]);
        }
    }
    part_end_is(cut, i, e);
    components_step(raw, i);
    components_step(cut, i);
    assert(cut[i] == raw[i]);
    assert(cut.subrange(i, e) =~= raw.subrange(i, e));
    if more > 0 {
        a_prefix_has_the_first_components(raw, e + 1, more - 1);
    } else {
        assert(components_from(cut, e + 1) =~= components_from(raw, e + 1).take(0));
    }
    assert(components_from(cut, i) =~= components_from(raw, i).take(m + 1));
}

/// What follows the last part names nothing.
proof fn ends_name_nothing(raw: Seq<u8>, i: int)
    requires
        0 <= i,
        parts_from(raw, i).len() > 0,
    ensures
        components_from(raw.take(parts_from(raw, i).last().1), i) == components_from(raw, i),
{
    let n = parts_from(raw, i).len() as int;
    a_prefix_has_the_first_components(raw, i, n - 1);
    assert(components_from(raw, i).take(n) =~= components_from(raw, i));
}

/// The parent of a path has the same components but for the last.
pub proof fn a_parent_lacks_the_last_component(raw: Seq<u8>)
    requires
        parent_of(raw) is Some,
    ensures
        components(raw).len() > 0,
        components(parent_of(raw)->0) == components(raw).drop_last(),
{
    let p = parts(raw);
    let n = p.len() as int;
    let parent = parent_of(raw)->0;
    components_are(raw);
    components_are(parent);
    parts_are_ordered(raw);
    if n == 1 {
        assert(components(parent) =~= components(raw).drop_last());
    } else {
        assert(0 <= p[n - 2].0 < p[n - 2].1 <= raw.len());
        assert(parent[0] == raw[0]);
        if is_absolute(raw) {
            let q = parts_from(raw, 1);
            if n == 2 {
                assert(p[0] == (0int, 1int));
                assert(parts_from(parent, 1) =~= Seq::<(int, int)>::empty());
                assert(components(parent) =~= components(raw).drop_last());
            } else {
                assert(p[n - 2] == q[n - 3]);
                a_prefix_has_the_first_components(raw, 1, n - 3);
                assert(components(parent) =~= components(raw).drop_last());
            }
        } else {
            a_prefix_has_the_first_components(raw, 0, n - 2);
            assert(components(parent) =~= components(raw).drop_last());
        }
    }
}

/// The top of a path is what going from parent to parent ends at.
pub proof fn the_top_is_the_last_parent(raw: Seq<u8>)
    ensures
        top_of(raw) == match parent_of(raw) {
            Some(parent) => top_of(parent),
            None => raw,
        },
{
    if parent_of(raw) is Some {
        let parent = parent_of(raw)->0;
        a_parent_lacks_the_last_component(raw);
        parts_are_ordered(raw);
        let p = parts(raw);
        let n = p.len() as int;
        assert(components(parent).len() == parts(parent).len());
        assert(components(raw).len() == n);
        if n > 1 {
            assert(0 <= p[n - 2].0 < p[n - 2].1 <= raw.len());
            assert(parent[0] == raw[0]);
            if n == 2 && is_absolute(raw) {
                assert(p[0] == (0int, 1int));
                assert(parent =~= seq![SLASH]);
            }
        }
    }
}

/// The parts from the start of part `n` on are the parts from `n` on.
proof fn parts_follow(raw: Seq<u8>, i: int, n: int)
    requires
        0 <= i,
        0 <= n < parts_from(raw, i).len(),
    ensures
        ({
            let p = parts_from(raw, i);
            let a = p[n].0;
            &&& i <= a < p[n].1 <= raw.len()
            &&& parts_from(raw, a) == p.skip(n)
            &&& p[n].1 == part_end(raw, a)
            &&& !names_nothing(raw, a, p[n].1)
            &&& a == i || raw[a - 1] == SLASH
        }),
    decreases raw.len() + 1 - i,
{
    let p = parts_from(raw, i);
    parts_from_are_ordered(raw, i);
    assert(i <= p[n].0 < p[n].1 <= raw.len());
    let e = part_end(raw, i);
    part_end_ends(raw, i);
    let rest = parts_from(raw, e + 1);
    if names_nothing(raw, i, e) {
        parts_follow(raw, e + 1, n);
    } else if n == 0 {
        assert(p.skip(0) =~= p);
    } else {
        assert(p[n] == rest[n - 1]);
        parts_follow(raw, e + 1, n - 1);
        assert(p.skip(n) =~= rest.skip(n - 1));
    }
}

/// Where an absolute path lies below a non-empty directory, what is left of it starts and
/// ends with a part, behind a slash.
proof fn rest_stands_behind_a_slash(raw: Seq<u8>, n: int)
    requires
        is_absolute(raw),
        1 <= n < parts(raw).len(),
    ensures
        ({
            let a = parts(raw)[n].0;
            let e = parts(raw).last().1;
            &&& 1 <= a < e <= raw.len()
            &&& raw[a - 1] == SLASH
            &&& raw[a] != SLASH
            &&& raw.subrange(a, e) != seq![DOT]
            &&& e == raw.len() || raw[e] == SLASH
            &&& components_from(raw.take(e), a) == components(raw).skip(n)
        }),
{
    let p = parts_from(raw, 1);
    assert(parts(raw) == seq![(0int, 1int)] + p);
    let a = p[n - 1].0;
    let e = p.last().1;
    assert(parts(raw)[n] == p[n - 1]);
    assert(parts(raw).last() == p.last());
    parts_follow(raw, 1, n - 1);
    parts_follow(raw, 1, p.len() - 1);
    parts_are_ordered(raw);
    let end = p[n - 1].1;
    part_end_ends(raw, a);
    part_end_ends(raw, p.last().0);
    assert(raw[a] != SLASH);
    assert(end <= e) by {
        if n - 1 < p.len() - 1 {
            assert(parts(raw)[n].1 <= parts(raw)[parts(raw).len() - 1].0);
        }
    }
    let rest = raw.subrange(a, e);
    if rest == seq![DOT] {
        assert(rest.len() == 1);
        assert(rest[0] == raw[a]);
        assert(end == a + 1);
        assert(false);
    }
    ends_name_nothing(raw, a);
    assert(parts_from(raw, a).last() == p.last());
    components_are(raw);
    assert(components_from(raw, a) =~= components_from(raw, 1).skip(n - 1));
    assert(components(raw).skip(n) =~= components_from(raw, 1).skip(n - 1));
}

/// What is left of an absolute path below a directory is not `.`, and leads back to the
/// path from there; where nothing is left, `.` does.
pub proof fn rejoining_gives_the_path_back(raw: Seq<u8>, base: Seq<u8>)
    requires
        is_absolute(raw),
        lies_in(raw, base),
    ensures
        ({
            let rest = below(raw, base)->0;
            &&& rest.len() == 0 <==> components(raw) == components(base)
            &&& rest != seq![DOT]
            &&& components(
                joined(
                    base,
                    if rest.len() == 0 {
                        seq![DOT]
                    } else {
                        rest
                    },
                ),
            ) == components(raw)
        }),
{
    let n = components(base).len() as int;
    let c = components(raw);
    let p = parts(raw);
    let rest = below(raw, base)->0;
    assert(c.len() == p.len());
    parts_are_ordered(raw);
    components_are(raw);
    components_are(base);
    if base.len() == 0 {
        assert(components(base) =~= Seq::empty());
        let e = p.last().1;
        assert(p[0] == (0int, 1int));
        assert(p[p.len() - 1].1 <= raw.len());
        assert(p[p.len() - 1].0 >= 0);
        assert(rest == raw.subrange(0, e));
        assert(rest =~= raw.take(e));
        assert(is_absolute(rest));
        components_are(rest);
        let q = parts_from(raw, 1);
        if q.len() > 0 {
            assert(p.last() == q.last());
            ends_name_nothing(raw, 1);
        } else {
            assert(p =~= seq![(0int, 1int)]);
            assert(components_from(rest, 1) =~= components_from(raw, 1));
        }
        assert(rest[0] == SLASH);
        assert(seq![DOT][0] == DOT);
    } else {
        assert(n > 0) by {
            if !is_absolute(base) {
                part_end_ends(base, 0);
                components_step(base, 0);
                assert(part_end(base, 0) > 0);
            }
        }
        assert(c.take(n)[0] == components(base)[0]);
        assert(c[0] == seq![SLASH]);
        assert(is_absolute(base)) by {
            if !is_absolute(base) {
                parts_are_ordered(base);
                let f = parts(base)[0];
                parts_follow(base, 0, 0);
                part_end_ends(base, f.0);
                assert(components(base)[0] == base.subrange(f.0, f.1));
                assert(base.subrange(f.0, f.1)[0] == base[f.0]);
                assert(seq![SLASH][0] == SLASH);
            }
        }
        let dir = if base.last() == SLASH {
            base
        } else {
            base.push(SLASH)
        };
        trailing_slash_names_nothing(base, 1);
        components_are(dir);
        assert(components(dir) == components(base));
        let name = if rest.len() == 0 {
            seq![DOT]
        } else {
            rest
        };
        if n < p.len() {
            rest_stands_behind_a_slash(raw, n);
            let a = p[n].0;
            let e = p.last().1;
            assert(rest.len() > 0);
            assert(rest[0] == raw[a]);
        } else {
            assert(rest.len() == 0);
            assert(c.take(n) =~= c);
            assert(seq![DOT][0] == DOT);
        }
        assert(!is_absolute(name));
        let x = joined(base, name);
        let k = dir.len() as int;
        assert(x == dir + name);
        assert(x.take(k) =~= dir);
        directory_comes_first(x, dir, 1);
        components_are(x);
        assert(components(x) =~= components(dir) + components_from(x, k));
        if n < p.len() {
            let a = p[n].0;
            let cut = raw.take(p.last().1);
            assert(x.skip(k) =~= name);
            assert(cut.skip(a) =~= name);
            equal_tails_have_equal_components(x, k, cut, a);
            assert(components(x) =~= c.take(n) + c.skip(n));
            assert(c.take(n) + c.skip(n) =~= c);
            assert(components(base).len() != c.len());
        } else {
            assert(x[k] == DOT);
            assert(ends_at(x, k, k + 1));
            part_end_is(x, k, k + 1);
            components_step(x, k);
            assert(components_from(x, k + 2) =~= Seq::empty());
            assert(components(x) =~= c);
        }
    }
}

/// What is left of a UTF-8 path below a directory is UTF-8.
pub proof fn rest_is_utf8(raw: Seq<u8>, base: Seq<u8>)
    requires
        is_absolute(raw),
        lies_in(raw, base),
        valid_utf8(raw),
    ensures
        valid_utf8(below(raw, base)->0),
{
    let n = components(base).len() as int;
    let p = parts(raw);
    assert(components(raw).len() == p.len());
    parts_are_ordered(raw);
    if n < p.len() {
        let a = p[n].0;
        let e = p.last().1;
        assert(p[p.len() - 1].1 <= raw.len());
        if n > 0 {
            rest_stands_behind_a_slash(raw, n);
        } else if p.len() > 1 {
            rest_stands_behind_a_slash(raw, p.len() - 1);
        }
        let cut = raw.subrange(0, e);
        if e == raw.len() {
            assert(cut =~= raw);
        } else if n == 0 && p.len() == 1 {
            reveal_with_fuel(valid_utf8, 2);
            assert(cut[0] == raw[0]);
            assert(vstd::utf8::pop_first_scalar(cut) =~= Seq::empty());
        } else {
            vstd::utf8::is_char_boundary_iff_not_is_continuation_byte(raw, e);
            vstd::utf8::valid_utf8_split(raw, e);
        }
        if a > 0 {
            vstd::utf8::is_char_boundary_iff_not_is_continuation_byte(cut, a - 1);
            assert(cut[a - 1] == SLASH);
            vstd::utf8::valid_utf8_split(cut, a - 1);
            let tail = cut.subrange(a - 1, cut.len() as int);
            assert(tail[0] == SLASH);
            assert(vstd::utf8::pop_first_scalar(tail) =~= raw.subrange(a, e));
        } else {
            assert(raw.subrange(a, e) =~= cut);
        }
    }
}

/// The components of the directory are the first ones of the path.
pub open spec fn starts_with_components(path: Seq<u8>, dir: Seq<u8>) -> bool {
    &&& components(dir).len() <= components(path).len()
    &&& forall|i: int|
        0 <= i < components(dir).len() ==> components(path)[i] == #[trigger] components(dir)[i]
}

/// A path lies in a directory exactly where it starts with its components.
pub proof fn starting_means_lying_in(path: Seq<u8>, dir: Seq<u8>)
    ensures
        starts_with_components(path, dir) == lies_in(path, dir),
{
    let c = components(path);
    let b = components(dir);
    if b.len() <= c.len() {
        if starts_with_components(path, dir) {
            assert(c.take(b.len() as int) =~= b);
        }
        if c.take(b.len() as int) == b {
            assert forall|i: int| 0 <= i < b.len() implies c[i] == #[trigger] b[i] by {
                assert(c.take(b.len() as int)[i] == c[i]);
            }
        }
    }
}

/// A name inside a directory is one component more.
pub proof fn a_name_is_one_component_more(dir: Seq<u8>, name: Seq<u8>)
    requires
        dir.len() > 0,
        name.len() > 0,
        name != seq![DOT],
        forall|i: int| 0 <= i < name.len() ==> #[trigger] name[i] != SLASH,
    ensures
        components(dir.push(SLASH) + name) == components(dir).push(name),
        starts_with_components(dir.push(SLASH) + name, dir),
        !starts_with_components(dir, dir.push(SLASH) + name),
        name != seq![DOT, DOT] ==> name_of(dir.push(SLASH) + name) == Some(name),
{
    let base = dir.push(SLASH);
    let whole = base + name;
    let k = base.len() as int;
    assert(whole.take(k) =~= base);
    assert(whole[0] == dir[0] && base[0] == dir[0]);
    let start: int = if is_absolute(dir) {
        1
    } else {
        0
    };
    directory_comes_first(whole, base, start);
    trailing_slash_names_nothing(dir, start);
    components_are(dir);
    components_are(whole);
    assert(ends_at(whole, k, whole.len() as int)) by {
        assert forall|j: int| k <= j < whole.len() implies #[trigger] whole[j] != SLASH by {
            assert(whole[j] == name[j - k]);
        }
    }
    part_end_is(whole, k, whole.len() as int);
    components_step(whole, k);
    assert(whole.subrange(k, whole.len() as int) =~= name);
    if name.len() == 1 {
        assert(whole[k] == name[0]);
        if name[0] == DOT {
            assert(name =~= seq![DOT]);
        }
    }
    assert(!names_nothing(whole, k, whole.len() as int));
    assert(components_from(whole, whole.len() as int + 1) =~= Seq::empty());
    assert(components_from(whole, k) =~= seq![name]);
    assert(components(whole) =~= components(dir).push(name));
    if name == seq![SLASH] {
        assert(name[0] == SLASH);
    }
}

/// What follows the last dot of a name is its extension, unless the name starts there.
pub proof fn an_extension_follows_the_last_dot(dir: Seq<u8>, stem: Seq<u8>, ext: Seq<u8>)
    requires
        dir.len() > 0,
        stem.len() > 0,
        stem.len() > 1 || ext.len() > 0,
        forall|i: int| 0 <= i < stem.len() ==> #[trigger] stem[i] != SLASH,
        forall|i: int| 0 <= i < ext.len() ==> #[trigger] ext[i] != SLASH && ext[i] != DOT,
    ensures
        extension_of(dir.push(SLASH) + (stem.push(DOT) + ext)) == Some(ext),
{
    let name = stem.push(DOT) + ext;
    assert forall|i: int| 0 <= i < name.len() implies #[trigger] name[i] != SLASH by {
        if i < stem.len() {
            assert(name[i] == stem[i]);
        } else if i > stem.len() {
            assert(name[i] == ext[i - stem.len() - 1]);
        }
    }
    if name == seq![DOT] {
        assert(name.len() == 1);
    }
    if name == seq![DOT, DOT] {
        assert(name.len() == 2);
        assert(stem.len() == 1 ==> ext.len() == 0);
    }
    a_name_is_one_component_more(dir, name);
    last_dot_is(name, stem.len() as int);
    assert(name.subrange(stem.len() as int + 1, name.len() as int) =~= ext);
}

proof fn last_dot_is(name: Seq<u8>, at: int)
    requires
        0 <= at < name.len(),
        name[at] == DOT,
        forall|i: int| at < i < name.len() ==> #[trigger] name[i] != DOT,
    ensures
        last_dot(name) == at,
    decreases name.len(),
{
    if at < name.len() - 1 {
        assert(name.last() == name[name.len() - 1]);
        let rest = name.drop_last();
        assert forall|i: int| at < i < rest.len() implies #[trigger] rest[i] != DOT by {
            assert(name[i] != DOT);
        }
        last_dot_is(rest, at);
    }
}

/// A name without a dot, or with its only dot in front, has no extension.
pub proof fn a_bare_name_has_no_extension(dir: Seq<u8>, name: Seq<u8>)
    requires
        dir.len() > 0,
        name.len() > 0,
        name != seq![DOT],
        forall|i: int| 0 <= i < name.len() ==> #[trigger] name[i] != SLASH,
        forall|i: int| 0 < i < name.len() ==> #[trigger] name[i] != DOT,
    ensures
        extension_of(dir.push(SLASH) + name) is None,
{
    a_name_is_one_component_more(dir, name);
    no_dot_behind_the_first(name);
}

proof fn no_dot_behind_the_first(name: Seq<u8>)
    requires
        forall|i: int| 0 < i < name.len() ==> #[trigger] name[i] != DOT,
    ensures
        last_dot(name) <= 0,
    decreases name.len(),
{
    if name.len() > 0 {
        assert(name.last() == name[name.len() - 1]);
        let rest = name.drop_last();
        assert forall|i: int| 0 < i < rest.len() implies #[trigger] rest[i] != DOT by {
            assert(name[i] != DOT);
        }
        no_dot_behind_the_first(rest);
    }
}

/// A path that is shown goes by its name.
pub proof fn a_path_is_shown_by_its_name(dir: Seq<u8>, name: Seq<u8>)
    requires
        dir.len() > 0,
        name.len() > 0,
        name != seq![DOT],
        name != seq![DOT, DOT],
        forall|i: int| 0 <= i < name.len() ==> #[trigger] name[i] != SLASH,
    ensures
        shown_name(dir.push(SLASH) + name) == displayed(name),
        valid_utf8(name) ==> shown_name(dir.push(SLASH) + name) == decode_utf8(name),
{
    a_name_is_one_component_more(dir, name);
}

/// Paths are ordered by their first different component, and a directory comes before what
/// lies in it.
pub proof fn paths_are_ordered_by_their_first_difference(a: Seq<u8>, b: Seq<u8>, k: int)
    requires
        0 <= k <= components(a).len(),
        k < components(b).len(),
        components(a).take(k) == components(b).take(k),
    ensures
        k == components(a).len() ==> key_less(path_key(a), path_key(b)),
        k < components(a).len() && components(a)[k] != components(b)[k] ==> (key_less(
            path_key(a),
            path_key(b),
        ) <==> component_before(components(a)[k], components(b)[k])),
{
    path_keys_order_components(components(a), components(b));
    the_first_difference_decides(components(a), components(b), k);
}

proof fn the_first_difference_decides(c: Seq<Seq<u8>>, d: Seq<Seq<u8>>, k: int)
    requires
        0 <= k <= c.len(),
        k < d.len(),
        c.take(k) == d.take(k),
    ensures
        k == c.len() ==> components_before(c, d),
        k < c.len() && c[k] != d[k] ==> (components_before(c, d) <==> component_before(c[k], d[k])),
    decreases k,
{
    if k > 0 {
        assert(c.take(k)[0] == c[0] && d.take(k)[0] == d[0]);
        assert(c.drop_first().take(k - 1) =~= c.take(k).drop_first());
        assert(d.drop_first().take(k - 1) =~= d.take(k).drop_first());
        the_first_difference_decides(c.drop_first(), d.drop_first(), k - 1);
        key_less_irreflexive(wide(c[0]));
    }
}

/// Names are ordered by their first different byte, and a name comes before a longer one
/// that starts with it. The root, `.` and `..` come before every name.
pub proof fn names_are_ordered_by_their_bytes(a: Seq<u8>, b: Seq<u8>, k: int)
    requires
        a != seq![SLASH] && a != seq![DOT] && a != seq![DOT, DOT],
        b != seq![SLASH] && b != seq![DOT] && b != seq![DOT, DOT],
        0 <= k <= a.len(),
        k < b.len(),
        a.take(k) == b.take(k),
    ensures
        k == a.len() ==> component_before(a, b),
        k < a.len() && a[k] != b[k] ==> (component_before(a, b) <==> a[k] < b[k]),
        component_before(seq![SLASH], seq![DOT]),
        component_before(seq![DOT], seq![DOT, DOT]),
        component_before(seq![DOT, DOT], a),
{
    assert forall|j: int| 0 <= j < k implies a[j] == b[j] by {
        assert(a.take(k)[j] == a[j] && b.take(k)[j] == b[j]);
    }
    if k == a.len() || a[k] < b[k] {
        assert(smaller_at(wide(a), wide(b), k));
    } else if a[k] != b[k] {
        if key_less(wide(a), wide(b)) {
            let i = choose|i: int| smaller_at(wide(a), wide(b), i);
            if i < k {
                assert(wide(a)[i] == a[i] as u64 && wide(b)[i] == b[i] as u64);
            } else if i > k {
                assert(wide(a)[k] == wide(b)[k]);
            }
            assert(wide(a)[k] == a[k] as u64 && wide(b)[k] == b[k] as u64);
        }
    }
    assert(seq![SLASH][0] == SLASH && seq![DOT][0] == DOT && seq![DOT, DOT].len() == 2);
}

} // verus!
