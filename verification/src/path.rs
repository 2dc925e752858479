//! File paths as raw bytes.
//!
//! A path is whatever bytes the file system gave out; it need not be UTF-8. Its
//! parts are separated by slashes. Repeated slashes, a trailing slash and `.`
//! anywhere but at the very start name nothing.

pub mod laws;

use crate::order::{
    key_less, key_less_headed, key_less_irreflexive, key_less_total, smaller_at, terminated,
    terminated_decides,
};
use crate::text::{displayed, lossy_text, utf8_text};
use vstd::prelude::*;

verus! {

/// A path of the file system.
#[derive(Debug)]
pub struct FilePath {
    pub raw: Vec<u8>,
}

impl View for FilePath {
    type V = Seq<u8>;

    open spec fn view(&self) -> Seq<u8> {
        self.raw@
    }
}

/// The byte that separates parts.
pub const SLASH: u8 = 47;

/// The byte that sets off an extension.
pub const DOT: u8 = 46;

/// Where the part that `i` stands in ends.
pub open spec fn part_end(raw: Seq<u8>, i: int) -> int
    decreases raw.len() - i,
{
    if i >= raw.len() {
        raw.len() as int
    } else if raw[i] == SLASH {
        i
    } else {
        part_end(raw, i + 1)
    }
}

/// A part ends where it starts or later, inside the path.
pub proof fn part_end_bounds(raw: Seq<u8>, i: int)
    requires
        0 <= i <= raw.len(),
    ensures
        i <= part_end(raw, i) <= raw.len(),
    decreases raw.len() - i,
{
    if i < raw.len() && raw[i] != SLASH {
        part_end_bounds(raw, i + 1);
    }
}

/// Nothing is named between these two positions.
pub open spec fn names_nothing(raw: Seq<u8>, from: int, to: int) -> bool {
    from == to || (from > 0 && to == from + 1 && raw[from] == DOT)
}

/// The parts from position `i` on, as pairs of start and end.
pub open spec fn parts_from(raw: Seq<u8>, i: int) -> Seq<(int, int)>
    decreases raw.len() + 1 - i,
{
    if i < 0 || i >= raw.len() {
        Seq::empty()
    } else {
        proof {
            part_end_bounds(raw, i);
        }
        let end = part_end(raw, i);
        let rest = parts_from(raw, end + 1);
        if names_nothing(raw, i, end) {
            rest
        } else {
            seq![(i, end)] + rest
        }
    }
}

/// The path starts at the root.
pub open spec fn is_absolute(raw: Seq<u8>) -> bool {
    raw.len() > 0 && raw[0] == SLASH
}

/// The parts of a path as pairs of start and end; the root is the leading slash.
pub open spec fn parts(raw: Seq<u8>) -> Seq<(int, int)> {
    if is_absolute(raw) {
        seq![(0int, 1int)] + parts_from(raw, 1)
    } else {
        parts_from(raw, 0)
    }
}

/// The parts of a path. Two paths with the same components name the same file.
pub open spec fn components(raw: Seq<u8>) -> Seq<Seq<u8>> {
    parts(raw).map_values(|p: (int, int)| raw.subrange(p.0, p.1))
}

/// A component that is a name, and neither the root, `.` nor `..`.
pub open spec fn is_name(component: Seq<u8>) -> bool {
    component != seq![SLASH] && component != seq![DOT] && component != seq![DOT, DOT]
}

/// The last component, where it is a name.
pub open spec fn name_of(raw: Seq<u8>) -> Option<Seq<u8>> {
    let c = components(raw);
    if c.len() > 0 && is_name(c.last()) {
        Some(c.last())
    } else {
        None
    }
}

/// The path without its last component. The root has no parent, and neither has
/// the empty path.
pub open spec fn parent_of(raw: Seq<u8>) -> Option<Seq<u8>> {
    let p = parts(raw);
    if p.len() == 0 || (p.len() == 1 && is_absolute(raw)) {
        None
    } else if p.len() == 1 {
        Some(Seq::empty())
    } else {
        Some(raw.take(p[p.len() - 2].1))
    }
}

/// Where the last dot stands, or -1.
pub open spec fn last_dot(name: Seq<u8>) -> int
    decreases name.len(),
{
    if name.len() == 0 {
        -1
    } else if name.last() == DOT {
        name.len() - 1
    } else {
        last_dot(name.drop_last())
    }
}

/// What follows the last dot of the name, unless the name starts there.
pub open spec fn extension_of(raw: Seq<u8>) -> Option<Seq<u8>> {
    match name_of(raw) {
        Some(name) => if last_dot(name) > 0 {
            Some(name.subrange(last_dot(name) + 1, name.len() as int))
        } else {
            None
        },
        None => None,
    }
}

/// `name` inside the directory `dir`. An absolute `name` stands for itself.
pub open spec fn joined(dir: Seq<u8>, name: Seq<u8>) -> Seq<u8> {
    if is_absolute(name) {
        name
    } else if dir.len() == 0 || dir.last() == SLASH {
        dir + name
    } else {
        dir.push(SLASH) + name
    }
}

/// `raw` is `base` or lies below it.
pub open spec fn lies_in(raw: Seq<u8>, base: Seq<u8>) -> bool {
    let c = components(raw);
    let b = components(base);
    b.len() <= c.len() && c.take(b.len() as int) == b
}

/// The rest of `raw` below `base`.
pub open spec fn below(raw: Seq<u8>, base: Seq<u8>) -> Option<Seq<u8>> {
    let n = components(base).len() as int;
    let p = parts(raw);
    if !lies_in(raw, base) {
        None
    } else if n == p.len() {
        Some(Seq::empty())
    } else {
        Some(raw.subrange(p[n].0, p.last().1))
    }
}

/// The last path that is reached by going from a path to its parent again and again:
/// the root, or the empty path. A path that names only the root stays as it is spelled.
pub open spec fn top_of(raw: Seq<u8>) -> Seq<u8> {
    if parent_of(raw) is None {
        raw
    } else if is_absolute(raw) {
        seq![SLASH]
    } else {
        Seq::empty()
    }
}

/// How a component ranks among others: the root, `.`, `..`, then names.
pub open spec fn component_rank(c: Seq<u8>) -> u64 {
    if c == seq![SLASH] {
        1
    } else if c == seq![DOT] {
        2
    } else if c == seq![DOT, DOT] {
        3
    } else {
        4
    }
}

/// The sort key of one component: its rank, its bytes, and a zero below them.
pub open spec fn component_key(c: Seq<u8>) -> Seq<u64> {
    (seq![component_rank(c)] + Seq::new(c.len(), |i: int| (c[i] + 1) as u64)).push(0)
}

/// The sort key of a list of components.
pub open spec fn components_key(c: Seq<Seq<u8>>) -> Seq<u64>
    decreases c.len(),
{
    if c.len() == 0 {
        Seq::empty()
    } else {
        components_key(c.drop_last()) + component_key(c.last())
    }
}

/// The sort key of a path: paths are ordered component by component.
pub open spec fn path_key(raw: Seq<u8>) -> Seq<u64> {
    components_key(components(raw))
}

/// The name to show for a path: its file name, or the whole path without one.
pub open spec fn shown_name(raw: Seq<u8>) -> Seq<char> {
    match name_of(raw) {
        Some(name) => displayed(name),
        None => displayed(raw),
    }
}

/// The parts lie inside the path, are not empty, and follow one another.
pub proof fn parts_are_ordered(raw: Seq<u8>)
    ensures
        forall|i: int|
            0 <= i < parts(raw).len() ==> 0 <= (#[trigger] parts(raw)[i]).0 < parts(raw)[i].1
                <= raw.len(),
        forall|i: int, j: int|
            0 <= i < j < parts(raw).len() ==> (#[trigger] parts(raw)[i]).1 <= (
            #[trigger] parts(raw)[j]).0,
        is_absolute(raw) ==> parts(raw).len() > 0 && parts(raw)[0] == (0int, 1int),
{
    if is_absolute(raw) {
        parts_from_are_ordered(raw, 1);
    } else {
        parts_from_are_ordered(raw, 0);
    }
}

proof fn parts_from_are_ordered(raw: Seq<u8>, at: int)
    requires
        0 <= at,
    ensures
        forall|i: int|
            0 <= i < parts_from(raw, at).len() ==> at <= (#[trigger] parts_from(raw, at)[i]).0
                < parts_from(raw, at)[i].1 <= raw.len(),
        forall|i: int, j: int|
            0 <= i < j < parts_from(raw, at).len() ==> (#[trigger] parts_from(raw, at)[i]).1 <= (
            #[trigger] parts_from(raw, at)[j]).0,
    decreases raw.len() + 1 - at,
{
    if at < raw.len() {
        part_end_bounds(raw, at);
        let end = part_end(raw, at);
        let rest = parts_from(raw, end + 1);
        parts_from_are_ordered(raw, end + 1);
        if !names_nothing(raw, at, end) {
            let all = parts_from(raw, at);
            assert(all == seq![(at, end)] + rest);
            assert forall|i: int| 0 <= i < all.len() implies at <= (#[trigger] all[i]).0
                < all[i].1 <= raw.len() by {
                if i > 0 {
                    assert(all[i] == rest[i - 1]);
                }
            }
            assert forall|i: int, j: int| 0 <= i < j < all.len() implies (#[trigger] all[i]).1 <= (
            #[trigger] all[j]).0 by {
                assert(all[j] == rest[j - 1]);
                if i > 0 {
                    assert(all[i] == rest[i - 1]);
                }
            }
        }
    }
}

/// Start and end of one part.
#[derive(Clone, Copy)]
struct Part {
    from: usize,
    to: usize,
}

spec fn part_pairs(list: Seq<Part>) -> Seq<(int, int)> {
    list.map_values(|p: Part| (p.from as int, p.to as int))
}

fn parts_of(raw: &Vec<u8>) -> (out: Vec<Part>)
    ensures
        part_pairs(out@) == parts(raw@),
{
    let mut out: Vec<Part> = Vec::new();
    let mut at: usize = 0;
    if raw.len() > 0 && raw[0] == SLASH {
        out.push(Part { from: 0, to: 1 });
        at = 1;
    }
    assert(part_pairs(out@) + parts_from(raw@, at as int) =~= parts(raw@));
    while at < raw.len()
        invariant
            part_pairs(out@) + parts_from(raw@, at as int) == parts(raw@),
        decreases raw@.len() - at,
    {
        let from: usize = at;
        while at < raw.len() && raw[at] != SLASH
            invariant
                from <= at <= raw@.len(),
                part_end(raw@, from as int) == part_end(raw@, at as int),
            decreases raw@.len() - at,
        {
            at += 1;
        }
        assert(part_end(raw@, from as int) == at);
        let ghost rest = parts_from(raw@, at + 1);
        let ghost before = part_pairs(out@);
        if !(from == at || (from > 0 && at - from == 1 && raw[from] == DOT)) {
            out.push(Part { from, to: at });
            assert(part_pairs(out@) =~= before.push((from as int, at as int)));
            assert(before + (seq![(from as int, at as int)] + rest) =~= part_pairs(out@) + rest);
        }
        if at < raw.len() {
            at += 1;
        } else {
            assert(parts_from(raw@, at + 1) =~= parts_from(raw@, at as int));
        }
    }
    assert(parts_from(raw@, at as int) =~= Seq::<(int, int)>::empty());
    assert(part_pairs(out@) =~= parts(raw@));
    out
}

/// The bytes `from..to`.
fn bytes_between(raw: &Vec<u8>, from: usize, to: usize) -> (out: Vec<u8>)
    requires
        from <= to <= raw@.len(),
    ensures
        out@ == raw@.subrange(from as int, to as int),
{
    let mut out: Vec<u8> = Vec::new();
    let mut i: usize = from;
    while i < to
        invariant
            from <= i <= to <= raw@.len(),
            out@ == raw@.subrange(from as int, i as int),
        decreases to - i,
    {
        out.push(raw[i]);
        i += 1;
    }
    out
}

fn same_bytes(a: &Vec<u8>, p: Part, b: &Vec<u8>, q: Part) -> (same: bool)
    requires
        p.from <= p.to <= a@.len(),
        q.from <= q.to <= b@.len(),
    ensures
        same == (a@.subrange(p.from as int, p.to as int) == b@.subrange(q.from as int, q.to as int)),
{
    let ghost x = a@.subrange(p.from as int, p.to as int);
    let ghost y = b@.subrange(q.from as int, q.to as int);
    let n: usize = p.to - p.from;
    if n != q.to - q.from {
        assert(x.len() != y.len());
        return false;
    }
    let mut i: usize = 0;
    while i < n
        invariant
            x == a@.subrange(p.from as int, p.to as int),
            y == b@.subrange(q.from as int, q.to as int),
            p.from <= p.to <= a@.len(),
            q.from <= q.to <= b@.len(),
            n == p.to - p.from == q.to - q.from,
            i <= n,
            forall|j: int| 0 <= j < i ==> x[j] == y[j],
        decreases n - i,
    {
        if a[p.from + i] != b[q.from + i] {
            assert(x[i as int] != y[i as int]);
            return false;
        }
        i += 1;
    }
    assert(x =~= y);
    true
}

/// Whether a part is a name, and neither the root, `.` nor `..`.
fn part_is_name(raw: &Vec<u8>, p: Part) -> (b: bool)
    requires
        p.from < p.to <= raw@.len(),
    ensures
        b == is_name(raw@.subrange(p.from as int, p.to as int)),
{
    let ghost c = raw@.subrange(p.from as int, p.to as int);
    let n: usize = p.to - p.from;
    let first: u8 = raw[p.from];
    let special: bool = if n == 1 {
        first == SLASH || first == DOT
    } else {
        n == 2 && first == DOT && raw[p.from + 1] == DOT
    };
    proof {
        if special {
            if n == 1 {
                assert(c =~= seq![first]);
            } else {
                assert(c =~= seq![DOT, DOT]);
            }
        } else {
            assert(c.len() == n && c[0] == first);
            assert(seq![SLASH].len() == 1 && seq![DOT].len() == 1 && seq![DOT, DOT].len() == 2);
            if n == 2 {
                assert(c[1] == raw@[p.from + 1]);
            }
            assert(seq![SLASH][0] == SLASH && seq![DOT][0] == DOT);
            assert(seq![DOT, DOT][1] == DOT && seq![DOT, DOT][0] == DOT);
        }
    }
    !special
}

impl Clone for FilePath {
    fn clone(&self) -> (r: Self)
        ensures
            r@ == self@,
    {
        let raw = bytes_between(&self.raw, 0, self.raw.len());
        assert(raw@ =~= self.raw@);
        FilePath { raw }
    }
}

impl PartialEq for FilePath {
    /// Whether both paths name the same file.
    fn eq(&self, other: &Self) -> (same: bool) {
        self.same_as(other)
    }
}

impl vstd::std_specs::cmp::PartialEqSpecImpl for FilePath {
    open spec fn obeys_eq_spec() -> bool {
        true
    }

    open spec fn eq_spec(&self, other: &Self) -> bool {
        components(self@) == components(other@)
    }
}

impl Eq for FilePath {

}

impl FilePath {
    /// The path with these bytes.
    pub fn from_bytes(raw: Vec<u8>) -> (p: Self)
        ensures
            p@ == raw@,
    {
        FilePath { raw }
    }

    /// The path that the UTF-8 encoding of `text` names.
    pub fn from_text(text: &str) -> (p: Self)
        ensures
            p@ == vstd::utf8::encode_utf8(text@),
    {
        let bytes = text.as_bytes();
        let mut raw: Vec<u8> = Vec::new();
        let mut i: usize = 0;
        while i < bytes.len()
            invariant
                i <= bytes@.len(),
                raw@ == bytes@.take(i as int),
            decreases bytes@.len() - i,
        {
            raw.push(bytes[i]);
            i += 1;
        }
        assert(raw@ =~= bytes@);
        FilePath { raw }
    }

    /// The whole path as text for display.
    pub fn display(&self) -> (r: String)
        ensures
            r@ == displayed(self@),
    {
        lossy_text(self.raw.as_slice())
    }

    /// How many bytes the path has.
    pub fn byte_len(&self) -> (n: usize)
        ensures
            n == self@.len(),
    {
        self.raw.len()
    }

    /// The name for display: the file name, or the whole path without one.
    pub fn name_text(&self) -> (r: String)
        ensures
            r@ == shown_name(self@),
    {
        match self.file_name() {
            Some(name) => lossy_text(name.as_slice()),
            None => self.display(),
        }
    }

    /// The last component, where it is a name.
    pub fn file_name(&self) -> (r: Option<Vec<u8>>)
        ensures
            r is Some <==> name_of(self@) is Some,
            r is Some ==> r->0@ == name_of(self@)->0,
    {
        let list = parts_of(&self.raw);
        proof {
            parts_are_ordered(self@);
            assert(components(self@).len() == list@.len());
        }
        if list.len() == 0 {
            return None;
        }
        let p = list[list.len() - 1];
        assert(part_pairs(list@)[list@.len() - 1] == parts(self@)[list@.len() - 1]);
        assert(components(self@).last() == self@.subrange(p.from as int, p.to as int));
        if part_is_name(&self.raw, p) {
            Some(bytes_between(&self.raw, p.from, p.to))
        } else {
            None
        }
    }

    /// The path without its last component.
    pub fn parent(&self) -> (r: Option<FilePath>)
        ensures
            r is Some <==> parent_of(self@) is Some,
            r is Some ==> r->0@ == parent_of(self@)->0,
    {
        let list = parts_of(&self.raw);
        assert(parts(self@).len() == list@.len());
        let n: usize = list.len();
        if n == 0 || (n == 1 && self.raw[0] == SLASH) {
            proof {
                if n == 1 {
                    parts_are_ordered(self@);
                }
            }
            return None;
        }
        proof {
            parts_are_ordered(self@);
            assert(part_pairs(list@)[n - 1] == parts(self@)[n - 1]);
        }
        if n == 1 {
            return Some(FilePath { raw: Vec::new() });
        }
        let p = list[n - 2];
        assert(part_pairs(list@)[n - 2] == parts(self@)[n - 2]);
        Some(FilePath { raw: bytes_between(&self.raw, 0, p.to) })
    }

    /// The extension, where there is one and it is UTF-8.
    pub fn extension(&self) -> (r: Option<String>)
        ensures
            r is Some <==> (extension_of(self@) is Some && vstd::utf8::valid_utf8(
                extension_of(self@)->0,
            )),
            r is Some ==> r->0@ == vstd::utf8::decode_utf8(extension_of(self@)->0),
    {
        match self.file_name() {
            None => None,
            Some(name) => {
                let mut at: usize = name.len();
                assert(name@.take(at as int) =~= name@);
                while at > 0 && name[at - 1] != DOT
                    invariant
                        at <= name@.len(),
                        last_dot(name@.take(at as int)) == last_dot(name@),
                    decreases at,
                {
                    assert(name@.take(at as int).drop_last() =~= name@.take(at - 1));
                    at -= 1;
                }
                assert(last_dot(name@) == at - 1);
                if at <= 1 {
                    return None;
                }
                let ext = bytes_between(&name, at, name.len());
                utf8_text(ext.as_slice())
            },
        }
    }

    /// `name` inside this directory.
    pub fn join(&self, name: &FilePath) -> (r: FilePath)
        ensures
            r@ == joined(self@, name@),
    {
        if name.raw.len() > 0 && name.raw[0] == SLASH {
            return name.clone();
        }
        let mut r = self.clone();
        if r.raw.len() > 0 && r.raw[r.raw.len() - 1] != SLASH {
            r.raw.push(SLASH);
        }
        let mut i: usize = 0;
        let ghost head = r.raw@;
        while i < name.raw.len()
            invariant
                i <= name@.len(),
                r.raw@ == head + name@.take(i as int),
            decreases name@.len() - i,
        {
            r.raw.push(name.raw[i]);
            i += 1;
        }
        assert(r@ =~= head + name@);
        r
    }

    /// Whether this path is `base` or lies below it.
    pub fn starts_with(&self, base: &FilePath) -> (b: bool)
        ensures
            b == lies_in(self@, base@),
    {
        let list = parts_of(&self.raw);
        let under = parts_of(&base.raw);
        self.has_parts(&list, base, &under)
    }

    fn has_parts(&self, list: &Vec<Part>, base: &FilePath, under: &Vec<Part>) -> (b: bool)
        requires
            part_pairs(list@) == parts(self@),
            part_pairs(under@) == parts(base@),
        ensures
            b == lies_in(self@, base@),
    {
        let ghost c = components(self@);
        let ghost d = components(base@);
        proof {
            parts_are_ordered(self@);
            parts_are_ordered(base@);
            assert(c.len() == list@.len());
            assert(d.len() == under@.len());
        }
        if under.len() > list.len() {
            return false;
        }
        let mut i: usize = 0;
        while i < under.len()
            invariant
                part_pairs(list@) == parts(self@),
                part_pairs(under@) == parts(base@),
                c == components(self@),
                d == components(base@),
                c.len() == list@.len(),
                d.len() == under@.len(),
                under@.len() <= list@.len(),
                i <= under@.len(),
                forall|j: int| 0 <= j < i ==> c[j] == d[j],
            decreases under@.len() - i,
        {
            proof {
                parts_are_ordered(self@);
                parts_are_ordered(base@);
                assert(part_pairs(list@)[i as int] == parts(self@)[i as int]);
                assert(part_pairs(under@)[i as int] == parts(base@)[i as int]);
            }
            if !same_bytes(&self.raw, list[i], &base.raw, under[i]) {
                assert(c.take(d.len() as int)[i as int] != d[i as int]);
                return false;
            }
            i += 1;
        }
        assert(c.take(d.len() as int) =~= d);
        true
    }

    /// The rest of this path below `base`.
    pub fn strip_prefix(&self, base: &FilePath) -> (r: Option<FilePath>)
        ensures
            r is Some <==> below(self@, base@) is Some,
            r is Some ==> r->0@ == below(self@, base@)->0,
    {
        let list = parts_of(&self.raw);
        let under = parts_of(&base.raw);
        if !self.has_parts(&list, base, &under) {
            return None;
        }
        let n: usize = under.len();
        proof {
            parts_are_ordered(self@);
            assert(parts(self@).len() == list@.len());
            assert(components(base@).len() == n);
            assert(components(self@).len() == list@.len());
        }
        if n == list.len() {
            return Some(FilePath { raw: Vec::new() });
        }
        let p = list[n];
        let q = list[list.len() - 1];
        proof {
            assert(part_pairs(list@)[n as int] == parts(self@)[n as int]);
            assert(part_pairs(list@)[list@.len() - 1] == parts(self@)[list@.len() - 1]);
        }
        Some(FilePath { raw: bytes_between(&self.raw, p.from, q.to) })
    }

    /// Whether both paths name the same file.
    pub fn same_as(&self, other: &FilePath) -> (b: bool)
        ensures
            b == (components(self@) == components(other@)),
    {
        let list = parts_of(&self.raw);
        let theirs = parts_of(&other.raw);
        assert(components(self@).len() == list@.len());
        assert(components(other@).len() == theirs@.len());
        if list.len() != theirs.len() {
            return false;
        }
        let b = self.has_parts(&list, other, &theirs);
        assert(components(self@).take(list@.len() as int) =~= components(self@));
        b
    }

    /// The topmost directory above this path.
    pub fn top(&self) -> (r: FilePath)
        ensures
            r@ == top_of(self@),
    {
        let list = parts_of(&self.raw);
        assert(parts(self@).len() == list@.len());
        let absolute: bool = self.raw.len() > 0 && self.raw[0] == SLASH;
        if list.len() == 0 || (list.len() == 1 && absolute) {
            return self.clone();
        }
        let mut raw: Vec<u8> = Vec::new();
        if absolute {
            raw.push(SLASH);
            assert(raw@ =~= seq![SLASH]);
        }
        FilePath { raw }
    }

    /// The sort key of this path.
    pub fn sort_key(&self) -> (key: Vec<u64>)
        ensures
            key@ == path_key(self@),
    {
        let list = parts_of(&self.raw);
        let ghost c = components(self@);
        assert(c.len() == list@.len());
        let mut key: Vec<u64> = Vec::new();
        let mut i: usize = 0;
        while i < list.len()
            invariant
                part_pairs(list@) == parts(self@),
                c == components(self@),
                c.len() == list@.len(),
                i <= list@.len(),
                key@ == components_key(c.take(i as int)),
            decreases list@.len() - i,
        {
            proof {
                parts_are_ordered(self@);
                assert(part_pairs(list@)[i as int] == parts(self@)[i as int]);
                assert(c[i as int] == self@.subrange(list@[i as int].from as int, list@[i as int].to as int));
                assert(c.take(i + 1).drop_last() =~= c.take(i as int));
                assert(c.take(i + 1).last() == c[i as int]);
            }
            self.push_component_key(&mut key, list[i]);
            i += 1;
        }
        assert(c.take(list@.len() as int) =~= c);
        key
    }

    fn push_component_key(&self, key: &mut Vec<u64>, p: Part)
        requires
            p.from < p.to <= self@.len(),
        ensures
            final(key)@ == old(key)@ + component_key(self@.subrange(p.from as int, p.to as int)),
    {
        let ghost c = self@.subrange(p.from as int, p.to as int);
        let ghost head = key@;
        let rank: u64 = if part_is_name(&self.raw, p) {
            4
        } else if p.to - p.from == 2 {
            3
        } else if self.raw[p.from] == DOT {
            2
        } else {
            1
        };
        proof {
            assert(c[0] == self@[p.from as int]);
            assert(seq![SLASH][0] == SLASH && seq![DOT][0] == DOT);
            assert(seq![SLASH].len() == 1 && seq![DOT].len() == 1 && seq![DOT, DOT].len() == 2);
            assert(rank == component_rank(c));
        }
        key.push(rank);
        let mut i: usize = p.from;
        while i < p.to
            invariant
                p.from <= i <= p.to <= self@.len(),
                c == self@.subrange(p.from as int, p.to as int),
                key@ == head.push(rank) + Seq::new((i - p.from) as nat, |j: int| (c[j] + 1) as u64),
            decreases p.to - i,
        {
            key.push(self.raw[i] as u64 + 1);
            i += 1;
            assert(key@ =~= head.push(rank) + Seq::new(
                (i - p.from) as nat,
                |j: int| (c[j] + 1) as u64,
            ));
        }
        key.push(0);
        assert(key@ =~= head + component_key(c));
    }
}

/// What the parts of a list of paths name.
pub open spec fn paths_in(list: Seq<FilePath>) -> Seq<Seq<u8>> {
    list.map_values(|p: FilePath| p@)
}

/// A list with the same paths.
pub fn copied_paths(list: &Vec<FilePath>) -> (out: Vec<FilePath>)
    ensures
        paths_in(out@) == paths_in(list@),
{
    let mut out: Vec<FilePath> = Vec::new();
    let mut i: usize = 0;
    while i < list.len()
        invariant
            i <= list@.len(),
            out@.len() == i,
            forall|j: int| 0 <= j < i ==> #[trigger] out@[j]@ == list@[j]@,
        decreases list@.len() - i,
    {
        out.push(list[i].clone());
        i += 1;
    }
    assert(paths_in(out@) =~= paths_in(list@));
    out
}

/// Whether some path of the list names the same file as `path`.
pub open spec fn lists_path(list: Seq<FilePath>, path: Seq<u8>) -> bool {
    exists|i: int| 0 <= i < list.len() && components((#[trigger] list[i])@) == components(path)
}

/// Whether some path of the list names the same file as `path`.
pub fn is_listed(list: &Vec<FilePath>, path: &FilePath) -> (found: bool)
    ensures
        found == lists_path(list@, path@),
{
    let mut i: usize = 0;
    while i < list.len()
        invariant
            i <= list@.len(),
            forall|j: int| 0 <= j < i ==> components((#[trigger] list@[j])@) != components(path@),
        decreases list@.len() - i,
    {
        if list[i].same_as(path) {
            return true;
        }
        i += 1;
    }
    false
}

/// Bytes as numbers of a key.
pub open spec fn wide(bytes: Seq<u8>) -> Seq<u64> {
    bytes.map_values(|b: u8| b as u64)
}

/// How components are ordered: by rank, and names by their bytes.
pub open spec fn component_before(c: Seq<u8>, d: Seq<u8>) -> bool {
    component_rank(c) < component_rank(d) || (component_rank(c) == component_rank(d) && key_less(
        wide(c),
        wide(d),
    ))
}

/// How paths are ordered: by their first different component; what a path starts with
/// comes before it.
pub open spec fn components_before(c: Seq<Seq<u8>>, d: Seq<Seq<u8>>) -> bool
    decreases c.len(),
{
    if d.len() == 0 {
        false
    } else if c.len() == 0 {
        true
    } else {
        component_before(c[0], d[0]) || (c[0] == d[0] && components_before(
            c.drop_first(),
            d.drop_first(),
        ))
    }
}

proof fn wide_tells_apart(c: Seq<u8>, d: Seq<u8>)
    requires
        wide(c) == wide(d),
    ensures
        c == d,
{
    assert(c.len() == wide(c).len() && d.len() == wide(d).len());
    assert forall|i: int| 0 <= i < c.len() implies c[i] == d[i] by {
        assert(wide(c)[i] == c[i] as u64);
        assert(wide(d)[i] == d[i] as u64);
    }
    assert(c =~= d);
}

proof fn component_key_decides(c: Seq<u8>, x: Seq<u64>, d: Seq<u8>, y: Seq<u64>)
    ensures
        key_less(component_key(c) + x, component_key(d) + y) <==> component_before(c, d) || (c == d
            && key_less(x, y)),
{
    assert(component_key(c) + x =~= seq![component_rank(c)] + (terminated(wide(c)) + x));
    assert(component_key(d) + y =~= seq![component_rank(d)] + (terminated(wide(d)) + y));
    key_less_headed(
        component_rank(c),
        terminated(wide(c)) + x,
        component_rank(d),
        terminated(wide(d)) + y,
    );
    terminated_decides(wide(c), x, wide(d), y);
    if wide(c) == wide(d) {
        wide_tells_apart(c, d);
    }
}

proof fn components_key_from_front(c: Seq<Seq<u8>>)
    requires
        c.len() > 0,
    ensures
        components_key(c) == component_key(c[0]) + components_key(c.drop_first()),
    decreases c.len(),
{
    let rest = c.drop_first();
    if c.len() == 1 {
        assert(c.drop_last() =~= Seq::empty());
        assert(rest =~= Seq::empty());
        assert(components_key(c) =~= component_key(c[0]) + components_key(rest));
    } else {
        components_key_from_front(c.drop_last());
        assert(c.drop_last().drop_first() =~= rest.drop_last());
        assert(rest.last() == c.last());
        assert(components_key(c) =~= component_key(c[0]) + components_key(rest));
    }
}

/// The sort key of a path orders paths component by component.
pub proof fn path_keys_order_components(c: Seq<Seq<u8>>, d: Seq<Seq<u8>>)
    ensures
        key_less(components_key(c), components_key(d)) <==> components_before(c, d),
    decreases c.len(),
{
    let none = Seq::<u64>::empty();
    if c.len() > 0 {
        components_key_from_front(c);
    }
    if d.len() > 0 {
        components_key_from_front(d);
    }
    if d.len() == 0 {
        assert(components_key(d) =~= none);
        assert(!key_less(components_key(c), none));
    } else if c.len() == 0 {
        assert(components_key(d).len() > 0);
        assert(smaller_at(components_key(c), components_key(d), 0));
    } else {
        component_key_decides(
            c[0],
            components_key(c.drop_first()),
            d[0],
            components_key(d.drop_first()),
        );
        path_keys_order_components(c.drop_first(), d.drop_first());
    }
}

/// Paths with the same sort key name the same file.
pub proof fn path_keys_tell_apart(c: Seq<Seq<u8>>, d: Seq<Seq<u8>>)
    requires
        components_key(c) == components_key(d),
    ensures
        c == d,
    decreases c.len(),
{
    if c.len() > 0 {
        components_key_from_front(c);
    }
    if d.len() > 0 {
        components_key_from_front(d);
    }
    if c.len() == 0 || d.len() == 0 {
        assert(c.len() == 0 && d.len() == 0);
        assert(c =~= d);
    } else {
        let x = components_key(c.drop_first());
        let y = components_key(d.drop_first());
        component_key_decides(c[0], x, d[0], y);
        component_key_decides(d[0], y, c[0], x);
        key_less_irreflexive(components_key(c));
        component_order_is_total(c[0], d[0]);
        assert(c[0] == d[0]);
        assert(x =~= components_key(c).skip(component_key(c[0]).len() as int));
        assert(y =~= components_key(d).skip(component_key(d[0]).len() as int));
        path_keys_tell_apart(c.drop_first(), d.drop_first());
        assert(c =~= seq![c[0]] + c.drop_first());
        assert(d =~= seq![d[0]] + d.drop_first());
    }
}

proof fn component_order_is_total(c: Seq<u8>, d: Seq<u8>)
    ensures
        component_before(c, d) || component_before(d, c) || c == d,
{
    key_less_total(wide(c), wide(d));
    if wide(c) == wide(d) {
        wide_tells_apart(c, d);
    }
}

} // verus!
