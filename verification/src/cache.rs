//! Opt-in persistent content-hash cache.
//!
//! A record is reused only when its path, size and modification time match.
//! Reading and writing the cache file is done outside.

use crate::grouping::{parted, picked, picked_holds, picked_is_part};
use crate::order::{listed_before, rearranged, sorting_order, sorting_order_is_distinct};
use crate::path::{components, components_key, FilePath};
use crate::text::text_from;
use crate::time::FileTime;
use std::collections::HashMap;
use vstd::prelude::*;

verus! {

broadcast use vstd::std_specs::hash::group_hash_axioms;

/// The layout of the cache file.
pub const CACHE_VERSION: u32 = 1;

/// How many records are kept at most.
pub const MAX_RECORDS: usize = 1_000_000;

/// Records that were not used for 90 days are dropped.
pub const MAX_AGE_SECS: u64 = 7_776_000;

/// The hash of a file's head and of all its contents.
#[derive(Debug, Clone, Copy, PartialEq, Eq)]
pub struct CachedHashes {
    pub prefix: [u8; 32],
    pub full: [u8; 32],
}

/// What is remembered of one file.
#[derive(Debug, Clone, Copy)]
pub struct CacheEntry {
    pub size: u64,
    pub modified_ns: u128,
    pub hashes: CachedHashes,
    pub last_seen: u64,
}

/// A file and what is remembered of it.
#[derive(Debug)]
pub struct CacheRecord {
    pub path: FilePath,
    pub entry: CacheEntry,
}

/// What reading the cache file came to.
#[derive(Debug)]
pub enum CacheLoad {
    /// There is none yet.
    Missing,
    /// It cannot be read.
    Unreadable(String),
    /// It can be read but makes no sense.
    Undecodable(String),
    /// A file of this version with these records.
    Decoded { version: u32, records: Vec<CacheRecord> },
}

/// Nanoseconds since the epoch, for a time that is not before it.
pub fn system_time_ns(time: FileTime) -> (n: Option<u128>)
    ensures
        n is Some <==> time.at() >= 0,
        n is Some ==> n->0 == time.at(),
{
    let nanos: i128 = time.unix_nanos();
    if nanos < 0 {
        None
    } else {
        Some(nanos as u128)
    }
}

/// Whole seconds since the epoch, or 0 before it.
pub fn now_secs(now: FileTime) -> (n: u64)
    ensures
        n == if now.at() >= 0 {
            now.at() / 1_000_000_000
        } else {
            0
        },
{
    match system_time_ns(now) {
        Some(nanos) => (nanos / 1_000_000_000) as u64,
        None => 0,
    }
}

/// The stamp of a file by which it is recognised.
pub open spec fn stamp_of(modified: Option<FileTime>) -> Option<int> {
    match modified {
        Some(t) => if t.at() >= 0 {
            Some(t.at())
        } else {
            None
        },
        None => None,
    }
}

/// A bucket number for a path, from its sort key.
spec fn bucket_from(key: Seq<u64>, n: int) -> u64
    decreases n,
{
    if n <= 0 {
        0
    } else {
        vstd::wrapping::u64_specs::wrapping_add(
            vstd::wrapping::u64_specs::wrapping_mul(bucket_from(key, n - 1), 31),
            key[n - 1],
        )
    }
}

/// A bucket number for the file with these components.
spec fn bucket_of(c: Seq<Seq<u8>>) -> u64 {
    let key = components_key(c);
    bucket_from(key, key.len() as int)
}

fn bucket(path: &FilePath) -> (b: u64)
    ensures
        b == bucket_of(components(path@)),
{
    let key = path.sort_key();
    let mut b: u64 = 0;
    let mut i: usize = 0;
    while i < key.len()
        invariant
            i <= key@.len(),
            b == bucket_from(key@, i as int),
        decreases key@.len() - i,
    {
        b = b.wrapping_mul(31).wrapping_add(key[i]);
        i += 1;
    }
    b
}

/// What the records say of the file with these components.
spec fn entry_in(records: Seq<CacheRecord>, c: Seq<Seq<u8>>) -> Option<CacheEntry> {
    if exists|p: int| is_about(records, p, c) {
        Some(records[choose|p: int| is_about(records, p, c)].entry)
    } else {
        None
    }
}

/// Record `p` is about the file with these components.
spec fn is_about(records: Seq<CacheRecord>, p: int, c: Seq<Seq<u8>>) -> bool {
    0 <= p < records.len() && components(records[p].path@) == c
}

/// No file has two records.
pub open spec fn distinct(records: Seq<CacheRecord>) -> bool {
    forall|p: int, q: int|
        0 <= p < q < records.len() ==> components((#[trigger] records[p]).path@) != components(
            (#[trigger] records[q]).path@,
        )
}

proof fn entry_is_the_one(records: Seq<CacheRecord>, p: int, c: Seq<Seq<u8>>)
    requires
        distinct(records),
        is_about(records, p, c),
    ensures
        entry_in(records, c) == Some(records[p].entry),
{
    let q = choose|q: int| is_about(records, q, c);
    assert(is_about(records, q, c));
    assert(records[p] == records[p] && records[q] == records[q]);
}

/// Hashes of earlier scans. Loaded once per scan.
pub struct HashCache {
    enabled: bool,
    min_size: u64,
    path: Option<FilePath>,
    records: Vec<CacheRecord>,
    /// Where the records of each bucket stand.
    index: HashMap<u64, Vec<usize>>,
    dirty: bool,
}

/// The index leads from every record's bucket to the record.
spec fn indexes(index: Map<u64, Vec<usize>>, records: Seq<CacheRecord>) -> bool {
    &&& forall|p: int|
        0 <= p < records.len() ==> {
            let b = bucket_of(components((#[trigger] records[p]).path@));
            index.contains_key(b) && index[b]@.contains(p as usize)
        }
    &&& forall|b: u64, i: int|
        #![trigger index[b]@[i]]
        index.contains_key(b) && 0 <= i < index[b]@.len() ==> index[b]@[i] < records.len()
}

fn index_of(records: &Vec<CacheRecord>) -> (index: HashMap<u64, Vec<usize>>)
    ensures
        indexes(index@, records@),
{
    let mut index: HashMap<u64, Vec<usize>> = HashMap::new();
    let mut p: usize = 0;
    assert(records@.take(0) =~= Seq::<CacheRecord>::empty());
    while p < records.len()
        invariant
            p <= records@.len(),
            indexes(index@, records@.take(p as int)),
        decreases records@.len() - p,
    {
        let b: u64 = bucket(&records[p].path);
        let ghost before = records@.take(p as int);
        add_to_index(&mut index, b, p, Ghost(before), Ghost(records@[p as int]));
        p += 1;
        assert(before.push(records@[p - 1]) =~= records@.take(p as int));
    }
    assert(records@.take(p as int) =~= records@);
    index
}

fn add_to_index(
    index: &mut HashMap<u64, Vec<usize>>,
    b: u64,
    p: usize,
    Ghost(before): Ghost<Seq<CacheRecord>>,
    Ghost(record): Ghost<CacheRecord>,
)
    requires
        indexes(old(index)@, before),
        p == before.len(),
        b == bucket_of(components(record.path@)),
    ensures
        indexes(final(index)@, before.push(record)),
{
    let ghost m = index@;
    let mut list: Vec<usize> = match index.remove(&b) {
        Some(list) => list,
        None => Vec::new(),
    };
    let ghost held = list@;
    list.push(p);
    index.insert(b, list);
    proof {
        let now = index@;
        let after = before.push(record);
        assert(now[b]@ == held.push(p));
        assert(held.push(p)[held.len() as int] == p);
        assert forall|q: int| 0 <= q < after.len() implies {
            let bq = bucket_of(components((#[trigger] after[q]).path@));
            now.contains_key(bq) && now[bq]@.contains(q as usize)
        } by {
            let bq = bucket_of(components(after[q].path@));
            if q < before.len() {
                assert(after[q] == before[q]);
                assert(m.contains_key(bq) && m[bq]@.contains(q as usize));
                if bq == b {
                    let i = choose|i: int| 0 <= i < m[b]@.len() && m[b]@[i] == q as usize;
                    assert(now[b]@[i] == q as usize);
                }
            } else {
                assert(now[b]@.contains(p));
            }
        }
        assert forall|x: u64, i: int|
            #![trigger now[x]@[i]]
            now.contains_key(x) && 0 <= i < now[x]@.len() implies now[x]@[i] < after.len() by {
            if x == b {
                if i < held.len() {
                    assert(m.contains_key(b));
                    assert(m[b]@[i] < before.len());
                }
            } else {
                assert(m[x]@[i] < before.len());
            }
        }
    }
}

impl HashCache {
    /// No file has two records, and the index finds them all.
    pub closed spec fn wf(self) -> bool {
        &&& distinct(self.records@)
        &&& indexes(self.index@, self.records@)
    }

    /// What is remembered of the file with these components.
    pub closed spec fn entry(self, c: Seq<Seq<u8>>) -> Option<CacheEntry> {
        entry_in(self.records@, c)
    }

    /// How many files are remembered.
    pub closed spec fn record_count(self) -> nat {
        self.records@.len()
    }

    /// The files that are remembered, by their components.
    pub open spec fn files(self) -> Set<Seq<Seq<u8>>> {
        Set::new(|c: Seq<Seq<u8>>| self.entry(c) is Some)
    }

    /// Whether the cache is in use.
    pub closed spec fn in_use(self) -> bool {
        self.enabled
    }

    /// The smallest file worth a record.
    pub closed spec fn smallest(self) -> u64 {
        self.min_size
    }

    /// Where the cache is kept.
    pub closed spec fn place(self) -> Option<FilePath> {
        self.path
    }

    /// Whether there is anything to write back.
    pub closed spec fn changed(self) -> bool {
        self.dirty
    }

    /// Everything but the records and the need to write them is the same.
    pub open spec fn same_settings(self, other: HashCache) -> bool {
        &&& self.in_use() == other.in_use()
        &&& self.smallest() == other.smallest()
        &&& self.place() == other.place()
    }

    /// A file of this size and time gets a record.
    pub open spec fn takes(self, size: u64, modified: Option<FileTime>) -> bool {
        self.in_use() && size >= self.smallest() && stamp_of(modified) is Some
    }

    /// The hashes of a file, where it is the file that was remembered.
    pub open spec fn hit(self, path: Seq<u8>, size: u64, modified: Option<FileTime>) -> Option<
        CachedHashes,
    > {
        let found = self.entry(components(path));
        if self.takes(size, modified) && found is Some && found->0.size == size
            && found->0.modified_ns == stamp_of(modified)->0 {
            Some(found->0.hashes)
        } else {
            None
        }
    }

    /// `after` also remembers these hashes of the file, where it takes them.
    pub open spec fn remembers(
        self,
        after: HashCache,
        path: Seq<u8>,
        size: u64,
        modified: Option<FileTime>,
        hashes: CachedHashes,
        now: u64,
    ) -> bool {
        forall|c: Seq<Seq<u8>>| #[trigger]
            after.entry(c) == if self.takes(size, modified) && c == components(path) {
                Some(
                    CacheEntry {
                        size,
                        modified_ns: stamp_of(modified)->0 as u128,
                        hashes,
                        last_seen: now,
                    },
                )
            } else {
                self.entry(c)
            }
    }

    /// The cache of a scan: off unless `enabled` and a place for it is known;
    /// what the file at that place held otherwise. A file that cannot be used is
    /// ignored with a warning.
    pub fn open(enabled: bool, min_size: u64, path: Option<FilePath>, load: CacheLoad) -> (r: (
        Self,
        Option<String>,
    ))
        ensures
            r.0.wf(),
            is_opened(enabled, min_size, path, load, r.0, r.1),
    {
        if !enabled {
            return (HashCache::disabled(min_size), None);
        }
        match path {
            None => (
                HashCache::disabled(min_size),
                Some(text_from("cache disabled: cannot determine the platform cache directory")),
            ),
            Some(path) => HashCache::open_at(path, min_size, load),
        }
    }

    /// A cache that remembers nothing.
    pub fn disabled(min_size: u64) -> (c: Self)
        ensures
            c.wf(),
            !c.in_use(),
            !c.changed(),
            c.smallest() == min_size,
            c.place() is None,
            c.record_count() == 0,
    {
        HashCache {
            enabled: false,
            min_size,
            path: None,
            records: Vec::new(),
            index: HashMap::new(),
            dirty: false,
        }
    }

    /// The cache kept at `path`.
    pub fn open_at(path: FilePath, min_size: u64, load: CacheLoad) -> (r: (Self, Option<String>))
        ensures
            r.0.wf(),
            r.0.in_use(),
            !r.0.changed(),
            r.0.smallest() == min_size,
            r.0.place() == Some(path),
            opened(load, r.0, r.1),
    {
        let mut cache = HashCache {
            enabled: true,
            min_size,
            path: Some(path),
            records: Vec::new(),
            index: HashMap::new(),
            dirty: false,
        };
        let mut warning: Option<String> = None;
        match load {
            CacheLoad::Missing => {},
            CacheLoad::Unreadable(message) => {
                let mut text = text_from("cannot read hash cache: ");
                text.append(message.as_str());
                warning = Some(text);
            },
            CacheLoad::Undecodable(message) => {
                let mut text = text_from("ignoring an unreadable hash cache: ");
                text.append(message.as_str());
                warning = Some(text);
            },
            CacheLoad::Decoded { version, records } => {
                if version == CACHE_VERSION {
                    cache.take_records(records);
                } else {
                    warning = Some(text_from("ignoring an incompatible hash cache"));
                }
            },
        }
        (cache, warning)
    }

    /// Remember these records as well; the last one about a file counts.
    fn take_records(&mut self, records: Vec<CacheRecord>)
        requires
            old(self).wf(),
            old(self).record_count() == 0,
        ensures
            final(self).wf(),
            final(self).same_settings(*old(self)),
            final(self).changed() == old(self).changed(),
            forall|c: Seq<Seq<u8>>| #[trigger] final(self).entry(c) == last_entry(records@, c),
    {
        let ghost given = records@;
        let mut at: usize = 0;
        let n: usize = records.len();
        for record in it: records
            invariant
                it.seq() == given,
                at == it.index(),
                n == given.len(),
                self.wf(),
                self.same_settings(*old(self)),
                self.changed() == old(self).changed(),
                forall|c: Seq<Seq<u8>>|
                    #[trigger] self.entry(c) == last_entry(given.take(at as int), c),
        {
            assert(given.take(at + 1).drop_last() =~= given.take(at as int));
            let ghost before = *self;
            self.put(record.path, record.entry);
            at += 1;
            proof {
                assert forall|c: Seq<Seq<u8>>| #[trigger] self.entry(c) == last_entry(
                    given.take(at as int),
                    c,
                ) by {
                    assert(before.entry(c) == last_entry(given.take(at - 1), c));
                    assert(given.take(at as int).last() == record);
                }
            }
        }
        assert(given.take(at as int) =~= given);
    }

    /// Which record is about this file.
    fn find(&self, path: &FilePath) -> (r: Option<usize>)
        requires
            self.wf(),
        ensures
            r is Some ==> is_about(self.records@, r->0 as int, components(path@)),
            r is None ==> forall|p: int| !is_about(self.records@, p, components(path@)),
    {
        let ghost c = components(path@);
        let b: u64 = bucket(path);
        assert(self.records.len() <= usize::MAX);
        match self.index.get(&b) {
            None => {
                assert forall|p: int| !is_about(self.records@, p, c) by {
                    if is_about(self.records@, p, c) {
                        assert(self.records@[p] == self.records@[p]);
                    }
                }
                None
            },
            Some(list) => {
                let mut i: usize = 0;
                while i < list.len()
                    invariant
                        self.wf(),
                        self.index@.contains_key(b),
                        *list == self.index@[b],
                        c == components(path@),
                        i <= list@.len(),
                        forall|j: int|
                            0 <= j < i ==> !is_about(self.records@, #[trigger] list@[j] as int, c),
                    decreases list@.len() - i,
                {
                    let p: usize = list[i];
                    assert(self.index@[b]@[i as int] < self.records@.len());
                    if self.records[p].path.same_as(path) {
                        return Some(p);
                    }
                    i += 1;
                }
                assert(self.records.len() <= usize::MAX);
                assert forall|p: int| !is_about(self.records@, p, c) by {
                    if is_about(self.records@, p, c) {
                        assert(self.records@[p] == self.records@[p]);
                        assert(list@.contains(p as usize));
                        let j = choose|j: int| 0 <= j < list@.len() && list@[j] == p as usize;
                        assert(!is_about(self.records@, list@[j] as int, c));
                    }
                }
                None
            },
        }
    }

    /// Remember this of the file at `path`, and nothing else of it.
    fn put(&mut self, path: FilePath, entry: CacheEntry)
        requires
            old(self).wf(),
        ensures
            final(self).wf(),
            final(self).same_settings(*old(self)),
            final(self).changed() == old(self).changed(),
            forall|c: Seq<Seq<u8>>|
                #[trigger] final(self).entry(c) == if c == components(path@) {
                    Some(entry)
                } else {
                    old(self).entry(c)
                },
            final(self).record_count() == old(self).record_count() + if old(self).entry(
                components(path@),
            ) is None {
                1nat
            } else {
                0nat
            },
    {
        let ghost before = self.records@;
        let ghost key = components(path@);
        match self.find(&path) {
            Some(p) => {
                self.records[p].entry = entry;
                proof {
                    let after = self.records@;
                    assert(after =~= before.update(
                        p as int,
                        CacheRecord { path: before[p as int].path, entry },
                    ));
                    assert forall|c: Seq<Seq<u8>>| #[trigger] entry_in(after, c) == if c == key {
                        Some(entry)
                    } else {
                        entry_in(before, c)
                    } by {
                        entries_after_update(before, after, p as int, c);
                    }
                }
            },
            None => {
                let b: u64 = bucket(&path);
                let p: usize = self.records.len();
                let ghost record = CacheRecord { path, entry };
                add_to_index(&mut self.index, b, p, Ghost(before), Ghost(record));
                self.records.push(CacheRecord { path, entry });
                proof {
                    let after = self.records@;
                    assert(after =~= before.push(record));
                    assert(distinct(after)) by {
                        assert forall|x: int, y: int| 0 <= x < y < after.len() implies components(
                            (#[trigger] after[x]).path@,
                        ) != components((#[trigger] after[y]).path@) by {
                            if y == before.len() {
                                assert(!is_about(before, x, key));
                            } else {
                                assert(after[x] == before[x] && after[y] == before[y]);
                            }
                        }
                    }
                    assert forall|c: Seq<Seq<u8>>| #[trigger] entry_in(after, c) == if c == key {
                        Some(entry)
                    } else {
                        entry_in(before, c)
                    } by {
                        entries_after_push(before, record, c);
                    }
                }
            },
        }
    }

    /// What looking a file up gives and changes: a record that is used counts as used now.
    pub open spec fn looked_up(
        self,
        after: HashCache,
        path: Seq<u8>,
        size: u64,
        modified: Option<FileTime>,
        now: u64,
        r: Option<CachedHashes>,
    ) -> bool {
        &&& after.same_settings(self)
        &&& r == self.hit(path, size, modified)
        &&& after.changed() == (self.changed() || r is Some)
        &&& after.record_count() == self.record_count()
        &&& forall|c: Seq<Seq<u8>>| #[trigger]
            after.entry(c) == if r is Some && c == components(path) {
                Some(CacheEntry { last_seen: now, ..self.entry(c)->0 })
            } else {
                self.entry(c)
            }
    }

    /// The hashes of a file, where it is the file that was remembered: in use,
    /// large enough, and with the same size and modification time.
    pub fn lookup(
        &mut self,
        path: &FilePath,
        size: u64,
        modified: Option<FileTime>,
        now: u64,
    ) -> (r: Option<CachedHashes>)
        requires
            old(self).wf(),
        ensures
            final(self).wf(),
            old(self).looked_up(*final(self), path@, size, modified, now, r),
    {
        if !self.enabled || size < self.min_size {
            return None;
        }
        let stamp: u128 = match modified {
            None => {
                return None;
            },
            Some(t) => match system_time_ns(t) {
                None => {
                    return None;
                },
                Some(stamp) => stamp,
            },
        };
        let ghost before = self.records@;
        let ghost key = components(path@);
        match self.find(path) {
            None => {
                assert(entry_in(before, key) is None);
                None
            },
            Some(p) => {
                proof {
                    entry_is_the_one(before, p as int, key);
                }
                let found: CacheEntry = self.records[p].entry;
                if found.size != size || found.modified_ns != stamp {
                    return None;
                }
                self.records[p].entry.last_seen = now;
                self.dirty = true;
                proof {
                    let after = self.records@;
                    assert(after =~= before.update(
                        p as int,
                        CacheRecord {
                            path: before[p as int].path,
                            entry: CacheEntry { last_seen: now, ..before[p as int].entry },
                        },
                    ));
                    assert forall|c: Seq<Seq<u8>>| #[trigger] entry_in(after, c) == if c == key {
                        Some(CacheEntry { last_seen: now, ..found })
                    } else {
                        entry_in(before, c)
                    } by {
                        entries_after_update(before, after, p as int, c);
                    }
                }
                Some(found.hashes)
            },
        }
    }

    /// Remember the hashes of a file that is large enough and has a usable time.
    pub fn insert(
        &mut self,
        path: FilePath,
        size: u64,
        modified: Option<FileTime>,
        hashes: CachedHashes,
        now: u64,
    )
        requires
            old(self).wf(),
        ensures
            final(self).wf(),
            final(self).same_settings(*old(self)),
            final(self).changed() == (old(self).changed() || old(self).takes(size, modified)),
            old(self).remembers(*final(self), path@, size, modified, hashes, now),
            final(self).record_count() == old(self).record_count() + if old(self).takes(
                size,
                modified,
            ) && old(self).entry(components(path@)) is None {
                1nat
            } else {
                0nat
            },
    {
        if !self.enabled || size < self.min_size {
            return;
        }
        let modified_ns: u128 = match modified {
            None => {
                return;
            },
            Some(t) => match system_time_ns(t) {
                None => {
                    return;
                },
                Some(stamp) => stamp,
            },
        };
        self.put(path, CacheEntry { size, modified_ns, hashes, last_seen: now });
        let ghost stored = *self;
        self.dirty = true;
        assert forall|c: Seq<Seq<u8>>| #[trigger] self.entry(c) == stored.entry(c) by {}
    }

    /// There is a record of this file that was used recently enough to be kept.
    pub open spec fn is_recent(self, c: Seq<Seq<u8>>, now: u64) -> bool {
        self.entry(c) is Some && self.entry(c)->0.last_seen >= now - MAX_AGE_SECS
    }

    /// `after` holds the records that were used recently, as far as there is room. What
    /// is dropped for want of room was used no later than anything that is kept.
    pub open spec fn pruned_to(self, after: HashCache, now: u64) -> bool {
        &&& after.record_count() <= MAX_RECORDS
        &&& forall|c: Seq<Seq<u8>>| #[trigger]
            after.entry(c) is Some ==> after.entry(c) == self.entry(c) && self.is_recent(c, now)
        &&& forall|c: Seq<Seq<u8>>, d: Seq<Seq<u8>>|
            #![trigger self.entry(c), after.entry(d)]
            self.is_recent(c, now) && after.entry(c) is None ==> {
                &&& self.record_count() > MAX_RECORDS
                &&& after.record_count() == MAX_RECORDS
                &&& after.entry(d) is Some ==> self.entry(c)->0.last_seen
                    <= after.entry(d)->0.last_seen
            }
    }

    /// Drop records that were not used for a long time, then the least recently
    /// used ones until few enough are left.
    pub fn prune(&mut self, now: u64)
        requires
            old(self).wf(),
        ensures
            final(self).wf(),
            final(self).same_settings(*old(self)),
            final(self).changed() == old(self).changed(),
            old(self).pruned_to(*final(self), now),
    {
        let cutoff: u64 = if now >= MAX_AGE_SECS {
            now - MAX_AGE_SECS
        } else {
            0
        };
        let ghost given = self.records@;
        let mut flags: Vec<bool> = Vec::new();
        while flags.len() < self.records.len()
            invariant
                flags@.len() <= self.records@.len(),
                given == self.records@,
                forall|i: int|
                    0 <= i < flags@.len() ==> #[trigger] flags@[i] == (given[i].entry.last_seen
                        >= cutoff),
            decreases self.records@.len() - flags@.len(),
        {
            let young: bool = self.records[flags.len()].entry.last_seen >= cutoff;
            flags.push(young);
        }
        let mut all: Vec<CacheRecord> = Vec::new();
        core::mem::swap(&mut all, &mut self.records);
        let (young, _): (Vec<CacheRecord>, Vec<CacheRecord>) = parted(all, &flags);
        let ghost kept = young@;
        proof {
            picked_stays_distinct(given, flags@);
            picked_is_part(given, flags@);
        }
        let records: Vec<CacheRecord> = if young.len() <= MAX_RECORDS {
            young
        } else {
            newest(young)
        };
        let ghost last = records@;
        self.index = index_of(&records);
        self.records = records;
        proof {
            assert forall|c: Seq<Seq<u8>>| #[trigger] entry_in(last, c) is Some implies {
                &&& entry_in(last, c) == entry_in(given, c)
                &&& entry_in(last, c)->0.last_seen >= now - MAX_AGE_SECS
            } by {
                let p = choose|p: int| is_about(last, p, c);
                assert(kept.contains(last[p]));
                picked_holds(given, flags@, last[p]);
                let q = choose|q: int| 0 <= q < given.len() && flags@[q] && #[trigger] given[q] == last[p];
                entry_is_the_one(given, q, c);
                entry_is_the_one(last, p, c);
            }
            assert forall|c: Seq<Seq<u8>>, d: Seq<Seq<u8>>|
                #![trigger entry_in(given, c), entry_in(last, d)]
                entry_in(given, c) is Some && entry_in(given, c)->0.last_seen >= now - MAX_AGE_SECS
                    && entry_in(last, c) is None implies {
                &&& given.len() > MAX_RECORDS
                &&& last.len() == MAX_RECORDS
                &&& entry_in(last, d) is Some ==> entry_in(given, c)->0.last_seen <= entry_in(
                    last,
                    d,
                )->0.last_seen
            } by {
                let q = choose|q: int| is_about(given, q, c);
                entry_is_the_one(given, q, c);
                assert(flags@[q]);
                picked_holds(given, flags@, given[q]);
                assert(kept.contains(given[q]));
                if last.contains(given[q]) {
                    let p = choose|p: int| 0 <= p < last.len() && last[p] == given[q];
                    assert(is_about(last, p, c));
                    assert(false);
                }
                if entry_in(last, d) is Some {
                    let p = choose|p: int| is_about(last, p, d);
                    entry_is_the_one(last, p, d);
                    assert(last.contains(last[p]));
                }
            }
        }
    }

    /// Before a save that has to be made, `after` holds what pruning leaves; otherwise
    /// nothing changes.
    pub open spec fn made_ready(self, after: HashCache, now: u64, write: bool) -> bool {
        &&& after.same_settings(self)
        &&& after.changed() == self.changed()
        &&& write == (self.in_use() && self.changed())
        &&& write ==> self.pruned_to(after, now)
        &&& !write ==> after.record_count() == self.record_count() && forall|c: Seq<Seq<u8>>|
            #[trigger] after.entry(c) == self.entry(c)
    }

    /// Whether the cache has to be written back, after dropping what is too old.
    pub fn prepare_save(&mut self, now: u64) -> (write: bool)
        requires
            old(self).wf(),
        ensures
            final(self).wf(),
            old(self).made_ready(*final(self), now, write),
    {
        if !self.enabled || !self.dirty {
            return false;
        }
        self.prune(now);
        true
    }

    /// Note that the cache was written back.
    pub fn saved(&mut self)
        requires
            old(self).wf(),
        ensures
            final(self).wf(),
            final(self).same_settings(*old(self)),
            !final(self).changed(),
            final(self).record_count() == old(self).record_count(),
            forall|c: Seq<Seq<u8>>| #[trigger] final(self).entry(c) == old(self).entry(c),
    {
        self.dirty = false;
    }

    /// Where the cache is kept.
    pub fn kept_at(&self) -> (p: Option<&FilePath>)
        ensures
            p is Some <==> self.place() is Some,
            p is Some ==> *p->0 == self.place()->0,
    {
        match &self.path {
            Some(path) => Some(path),
            None => None,
        }
    }

    /// Everything that is remembered.
    pub fn records(&self) -> (r: &Vec<CacheRecord>)
        requires
            self.wf(),
        ensures
            r@.len() == self.record_count(),
            distinct(r@),
            forall|c: Seq<Seq<u8>>| #[trigger] self.entry(c) == last_entry(r@, c),
    {
        proof {
            assert forall|c: Seq<Seq<u8>>| #[trigger] self.entry(c) == last_entry(
                self.records@,
                c,
            ) by {
                last_entry_of_distinct(self.records@, c);
            }
        }
        &self.records
    }
}

/// What a list of records says of a file: the last one about it counts.
pub open spec fn last_entry(records: Seq<CacheRecord>, c: Seq<Seq<u8>>) -> Option<CacheEntry>
    decreases records.len(),
{
    if records.len() == 0 {
        None
    } else if components(records.last().path@) == c {
        Some(records.last().entry)
    } else {
        last_entry(records.drop_last(), c)
    }
}

/// What opening the cache file came to.
pub open spec fn opened(load: CacheLoad, cache: HashCache, warning: Option<String>) -> bool {
    match load {
        CacheLoad::Missing => warning is None && forall|c: Seq<Seq<u8>>| #[trigger]
            cache.entry(c) is None,
        CacheLoad::Unreadable(message) => {
            &&& warning is Some
            &&& warning->0@ == "cannot read hash cache: "@ + message@
            &&& forall|c: Seq<Seq<u8>>| #[trigger] cache.entry(c) is None
        },
        CacheLoad::Undecodable(message) => {
            &&& warning is Some
            &&& warning->0@ == "ignoring an unreadable hash cache: "@ + message@
            &&& forall|c: Seq<Seq<u8>>| #[trigger] cache.entry(c) is None
        },
        CacheLoad::Decoded { version, records } => if version == CACHE_VERSION {
            &&& warning is None
            &&& forall|c: Seq<Seq<u8>>| #[trigger] cache.entry(c) == last_entry(records@, c)
        } else {
            &&& warning is Some
            &&& warning->0@ == "ignoring an incompatible hash cache"@
            &&& forall|c: Seq<Seq<u8>>| #[trigger] cache.entry(c) is None
        },
    }
}

/// What opening the cache comes to: it is in use where that is asked for and there is a place
/// for it, and then it knows what its file says.
pub open spec fn is_opened(
    enabled: bool,
    min_size: u64,
    path: Option<FilePath>,
    load: CacheLoad,
    cache: HashCache,
    warning: Option<String>,
) -> bool {
    &&& !cache.changed()
    &&& cache.smallest() == min_size
    &&& cache.in_use() == (enabled && path is Some)
    &&& cache.in_use() ==> cache.place() == path
    &&& !cache.in_use() ==> cache.place() is None && cache.record_count() == 0
    &&& !enabled ==> warning is None
    &&& enabled && path is None ==> warning is Some && warning->0@
        == "cache disabled: cannot determine the platform cache directory"@
    &&& enabled && path is Some ==> opened(load, cache, warning)
}

/// There are as many records as files of which something is remembered.
pub proof fn each_file_has_one_record(cache: HashCache)
    requires
        cache.wf(),
    ensures
        cache.files().finite(),
        cache.files().len() == cache.record_count(),
{
    let records = cache.records@;
    let keys = records.map_values(|r: CacheRecord| components(r.path@));
    assert(keys.no_duplicates()) by {
        assert forall|p: int, q: int| 0 <= p < keys.len() && 0 <= q < keys.len() && p != q implies
            keys[p] != keys[q] by {
            assert(components(records[p].path@) == keys[p]);
            assert(components(records[q].path@) == keys[q]);
        }
    }
    keys.unique_seq_to_set();
    vstd::seq_lib::seq_to_set_is_finite(keys);
    assert forall|c: Seq<Seq<u8>>| #[trigger] keys.to_set().contains(c) == cache.files().contains(
        c,
    ) by {
        if keys.contains(c) {
            let p = choose|p: int| 0 <= p < keys.len() && keys[p] == c;
            assert(is_about(records, p, c));
            entry_is_the_one(records, p, c);
        }
        if cache.entry(c) is Some {
            let p = choose|p: int| is_about(records, p, c);
            assert(keys[p] == c);
        }
    }
    assert(keys.to_set() =~= cache.files());
}

/// What is inserted is found again by the same size and time, and by no other.
pub proof fn a_hit_needs_matching_metadata(
    before: HashCache,
    after: HashCache,
    path: Seq<u8>,
    size: u64,
    modified: Option<FileTime>,
    hashes: CachedHashes,
    now: u64,
    other_size: u64,
    other_modified: Option<FileTime>,
)
    requires
        before.takes(size, modified),
        before.remembers(after, path, size, modified, hashes, now),
        after.same_settings(before),
    ensures
        after.hit(path, size, modified) == Some(hashes),
        other_size != size || stamp_of(other_modified) != stamp_of(modified) ==> after.hit(
            path,
            other_size,
            other_modified,
        ) is None,
{
    assert(after.entry(components(path)) is Some);
    if modified is Some {
        assert(0 <= modified->0.at() <= u128::MAX);
    }
}

/// A cache that is written out and read back remembers what it did.
pub proof fn reopening_gives_back(
    cache: HashCache,
    records: Vec<CacheRecord>,
    reopened: HashCache,
    warning: Option<String>,
)
    requires
        forall|c: Seq<Seq<u8>>| #[trigger] cache.entry(c) == last_entry(records@, c),
        opened(CacheLoad::Decoded { version: CACHE_VERSION, records }, reopened, warning),
    ensures
        warning is None,
        forall|c: Seq<Seq<u8>>| #[trigger] reopened.entry(c) == cache.entry(c),
{
    assert forall|c: Seq<Seq<u8>>| #[trigger] reopened.entry(c) == cache.entry(c) by {
        assert(cache.entry(c) == last_entry(records@, c));
    }
}

/// What the cache knows when it is saved, it still knows when the file is read again,
/// unless it was not used for too long. Only where there are more records than are kept
/// may it be lost, and then everything that is kept was used as recently.
pub proof fn what_is_saved_is_found_again(
    cache: HashCache,
    ready: HashCache,
    write: bool,
    now: u64,
    records: Vec<CacheRecord>,
    reopened: HashCache,
    warning: Option<String>,
    path: Seq<u8>,
    size: u64,
    modified: Option<FileTime>,
)
    requires
        cache.made_ready(ready, now, write),
        write,
        forall|c: Seq<Seq<u8>>| #[trigger] ready.entry(c) == last_entry(records@, c),
        opened(CacheLoad::Decoded { version: CACHE_VERSION, records }, reopened, warning),
        reopened.in_use(),
        reopened.smallest() == cache.smallest(),
        cache.hit(path, size, modified) is Some,
        cache.is_recent(components(path), now),
    ensures
        warning is None,
        cache.record_count() <= MAX_RECORDS ==> reopened.hit(path, size, modified) == cache.hit(
            path,
            size,
            modified,
        ),
        reopened.hit(path, size, modified) == cache.hit(path, size, modified) || forall|
            d: Seq<Seq<u8>>,
        | #[trigger]
            reopened.entry(d) is Some ==> cache.entry(components(path))->0.last_seen
                <= reopened.entry(d)->0.last_seen,
{
    let c = components(path);
    reopening_gives_back(ready, records, reopened, warning);
    assert(reopened.entry(c) == ready.entry(c));
    if ready.entry(c) is None {
        assert forall|d: Seq<Seq<u8>>| #[trigger] reopened.entry(d) is Some implies cache.entry(
            c,
        )->0.last_seen <= reopened.entry(d)->0.last_seen by {
            assert(reopened.entry(d) == ready.entry(d));
            assert(cache.entry(c) is Some);
        }
    }
}

/// A hash that was inserted is found again by the next scan: the cache is due for a save,
/// and what is then written and read back holds the hash.
pub proof fn an_inserted_hash_is_found_again(
    before: HashCache,
    cache: HashCache,
    seen: u64,
    hashes: CachedHashes,
    ready: HashCache,
    write: bool,
    now: u64,
    records: Vec<CacheRecord>,
    reopened: HashCache,
    warning: Option<String>,
    path: Seq<u8>,
    size: u64,
    modified: Option<FileTime>,
)
    requires
        before.takes(size, modified),
        before.remembers(cache, path, size, modified, hashes, seen),
        cache.same_settings(before),
        cache.changed() == (before.changed() || before.takes(size, modified)),
        cache.made_ready(ready, now, write),
        forall|c: Seq<Seq<u8>>| #[trigger] ready.entry(c) == last_entry(records@, c),
        opened(CacheLoad::Decoded { version: CACHE_VERSION, records }, reopened, warning),
        reopened.in_use(),
        reopened.smallest() == before.smallest(),
        seen >= now - MAX_AGE_SECS,
        cache.record_count() <= MAX_RECORDS,
    ensures
        write,
        warning is None,
        reopened.hit(path, size, modified) == Some(hashes),
{
    a_hit_needs_matching_metadata(
        before,
        cache,
        path,
        size,
        modified,
        hashes,
        seen,
        size,
        modified,
    );
    assert(cache.entry(components(path)) is Some);
    what_is_saved_is_found_again(
        cache,
        ready,
        write,
        now,
        records,
        reopened,
        warning,
        path,
        size,
        modified,
    );
}

/// The records used most recently, as many as are kept.
fn newest(records: Vec<CacheRecord>) -> (r: Vec<CacheRecord>)
    requires
        distinct(records@),
        records@.len() > MAX_RECORDS,
    ensures
        distinct(r@),
        r@.len() == MAX_RECORDS,
        forall|i: int| 0 <= i < r@.len() ==> records@.contains(#[trigger] r@[i]),
        forall|x: CacheRecord, i: int|
            #![trigger records@.contains(x), r@[i]]
            records@.contains(x) && !r@.contains(x) && 0 <= i < r@.len() ==> x.entry.last_seen
                <= r@[i].entry.last_seen,
{
    let ghost given = records@;
    let mut keys: Vec<Vec<u64>> = Vec::new();
    while keys.len() < records.len()
        invariant
            keys@.len() <= records@.len(),
            forall|i: int|
                0 <= i < keys@.len() ==> (#[trigger] keys@[i])@ == seq![records@[i].entry.last_seen],
        decreases records@.len() - keys@.len(),
    {
        let seen: u64 = records[keys.len()].entry.last_seen;
        keys.push(vec![seen]);
    }
    let order = sorting_order(&keys);
    proof {
        sorting_order_is_distinct(keys@, order@);
    }
    let mut sorted = rearranged(records, &order);
    let surplus: usize = sorted.len() - MAX_RECORDS;
    let ghost arranged = sorted@;
    let r = sorted.split_off(surplus);
    proof {
        assert forall|i: int| 0 <= i < r@.len() implies #[trigger] r@[i] == given[order@[i
            + surplus] as int] by {
            assert(r@[i] == arranged[i + surplus]);
        }
        assert forall|i: int, j: int| 0 <= i < j < r@.len() implies components(
            (#[trigger] r@[i]).path@,
        ) != components((#[trigger] r@[j]).path@) by {
            let x = order@[i + surplus];
            let y = order@[j + surplus];
            assert(x != y);
            assert(given[x as int] == r@[i] && given[y as int] == r@[j]);
        }
        assert forall|x: CacheRecord, i: int|
            #![trigger given.contains(x), r@[i]]
            given.contains(x) && !r@.contains(x) && 0 <= i < r@.len() implies x.entry.last_seen
            <= r@[i].entry.last_seen by {
            let q = choose|q: int| 0 <= q < given.len() && given[q] == x;
            assert(order@.contains(q as usize));
            let p = choose|p: int| 0 <= p < order@.len() && order@[p] == q as usize;
            if p >= surplus {
                assert(r@[p - surplus] == x);
                assert(false);
            }
            let o = order@[i + surplus] as int;
            assert(listed_before(keys@, order@[p] as int, o));
            seen_key_orders(given[q].entry.last_seen, given[o].entry.last_seen);
            assert(keys@[q]@[0] == given[q].entry.last_seen);
            assert(keys@[o]@[0] == given[o].entry.last_seen);
        }
    }
    r
}

proof fn seen_key_orders(x: u64, y: u64)
    ensures
        crate::order::key_less(seq![x], seq![y]) <==> x < y,
{
    crate::order::key_less_headed(x, Seq::empty(), y, Seq::empty());
    assert(seq![x] + Seq::<u64>::empty() =~= seq![x]);
    assert(seq![y] + Seq::<u64>::empty() =~= seq![y]);
    crate::order::key_less_irreflexive(Seq::<u64>::empty());
}

proof fn picked_stays_distinct(records: Seq<CacheRecord>, flags: Seq<bool>)
    requires
        distinct(records),
        records.len() <= flags.len(),
    ensures
        distinct(picked(records, flags)),
    decreases records.len(),
{
    if records.len() > 0 {
        let rest = records.drop_last();
        let n = records.len() - 1;
        assert forall|p: int, q: int| 0 <= p < q < rest.len() implies components(
            (#[trigger] rest[p]).path@,
        ) != components((#[trigger] rest[q]).path@) by {
            assert(rest[p] == records[p] && rest[q] == records[q]);
        }
        picked_stays_distinct(rest, flags);
        if flags[n] {
            let below = picked(rest, flags);
            let all = picked(records, flags);
            assert forall|p: int, q: int| 0 <= p < q < all.len() implies components(
                (#[trigger] all[p]).path@,
            ) != components((#[trigger] all[q]).path@) by {
                if q == below.len() {
                    assert(below.contains(below[p]));
                    picked_holds(rest, flags, below[p]);
                    let i = choose|i: int| 0 <= i < rest.len() && flags[i] && #[trigger] rest[i] == below[p];
                    assert(records[i] == below[p] && records[n] == all[q]);
                } else {
                    assert(all[p] == below[p] && all[q] == below[q]);
                }
            }
        }
    }
}

proof fn entries_after_update(
    before: Seq<CacheRecord>,
    after: Seq<CacheRecord>,
    p: int,
    c: Seq<Seq<u8>>,
)
    requires
        distinct(before),
        0 <= p < before.len(),
        after == before.update(p, after[p]),
        after[p].path == before[p].path,
    ensures
        distinct(after),
        entry_in(after, c) == if c == components(before[p].path@) {
            Some(after[p].entry)
        } else {
            entry_in(before, c)
        },
{
    assert forall|x: int, y: int| 0 <= x < y < after.len() implies components(
        (#[trigger] after[x]).path@,
    ) != components((#[trigger] after[y]).path@) by {
        assert(before[x].path == after[x].path && before[y].path == after[y].path);
    }
    if c == components(before[p].path@) {
        assert(is_about(after, p, c));
        entry_is_the_one(after, p, c);
    } else if exists|q: int| is_about(before, q, c) {
        let q = choose|q: int| is_about(before, q, c);
        assert(is_about(after, q, c));
        entry_is_the_one(before, q, c);
        entry_is_the_one(after, q, c);
    } else {
        assert forall|q: int| !is_about(after, q, c) by {
            assert(!is_about(before, q, c));
        }
    }
}

proof fn entries_after_push(before: Seq<CacheRecord>, record: CacheRecord, c: Seq<Seq<u8>>)
    requires
        distinct(before.push(record)),
    ensures
        entry_in(before.push(record), c) == if c == components(record.path@) {
            Some(record.entry)
        } else {
            entry_in(before, c)
        },
{
    let after = before.push(record);
    assert forall|x: int, y: int| 0 <= x < y < before.len() implies components(
        (#[trigger] before[x]).path@,
    ) != components((#[trigger] before[y]).path@) by {
        assert(before[x] == after[x] && before[y] == after[y]);
    }
    if c == components(record.path@) {
        assert(is_about(after, before.len() as int, c));
        entry_is_the_one(after, before.len() as int, c);
    } else if exists|q: int| is_about(before, q, c) {
        let q = choose|q: int| is_about(before, q, c);
        assert(is_about(after, q, c));
        entry_is_the_one(before, q, c);
        entry_is_the_one(after, q, c);
    } else {
        assert forall|q: int| !is_about(after, q, c) by {
            assert(!is_about(before, q, c));
        }
    }
}

proof fn last_entry_of_distinct(records: Seq<CacheRecord>, c: Seq<Seq<u8>>)
    requires
        distinct(records),
    ensures
        entry_in(records, c) == last_entry(records, c),
    decreases records.len(),
{
    if records.len() > 0 {
        let rest = records.drop_last();
        assert(rest.push(records.last()) =~= records);
        assert forall|x: int, y: int| 0 <= x < y < rest.len() implies components(
            (#[trigger] rest[x]).path@,
        ) != components((#[trigger] rest[y]).path@) by {
            assert(rest[x] == records[x] && rest[y] == records[y]);
        }
        entries_after_push(rest, records.last(), c);
        last_entry_of_distinct(rest, c);
    }
}

/// A lookup gives the remembered hashes exactly where the cache is in use, the file is large
/// enough, and it has the size and the time that are remembered, to the nanosecond. The
/// record then counts as used now, and no other one changes.
pub proof fn a_lookup_gives_what_is_remembered(
    before: HashCache,
    after: HashCache,
    path: Seq<u8>,
    size: u64,
    modified: Option<FileTime>,
    now: u64,
    r: Option<CachedHashes>,
    c: Seq<Seq<u8>>,
)
    requires
        before.looked_up(after, path, size, modified, now, r),
    ensures
        ({
            let entry = before.entry(components(path));
            let fits = before.in_use() && size >= before.smallest() && modified is Some && entry
                is Some && entry->0.size == size && entry->0.modified_ns == modified->0.secs
                * 1_000_000_000 + modified->0.nanos;
            &&& fits ==> r == Some(entry->0.hashes)
            &&& !fits ==> r is None
        }),
        c != components(path) ==> after.entry(c) == before.entry(c),
        r is None ==> after.entry(c) == before.entry(c),
        r is Some && c == components(path) ==> {
            &&& after.entry(c) is Some
            &&& after.entry(c)->0.last_seen == now
            &&& after.entry(c)->0.hashes == before.entry(c)->0.hashes
            &&& after.entry(c)->0.size == before.entry(c)->0.size
            &&& after.entry(c)->0.modified_ns == before.entry(c)->0.modified_ns
        },
        after.changed() <==> before.changed() || r is Some,
        after.record_count() == before.record_count(),
        after.in_use() == before.in_use(),
        after.smallest() == before.smallest(),
        after.place() == before.place(),
{
}

/// The cache is written back exactly where it is in use and something in it changed; only
/// then are old records dropped. Where it is kept and what it takes stay as they are.
pub proof fn only_a_changed_cache_is_written(
    before: HashCache,
    after: HashCache,
    now: u64,
    write: bool,
    c: Seq<Seq<u8>>,
)
    requires
        before.made_ready(after, now, write),
    ensures
        write <==> before.in_use() && before.changed(),
        after.in_use() == before.in_use(),
        after.smallest() == before.smallest(),
        after.place() == before.place(),
        after.changed() == before.changed(),
        !write ==> after.entry(c) == before.entry(c) && after.record_count()
            == before.record_count(),
        after.entry(c) is Some ==> after.entry(c) == before.entry(c),
{
}

/// What is inserted is remembered with all that was given; other files keep their records.
pub proof fn an_insertion_remembers_what_is_given(
    before: HashCache,
    after: HashCache,
    path: Seq<u8>,
    size: u64,
    modified: Option<FileTime>,
    hashes: CachedHashes,
    now: u64,
    c: Seq<Seq<u8>>,
)
    requires
        before.remembers(after, path, size, modified, hashes, now),
    ensures
        ({
            let taken = before.in_use() && size >= before.smallest() && modified is Some
                && modified->0.secs * 1_000_000_000 + modified->0.nanos >= 0;
            &&& taken && c == components(path) ==> {
                &&& after.entry(c) is Some
                &&& after.entry(c)->0.size == size
                &&& after.entry(c)->0.modified_ns == modified->0.secs * 1_000_000_000
                    + modified->0.nanos
                &&& after.entry(c)->0.hashes == hashes
                &&& after.entry(c)->0.last_seen == now
            }
            &&& !taken || c != components(path) ==> after.entry(c) == before.entry(c)
        }),
{
    if modified is Some {
        assert(modified->0.at() <= u128::MAX);
    }
}

/// A record that was used within ninety days stays where there are no more than a million,
/// and one that was not is dropped.
pub proof fn records_are_kept_for_ninety_days(
    before: HashCache,
    after: HashCache,
    now: u64,
    c: Seq<Seq<u8>>,
)
    requires
        before.pruned_to(after, now),
    ensures
        before.entry(c) is None ==> after.entry(c) is None,
        before.entry(c) is Some && before.entry(c)->0.last_seen < now - 90 * 24 * 60 * 60
            ==> after.entry(c) is None,
        before.entry(c) is Some && before.entry(c)->0.last_seen >= now - 90 * 24 * 60 * 60
            && before.record_count() <= 1_000_000 ==> after.entry(c) == before.entry(c),
        after.record_count() <= 1_000_000,
{
    if before.entry(c) is Some && after.entry(c) is None {
        assert(after.entry(c) == after.entry(c));
    }
}

/// A cache file is used exactly where it can be read, makes sense and has the right
/// version; otherwise nothing is known, and what is wrong is told, unless there is no file
/// yet. Of two records of one file the later counts.
pub proof fn a_usable_file_is_used(
    min_size: u64,
    place: FilePath,
    load: CacheLoad,
    cache: HashCache,
    warning: Option<String>,
    c: Seq<Seq<u8>>,
)
    requires
        is_opened(true, min_size, Some(place), load, cache, warning),
    ensures
        cache.in_use(),
        cache.place() == Some(place),
        cache.smallest() == min_size,
        !cache.changed(),
        load is Missing ==> warning is None && cache.entry(c) is None,
        load is Unreadable || load is Undecodable ==> warning is Some && cache.entry(c) is None,
        load is Decoded && load->version != 1 ==> warning is Some && cache.entry(c) is None,
        load is Decoded && load->version == 1 ==> warning is None,
        load is Decoded && load->version == 1 ==> forall|i: int|
            0 <= i < load->records@.len() && components((#[trigger] load->records@[i]).path@) == c
                && (forall|j: int|
                i < j < load->records@.len() ==> components((#[trigger] load->records@[j]).path@)
                    != c) ==> cache.entry(c) == Some(load->records@[i].entry),
        load is Decoded && load->version == 1 && (forall|i: int|
            0 <= i < load->records@.len() ==> components((#[trigger] load->records@[i]).path@)
                != c) ==> cache.entry(c) is None,
{
    if load is Decoded && load->version == 1 {
        let records = load->records@;
        assert(cache.entry(c) == last_entry(records, c));
        assert forall|i: int|
            0 <= i < records.len() && components((#[trigger] records[i]).path@) == c && (forall|
                j: int,
            |
                i < j < records.len() ==> components((#[trigger] records[j]).path@)
                    != c) implies cache.entry(c) == Some(records[i].entry) by {
            last_entry_is_the_last(records, c, i);
        }
        if forall|i: int|
            0 <= i < records.len() ==> components((#[trigger] records[i]).path@) != c {
            no_entry_without_a_record(records, c);
        }
    }
}

proof fn last_entry_is_the_last(records: Seq<CacheRecord>, c: Seq<Seq<u8>>, i: int)
    requires
        0 <= i < records.len(),
        components(records[i].path@) == c,
        forall|j: int|
            i < j < records.len() ==> components((#[trigger] records[j]).path@) != c,
    ensures
        last_entry(records, c) == Some(records[i].entry),
    decreases records.len(),
{
    if i < records.len() - 1 {
        let rest = records.drop_last();
        assert(components(records[records.len() - 1].path@) != c);
        assert forall|j: int| i < j < rest.len() implies components((#[trigger] rest[j]).path@)
            != c by {
            assert(rest[j] == records[j]);
        }
        last_entry_is_the_last(rest, c, i);
    }
}

proof fn no_entry_without_a_record(records: Seq<CacheRecord>, c: Seq<Seq<u8>>)
    requires
        forall|i: int|
            0 <= i < records.len() ==> components((#[trigger] records[i]).path@) != c,
    ensures
        last_entry(records, c) is None,
    decreases records.len(),
{
    if records.len() > 0 {
        let rest = records.drop_last();
        assert(components(records[records.len() - 1].path@) != c);
        assert forall|j: int| 0 <= j < rest.len() implies components((#[trigger] rest[j]).path@)
            != c by {
            assert(rest[j] == records[j]);
        }
        no_entry_without_a_record(rest, c);
    }
}

/// Without being asked for, or without a place, the cache is off and knows nothing.
pub proof fn a_cache_is_off_unless_asked_for(
    enabled: bool,
    min_size: u64,
    path: Option<FilePath>,
    load: CacheLoad,
    cache: HashCache,
    warning: Option<String>,
    file: Seq<u8>,
    size: u64,
    modified: Option<FileTime>,
)
    requires
        is_opened(enabled, min_size, path, load, cache, warning),
        !enabled || path is None,
    ensures
        !cache.in_use(),
        cache.place() is None,
        cache.hit(file, size, modified) is None,
        warning is Some <==> enabled,
{
}

} // verus!
