//! Hashing file contents as they are read, piece by piece.

use vstd::prelude::*;

verus! {

/// How much of the front of a file the head hash covers.
pub const HEAD_HASH_BYTES: u64 = 16_384;

/// The incremental hash state of the `blake3` crate.
#[verifier::external_type_specification]
#[verifier::external_body]
pub struct ExHasher(blake3::Hasher);

/// The bytes that a `blake3::Hasher` was given so far.
pub uninterp spec fn absorbed(hasher: blake3::Hasher) -> Seq<u8>;

/// The 32 bytes that `blake3::Hasher::finalize` returns for some content.
pub uninterp spec fn content_hash(content: Seq<u8>) -> Seq<u8>;

/// `blake3::Hasher::new`: a state that was given nothing.
#[verifier::external_body]
fn new_hasher() -> (h: blake3::Hasher)
    ensures
        absorbed(h) == Seq::<u8>::empty(),
{
    blake3::Hasher::new()
}

/// `blake3::Hasher::update`: the bytes follow those given before. It may be
/// called any number of times, up to the length that the hash can count.
#[verifier::external_body]
fn absorb(h: &mut blake3::Hasher, bytes: &[u8])
    requires
        absorbed(*old(h)).len() + bytes@.len() <= u64::MAX,
    ensures
        absorbed(*final(h)) == absorbed(*old(h)) + bytes@,
{
    h.update(bytes);
}

/// `blake3::Hasher::finalize`: the hash depends on the bytes given and on
/// nothing else, whatever the pieces were.
#[verifier::external_body]
fn digest(h: &blake3::Hasher) -> (r: [u8; 32])
    ensures
        r@ == content_hash(absorbed(*h)),
{
    *h.finalize().as_bytes()
}

/// The part of `content` that a hash with this limit covers.
pub open spec fn covered(content: Seq<u8>, limit: Option<u64>) -> Seq<u8> {
    if limit is Some && limit->0 < content.len() {
        content.take(limit->0 as int)
    } else {
        content
    }
}

/// The hash of a file's contents, or of its head, fed as it is read.
pub struct ContentHasher {
    hasher: blake3::Hasher,
    read: u64,
    limit: Option<u64>,
}

impl ContentHasher {
    /// The bytes that were taken in.
    pub closed spec fn content(self) -> Seq<u8> {
        absorbed(self.hasher)
    }

    /// How many bytes at most are taken in.
    pub closed spec fn bound(self) -> Option<u64> {
        self.limit
    }

    /// The count agrees with the content, and the bound is kept.
    pub closed spec fn wf(self) -> bool {
        &&& self.read == absorbed(self.hasher).len()
        &&& self.limit is Some ==> self.read <= self.limit->0
    }

    /// Hash a whole file.
    pub fn whole() -> (h: Self)
        ensures
            h.wf(),
            h.content() == Seq::<u8>::empty(),
            h.bound() is None,
    {
        ContentHasher { hasher: new_hasher(), read: 0, limit: None }
    }

    /// Hash at most the first `limit` bytes.
    pub fn prefix(limit: u64) -> (h: Self)
        ensures
            h.wf(),
            h.content() == Seq::<u8>::empty(),
            h.bound() == Some(limit),
    {
        ContentHasher { hasher: new_hasher(), read: 0, limit: Some(limit) }
    }

    /// Whether more bytes would still change the hash.
    pub fn wants_more(&self) -> (b: bool)
        requires
            self.wf(),
        ensures
            b == !(self.bound() is Some && self.content().len() >= self.bound()->0),
    {
        match self.limit {
            Some(limit) => self.read < limit,
            None => true,
        }
    }

    /// Take in the next piece of the file, as far as the bound allows.
    pub fn feed(&mut self, chunk: &[u8])
        requires
            old(self).wf(),
            old(self).content().len() + chunk@.len() <= u64::MAX,
        ensures
            final(self).wf(),
            final(self).bound() == old(self).bound(),
            final(self).content() == covered(old(self).content() + chunk@, old(self).bound()),
    {
        let mut take: usize = chunk.len();
        if let Some(limit) = self.limit {
            let room: u64 = limit - self.read;
            if (take as u64) > room {
                take = room as usize;
            }
        }
        let ghost before = self.content();
        let part = vstd::slice::slice_subrange(chunk, 0, take);
        absorb(&mut self.hasher, part);
        self.read += take as u64;
        proof {
            assert(self.content() == before + chunk@.take(take as int));
            assert(before + chunk@.take(take as int) =~= covered(before + chunk@, self.limit));
        }
    }

    /// The hash, and how many bytes it covers.
    pub fn finish(&self) -> (r: ([u8; 32], u64))
        requires
            self.wf(),
        ensures
            r.0@ == content_hash(self.content()),
            r.1 == self.content().len(),
    {
        (digest(&self.hasher), self.read)
    }
}

/// It does not matter where a file is cut into pieces: feeding two pieces one
/// after the other takes in what feeding them at once does.
pub proof fn pieces_do_not_matter(
    before: Seq<u8>,
    limit: Option<u64>,
    first: Seq<u8>,
    second: Seq<u8>,
)
    ensures
        covered(covered(before + first, limit) + second, limit) == covered(
            before + (first + second),
            limit,
        ),
{
    let whole = before + (first + second);
    assert(before + first + second =~= whole);
    assert(covered(covered(before + first, limit) + second, limit) =~= covered(whole, limit));
}

/// Of a file that is longer than the limit only the head counts: files that start with
/// the same bytes have the same head hash, whatever follows.
pub proof fn equal_starts_have_equal_heads(a: Seq<u8>, b: Seq<u8>, limit: u64)
    requires
        a.len() >= limit,
        b.len() >= limit,
        a.take(limit as int) == b.take(limit as int),
    ensures
        content_hash(covered(a, Some(limit))) == content_hash(covered(b, Some(limit))),
{
    assert(a.take(a.len() as int) =~= a);
    assert(b.take(b.len() as int) =~= b);
}

/// A hash with a limit covers the first bytes of the content in their order, as many as the
/// limit allows, and one without a limit all of them.
pub proof fn a_head_is_the_start(content: Seq<u8>, limit: u64, i: int)
    ensures
        covered(content, None) == content,
        covered(content, Some(limit)).len() == if content.len() < limit {
            content.len() as int
        } else {
            limit as int
        },
        0 <= i < content.len() && i < limit ==> covered(content, Some(limit))[i] == content[i],
        HEAD_HASH_BYTES == 16 * 1024,
{
}

} // verus!
