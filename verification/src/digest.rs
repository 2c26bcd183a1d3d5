//! Content digests: XXH3-64 over the whole content of a file, taken in
//! chunk by chunk.

use vstd::prelude::*;
use vstd::slice::slice_subrange;
use xxhash_rust::xxh3::Xxh3;

verus! {

/// Size of the chunks in which content is read, in bytes.
pub const READ_BUFFER_SIZE: usize = 256 * 1024;

/// `xxhash_rust::xxh3::Xxh3`, the streaming XXH3 hasher. Nothing inside a
/// value is visible to the verifier.
#[verifier::external_type_specification]
#[verifier::external_body]
pub struct ExXxh3(Xxh3);

/// The bytes that a hasher has taken in since it was made or last reset,
/// in order.
pub uninterp spec fn xxh3_absorbed(hasher: Xxh3) -> Seq<u8>;

/// Whether a hasher works with the default seed and the default secret.
pub uninterp spec fn xxh3_default_keyed(hasher: Xxh3) -> bool;

/// The 64-bit XXH3 hash, with the default seed and secret, of a byte
/// string.
pub uninterp spec fn xxh3_digest(content: Seq<u8>) -> u64;

/// `Xxh3::new` makes a hasher with the default seed and secret that has
/// taken in nothing yet.
pub assume_specification[ Xxh3::new ]() -> (hasher: Xxh3)
    ensures
        xxh3_default_keyed(hasher),
        xxh3_absorbed(hasher) == Seq::<u8>::empty(),
;

/// `Xxh3::reset` forgets all that was taken in and keeps seed and secret.
pub assume_specification[ Xxh3::reset ](hasher: &mut Xxh3)
    ensures
        xxh3_default_keyed(*final(hasher)) == xxh3_default_keyed(*old(hasher)),
        xxh3_absorbed(*final(hasher)) == Seq::<u8>::empty(),
;

/// `Xxh3::update` takes in the bytes of `input` behind those taken in
/// before and keeps seed and secret.
pub assume_specification[ Xxh3::update ](hasher: &mut Xxh3, input: &[u8])
    ensures
        xxh3_default_keyed(*final(hasher)) == xxh3_default_keyed(*old(hasher)),
        xxh3_absorbed(*final(hasher)) == xxh3_absorbed(*old(hasher)) + input@,
;

/// `Xxh3::digest` of a hasher with the default seed and secret is the
/// XXH3-64 hash of all bytes taken in, however they were cut into chunks.
/// The hasher is left as it was.
pub assume_specification[ Xxh3::digest ](hasher: &Xxh3) -> (digest: u64)
    ensures
        xxh3_default_keyed(*hasher) ==> digest == xxh3_digest(xxh3_absorbed(*hasher)),
;

/// The hash context of one worker: a streaming XXH3 hasher with the
/// default seed and secret.
pub struct ContentHasher {
    state: Xxh3,
}

impl ContentHasher {
    /// Whether the hasher works with the default seed and secret, as
    /// every hasher does that [`ContentHasher::new`] has made.
    pub closed spec fn wf(&self) -> bool {
        xxh3_default_keyed(self.state)
    }

    /// The bytes taken in since the hasher was made or last reset.
    pub closed spec fn absorbed(&self) -> Seq<u8> {
        xxh3_absorbed(self.state)
    }

    /// A hasher that has taken in nothing.
    pub fn new() -> (hasher: ContentHasher)
        ensures
            hasher.wf(),
            hasher.absorbed() == Seq::<u8>::empty(),
    {
        ContentHasher { state: Xxh3::new() }
    }

    /// Forgets all that was taken in, before another file is begun.
    pub fn reset(&mut self)
        requires
            old(self).wf(),
        ensures
            final(self).wf(),
            final(self).absorbed() == Seq::<u8>::empty(),
    {
        self.state.reset();
    }

    /// Feeds one chunk of a file to the hasher. An empty chunk marks the
    /// end of the file: the digest of everything taken in is returned.
    /// After any other chunk there is more to read and nothing is
    /// returned.
    pub fn hash_chunk(&mut self, chunk: &[u8]) -> (digest: Option<u64>)
        requires
            old(self).wf(),
        ensures
            final(self).wf(),
            final(self).absorbed() == old(self).absorbed() + chunk@,
            digest == if chunk@.len() == 0 {
                Some(xxh3_digest(old(self).absorbed()))
            } else {
                None
            },
    {
        self.state.update(chunk);
        if chunk.len() == 0 {
            assert(self.absorbed() =~= old(self).absorbed());
            Some(self.state.digest())
        } else {
            None
        }
    }
}

/// Computes the digest of `content` with `hasher`, whatever the hasher
/// took in before. The content is fed in chunks of [`READ_BUFFER_SIZE`]
/// bytes; the digest does not depend on that size.
pub fn compute_xxh(hasher: &mut ContentHasher, content: &[u8]) -> (digest: u64)
    requires
        old(hasher).wf(),
    ensures
        final(hasher).wf(),
        digest == xxh3_digest(content@),
        final(hasher).absorbed() == content@,
{
    hasher.reset();
    let mut offset: usize = 0;
    loop
        invariant
            hasher.wf(),
            offset <= content.len(),
            hasher.absorbed() == content@.take(offset as int),
        decreases content.len() - offset,
    {
        let rest: usize = content.len() - offset;
        let count: usize = if rest < READ_BUFFER_SIZE {
            rest
        } else {
            READ_BUFFER_SIZE
        };
        let chunk = slice_subrange(content, offset, offset + count);
        assert(content@.take(offset as int) + chunk@ =~= content@.take(offset + count));
        let finished = hasher.hash_chunk(chunk);
        offset = offset + count;
        match finished {
            Some(digest) => {
                assert(content@.take(offset as int) =~= content@);
                return digest;
            },
            None => {},
        }
    }
}

/// Number of hashing workers for a machine that can run `available`
/// threads at once: one fewer than that, and at least one.
pub fn worker_count(available: usize) -> (workers: usize)
    ensures
        workers == vstd::math::max(available - 1, 1),
{
    if available <= 2 {
        1
    } else {
        available - 1
    }
}

} // verus!
