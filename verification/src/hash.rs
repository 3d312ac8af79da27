//! Content hashes of file data.

use vstd::prelude::*;

verus! {

/// The incremental hasher of the `blake3` crate.
#[verifier::external_type_specification]
#[verifier::external_body]
pub struct ExHasher(blake3::Hasher);

/// The bytes that were fed to a hasher so far.
pub uninterp spec fn hasher_input(hasher: blake3::Hasher) -> Seq<u8>;

/// Whether a hasher computes the regular hash from the first input byte on,
/// neither a keyed hash nor that of a subtree.
pub uninterp spec fn hasher_is_regular(hasher: blake3::Hasher) -> bool;

/// The BLAKE3 hash of an input.
pub uninterp spec fn blake3_digest(input: Seq<u8>) -> Seq<u8>;

/// Calls `blake3::Hasher::new`: a hasher for the regular hash function that
/// was fed nothing yet.
#[verifier::external_body]
fn new_hasher() -> (hasher: blake3::Hasher)
    ensures
        hasher_is_regular(hasher),
        hasher_input(hasher) == Seq::<u8>::empty(),
{
    blake3::Hasher::new()
}

/// Calls `blake3::Hasher::update`, which feeds the bytes behind those that the
/// hasher was fed before.
#[verifier::external_body]
fn feed_hasher(hasher: &mut blake3::Hasher, input: &[u8])
    requires
        hasher_is_regular(*old(hasher)),
    ensures
        hasher_is_regular(*final(hasher)),
        hasher_input(*final(hasher)) == hasher_input(*old(hasher)) + input@,
{
    hasher.update(input);
}

/// Calls `blake3::Hasher::finalize`, which gives the hash of all that the
/// hasher was fed, in 32 bytes.
#[verifier::external_body]
fn finalize_hasher(hasher: &blake3::Hasher) -> (digest: [u8; 32])
    requires
        hasher_is_regular(*hasher),
    ensures
        digest@ == blake3_digest(hasher_input(*hasher)),
{
    *hasher.finalize().as_bytes()
}

/// A content hash that is computed while a file is read piece by piece.
pub struct StreamHasher {
    hasher: blake3::Hasher,
    size: u64,
}

impl StreamHasher {
    /// The bytes hashed so far.
    pub closed spec fn view(&self) -> Seq<u8> {
        hasher_input(self.hasher)
    }

    #[verifier::type_invariant]
    spec fn inv(self) -> bool {
        hasher_is_regular(self.hasher) && self.size == hasher_input(self.hasher).len()
    }

    /// A hash of nothing.
    pub fn new() -> (stream: StreamHasher)
        ensures
            stream@ == Seq::<u8>::empty(),
    {
        StreamHasher { hasher: new_hasher(), size: 0 }
    }

    /// Takes in the next piece of a file.
    pub fn update(self, piece: &[u8]) -> (stream: StreamHasher)
        requires
            self@.len() + piece@.len() <= u64::MAX,
        ensures
            stream@ == self@ + piece@,
    {
        proof {
            use_type_invariant(&self);
        }
        let size: u64 = self.size + piece.len() as u64;
        let mut hasher = self.hasher;
        feed_hasher(&mut hasher, piece);
        StreamHasher { hasher, size }
    }

    /// The hash and the size of what was taken in.
    pub fn finish(&self) -> (digest: ([u8; 32], u64))
        ensures
            digest.0@ == blake3_digest(self@),
            digest.1 == self@.len(),
    {
        proof {
            use_type_invariant(self);
        }
        (finalize_hasher(&self.hasher), self.size)
    }
}

/// The BLAKE3 hash and the size of data that was already read.
pub fn hash_data(data: &[u8]) -> (digest: ([u8; 32], u64))
    ensures
        digest.0@ == blake3_digest(data@),
        digest.1 == data@.len(),
{
    let mut hasher = new_hasher();
    feed_hasher(&mut hasher, data);
    assert(Seq::<u8>::empty() + data@ =~= data@);
    (finalize_hasher(&hasher), data.len() as u64)
}

/// Whether two hashes are the same.
pub fn hash_eq(a: &[u8; 32], b: &[u8; 32]) -> (same: bool)
    ensures
        same == (*a == *b),
{
    let same = crate::path::bytes_eq(a.as_slice(), b.as_slice());
    assert(same ==> *a =~= *b);
    same
}

} // verus!
