//! Content hashing for blocks.

use vstd::prelude::*;

verus! {

/// The number of bytes of a block header that come before the digest.
pub const FIXED_HEADER_SIZE: usize = 20;

/// A content hash of fixed width.
///
/// The digest is a function of the input alone and always has
/// `digest_width()` bytes. A hasher may keep the last digest it produced;
/// that never changes what it returns.
pub trait BlockHasher: Sized {
    /// The number of bytes in every digest.
    spec fn digest_width() -> nat;

    /// The digest of `input`.
    spec fn digest(input: Seq<u8>) -> Seq<u8>;

    /// Every digest has the advertised width.
    proof fn digest_has_width(input: Seq<u8>)
        ensures
            Self::digest(input).len() == Self::digest_width(),
    ;

    /// A header that ends in a digest has a size that fits in `usize`.
    proof fn header_fits()
        ensures
            FIXED_HEADER_SIZE + Self::digest_width() <= usize::MAX,
    ;

    /// Create an instance.
    fn create() -> Self;

    /// The digest of `input`.
    fn hash(&mut self, input: &[u8]) -> (out: &[u8])
        ensures
            out@ == Self::digest(input@),
    ;

    /// The number of bytes in every digest.
    fn size() -> (width: usize)
        ensures
            width == Self::digest_width(),
    ;
}

/// What BLAKE3 returns for `input` in its default mode: 32 bytes.
pub uninterp spec fn blake3_digest(input: Seq<u8>) -> [u8; 32];

/// Calls `blake3::hash` and copies the bytes of the `Hash` it returns. The
/// contract names that result; it says nothing of how BLAKE3 mixes its input.
#[verifier::external_body]
fn blake3_hash(input: &[u8]) -> (out: [u8; 32])
    ensures
        out == blake3_digest(input@),
{
    *blake3::hash(input).as_bytes()
}

/// The BLAKE3 hasher: 32-byte digests.
#[derive(Debug, PartialEq)]
pub struct B3BlockHasher {
    /// The last digest produced, all zero before the first.
    pub hash_value: [u8; 32],
}

impl Default for B3BlockHasher {
    fn default() -> (hasher: Self)
        ensures
            hasher.hash_value@ == Seq::new(32, |i: int| 0u8),
    {
        B3BlockHasher { hash_value: [0; 32] }
    }
}

impl BlockHasher for B3BlockHasher {
    open spec fn digest_width() -> nat {
        32
    }

    open spec fn digest(input: Seq<u8>) -> Seq<u8> {
        blake3_digest(input)@
    }

    proof fn digest_has_width(input: Seq<u8>) {
    }

    proof fn header_fits() {
    }

    fn create() -> (hasher: Self)
        ensures
            hasher.hash_value@ == Seq::new(32, |i: int| 0u8),
    {
        B3BlockHasher { hash_value: [0; 32] }
    }

    fn hash(&mut self, input: &[u8]) -> (out: &[u8])
        ensures
            final(self).hash_value@ == Self::digest(input@),
    {
        self.hash_value = blake3_hash(input);
        &self.hash_value
    }

    fn size() -> (width: usize) {
        32
    }
}

/// The hasher of files without integrity data: its digest is empty.
#[derive(Debug)]
pub struct NullBlockHasher {}

impl Default for NullBlockHasher {
    fn default() -> Self {
        NullBlockHasher {}
    }
}

impl BlockHasher for NullBlockHasher {
    open spec fn digest_width() -> nat {
        0
    }

    open spec fn digest(input: Seq<u8>) -> Seq<u8> {
        Seq::<u8>::empty()
    }

    proof fn digest_has_width(input: Seq<u8>) {
    }

    proof fn header_fits() {
    }

    fn create() -> Self {
        NullBlockHasher {}
    }

    fn hash(&mut self, _input: &[u8]) -> (out: &[u8]) {
        &[]
    }

    fn size() -> (width: usize) {
        0
    }
}

} // verus!
