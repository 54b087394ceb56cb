//! SHA-256 of the received file, computed by the `sha2` crate as the bytes
//! arrive.

use vstd::prelude::*;

verus! {

/// A running SHA-256 computation over the bytes fed so far. It holds a
/// `sha2::Sha256` in a private field and is only touched through the three
/// methods below.
#[verifier::external_body]
pub struct Sha256Hasher {
    inner: sha2::Sha256,
}

/// The bytes fed to a hasher since it was made, in order.
pub uninterp spec fn hashed_bytes(h: Sha256Hasher) -> Seq<u8>;

/// The SHA-256 digest of `data`, as `sha2` computes it.
pub uninterp spec fn sha256_of(data: Seq<u8>) -> Seq<u8>;

impl Sha256Hasher {
    /// Calls `<sha2::Sha256 as Digest>::new`: a hasher that has been fed nothing.
    #[verifier::external_body]
    pub(crate) fn new() -> (h: Sha256Hasher)
        ensures
            hashed_bytes(h) == Seq::<u8>::empty(),
    {
        Sha256Hasher { inner: <sha2::Sha256 as sha2::Digest>::new() }
    }

    /// Calls `Digest::update`: `data` is appended to what the hasher has been fed.
    #[verifier::external_body]
    pub(crate) fn update(&mut self, data: &[u8])
        ensures
            hashed_bytes(*final(self)) == hashed_bytes(*old(self)) + data@,
    {
        sha2::Digest::update(&mut self.inner, data)
    }

    /// Calls `Digest::finalize`: the 32-byte SHA-256 digest of everything fed.
    #[verifier::external_body]
    pub(crate) fn finalize(self) -> (d: [u8; 32])
        ensures
            d@ == sha256_of(hashed_bytes(self)),
    {
        sha2::Digest::finalize(self.inner).into()
    }
}

} // verus!
