use vstd::prelude::*;

verus! {

/// The key of a stored blob: a random (version 4) UUID, as its 128-bit value.
#[derive(Debug, Clone, Copy, PartialEq, Eq, Hash, Structural)]
pub struct BlobKey(pub u128);

/// A blob as a store hands it out: its bytes and both digests.
#[derive(Debug, Clone, PartialEq, Eq)]
pub struct RetrievedBlob {
    pub data: Vec<u8>,
    pub md5: [u8; 16],
    pub sha1: [u8; 20],
}

} // verus!
