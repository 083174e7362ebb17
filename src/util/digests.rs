//! SHA-1 and MD5, computed incrementally by the `sha1` and `md5` crates.
use vstd::prelude::*;

use sha1::Digest;

verus! {

/// The SHA-1 digest of a byte sequence (20 bytes), as the `sha1` crate computes it.
pub uninterp spec fn sha1_of(data: Seq<u8>) -> Seq<u8>;

/// The MD5 digest of a byte sequence (16 bytes), as the `md5` crate computes it.
pub uninterp spec fn md5_of(data: Seq<u8>) -> Seq<u8>;

/// A running SHA-1 computation of the `sha1` crate. It is held in a struct of
/// this library because `sha1::Sha1` is an alias of digest's generic
/// `CoreWrapper`, whose `where` clause cannot be declared to Verus; its
/// contents are named by `sha1_consumed` as those of `md5::Context` are.
#[verifier::external_body]
pub struct Sha1Hasher {
    inner: sha1::Sha1,
}

/// The bytes that a running SHA-1 computation has consumed.
pub uninterp spec fn sha1_consumed(h: Sha1Hasher) -> Seq<u8>;

#[verifier::external_type_specification]
#[verifier::external_body]
pub struct ExMd5Context(md5::Context);

/// The bytes that a running MD5 computation has consumed.
pub uninterp spec fn md5_consumed(c: md5::Context) -> Seq<u8>;

/// Relies on sha1's `Digest::new`: a computation that has consumed nothing.
#[verifier::external_body]
pub(crate) fn sha1_start() -> (r: Sha1Hasher)
    ensures
        sha1_consumed(r) == Seq::<u8>::empty(),
{
    Sha1Hasher { inner: sha1::Sha1::new() }
}

/// Relies on sha1's `Digest::update`: `data` is consumed after what came before.
#[verifier::external_body]
pub(crate) fn sha1_update(h: &mut Sha1Hasher, data: &[u8])
    ensures
        sha1_consumed(*final(h)) == sha1_consumed(*old(h)) + data@,
{
    h.inner.update(data);
}

/// Relies on sha1's `Digest::finalize`, on a clone: the digest of what was consumed.
#[verifier::external_body]
pub(crate) fn sha1_finish(h: &Sha1Hasher) -> (r: [u8; 20])
    ensures
        r@ == sha1_of(sha1_consumed(*h)),
{
    h.inner.clone().finalize().into()
}

/// Relies on `md5::Context::new`: a computation that has consumed nothing.
#[verifier::external_body]
pub(crate) fn md5_start() -> (r: md5::Context)
    ensures
        md5_consumed(r) == Seq::<u8>::empty(),
{
    md5::Context::new()
}

/// Relies on `md5::Context::consume`: `data` is consumed after what came before.
#[verifier::external_body]
pub(crate) fn md5_update(c: &mut md5::Context, data: &[u8])
    ensures
        md5_consumed(*final(c)) == md5_consumed(*old(c)) + data@,
{
    c.consume(data);
}

/// Relies on `md5::Context::compute`, on a clone: the digest of what was consumed.
#[verifier::external_body]
pub(crate) fn md5_finish(c: &md5::Context) -> (r: [u8; 16])
    ensures
        r@ == md5_of(md5_consumed(*c)),
{
    c.clone().compute().into()
}

/// Both digests of a byte stream, computed as it passes.
pub struct BlobDigester {
    sha1: Sha1Hasher,
    md5: md5::Context,
}

impl BlobDigester {
    /// The bytes seen so far.
    pub closed spec fn consumed(&self) -> Seq<u8> {
        sha1_consumed(self.sha1)
    }

    pub closed spec fn wf(&self) -> bool {
        md5_consumed(self.md5) == sha1_consumed(self.sha1)
    }

    pub fn new() -> (r: BlobDigester)
        ensures
            r.wf(),
            r.consumed() == Seq::<u8>::empty(),
    {
        BlobDigester { sha1: sha1_start(), md5: md5_start() }
    }

    pub fn add(&mut self, data: &[u8])
        requires
            old(self).wf(),
        ensures
            final(self).wf(),
            final(self).consumed() == old(self).consumed() + data@,
    {
        sha1_update(&mut self.sha1, data);
        md5_update(&mut self.md5, data);
    }

    /// The SHA-1 and MD5 digests of the bytes seen.
    pub fn finish(&self) -> (r: ([u8; 20], [u8; 16]))
        requires
            self.wf(),
        ensures
            r.0@ == sha1_of(self.consumed()),
            r.1@ == md5_of(self.consumed()),
    {
        (sha1_finish(&self.sha1), md5_finish(&self.md5))
    }
}

} // verus!
