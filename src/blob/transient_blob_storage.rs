//! An in-memory blob store, for tests: each blob is kept whole with its digests.
use vstd::prelude::*;

use std::collections::HashMap;

use crate::blob::blob_storage::{BlobKey, RetrievedBlob};
use crate::blob::fs_blob_storage::new_key;
use crate::util::digests::{md5_of, sha1_of, BlobDigester};

verus! {

broadcast use vstd::std_specs::hash::group_hash_axioms;

/// Why an insert failed.
#[derive(Debug, Clone, Copy, PartialEq, Eq, Structural)]
pub enum StorageError {
    /// the new random key was already in use
    KeyCollision,
}

/// The bytes of the chunks, one after the other.
pub open spec fn concat_chunks(chunks: Seq<Vec<u8>>) -> Seq<u8>
    decreases chunks.len(),
{
    if chunks.len() == 0 {
        Seq::empty()
    } else {
        concat_chunks(chunks.drop_last()) + chunks.last()@
    }
}

/// A blob with digests that are those of its bytes.
pub open spec fn digests_match(b: RetrievedBlob) -> bool {
    b.md5@ == md5_of(b.data@) && b.sha1@ == sha1_of(b.data@)
}

/// In-memory blob storage.
pub struct TransientBlobStorage {
    data: HashMap<u128, RetrievedBlob>,
}

impl TransientBlobStorage {
    /// The stored bytes of each key.
    pub closed spec fn contents(&self) -> Map<u128, Seq<u8>> {
        self.data@.map_values(|b: RetrievedBlob| b.data@)
    }

    /// Every stored blob carries the digests of its bytes.
    pub closed spec fn wf(&self) -> bool {
        forall|k: u128| #[trigger] self.data@.contains_key(k) ==> digests_match(self.data@[k])
    }

    pub fn new() -> (r: TransientBlobStorage)
        ensures
            r.wf(),
            r.contents() == Map::<u128, Seq<u8>>::empty(),
    {
        let r = TransientBlobStorage { data: HashMap::new() };
        assert(r.contents() =~= Map::<u128, Seq<u8>>::empty());
        r
    }

    /// Stores the bytes of the chunks under a new random key; fails only if
    /// that key is already in use (never on an empty store).
    pub fn insert(&mut self, chunks: &Vec<Vec<u8>>) -> (r: Result<BlobKey, StorageError>)
        requires
            old(self).wf(),
        ensures
            final(self).wf(),
            match r {
                Ok(k) => !old(self).contents().contains_key(k.0) && final(self).contents() == old(
                    self,
                ).contents().insert(k.0, concat_chunks(chunks@)),
                Err(e) => e == StorageError::KeyCollision && final(self).contents() == old(
                    self,
                ).contents(),
            },
            r is Err ==> old(self).contents() != Map::<u128, Seq<u8>>::empty(),
    {
        let key = new_key();
        self.insert_with_key(key, chunks)
    }

    /// Stores the bytes of the chunks under `key`, unless `key` is in use.
    pub fn insert_with_key(&mut self, key: BlobKey, chunks: &Vec<Vec<u8>>) -> (r: Result<BlobKey, StorageError>)
        requires
            old(self).wf(),
        ensures
            final(self).wf(),
            r is Err <==> old(self).contents().contains_key(key.0),
            r is Ok ==> r == Ok::<_, StorageError>(key) && final(self).contents() == old(
                self,
            ).contents().insert(key.0, concat_chunks(chunks@)),
            r is Err ==> r == Err::<BlobKey, _>(StorageError::KeyCollision) && final(self).contents()
                == old(self).contents(),
            r is Err ==> old(self).contents() != Map::<u128, Seq<u8>>::empty(),
    {
        if self.data.contains_key(&key.0) {
            assert(self.contents().contains_key(key.0));
            assert(!Map::<u128, Seq<u8>>::empty().contains_key(key.0));
            return Err(StorageError::KeyCollision);
        }
        let mut bytes: Vec<u8> = Vec::new();
        let mut digester = BlobDigester::new();
        let mut i: usize = 0;
        while i < chunks.len()
            invariant
                i <= chunks@.len(),
                bytes@ == concat_chunks(chunks@.subrange(0, i as int)),
                digester.wf(),
                digester.consumed() == bytes@,
                self == old(self),
            decreases chunks@.len() - i,
        {
            let chunk = &chunks[i];
            assert(chunks@.subrange(0, i + 1).drop_last() =~= chunks@.subrange(0, i as int));
            digester.add(chunk.as_slice());
            bytes.extend_from_slice(chunk.as_slice());
            i = i + 1;
        }
        assert(chunks@.subrange(0, chunks@.len() as int) =~= chunks@);
        let (sha1, md5) = digester.finish();
        let blob = RetrievedBlob { md5, sha1, data: bytes };
        self.data.insert(key.0, blob);
        assert(self.contents() =~= old(self).contents().insert(key.0, concat_chunks(chunks@)));
        Ok(key)
    }

    /// The blob under `key`, with the digests of its bytes; none if absent.
    pub fn get(&self, key: &BlobKey) -> (r: Option<RetrievedBlob>)
        requires
            self.wf(),
        ensures
            match r {
                Some(b) => self.contents().contains_key(key.0) && b.data@ == self.contents()[key.0]
                    && digests_match(b),
                None => !self.contents().contains_key(key.0),
            },
    {
        match self.data.get(&key.0) {
            Some(b) => {
                let mut data: Vec<u8> = Vec::new();
                data.extend_from_slice(b.data.as_slice());
                Some(RetrievedBlob { data, md5: b.md5, sha1: b.sha1 })
            },
            None => None,
        }
    }

    /// Removes the blob under `key`; true iff there was one.
    pub fn delete(&mut self, key: &BlobKey) -> (r: bool)
        requires
            old(self).wf(),
        ensures
            final(self).wf(),
            r == old(self).contents().contains_key(key.0),
            final(self).contents() == old(self).contents().remove(key.0),
    {
        let r = self.data.remove(&key.0).is_some();
        assert(self.contents() =~= old(self).contents().remove(key.0));
        r
    }
}

} // verus!
