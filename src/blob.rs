//! Blob storage: the key type, the in-memory store and the rules of the
//! file-system store.
pub mod blob_storage;
pub mod fs_blob_storage;
pub mod transient_blob_storage;
