//! A caching, validating proxy core for Maven-style artifact repositories: the
//! coordinate and path grammar, streaming body validation, blob storage rules and
//! the cache coordinator.
pub mod blob;
pub mod maven;
pub mod util;
