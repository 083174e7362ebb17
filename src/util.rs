//! Text helpers, digests, body validation and the downloader's header rules.
pub mod digests;
pub mod text;
pub mod validating_http_body;
pub mod validating_http_downloader;
pub mod change_kind;
