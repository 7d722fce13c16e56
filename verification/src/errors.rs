//! The error taxonomy shared by every component of the cache.

use vstd::prelude::*;

verus! {

/// Fatal persistence failures and the recoverable missing-key condition.
///
/// Every fatal kind carries the cause of the underlying failure, rendered as
/// text, together with the cache file path it concerns. `KeyMissingError` is
/// ordinary control flow for callers probing cache membership: it carries the
/// key that was absent.
#[derive(Debug, Clone, PartialEq, Eq)]
pub enum FsCacheErrorKind {
    /// Directory creation, file open, or atomic-replace failure.
    CacheFileIoError { src: String, path: String },
    /// Encoding failure while producing a snapshot.
    SerializationError { src: String, path: String },
    /// Decoding failure while loading a snapshot.
    DeserializationError { src: String, path: String },
    /// The probed key is not present in the store.
    KeyMissingError(String),
}

pub type FsCacheResult<T> = Result<T, FsCacheErrorKind>;

/// The error is a `CacheFileIoError` for the file at `p`.
pub open spec fn io_error_for(e: FsCacheErrorKind, p: Seq<char>) -> bool {
    e matches FsCacheErrorKind::CacheFileIoError { path, .. } && path@ == p
}

/// The error is a `CacheFileIoError` for the file at `p`, carrying `cause`.
pub open spec fn io_error_with(e: FsCacheErrorKind, cause: Seq<char>, p: Seq<char>) -> bool {
    e matches FsCacheErrorKind::CacheFileIoError { src, path } && src@ == cause && path@ == p
}

/// The error is a `SerializationError` for the file at `p`, carrying `cause`.
pub open spec fn serialization_error_with(e: FsCacheErrorKind, cause: Seq<char>, p: Seq<char>) -> bool {
    e matches FsCacheErrorKind::SerializationError { src, path } && src@ == cause && path@ == p
}

/// The error is a `DeserializationError` for the file at `p`.
pub open spec fn deserialization_error_for(e: FsCacheErrorKind, p: Seq<char>) -> bool {
    e matches FsCacheErrorKind::DeserializationError { path, .. } && path@ == p
}

/// The error is a `KeyMissingError` carrying the key `k`.
pub open spec fn key_missing_for(e: FsCacheErrorKind, k: Seq<char>) -> bool {
    e matches FsCacheErrorKind::KeyMissingError(key) && key@ == k
}

} // verus!
