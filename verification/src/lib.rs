//! A disk-backed key-value cache keyed by filesystem paths.
//!
//! The store keeps the whole mapping in memory, counts mutations, and, when
//! the configured autosave threshold is crossed, produces a crash-safe write
//! plan: the full snapshot is encoded into a sibling temporary file and then
//! atomically renamed over the target path. The caller performs the actual
//! file operations and reports their outcome back.

pub mod base_fs_cache;
pub mod codec;
pub mod errors;

pub use base_fs_cache::BaseFsCache;
pub use base_fs_cache::DiskImage;
pub use base_fs_cache::SaveOutcome;
pub use base_fs_cache::SavePlan;
pub use base_fs_cache::save_result;
pub use errors::FsCacheErrorKind;
pub use errors::FsCacheResult;
