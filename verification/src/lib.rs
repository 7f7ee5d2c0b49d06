//! The concurrent hashing engine of a checksum-manifest tool: digest
//! computation, the manifest-record grammar, a lazy directory enumerator,
//! and the task scheduling protocol of a bounded worker pool.
pub mod grammar;
pub mod hashing;
pub mod options;
pub mod pool;
pub mod text;
pub mod walker;
