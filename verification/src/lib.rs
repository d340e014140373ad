//! # iqdb-persist
//!
//! On-disk persistence for the **iQDB** vector database: atomic snapshot save
//! and load with a versioned file header and a CRC32 integrity check, a
//! write-ahead log with crash recovery, and optional payload compression,
//! generic over any index that implements [`Persistable`].
//!
//! The crate decides and computes; it performs no I/O. What has to be done on
//! disk comes out as [`DiskAction`]s and, for the atomic replacement of a file,
//! as [`storage::WriteStep`]s; what was found there goes in as bytes.
//!
//! - [`Persistable`]: the trait an index implements.
//! - [`PersistedIndex`]: wraps an index and carries it through save, load,
//!   logged mutation, checkpoint and recovery.
//! - [`FileHeader`], [`MAGIC`], [`CURRENT_VERSION`] and [`mod@format`]: the file
//!   header; [`snapshot`] and [`compression`]: what stands behind it.
//! - [`wal`] and [`recovery`]: the log and its replay.
//! - [`storage`]: atomic replacement of a file.
//! - [`checksum`]: the CRC32 helpers.
//! - [`PersistError`] and [`Result`]: the error surface.
//!
//! What holds of these pieces together is stated and proved in
//! [`snapshot_laws`], [`wal_laws`] and [`persisted_laws`]; what a caller can rely
//! on, call by call and from one call to the next, in [`lifecycle_laws`],
//! [`loading_laws`], [`encoding_laws`] and [`report_laws`].

use vstd::prelude::*;

pub mod bytes;
pub mod checksum;
pub mod compression;
pub mod config;
pub mod encoding_laws;
pub mod error;
pub mod format;
pub mod lifecycle_laws;
pub mod loading_laws;
pub mod persistable;
pub mod persisted;
pub mod persisted_laws;
pub mod recovery;
pub mod report_laws;
pub mod snapshot;
pub mod snapshot_laws;
pub mod storage;
pub mod text;
pub mod types;
pub mod wal;
pub mod wal_laws;

pub use crate::compression::Codecs;
pub use crate::config::{Compression, FsyncPolicy, PersistConfig};
pub use crate::error::{PersistError, Result};
pub use crate::format::{FileHeader, CURRENT_VERSION, MAGIC};
pub use crate::persistable::Persistable;
pub use crate::persisted::{DiskAction, LogOutcome, Mutation, Opened, Pending, PersistedIndex, Rollback};
pub use crate::types::{DistanceMetric, Entry, Metadata, Value, VectorId};
pub use crate::wal::WalRecord;

verus! {

/// The crate version.
pub const VERSION: &'static str = "0.5.0";

} // verus!
