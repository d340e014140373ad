//! Configuration: what to persist where, and how durably.

use std::path::PathBuf;
use std::time::Duration;

use vstd::prelude::*;

verus! {

/// How aggressively the persistence layer fsyncs to durable storage.
#[derive(Debug, Clone, Copy, PartialEq, Eq)]
pub enum FsyncPolicy {
    /// fsync every write.
    Always,
    /// fsync the log no more often than this interval. Snapshot writes are
    /// fsynced as under `Always`.
    Periodic(Duration),
    /// Never fsync. Fastest, weakest durability.
    Never,
}

impl FsyncPolicy {
    /// Whether a snapshot write is fsynced.
    pub open spec fn syncs_snapshot(self) -> bool {
        self !is Never
    }

    /// Whether a log append is fsynced, given whether the policy's interval
    /// has passed since the last fsync.
    pub open spec fn syncs_log(self, interval_passed: bool) -> bool {
        match self {
            FsyncPolicy::Always => true,
            FsyncPolicy::Periodic(_) => interval_passed,
            FsyncPolicy::Never => false,
        }
    }

    /// Whether a snapshot write is to be fsynced.
    pub fn sync_snapshot(self) -> (sync: bool)
        ensures
            sync == self.syncs_snapshot(),
    {
        match self {
            FsyncPolicy::Never => false,
            _ => true,
        }
    }

    /// Whether a log append is to be fsynced, given whether the policy's
    /// interval has passed since the last fsync.
    pub fn sync_log(self, interval_passed: bool) -> (sync: bool)
        ensures
            sync == self.syncs_log(interval_passed),
    {
        match self {
            FsyncPolicy::Always => true,
            FsyncPolicy::Periodic(_) => interval_passed,
            FsyncPolicy::Never => false,
        }
    }
}

/// Whether a flush interval has passed, in nanoseconds, given how long ago the
/// last flush was, if there was one.
pub fn interval_passed(since_last: Option<u128>, interval: u128) -> (passed: bool)
    ensures
        passed == (since_last matches Some(elapsed) ==> elapsed >= interval),
{
    match since_last {
        Some(elapsed) => elapsed >= interval,
        None => true,
    }
}

/// Compression applied to the payload bytes on save.
#[derive(Debug, Clone, Copy, PartialEq, Eq, Structural)]
pub enum Compression {
    /// No compression.
    Off,
    /// Zstd compression at the given level.
    Zstd {
        /// The Zstd compression level (1 to 22).
        level: i32,
    },
    /// LZ4 compression.
    Lz4,
}

/// Configuration for a persisted index.
#[derive(Debug, Clone)]
pub struct PersistConfig {
    /// Path to the snapshot file on disk.
    pub path: PathBuf,
    /// Whether mutations are logged before they are applied.
    pub wal_enabled: bool,
    /// How aggressively to fsync.
    pub fsync_policy: FsyncPolicy,
    /// Payload compression.
    pub compression: Compression,
}

/// `std::path::PathBuf::new`, whose result is carried through unread.
pub assume_specification[ PathBuf::new ]() -> PathBuf
;

/// `PathBuf`'s `Clone`, whose result is carried through unread.
pub assume_specification[ <PathBuf as Clone>::clone ](path: &PathBuf) -> PathBuf
;

impl PersistConfig {
    /// Whether every field but the path has its default value.
    pub open spec fn has_default_knobs(self) -> bool {
        &&& !self.wal_enabled
        &&& self.fsync_policy == FsyncPolicy::Always
        &&& self.compression == Compression::Off
    }

    /// Build a config with `path` and defaults (`wal_enabled = false`,
    /// `fsync_policy = Always`, `compression = Off`).
    #[must_use]
    pub fn new<P: Into<PathBuf>>(path: P) -> (config: Self)
        ensures
            call_ensures(<P as Into<PathBuf>>::into, (path,), config.path),
            config.has_default_knobs(),
    {
        PersistConfig {
            path: path.into(),
            wal_enabled: false,
            fsync_policy: FsyncPolicy::Always,
            compression: Compression::Off,
        }
    }
}

impl Default for PersistConfig {
    /// A config with an empty placeholder path and the defaults of
    /// [`PersistConfig::new`].
    fn default() -> (config: Self)
        ensures
            call_ensures(PathBuf::new, (), config.path),
            config.has_default_knobs(),
    {
        PersistConfig {
            path: PathBuf::new(),
            wal_enabled: false,
            fsync_policy: FsyncPolicy::Always,
            compression: Compression::Off,
        }
    }
}

} // verus!
