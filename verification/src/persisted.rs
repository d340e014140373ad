//! The persisted index: an in-memory index with a snapshot file and,
//! optionally, a write-ahead log.
//!
//! Nothing here touches a disk. Each operation says, as a list of
//! [`DiskAction`]s, what its caller has to do there and in which order.

use iqdb_types::IqdbError;
use vstd::prelude::*;

use crate::compression;
use crate::compression::Codecs;
use crate::config::PersistConfig;
use crate::error;
use crate::error::{PersistError, Result};
use crate::persistable::Persistable;
use crate::recovery;
use crate::recovery::Replayed;
use crate::snapshot;
use crate::types;
use crate::types::{Metadata, VectorId};
use crate::wal;
use crate::wal::{WalRecord, WalRecordView, WAL_HEADER_LEN};

verus! {

/// One thing to do on disk.
#[derive(Debug, Clone, PartialEq, Eq)]
pub enum DiskAction {
    /// Replace the snapshot file atomically.
    WriteSnapshot {
        /// The new contents.
        bytes: Vec<u8>,
    },
    /// Give the log these contents, creating it if need be.
    WriteLog {
        /// The new contents.
        bytes: Vec<u8>,
    },
    /// Append to the log.
    AppendLog {
        /// What to append.
        bytes: Vec<u8>,
    },
    /// Cut the log back.
    TruncateLog {
        /// The length to cut it back to.
        len: u64,
    },
}

/// What a [`DiskAction`] asks for, mathematically.
#[verifier::ext_equal]
pub enum DiskActionView {
    /// Replace the snapshot file atomically.
    WriteSnapshot {
        /// The new contents.
        bytes: Seq<u8>,
    },
    /// Give the log these contents.
    WriteLog {
        /// The new contents.
        bytes: Seq<u8>,
    },
    /// Append to the log.
    AppendLog {
        /// What to append.
        bytes: Seq<u8>,
    },
    /// Cut the log back.
    TruncateLog {
        /// The length to cut it back to.
        len: nat,
    },
}

impl View for DiskAction {
    type V = DiskActionView;

    open spec fn view(&self) -> DiskActionView {
        match *self {
            DiskAction::WriteSnapshot { bytes } => DiskActionView::WriteSnapshot { bytes: bytes@ },
            DiskAction::WriteLog { bytes } => DiskActionView::WriteLog { bytes: bytes@ },
            DiskAction::AppendLog { bytes } => DiskActionView::AppendLog { bytes: bytes@ },
            DiskAction::TruncateLog { len } => DiskActionView::TruncateLog { len: len as nat },
        }
    }
}

/// What the actions of `actions` ask for.
pub open spec fn action_views(actions: Seq<DiskAction>) -> Seq<DiskActionView> {
    actions.map_values(|action: DiskAction| action@)
}

/// An index together with how it is persisted.
#[derive(Debug)]
pub struct PersistedIndex<I: Persistable> {
    inner: I,
    config: PersistConfig,
    codecs: Codecs,
}

/// A persisted index, and what has to be done on disk before it is used.
#[derive(Debug)]
pub struct Opened<I: Persistable> {
    /// The index.
    pub index: PersistedIndex<I>,
    /// What has to be done on disk, in order.
    pub actions: Vec<DiskAction>,
}

/// A mutation that is about to be logged.
#[derive(Debug)]
pub struct Pending {
    record: WalRecord,
    frame: Vec<u8>,
}

impl Pending {
    /// The mutation.
    pub closed spec fn mutation(&self) -> WalRecordView {
        self.record@
    }

    /// The frame to append to the log.
    pub closed spec fn frame_spec(&self) -> Seq<u8> {
        self.frame@
    }

    /// The frame to append to the log.
    pub fn frame(&self) -> (frame: &[u8])
        ensures
            frame@ == self.frame_spec(),
    {
        self.frame.as_slice()
    }

    /// The frame to append to the log, as an action.
    pub fn action(&self) -> (action: DiskAction)
        ensures
            action@ == (DiskActionView::AppendLog { bytes: self.frame_spec() }),
    {
        DiskAction::AppendLog { bytes: vstd::slice::slice_to_vec(self.frame.as_slice()) }
    }
}

/// Where a mutation stands.
#[derive(Debug)]
pub enum Mutation {
    /// It has been applied; there is no log to tell.
    Applied,
    /// Its frame has to be appended to the log, and [`PersistedIndex::commit`]
    /// told how that went.
    Logging(Pending),
}

/// How appending a frame to the log went.
#[derive(Debug)]
pub enum LogOutcome {
    /// The frame is in the log, flushed as the policy demands.
    Appended {
        /// The length of the log before the append.
        mark: u64,
    },
    /// The append or its flush failed. Part of the frame may be in the log.
    Failed {
        /// The length of the log before the append.
        mark: u64,
        /// What went wrong.
        error: PersistError,
    },
}

/// A mutation that was not made: what to undo and what to report.
#[derive(Debug)]
pub struct Rollback {
    /// What to do on disk before the error is reported.
    pub action: DiskAction,
    /// The error to report.
    pub error: PersistError,
}

/// Validate a config against the codecs that are switched on.
///
/// # Errors
///
/// Returns [`PersistError::Unsupported`] if the config asks for a codec that is
/// switched off.
pub fn validate_config(config: &PersistConfig, codecs: Codecs) -> (out: Result<()>)
    ensures
        if codecs.handles(config.compression) {
            out is Ok
        } else {
            out is Err && out->Err_0@ == compression::codec_off()
        },
{
    if !codecs.handle(config.compression) {
        return Err(PersistError::Unsupported { feature: "compression", available_in: "v0.4" });
    }
    Ok(())
}

/// What opening a persisted index over `inner` may come to: in WAL mode, a base
/// snapshot and an empty log are to be written first.
pub open spec fn opens<I: Persistable>(
    inner: I,
    config: PersistConfig,
    codecs: Codecs,
    out: Result<Opened<I>>,
) -> bool {
    if !codecs.handles(config.compression) {
        out is Err && out->Err_0@ == compression::codec_off()
    } else if !config.wal_enabled {
        &&& out is Ok
        &&& out->Ok_0.index.consists_of(inner, config, codecs)
        &&& action_views(out->Ok_0.actions@) == Seq::<DiskActionView>::empty()
    } else {
        exists|base: Result<Vec<u8>>| #[trigger]
            snapshot::snapshots(inner, config.compression, base) && opening_outcome(
                inner,
                config,
                codecs,
                base,
                out,
            )
    }
}

/// What opening in WAL mode comes to, given what the base snapshot came to.
pub open spec fn opening_outcome<I: Persistable>(
    inner: I,
    config: PersistConfig,
    codecs: Codecs,
    base: Result<Vec<u8>>,
    out: Result<Opened<I>>,
) -> bool {
    match base {
        Err(e) => out == Err::<Opened<I>, PersistError>(e),
        Ok(file) => {
            &&& out is Ok
            &&& out->Ok_0.index.consists_of(inner, config, codecs)
            &&& action_views(out->Ok_0.actions@) == seq![
                DiskActionView::WriteSnapshot { bytes: file@ },
                DiskActionView::WriteLog { bytes: wal::log_bytes(Seq::empty()) },
            ]
        },
    }
}

/// What has to be done to a log of `len` bytes, of which `committed` hold
/// records, before frames are appended to it.
pub open spec fn log_repair(committed: nat, len: nat) -> Seq<DiskActionView> {
    if committed < WAL_HEADER_LEN {
        seq![DiskActionView::WriteLog { bytes: wal::log_bytes(Seq::empty()) }]
    } else if committed < len {
        seq![DiskActionView::TruncateLog { len: committed }]
    } else {
        Seq::empty()
    }
}

/// What recovering from a log, or from its absence, may come to.
pub open spec fn recovers<I: Persistable>(
    before: I,
    wal_enabled: bool,
    log: Option<&[u8]>,
    out: Result<Vec<DiskAction>>,
    after: I,
) -> bool {
    if !wal_enabled {
        out is Ok && action_views(out->Ok_0@) == Seq::<DiskActionView>::empty() && after == before
    } else {
        match log {
            None => out is Ok && action_views(out->Ok_0@) == log_repair(0, 0) && after == before,
            Some(bytes) => exists|replayed: Result<Replayed>| #[trigger]
                recovery::replays(before, bytes@, replayed, after) && recovery_outcome(
                    bytes@.len(),
                    replayed,
                    out,
                ),
        }
    }
}

/// What recovering comes to, given what the replay came to.
pub open spec fn recovery_outcome(
    len: nat,
    replayed: Result<Replayed>,
    out: Result<Vec<DiskAction>>,
) -> bool {
    match replayed {
        Err(e) => out == Err::<Vec<DiskAction>, PersistError>(e),
        Ok(done) => out is Ok && action_views(out->Ok_0@) == log_repair(
            done.committed as nat,
            len,
        ),
    }
}

/// What a mutation that is not logged comes to.
pub open spec fn mutates<I: Persistable>(
    before: I,
    mutation: WalRecordView,
    out: Result<Mutation>,
    after: I,
) -> bool {
    match out {
        Ok(step) => step is Applied && I::applies(before, mutation, None, after),
        Err(e) => e matches PersistError::IndexBuild(cause) && I::applies(
            before,
            mutation,
            Some(cause),
            after,
        ),
    }
}

/// What asking for a logged mutation comes to: a frame to append, unless the
/// mutation is too long for one.
pub open spec fn starts_logging(mutation: WalRecordView, out: Result<Mutation>) -> bool {
    match out {
        Ok(step) => {
            &&& step matches Mutation::Logging(pending)
            &&& wal::fits_frame(mutation)
            &&& pending.mutation() == mutation
            &&& pending.frame_spec() == wal::frame_bytes(mutation)
        },
        Err(e) => !wal::fits_frame(mutation) && e@ == wal::too_long(mutation),
    }
}

/// What a mutation comes to once its frame was to be appended: it is made if
/// the frame is in the log and the index accepts it; otherwise the log is to
/// be cut back to where it was.
pub open spec fn commits<I: Persistable>(
    before: I,
    mutation: WalRecordView,
    logged: LogOutcome,
    out: core::result::Result<(), Rollback>,
    after: I,
) -> bool {
    match logged {
        LogOutcome::Appended { mark } => match out {
            Ok(_) => I::applies(before, mutation, None, after),
            Err(rollback) => {
                &&& rollback.action@ == (DiskActionView::TruncateLog { len: mark as nat })
                &&& rollback.error matches PersistError::IndexBuild(cause)
                &&& I::applies(before, mutation, Some(cause), after)
            },
        },
        LogOutcome::Failed { mark, error } => {
            &&& out is Err
            &&& out->Err_0.action@ == (DiskActionView::TruncateLog { len: mark as nat })
            &&& out->Err_0.error == error
            &&& after == before
        },
    }
}

/// What saving an index may come to.
pub open spec fn saves_index<I: Persistable>(
    inner: I,
    config: PersistConfig,
    out: Result<DiskAction>,
) -> bool {
    exists|file: Result<Vec<u8>>| #[trigger]
        snapshot::snapshots(inner, config.compression, file) && save_outcome(file, out)
}

/// What a checkpoint of an index may come to.
pub open spec fn checkpoints_index<I: Persistable>(
    inner: I,
    config: PersistConfig,
    out: Result<Vec<DiskAction>>,
) -> bool {
    exists|file: Result<Vec<u8>>| #[trigger]
        snapshot::snapshots(inner, config.compression, file) && checkpoint_outcome(
            config.wal_enabled,
            file,
            out,
        )
}

/// What saving comes to, given what taking the snapshot came to: the file to
/// write.
pub open spec fn save_outcome(file: Result<Vec<u8>>, out: Result<DiskAction>) -> bool {
    match file {
        Err(e) => out == Err::<DiskAction, PersistError>(e),
        Ok(bytes) => out is Ok && out->Ok_0@ == (DiskActionView::WriteSnapshot { bytes: bytes@ }),
    }
}

/// What a checkpoint comes to, given what taking the snapshot came to: the file
/// to write and, in WAL mode, the log to empty after that.
pub open spec fn checkpoint_outcome(
    wal_enabled: bool,
    file: Result<Vec<u8>>,
    out: Result<Vec<DiskAction>>,
) -> bool {
    match file {
        Err(e) => out == Err::<Vec<DiskAction>, PersistError>(e),
        Ok(bytes) => out is Ok && action_views(out->Ok_0@) == if wal_enabled {
            seq![
                DiskActionView::WriteSnapshot { bytes: bytes@ },
                DiskActionView::WriteLog { bytes: wal::log_bytes(Seq::empty()) },
            ]
        } else {
            seq![DiskActionView::WriteSnapshot { bytes: bytes@ }]
        },
    }
}

impl<I: Persistable> PersistedIndex<I> {
    /// The wrapped index.
    pub closed spec fn held(&self) -> I {
        self.inner
    }

    /// The config.
    pub closed spec fn settings(&self) -> PersistConfig {
        self.config
    }

    /// The codecs that are switched on.
    pub closed spec fn codecs_on(&self) -> Codecs {
        self.codecs
    }

    /// Whether this is `inner`, persisted as the config says.
    pub open spec fn consists_of(&self, inner: I, config: PersistConfig, codecs: Codecs) -> bool {
        &&& self.held() == inner
        &&& self.settings() == config
        &&& self.codecs_on() == codecs
    }

    /// Whether what the config asks for is switched on.
    pub open spec fn well_formed(&self) -> bool {
        self.codecs_on().handles(self.settings().compression)
    }

    /// Whether everything but the wrapped index is as in `other`.
    pub open spec fn same_settings(&self, other: Self) -> bool {
        &&& self.settings() == other.settings()
        &&& self.codecs_on() == other.codecs_on()
    }

    /// Wrap an index, with every optional codec switched off.
    ///
    /// In WAL mode the actions establish a base snapshot and a fresh log.
    ///
    /// # Errors
    ///
    /// - [`PersistError::Unsupported`] if the config asks for compression.
    /// - In WAL mode, those of [`snapshot::write_snapshot`].
    pub fn open_with(inner: I, config: PersistConfig) -> (out: Result<Opened<I>>)
        ensures
            opens(inner, config, Codecs { zstd: false, lz4: false }, out),
            out matches Ok(opened) ==> opened.index.well_formed(),
    {
        Self::open_with_codecs(inner, config, Codecs::default())
    }

    /// Wrap an index.
    ///
    /// In WAL mode the actions establish a base snapshot and a fresh log.
    ///
    /// # Errors
    ///
    /// - [`PersistError::Unsupported`] if the config asks for a codec that is
    ///   switched off.
    /// - In WAL mode, those of [`snapshot::write_snapshot`].
    pub fn open_with_codecs(inner: I, config: PersistConfig, codecs: Codecs) -> (out: Result<
        Opened<I>,
    >)
        ensures
            opens(inner, config, codecs, out),
            out matches Ok(opened) ==> opened.index.well_formed(),
    {
        match validate_config(&config, codecs) {
            Ok(()) => {},
            Err(e) => return Err(e),
        }
        let mut actions: Vec<DiskAction> = Vec::new();
        assert(action_views(actions@) =~= Seq::<DiskActionView>::empty());
        if !config.wal_enabled {
            return Ok(Opened { index: PersistedIndex { inner, config, codecs }, actions });
        }
        let base = snapshot::write_snapshot(&inner, config.compression);
        let ghost outcome = base;
        let file = match base {
            Ok(file) => file,
            Err(e) => {
                let out = Err(e);
                assert(opening_outcome(inner, config, codecs, outcome, out));
                return out;
            },
        };
        actions.push(DiskAction::WriteSnapshot { bytes: file });
        actions.push(DiskAction::WriteLog { bytes: wal::log_header() });
        let out = Ok(Opened { index: PersistedIndex { inner, config, codecs }, actions });
        assert(action_views(actions@) =~= seq![
            DiskActionView::WriteSnapshot { bytes: file@ },
            DiskActionView::WriteLog { bytes: wal::log_bytes(Seq::empty()) },
        ]);
        assert(opening_outcome(inner, config, codecs, outcome, out));
        out
    }

    /// Rebuild an index from the contents of its snapshot file. In WAL mode,
    /// [`recover_log`](Self::recover_log) is due next.
    ///
    /// # Errors
    ///
    /// - [`PersistError::Unsupported`] if the config asks for a codec that is
    ///   switched off.
    /// - Those of [`snapshot::read_snapshot`].
    pub fn load_snapshot(config: PersistConfig, codecs: Codecs, file: &[u8]) -> (out: Result<Self>)
        ensures
            if !codecs.handles(config.compression) {
                out is Err && out->Err_0@ == compression::codec_off()
            } else {
                exists|restored: Result<I>| #[trigger]
                    snapshot::restores(file@, codecs, restored) && match restored {
                        Err(e) => out == Err::<Self, PersistError>(e),
                        Ok(inner) => out is Ok && out->Ok_0.consists_of(inner, config, codecs),
                    }
            },
            out matches Ok(index) ==> index.well_formed(),
    {
        match validate_config(&config, codecs) {
            Ok(()) => {},
            Err(e) => return Err(e),
        }
        let restored: Result<I> = snapshot::read_snapshot(file, codecs);
        let ghost outcome = restored;
        assert(snapshot::restores(file@, codecs, outcome));
        match restored {
            Ok(inner) => Ok(PersistedIndex { inner, config, codecs }),
            Err(e) => Err(e),
        }
    }

    /// In WAL mode, replay the committed records of the log, if there is one,
    /// and say what has to be done to it before frames are appended. In
    /// snapshot-only mode, do nothing.
    ///
    /// # Errors
    ///
    /// Those of [`recovery::replay`].
    pub fn recover_log(&mut self, log: Option<&[u8]>) -> (out: Result<Vec<DiskAction>>)
        ensures
            recovers(
                old(self).held(),
                old(self).settings().wal_enabled,
                log,
                out,
                final(self).held(),
            ),
            final(self).same_settings(*old(self)),
            final(self).well_formed() == old(self).well_formed(),
    {
        let mut actions: Vec<DiskAction> = Vec::new();
        assert(action_views(actions@) =~= Seq::<DiskActionView>::empty());
        if !self.config.wal_enabled {
            return Ok(actions);
        }
        match log {
            None => {
                actions.push(DiskAction::WriteLog { bytes: wal::log_header() });
                assert(action_views(actions@) =~= log_repair(0, 0));
                Ok(actions)
            },
            Some(bytes) => {
                let replayed = recovery::replay(bytes, &mut self.inner);
                let ghost outcome = replayed;
                let done = match replayed {
                    Ok(done) => done,
                    Err(e) => {
                        let out = Err(e);
                        assert(recovery_outcome(bytes@.len(), outcome, out));
                        return out;
                    },
                };
                if done.committed < WAL_HEADER_LEN {
                    actions.push(DiskAction::WriteLog { bytes: wal::log_header() });
                } else if done.committed < bytes.len() {
                    actions.push(DiskAction::TruncateLog { len: done.committed as u64 });
                }
                assert(action_views(actions@) =~= log_repair(
                    done.committed as nat,
                    bytes@.len(),
                ));
                assert(recovery_outcome(bytes@.len(), outcome, Ok(actions)));
                Ok(actions)
            },
        }
    }

    /// Rebuild an index from the contents of its snapshot file and, in WAL
    /// mode, of its log, with every optional codec switched off.
    ///
    /// # Errors
    ///
    /// Those of [`load_snapshot`](Self::load_snapshot) and
    /// [`recover_log`](Self::recover_log).
    pub fn load(config: PersistConfig, file: &[u8], log: Option<&[u8]>) -> (out: Result<Opened<I>>)
        ensures
            loads_index(config, Codecs { zstd: false, lz4: false }, file@, log, out),
            out matches Ok(opened) ==> opened.index.well_formed(),
    {
        Self::load_with_codecs(config, Codecs::default(), file, log)
    }

    /// Rebuild an index from the contents of its snapshot file and, in WAL
    /// mode, of its log.
    ///
    /// # Errors
    ///
    /// Those of [`load_snapshot`](Self::load_snapshot) and
    /// [`recover_log`](Self::recover_log).
    pub fn load_with_codecs(
        config: PersistConfig,
        codecs: Codecs,
        file: &[u8],
        log: Option<&[u8]>,
    ) -> (out: Result<Opened<I>>)
        ensures
            loads_index(config, codecs, file@, log, out),
            out matches Ok(opened) ==> opened.index.well_formed(),
    {
        match validate_config(&config, codecs) {
            Ok(()) => {},
            Err(e) => return Err(e),
        }
        let restored: Result<I> = snapshot::read_snapshot(file, codecs);
        let ghost outcome = restored;
        assert(snapshot::restores(file@, codecs, outcome));
        let inner = match restored {
            Ok(inner) => inner,
            Err(e) => {
                let out = Err(e);
                assert(load_outcome(config, codecs, outcome, log, out));
                return out;
            },
        };
        let mut index = PersistedIndex { inner, config, codecs };
        let recovered = index.recover_log(log);
        let ghost repaired = recovered;
        match recovered {
            Ok(actions) => {
                let out = Ok(Opened { index, actions });
                assert(recovers(inner, config.wal_enabled, log, repaired, index.held()));
                assert(load_outcome(config, codecs, outcome, log, out));
                out
            },
            Err(e) => {
                let out = Err(e);
                assert(recovers(inner, config.wal_enabled, log, repaired, index.held()));
                assert(load_outcome(config, codecs, outcome, log, out));
                out
            },
        }
    }

    /// Borrow the wrapped index.
    #[must_use]
    pub fn index(&self) -> (index: &I)
        ensures
            *index == self.held(),
    {
        &self.inner
    }

    /// Borrow the wrapped index mutably. What is done through this borrow is
    /// not logged.
    pub fn index_mut(&mut self) -> (index: &mut I)
        ensures
            *index == old(self).held(),
            final(self).held() == *final(index),
            final(self).same_settings(*old(self)),
    {
        &mut self.inner
    }

    /// The config this index was opened with.
    #[must_use]
    pub fn config(&self) -> (config: &PersistConfig)
        ensures
            *config == self.settings(),
    {
        &self.config
    }

    /// The codecs that are switched on.
    #[must_use]
    pub fn codecs(&self) -> (codecs: Codecs)
        ensures
            codecs == self.codecs_on(),
    {
        self.codecs
    }

    /// Starts logging a mutation.
    fn start_logging(record: WalRecord) -> (out: Result<Mutation>)
        ensures
            starts_logging(record@, out),
    {
        match wal::encode_frame(&record) {
            Ok(frame) => Ok(Mutation::Logging(Pending { record, frame })),
            Err(e) => Err(e),
        }
    }

    /// Insert a vector (as `f32` bits) with optional metadata.
    ///
    /// In WAL mode nothing is applied yet: the mutation is to be logged first.
    ///
    /// # Errors
    ///
    /// - [`PersistError::InvalidPayload`] if the mutation is too long to log.
    /// - [`PersistError::IndexBuild`] if the index rejects it.
    pub fn insert(
        &mut self,
        id: VectorId,
        vector: Vec<u32>,
        meta: Option<Metadata>,
    ) -> (out: Result<Mutation>)
        ensures
            ({
                let mutation = WalRecordView::Insert {
                    id: id@,
                    vector: vector@,
                    meta: types::meta_view(meta),
                };
                if old(self).settings().wal_enabled {
                    starts_logging(mutation, out) && *final(self) == *old(self)
                } else {
                    mutates(old(self).held(), mutation, out, final(self).held())
                }
            }),
            final(self).same_settings(*old(self)),
            final(self).well_formed() == old(self).well_formed(),
    {
        if self.config.wal_enabled {
            return Self::start_logging(WalRecord::Insert { id, vector, meta });
        }
        match self.inner.insert(id, vector, meta) {
            Ok(()) => Ok(Mutation::Applied),
            Err(e) => Err(PersistError::from(e)),
        }
    }

    /// Delete a vector.
    ///
    /// In WAL mode nothing is applied yet: the mutation is to be logged first.
    ///
    /// # Errors
    ///
    /// - [`PersistError::InvalidPayload`] if the mutation is too long to log.
    /// - [`PersistError::IndexBuild`] if the index rejects it.
    pub fn delete(&mut self, id: &VectorId) -> (out: Result<Mutation>)
        ensures
            ({
                let mutation = WalRecordView::Delete { id: id@ };
                if old(self).settings().wal_enabled {
                    starts_logging(mutation, out) && *final(self) == *old(self)
                } else {
                    mutates(old(self).held(), mutation, out, final(self).held())
                }
            }),
            final(self).same_settings(*old(self)),
            final(self).well_formed() == old(self).well_formed(),
    {
        if self.config.wal_enabled {
            return Self::start_logging(WalRecord::Delete { id: id.duplicate() });
        }
        match self.inner.delete(id) {
            Ok(()) => Ok(Mutation::Applied),
            Err(e) => Err(PersistError::from(e)),
        }
    }

    /// Carry on with a mutation whose frame was to be appended to the log:
    /// apply it if the frame is there.
    ///
    /// # Errors
    ///
    /// If the append failed, or the index rejects the mutation, returns what to
    /// undo and what to report.
    pub fn commit(&mut self, pending: Pending, logged: LogOutcome) -> (out: core::result::Result<
        (),
        Rollback,
    >)
        ensures
            commits(old(self).held(), pending.mutation(), logged, out, final(self).held()),
            final(self).same_settings(*old(self)),
            final(self).well_formed() == old(self).well_formed(),
    {
        let mark: u64 = match logged {
            LogOutcome::Appended { mark } => mark,
            LogOutcome::Failed { mark, error } => {
                return Err(Rollback { action: DiskAction::TruncateLog { len: mark }, error });
            },
        };
        let applied: core::result::Result<(), IqdbError> = match pending.record {
            WalRecord::Insert { id, vector, meta } => self.inner.insert(id, vector, meta),
            WalRecord::Delete { id } => self.inner.delete(&id),
        };
        match applied {
            Ok(()) => Ok(()),
            Err(e) => Err(
                Rollback {
                    action: DiskAction::TruncateLog { len: mark },
                    error: PersistError::from(e),
                },
            ),
        }
    }

    /// The snapshot of the current state, as the file to write.
    ///
    /// # Errors
    ///
    /// Those of [`snapshot::write_snapshot`].
    pub fn save(&self) -> (out: Result<DiskAction>)
        ensures
            saves_index(self.held(), self.settings(), out),
    {
        let file = snapshot::write_snapshot(&self.inner, self.config.compression);
        let ghost outcome = file;
        assert(snapshot::snapshots(self.held(), self.settings().compression, outcome));
        match file {
            Ok(bytes) => {
                let out = Ok(DiskAction::WriteSnapshot { bytes });
                assert(save_outcome(outcome, out));
                out
            },
            Err(e) => {
                let out = Err(e);
                assert(save_outcome(outcome, out));
                out
            },
        }
    }

    /// The snapshot of the current state and, in WAL mode, the emptying of the
    /// log that it makes redundant.
    ///
    /// # Errors
    ///
    /// Those of [`snapshot::write_snapshot`].
    pub fn checkpoint(&self) -> (out: Result<Vec<DiskAction>>)
        ensures
            checkpoints_index(self.held(), self.settings(), out),
    {
        let file = snapshot::write_snapshot(&self.inner, self.config.compression);
        let ghost outcome = file;
        assert(snapshot::snapshots(self.held(), self.settings().compression, outcome));
        match file {
            Ok(bytes) => {
                let mut actions: Vec<DiskAction> = Vec::new();
                actions.push(DiskAction::WriteSnapshot { bytes });
                if self.config.wal_enabled {
                    actions.push(DiskAction::WriteLog { bytes: wal::log_header() });
                    assert(action_views(actions@) =~= seq![
                        DiskActionView::WriteSnapshot { bytes: bytes@ },
                        DiskActionView::WriteLog { bytes: wal::log_bytes(Seq::empty()) },
                    ]);
                } else {
                    assert(action_views(actions@) =~= seq![
                        DiskActionView::WriteSnapshot { bytes: bytes@ },
                    ]);
                }
                let out = Ok(actions);
                assert(checkpoint_outcome(self.settings().wal_enabled, outcome, out));
                out
            },
            Err(e) => {
                let out = Err(e);
                assert(checkpoint_outcome(self.settings().wal_enabled, outcome, out));
                out
            },
        }
    }
}

/// What loading an index may come to.
pub open spec fn loads_index<I: Persistable>(
    config: PersistConfig,
    codecs: Codecs,
    file: Seq<u8>,
    log: Option<&[u8]>,
    out: Result<Opened<I>>,
) -> bool {
    if !codecs.handles(config.compression) {
        out is Err && out->Err_0@ == compression::codec_off()
    } else {
        exists|restored: Result<I>| #[trigger]
            snapshot::restores(file, codecs, restored) && load_outcome(
                config,
                codecs,
                restored,
                log,
                out,
            )
    }
}

/// What loading comes to, given what the snapshot came to.
pub open spec fn load_outcome<I: Persistable>(
    config: PersistConfig,
    codecs: Codecs,
    restored: Result<I>,
    log: Option<&[u8]>,
    out: Result<Opened<I>>,
) -> bool {
    match restored {
        Err(e) => out == Err::<Opened<I>, PersistError>(e),
        Ok(inner) => exists|recovered: Result<Vec<DiskAction>>, after: I| #[trigger]
            recovers(inner, config.wal_enabled, log, recovered, after) && match recovered {
                Err(e) => out == Err::<Opened<I>, PersistError>(e),
                Ok(actions) => {
                    &&& out is Ok
                    &&& out->Ok_0.index.consists_of(after, config, codecs)
                    &&& out->Ok_0.actions == actions
                },
            },
    }
}

} // verus!
