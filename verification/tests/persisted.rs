//! The framing logic, against a tiny mock index.

use iqdb_persist::config::interval_passed;
use iqdb_persist::format::{metric_to_tag, tag_to_metric};
use iqdb_persist::storage::{first_step, next_step, temp_file_name, Former, WriteStep};
use iqdb_persist::{
    Compression, DiskAction, DistanceMetric, FsyncPolicy, LogOutcome, Metadata, Mutation,
    Persistable, PersistConfig, PersistError, PersistedIndex, Result, VectorId,
};
use iqdb_types::IqdbError;

#[derive(Debug)]
struct MockIndex {
    dim: usize,
    metric: DistanceMetric,
    n: usize,
}

impl Persistable for MockIndex {
    const INDEX_TYPE: &'static str = "mock";

    fn save_to(&self, writer: &mut Vec<u8>) -> Result<()> {
        // Self-describing prefix: metric_tag u8, dim u64 LE, n u64 LE.
        writer.push(metric_to_tag(self.metric)?);
        writer.extend_from_slice(&(self.dim as u64).to_le_bytes());
        writer.extend_from_slice(&(self.n as u64).to_le_bytes());
        Ok(())
    }

    fn load_from(reader: &[u8]) -> Result<Self> {
        if reader.len() != 17 {
            return Err(PersistError::InvalidPayload {
                reason: "mock payload has the wrong length",
            });
        }
        let metric = tag_to_metric(reader[0])?;
        let dim = u64::from_le_bytes(reader[1..9].try_into().unwrap()) as usize;
        let n = u64::from_le_bytes(reader[9..17].try_into().unwrap()) as usize;
        Ok(Self { dim, metric, n })
    }

    fn dim(&self) -> usize {
        self.dim
    }
    fn metric(&self) -> DistanceMetric {
        self.metric
    }
    fn len(&self) -> usize {
        self.n
    }
    fn insert(
        &mut self,
        id: VectorId,
        _: Vec<u32>,
        _: Option<Metadata>,
    ) -> std::result::Result<(), IqdbError> {
        if id == VectorId::U64(u64::MAX) {
            return Err(IqdbError::Duplicate);
        }
        self.n += 1;
        Ok(())
    }
    fn delete(&mut self, id: &VectorId) -> std::result::Result<(), IqdbError> {
        if *id == VectorId::U64(u64::MAX) {
            return Err(IqdbError::NotFound);
        }
        Ok(())
    }
}

#[derive(Debug)]
struct OtherMock;

impl Persistable for OtherMock {
    const INDEX_TYPE: &'static str = "other";

    fn save_to(&self, _w: &mut Vec<u8>) -> Result<()> {
        Ok(())
    }
    fn load_from(_r: &[u8]) -> Result<Self> {
        Ok(Self)
    }
    fn dim(&self) -> usize {
        4
    }
    fn metric(&self) -> DistanceMetric {
        DistanceMetric::Euclidean
    }
    fn len(&self) -> usize {
        0
    }
    fn insert(
        &mut self,
        _: VectorId,
        _: Vec<u32>,
        _: Option<Metadata>,
    ) -> std::result::Result<(), IqdbError> {
        Ok(())
    }
    fn delete(&mut self, _: &VectorId) -> std::result::Result<(), IqdbError> {
        Ok(())
    }
}

/// A directory with a target, perhaps a temporary file, and what is held open of
/// the former target.
#[derive(Default)]
struct Dir {
    target: Option<Vec<u8>>,
    temp: Option<Vec<u8>>,
    held: Option<Vec<u8>>,
    synced: bool,
    trace: Vec<WriteStep>,
}

impl Dir {
    /// Replaces the target atomically, with the step `broken` failing.
    fn write_atomic(&mut self, payload: &[u8], policy: FsyncPolicy, broken: Option<WriteStep>) -> bool {
        let broken: Vec<WriteStep> = broken.into_iter().collect();
        self.run(payload, policy, &broken) == WriteStep::Done
    }

    /// Replaces the target atomically, with the steps `broken` failing, and
    /// says how that ends.
    fn run(&mut self, payload: &[u8], policy: FsyncPolicy, broken: &[WriteStep]) -> WriteStep {
        self.trace.clear();
        self.held = None;
        let mut former = Former::Unknown;
        let mut step = first_step();
        loop {
            self.trace.push(step);
            let ok = !broken.contains(&step);
            match step {
                WriteStep::CreateTemp if ok => self.temp = Some(Vec::new()),
                WriteStep::WriteTemp => {
                    let n = if ok { payload.len() } else { payload.len() / 2 };
                    self.temp = Some(payload[..n].to_vec());
                }
                WriteStep::SyncTemp if ok => self.synced = true,
                WriteStep::HoldFormer if ok => {
                    self.held = self.target.clone();
                    former = match self.held {
                        Some(_) => Former::Held,
                        None => Former::Absent,
                    };
                }
                WriteStep::Rename if ok => self.target = self.temp.take(),
                WriteStep::WriteFormer => {
                    let contents = self.held.clone().unwrap();
                    let n = if ok { contents.len() } else { contents.len() / 2 };
                    self.temp = Some(contents[..n].to_vec());
                }
                WriteStep::PutBack if ok => self.target = self.temp.take(),
                WriteStep::RemoveTarget if ok => self.target = None,
                WriteStep::RemoveTemp | WriteStep::DropTemp => self.temp = None,
                WriteStep::Done | WriteStep::Failed | WriteStep::Unrestored => return step,
                _ => {}
            }
            step = next_step(step, ok, former, policy, true);
        }
    }
}

fn saved_bytes<I: Persistable>(db: &PersistedIndex<I>) -> Vec<u8> {
    match db.save().unwrap() {
        DiskAction::WriteSnapshot { bytes } => bytes,
        _ => panic!("save asked for something else"),
    }
}

fn open<I: Persistable>(inner: I, cfg: PersistConfig) -> PersistedIndex<I> {
    match PersistedIndex::open_with(inner, cfg) {
        Ok(opened) => opened.index,
        Err(e) => panic!("open failed: {}", e.to_string()),
    }
}

#[test]
fn save_failure_leaves_original_file_intact() {
    let mut dir = Dir::default();
    let cfg = PersistConfig::new("idx.iqdb");

    // 1) Save a "good" snapshot.
    let inner = MockIndex {
        dim: 16,
        metric: DistanceMetric::Cosine,
        n: 7,
    };
    let wrap = open(inner, cfg.clone());
    assert!(dir.write_atomic(&saved_bytes(&wrap), FsyncPolicy::Always, None));
    let good_bytes = dir.target.clone().unwrap();
    assert!(!good_bytes.is_empty(), "good save produced empty file");

    // 2) Try to save a *different* index, with every step failing in turn, up
    //    to the flush of the directory. The save MUST error.
    for broken in [
        WriteStep::CreateTemp,
        WriteStep::WriteTemp,
        WriteStep::SyncTemp,
        WriteStep::Rename,
        WriteStep::SyncDir,
    ] {
        let other = MockIndex {
            dim: 16,
            metric: DistanceMetric::Cosine,
            n: 99,
        };
        let wrap2 = open(other, cfg.clone());
        assert!(!dir.write_atomic(&saved_bytes(&wrap2), FsyncPolicy::Always, Some(broken)));

        // 3) The on-disk bytes MUST equal the original good save.
        assert_eq!(
            dir.target.as_ref().unwrap(),
            &good_bytes,
            "rename failure corrupted the snapshot"
        );
        assert!(dir.temp.is_none());
    }

    // 4) The original must still load and report n = 7, not 99.
    let restored =
        PersistedIndex::<MockIndex>::load(cfg, dir.target.as_ref().unwrap(), None).unwrap();
    assert_eq!(restored.index.index().len(), 7);
}

#[test]
fn validate_config_rejects_compression() {
    // WAL is supported: enabling it must succeed.
    let mut cfg = PersistConfig::new("idx.iqdb");
    cfg.wal_enabled = true;
    let inner = MockIndex {
        dim: 4,
        metric: DistanceMetric::Euclidean,
        n: 0,
    };
    assert!(PersistedIndex::open_with(inner, cfg).is_ok());

    // Compression is rejected at construction.
    let mut cfg2 = PersistConfig::new("idx.iqdb");
    cfg2.compression = Compression::Lz4;
    let inner2 = MockIndex {
        dim: 4,
        metric: DistanceMetric::Euclidean,
        n: 0,
    };
    let err = PersistedIndex::open_with(inner2, cfg2).unwrap_err();
    assert!(matches!(
        err,
        PersistError::Unsupported {
            feature: "compression",
            ..
        }
    ));
    assert_eq!(
        err.to_string(),
        "feature not supported in this build: compression (available in v0.4)"
    );
}

#[test]
fn crc_mismatch_after_byte_flip_in_payload() {
    // 1) Save a good snapshot.
    let inner = MockIndex {
        dim: 8,
        metric: DistanceMetric::Cosine,
        n: 11,
    };
    let cfg = PersistConfig::new("idx.iqdb");
    let mut bytes = saved_bytes(&open(inner, cfg.clone()));

    // 2) Flip a bit in the LAST byte (well inside the payload region).
    let last = bytes.len() - 1;
    bytes[last] ^= 0x01;

    // 3) Load MUST surface ChecksumMismatch.
    let err = PersistedIndex::<MockIndex>::load(cfg, &bytes, None).unwrap_err();
    assert!(
        matches!(err, PersistError::ChecksumMismatch { .. }),
        "expected ChecksumMismatch, got {err:?}",
    );
}

#[test]
fn invalid_index_type_on_wrong_i_surfaces_loudly() {
    // Save a file with INDEX_TYPE = "mock", then try to load it
    // as if its tag were "other".
    let cfg = PersistConfig::new("idx.iqdb");
    let inner = MockIndex {
        dim: 4,
        metric: DistanceMetric::Euclidean,
        n: 3,
    };
    let bytes = saved_bytes(&open(inner, cfg.clone()));

    let err = PersistedIndex::<OtherMock>::load(cfg, &bytes, None).unwrap_err();
    assert!(
        matches!(
            err,
            PersistError::InvalidIndexType {
                expected: "other",
                ..
            }
        ),
        "expected InvalidIndexType, got {err:?}",
    );
    assert_eq!(
        err.to_string(),
        "index type mismatch: file declared \"mock\", caller expected \"other\""
    );
}

#[test]
fn roundtrip_through_storage_recovers_state() {
    let cfg = PersistConfig::new("idx.iqdb");
    let inner = MockIndex {
        dim: 32,
        metric: DistanceMetric::Manhattan,
        n: 42,
    };
    let mut dir = Dir::default();
    assert!(dir.write_atomic(
        &saved_bytes(&open(inner, cfg.clone())),
        cfg.fsync_policy,
        None
    ));

    let restored = PersistedIndex::<MockIndex>::load(cfg, &dir.target.unwrap(), None)
        .unwrap()
        .index;
    assert_eq!(restored.index().dim(), 32);
    assert_eq!(restored.index().metric(), DistanceMetric::Manhattan);
    assert_eq!(restored.index().len(), 42);
}

#[test]
fn a_snapshot_has_the_documented_layout() {
    let inner = MockIndex {
        dim: 3,
        metric: DistanceMetric::Hamming,
        n: 5,
    };
    let bytes = saved_bytes(&open(inner, PersistConfig::new("idx.iqdb")));
    let mut region: Vec<u8> = vec![0];
    region.extend_from_slice(&17u64.to_le_bytes());
    region.push(4);
    region.extend_from_slice(&3u64.to_le_bytes());
    region.extend_from_slice(&5u64.to_le_bytes());
    let mut want: Vec<u8> = b"IQDBPRST".to_vec();
    want.extend_from_slice(&2u32.to_le_bytes());
    want.extend_from_slice(&4u64.to_le_bytes());
    want.extend_from_slice(b"mock");
    want.extend_from_slice(&3u64.to_le_bytes());
    want.push(4);
    want.extend_from_slice(&5u64.to_le_bytes());
    want.extend_from_slice(&crc32fast::hash(&region).to_le_bytes());
    want.extend_from_slice(&region);
    assert_eq!(bytes, want);
}

#[test]
fn header_and_payload_must_agree() {
    let inner = MockIndex {
        dim: 3,
        metric: DistanceMetric::Hamming,
        n: 5,
    };
    let cfg = PersistConfig::new("idx.iqdb");
    let bytes = saved_bytes(&open(inner, cfg.clone()));
    for (at, value, reason) in [
        (24, 4, "header dim disagrees with payload-reconstructed index"),
        (32, 0, "header metric disagrees with payload-reconstructed index"),
        (33, 6, "header n_vectors disagrees with payload-reconstructed index"),
    ] {
        let mut m = bytes.clone();
        m[at] = value;
        match PersistedIndex::<MockIndex>::load(cfg.clone(), &m, None) {
            Err(PersistError::InvalidPayload { reason: found }) => assert_eq!(found, reason),
            other => panic!("offset {at}: {other:?}"),
        }
    }
}

#[test]
fn a_metric_without_a_tag_cannot_be_saved() {
    let inner = MockIndex {
        dim: 3,
        metric: DistanceMetric::Other,
        n: 5,
    };
    let err = open(inner, PersistConfig::new("idx.iqdb")).save().unwrap_err();
    assert!(matches!(
        err,
        PersistError::UnsupportedMetric {
            metric: DistanceMetric::Other
        }
    ));
}

#[test]
fn a_rejected_mutation_asks_for_a_rollback() {
    let mut cfg = PersistConfig::new("idx.iqdb");
    cfg.wal_enabled = true;
    let inner = MockIndex {
        dim: 1,
        metric: DistanceMetric::Cosine,
        n: 0,
    };
    let mut db = open(inner, cfg);
    let bad = VectorId::from(u64::MAX);
    let step = db.insert(bad.clone(), vec![0], None).unwrap();
    let pending = match step {
        Mutation::Logging(pending) => pending,
        Mutation::Applied => panic!("not logged"),
    };
    let rollback = db
        .commit(pending, LogOutcome::Appended { mark: 12 })
        .unwrap_err();
    assert_eq!(rollback.action, DiskAction::TruncateLog { len: 12 });
    assert!(matches!(
        rollback.error,
        PersistError::IndexBuild(IqdbError::Duplicate)
    ));
    assert_eq!(db.index().len(), 0);

    let step = db.delete(&bad).unwrap();
    let pending = match step {
        Mutation::Logging(pending) => pending,
        Mutation::Applied => panic!("not logged"),
    };
    let rollback = db
        .commit(pending, LogOutcome::Appended { mark: 40 })
        .unwrap_err();
    assert_eq!(rollback.action, DiskAction::TruncateLog { len: 40 });
    assert!(matches!(
        rollback.error,
        PersistError::IndexBuild(IqdbError::NotFound)
    ));
}

#[test]
fn without_a_log_mutations_apply_at_once() {
    let inner = MockIndex {
        dim: 1,
        metric: DistanceMetric::Cosine,
        n: 0,
    };
    let mut db = open(inner, PersistConfig::new("idx.iqdb"));
    assert!(matches!(
        db.insert(VectorId::from(1u64), vec![0], None),
        Ok(Mutation::Applied)
    ));
    assert_eq!(db.index().len(), 1);
    assert!(matches!(
        db.insert(VectorId::from(u64::MAX), vec![0], None),
        Err(PersistError::IndexBuild(IqdbError::Duplicate))
    ));
    db.index_mut().n = 9;
    assert_eq!(db.index().len(), 9);
    assert_eq!(db.checkpoint().unwrap().len(), 1);
    assert!(!db.config().wal_enabled);
}

#[test]
fn the_payload_is_flushed_before_the_rename() {
    let mut dir = Dir::default();
    assert!(dir.write_atomic(b"payload", FsyncPolicy::Always, None));
    assert_eq!(
        dir.trace,
        vec![
            WriteStep::CreateTemp,
            WriteStep::WriteTemp,
            WriteStep::SyncTemp,
            WriteStep::HoldFormer,
            WriteStep::Rename,
            WriteStep::SyncDir,
            WriteStep::Done,
        ]
    );
    assert!(dir.synced);
    let mut lazy = Dir::default();
    assert!(lazy.write_atomic(b"payload", FsyncPolicy::Never, None));
    assert!(!lazy.synced);
    assert_eq!(lazy.target.unwrap(), b"payload".to_vec());
    let mut periodic = Dir::default();
    let policy = FsyncPolicy::Periodic(std::time::Duration::from_secs(1));
    assert!(periodic.write_atomic(b"payload", policy, None));
    assert!(periodic.synced);
}

#[test]
fn a_failed_directory_flush_puts_the_former_target_back() {
    let mut dir = Dir::default();
    dir.target = Some(b"old".to_vec());
    let end = dir.run(b"new", FsyncPolicy::Always, &[WriteStep::SyncDir]);
    assert_eq!(end, WriteStep::Failed);
    assert_eq!(dir.target.unwrap(), b"old".to_vec());
    assert!(dir.temp.is_none());

    let mut fresh = Dir::default();
    let end = fresh.run(b"new", FsyncPolicy::Always, &[WriteStep::SyncDir]);
    assert_eq!(end, WriteStep::Failed);
    assert!(fresh.target.is_none());
}

#[test]
fn a_target_that_cannot_be_put_back_holds_the_whole_payload() {
    for second in [
        WriteStep::HoldFormer,
        WriteStep::WriteFormer,
        WriteStep::PutBack,
    ] {
        let mut dir = Dir::default();
        dir.target = Some(b"old".to_vec());
        let end = dir.run(b"new", FsyncPolicy::Always, &[WriteStep::SyncDir, second]);
        assert_eq!(end, WriteStep::Unrestored);
        assert_eq!(dir.target.unwrap(), b"new".to_vec());
        assert!(dir.temp.is_none());
    }
    let mut fresh = Dir::default();
    let broken = [WriteStep::SyncDir, WriteStep::RemoveTarget];
    let end = fresh.run(b"new", FsyncPolicy::Always, &broken);
    assert_eq!(end, WriteStep::Unrestored);
    assert_eq!(fresh.target.unwrap(), b"new".to_vec());
}

#[test]
fn a_target_that_cannot_be_opened_is_replaced_all_the_same() {
    let mut dir = Dir::default();
    dir.target = Some(b"a longer former target".to_vec());
    let end = dir.run(b"new", FsyncPolicy::Always, &[WriteStep::HoldFormer]);
    assert_eq!(end, WriteStep::Done);
    assert_eq!(dir.target.unwrap(), b"new".to_vec());
    assert!(dir.temp.is_none());
}

#[test]
fn temp_names_carry_pid_and_time() {
    assert_eq!(
        temp_file_name("idx.iqdb", 4711, 1_700_000_000_000_000_123),
        "idx.iqdb.tmp.4711.1700000000000000123"
    );
    assert_eq!(temp_file_name("a", 0, 0), "a.tmp.0.0");
}

#[test]
fn log_appends_are_flushed_as_the_policy_says() {
    let periodic = FsyncPolicy::Periodic(std::time::Duration::from_millis(5));
    assert!(FsyncPolicy::Always.sync_log(false));
    assert!(periodic.sync_log(true));
    assert!(!periodic.sync_log(false));
    assert!(!FsyncPolicy::Never.sync_log(true));
    assert!(!FsyncPolicy::Never.sync_snapshot());
    assert!(periodic.sync_snapshot());
    assert!(interval_passed(None, 5));
    assert!(!interval_passed(Some(4), 5));
    assert!(interval_passed(Some(5), 5));
}

#[test]
fn config_defaults() {
    let cfg = PersistConfig::new("/tmp/my-snapshot.iqdb");
    assert_eq!(cfg.path, std::path::PathBuf::from("/tmp/my-snapshot.iqdb"));
    assert_eq!(cfg.fsync_policy, FsyncPolicy::Always);
    assert_eq!(cfg.compression, Compression::Off);
    assert!(!cfg.wal_enabled);
    let placeholder = PersistConfig {
        path: "snapshot.iqdb".into(),
        ..PersistConfig::default()
    };
    assert_eq!(placeholder.fsync_policy, FsyncPolicy::Always);
    assert_eq!(placeholder.compression, Compression::Off);
    assert_eq!(PersistConfig::default().path, std::path::PathBuf::new());
}
