//! The write-ahead log's lifecycle and crash recovery, against a storing mock
//! index and an in-memory disk.

use iqdb_persist::{
    DiskAction, DistanceMetric, Entry, LogOutcome, Metadata, Mutation, Persistable, PersistConfig,
    PersistError, PersistedIndex, Result, Value, VectorId,
};
use iqdb_types::IqdbError;

#[derive(Debug)]
struct StoreIndex {
    dim: usize,
    metric: DistanceMetric,
    rows: Vec<(VectorId, Vec<u32>, Option<Metadata>)>,
}

impl StoreIndex {
    fn new(dim: usize, metric: DistanceMetric) -> Self {
        Self {
            dim,
            metric,
            rows: Vec::new(),
        }
    }
    fn ids(&self) -> Vec<VectorId> {
        self.rows.iter().map(|(id, _, _)| id.clone()).collect()
    }
    fn meta_of(&self, id: &VectorId) -> Option<&Metadata> {
        self.rows
            .iter()
            .find(|(rid, _, _)| rid == id)
            .and_then(|(_, _, m)| m.as_ref())
    }
}

fn tag(metric: DistanceMetric) -> u8 {
    match metric {
        DistanceMetric::Cosine => 0,
        DistanceMetric::DotProduct => 1,
        DistanceMetric::Euclidean => 2,
        DistanceMetric::Manhattan => 3,
        DistanceMetric::Hamming => 4,
        _ => 255,
    }
}

fn untag(t: u8) -> Result<DistanceMetric> {
    Ok(match t {
        0 => DistanceMetric::Cosine,
        1 => DistanceMetric::DotProduct,
        2 => DistanceMetric::Euclidean,
        3 => DistanceMetric::Manhattan,
        4 => DistanceMetric::Hamming,
        _ => {
            return Err(PersistError::InvalidPayload {
                reason: "bad metric tag in mock payload",
            });
        }
    })
}

fn take<'a>(r: &mut &'a [u8], n: usize) -> Result<&'a [u8]> {
    if r.len() < n {
        return Err(PersistError::InvalidPayload {
            reason: "mock payload ended early",
        });
    }
    let (head, tail) = r.split_at(n);
    *r = tail;
    Ok(head)
}

fn take_u64(r: &mut &[u8]) -> Result<u64> {
    Ok(u64::from_le_bytes(take(r, 8)?.try_into().unwrap()))
}

fn take_u32(r: &mut &[u8]) -> Result<u32> {
    Ok(u32::from_le_bytes(take(r, 4)?.try_into().unwrap()))
}

impl Persistable for StoreIndex {
    const INDEX_TYPE: &'static str = "store";

    fn save_to(&self, w: &mut Vec<u8>) -> Result<()> {
        w.extend_from_slice(&(self.dim as u64).to_le_bytes());
        w.push(tag(self.metric));
        w.extend_from_slice(&(self.rows.len() as u64).to_le_bytes());
        for (id, v, _) in &self.rows {
            let n = match id {
                VectorId::U64(n) => *n,
                VectorId::Bytes(_) => {
                    return Err(PersistError::InvalidPayload {
                        reason: "mock only serialises U64 ids",
                    });
                }
            };
            w.extend_from_slice(&n.to_le_bytes());
            for c in v {
                w.extend_from_slice(&c.to_le_bytes());
            }
        }
        Ok(())
    }

    fn load_from(payload: &[u8]) -> Result<Self> {
        let mut r = payload;
        let dim = take_u64(&mut r)? as usize;
        let metric = untag(take(&mut r, 1)?[0])?;
        let n = take_u64(&mut r)? as usize;
        let mut rows = Vec::new();
        for _ in 0..n {
            let id = VectorId::U64(take_u64(&mut r)?);
            let mut v = Vec::new();
            for _ in 0..dim {
                v.push(take_u32(&mut r)?);
            }
            rows.push((id, v, None));
        }
        Ok(Self { dim, metric, rows })
    }

    fn dim(&self) -> usize {
        self.dim
    }
    fn metric(&self) -> DistanceMetric {
        self.metric
    }
    fn len(&self) -> usize {
        self.rows.len()
    }
    fn insert(
        &mut self,
        id: VectorId,
        vector: Vec<u32>,
        meta: Option<Metadata>,
    ) -> std::result::Result<(), IqdbError> {
        self.rows.push((id, vector, meta));
        Ok(())
    }
    fn delete(&mut self, id: &VectorId) -> std::result::Result<(), IqdbError> {
        self.rows.retain(|(rid, _, _)| rid != id);
        Ok(())
    }
}

/// The snapshot file and the log, in memory.
#[derive(Debug, Default, Clone)]
struct Disk {
    snapshot: Option<Vec<u8>>,
    log: Option<Vec<u8>>,
}

impl Disk {
    fn perform(&mut self, action: DiskAction) {
        match action {
            DiskAction::WriteSnapshot { bytes } => self.snapshot = Some(bytes),
            DiskAction::WriteLog { bytes } => self.log = Some(bytes),
            DiskAction::AppendLog { bytes } => {
                self.log.as_mut().unwrap().extend_from_slice(&bytes)
            }
            DiskAction::TruncateLog { len } => self.log.as_mut().unwrap().truncate(len as usize),
        }
    }

    fn open(&mut self, inner: StoreIndex, cfg: PersistConfig) -> Result<PersistedIndex<StoreIndex>> {
        let opened = PersistedIndex::open_with(inner, cfg)?;
        for action in opened.actions {
            self.perform(action);
        }
        Ok(opened.index)
    }

    fn load(&mut self, cfg: PersistConfig) -> Result<PersistedIndex<StoreIndex>> {
        let file = self.snapshot.clone().unwrap();
        let log = self.log.clone();
        let opened = PersistedIndex::load(cfg, &file, log.as_deref())?;
        for action in opened.actions {
            self.perform(action);
        }
        Ok(opened.index)
    }

    fn finish(&mut self, db: &mut PersistedIndex<StoreIndex>, step: Mutation) -> Result<()> {
        if let Mutation::Logging(pending) = step {
            let mark = self.log.as_ref().unwrap().len() as u64;
            self.perform(pending.action());
            if let Err(rollback) = db.commit(pending, LogOutcome::Appended { mark }) {
                self.perform(rollback.action);
                return Err(rollback.error);
            }
        }
        Ok(())
    }

    fn insert(
        &mut self,
        db: &mut PersistedIndex<StoreIndex>,
        id: VectorId,
        vector: Vec<u32>,
        meta: Option<Metadata>,
    ) -> Result<()> {
        let step = db.insert(id, vector, meta)?;
        self.finish(db, step)
    }

    fn delete(&mut self, db: &mut PersistedIndex<StoreIndex>, id: &VectorId) -> Result<()> {
        let step = db.delete(id)?;
        self.finish(db, step)
    }

    fn checkpoint(&mut self, db: &PersistedIndex<StoreIndex>) -> Result<()> {
        for action in db.checkpoint()? {
            self.perform(action);
        }
        Ok(())
    }
}

fn vec(values: &[f32]) -> Vec<u32> {
    values.iter().map(|v| v.to_bits()).collect()
}

fn wal_cfg() -> PersistConfig {
    let mut cfg = PersistConfig::new("idx.iqdb");
    cfg.wal_enabled = true;
    cfg
}

#[test]
fn open_with_wal_writes_initial_snapshot_and_wal() {
    let mut disk = Disk::default();
    let index = StoreIndex::new(2, DistanceMetric::Euclidean);
    let _wrapped = disk.open(index, wal_cfg()).unwrap();

    assert!(disk.snapshot.is_some(), "initial snapshot not written");
    assert!(disk.log.is_some(), "WAL file not created");
    assert_eq!(disk.log.unwrap(), b"IQDBWAL\0\x01\0\0\0".to_vec());
}

#[test]
fn crash_recovery_replays_unckeckpointed_mutations() {
    let mut disk = Disk::default();
    {
        let index = StoreIndex::new(2, DistanceMetric::Cosine);
        let mut db = disk.open(index, wal_cfg()).unwrap();
        disk.insert(&mut db, VectorId::from(1u64), vec(&[0.0, 1.0]), None)
            .unwrap();
        let meta = Metadata {
            entries: vec![Entry {
                key: "tag".to_string(),
                value: Value::String("a".to_string()),
            }],
        };
        disk.insert(&mut db, VectorId::from(2u64), vec(&[2.0, 3.0]), Some(meta))
            .unwrap();
        disk.insert(&mut db, VectorId::from(3u64), vec(&[4.0, 5.0]), None)
            .unwrap();
        disk.delete(&mut db, &VectorId::from(1u64)).unwrap();
        // drop -> "crash"
    }

    let recovered = disk.load(wal_cfg()).unwrap();
    let idx = recovered.index();
    assert_eq!(idx.len(), 2, "expected ids 2 and 3 after replay");
    let ids = idx.ids();
    assert!(ids.contains(&VectorId::from(2u64)));
    assert!(ids.contains(&VectorId::from(3u64)));
    assert!(!ids.contains(&VectorId::from(1u64)), "delete not replayed");

    // Metadata survived the log.
    let m = idx.meta_of(&VectorId::from(2u64)).expect("metadata lost");
    let found = m.entries.iter().find(|e| e.key == "tag").map(|e| &e.value);
    assert_eq!(found, Some(&Value::String("a".to_string())));
}

#[test]
fn checkpoint_resets_wal_and_avoids_double_apply() {
    let mut disk = Disk::default();
    {
        let index = StoreIndex::new(2, DistanceMetric::Cosine);
        let mut db = disk.open(index, wal_cfg()).unwrap();
        disk.insert(&mut db, VectorId::from(1u64), vec(&[1.0, 1.0]), None)
            .unwrap();
        disk.insert(&mut db, VectorId::from(2u64), vec(&[2.0, 2.0]), None)
            .unwrap();
        disk.checkpoint(&db).unwrap(); // snapshot {1,2}, WAL reset
        disk.insert(&mut db, VectorId::from(3u64), vec(&[3.0, 3.0]), None)
            .unwrap();
    }

    // load = snapshot {1,2} + replay {3}. If the WAL had not been reset,
    // replaying {1,2} again would double-count.
    let recovered = disk.load(wal_cfg()).unwrap();
    assert_eq!(recovered.index().len(), 3);
    let ids = recovered.index().ids();
    for n in [1u64, 2, 3] {
        assert!(ids.contains(&VectorId::from(n)));
    }
}

#[test]
fn torn_tail_record_is_discarded_on_recovery() {
    let mut disk = Disk::default();
    {
        let index = StoreIndex::new(2, DistanceMetric::Cosine);
        let mut db = disk.open(index, wal_cfg()).unwrap();
        disk.insert(&mut db, VectorId::from(1u64), vec(&[1.0, 1.0]), None)
            .unwrap();
        disk.insert(&mut db, VectorId::from(2u64), vec(&[2.0, 2.0]), None)
            .unwrap();
    }

    // Simulate a crash mid-append: chop the final bytes of the WAL so the
    // last frame is truncated.
    let bytes = disk.log.clone().unwrap();
    assert!(bytes.len() > 6);
    disk.log = Some(bytes[..bytes.len() - 5].to_vec());

    let recovered = disk.load(wal_cfg()).unwrap();
    // The first insert is intact; the torn second one is dropped.
    assert_eq!(recovered.index().len(), 1);
    assert!(recovered.index().ids().contains(&VectorId::from(1u64)));
}

#[test]
fn continued_appends_after_recovery_persist() {
    let mut disk = Disk::default();
    {
        let index = StoreIndex::new(2, DistanceMetric::Cosine);
        let mut db = disk.open(index, wal_cfg()).unwrap();
        disk.insert(&mut db, VectorId::from(1u64), vec(&[1.0, 1.0]), None)
            .unwrap();
    }
    {
        // Recover, then append more: the new records must land at the end
        // of the existing WAL, not clobber it.
        let mut db = disk.load(wal_cfg()).unwrap();
        assert_eq!(db.index().len(), 1);
        disk.insert(&mut db, VectorId::from(2u64), vec(&[2.0, 2.0]), None)
            .unwrap();
    }

    let again = disk.load(wal_cfg()).unwrap();
    assert_eq!(again.index().len(), 2);
}

#[test]
fn bytes_vector_id_round_trips_through_wal() {
    let mut disk = Disk::default();
    let key = VectorId::Bytes(b"content-hash-key".to_vec());
    {
        let index = StoreIndex::new(2, DistanceMetric::Cosine);
        let mut db = disk.open(index, wal_cfg()).unwrap();
        disk.insert(&mut db, key.clone(), vec(&[7.0, 8.0]), None)
            .unwrap();
    }
    let recovered = disk.load(wal_cfg()).unwrap();
    assert!(recovered.index().ids().contains(&key));
}

#[test]
fn snapshot_only_mode_ignores_wal_api_durability() {
    // With WAL disabled, insert applies to memory; durability is the
    // explicit save(), and no log is created.
    let mut disk = Disk::default();
    let index = StoreIndex::new(2, DistanceMetric::Cosine);
    let mut db = disk.open(index, PersistConfig::new("idx.iqdb")).unwrap();
    disk.insert(&mut db, VectorId::from(1u64), vec(&[1.0, 2.0]), None)
        .unwrap();
    let action = db.save().unwrap();
    disk.perform(action);
    assert!(disk.log.is_none(), "no WAL expected in snapshot mode");

    let restored = disk.load(PersistConfig::new("idx.iqdb")).unwrap();
    assert_eq!(restored.index().len(), 1);
}

#[test]
fn appends_after_a_torn_tail_are_recovered() {
    let mut disk = Disk::default();
    {
        let index = StoreIndex::new(2, DistanceMetric::Cosine);
        let mut db = disk.open(index, wal_cfg()).unwrap();
        disk.insert(&mut db, VectorId::from(1u64), vec(&[1.0, 1.0]), None)
            .unwrap();
        disk.insert(&mut db, VectorId::from(2u64), vec(&[2.0, 2.0]), None)
            .unwrap();
    }
    let whole = disk.log.clone().unwrap();
    disk.log = Some(whole[..whole.len() - 5].to_vec());
    {
        let mut db = disk.load(wal_cfg()).unwrap();
        disk.insert(&mut db, VectorId::from(3u64), vec(&[3.0, 3.0]), None)
            .unwrap();
    }
    let again = disk.load(wal_cfg()).unwrap();
    assert_eq!(
        again.index().ids(),
        vec![VectorId::from(1u64), VectorId::from(3u64)]
    );
}

#[test]
fn a_missing_log_replays_nothing_and_is_created() {
    let mut disk = Disk::default();
    {
        let index = StoreIndex::new(2, DistanceMetric::Cosine);
        let mut db = disk.open(index, wal_cfg()).unwrap();
        disk.insert(&mut db, VectorId::from(1u64), vec(&[1.0, 1.0]), None)
            .unwrap();
    }
    disk.log = None;
    let mut db = disk.load(wal_cfg()).unwrap();
    assert_eq!(db.index().len(), 0);
    assert_eq!(disk.log.as_ref().unwrap().len(), 12);
    disk.insert(&mut db, VectorId::from(9u64), vec(&[1.0, 1.0]), None)
        .unwrap();
    assert_eq!(disk.load(wal_cfg()).unwrap().index().len(), 1);
}

#[test]
fn a_failed_append_is_rolled_back_and_not_applied() {
    let mut disk = Disk::default();
    let index = StoreIndex::new(2, DistanceMetric::Cosine);
    let mut db = disk.open(index, wal_cfg()).unwrap();
    let before = disk.log.clone().unwrap();
    let step = db
        .insert(VectorId::from(1u64), vec(&[1.0, 1.0]), None)
        .unwrap();
    let pending = match step {
        Mutation::Logging(pending) => pending,
        Mutation::Applied => panic!("not logged"),
    };
    // Only half of the frame reaches the log.
    let mark = before.len() as u64;
    let half = pending.frame()[..pending.frame().len() / 2].to_vec();
    disk.perform(DiskAction::AppendLog { bytes: half });
    let error = PersistError::Io {
        path: "idx.iqdb.wal".into(),
        source: std::io::Error::other("disk full"),
    };
    let rollback = db
        .commit(pending, LogOutcome::Failed { mark, error })
        .unwrap_err();
    disk.perform(rollback.action);
    assert!(matches!(rollback.error, PersistError::Io { .. }));
    assert_eq!(disk.log.unwrap(), before);
    assert_eq!(db.index().len(), 0);
}

#[test]
fn a_logged_vector_of_another_dimension_stops_replay() {
    let mut disk = Disk::default();
    {
        let index = StoreIndex::new(2, DistanceMetric::Cosine);
        let mut db = disk.open(index, wal_cfg()).unwrap();
        disk.insert(&mut db, VectorId::from(1u64), vec(&[1.0, 1.0, 1.0]), None)
            .unwrap();
    }
    let err = disk.load(wal_cfg()).unwrap_err();
    assert!(matches!(
        err,
        PersistError::InvalidPayload {
            reason: "WAL insert vector dimension disagrees with the index"
        }
    ));
}
