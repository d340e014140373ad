//! Hardening against damaged files: every single-byte flip and every
//! truncation of valid snapshots and logs, and pseudo-random garbage.

use iqdb_persist::{
    DiskAction, DistanceMetric, LogOutcome, Metadata, Mutation, Persistable, PersistConfig,
    PersistError, PersistedIndex, Result, VectorId, VERSION,
};
use iqdb_types::IqdbError;

#[derive(Debug)]
struct StoreIndex {
    dim: usize,
    metric: DistanceMetric,
    rows: Vec<(u64, Vec<u32>)>,
}

impl StoreIndex {
    fn new(dim: usize, metric: DistanceMetric) -> Self {
        Self {
            dim,
            metric,
            rows: Vec::new(),
        }
    }
}

fn take<'a>(r: &mut &'a [u8], n: usize) -> Result<&'a [u8]> {
    if r.len() < n {
        return Err(PersistError::InvalidPayload {
            reason: "mock payload ended early",
        });
    }
    let (head, tail) = r.split_at(n);
    *r = tail;
    Ok(head)
}

fn take_u64(r: &mut &[u8]) -> Result<u64> {
    Ok(u64::from_le_bytes(take(r, 8)?.try_into().unwrap()))
}

fn take_u32(r: &mut &[u8]) -> Result<u32> {
    Ok(u32::from_le_bytes(take(r, 4)?.try_into().unwrap()))
}

impl Persistable for StoreIndex {
    const INDEX_TYPE: &'static str = "store";

    fn save_to(&self, w: &mut Vec<u8>) -> Result<()> {
        w.extend_from_slice(&(self.dim as u64).to_le_bytes());
        w.extend_from_slice(&(self.rows.len() as u64).to_le_bytes());
        for (id, v) in &self.rows {
            w.extend_from_slice(&id.to_le_bytes());
            for c in v {
                w.extend_from_slice(&c.to_le_bytes());
            }
        }
        Ok(())
    }

    fn load_from(payload: &[u8]) -> Result<Self> {
        let mut r = payload;
        let dim = take_u64(&mut r)? as usize;
        // Bound the per-row work so a hostile payload that survived framing
        // cannot drive an unbounded allocation here.
        if dim > 1 << 16 {
            return Err(PersistError::InvalidPayload {
                reason: "mock dim too large",
            });
        }
        let n = take_u64(&mut r)? as usize;
        if n > 1 << 24 {
            return Err(PersistError::InvalidPayload {
                reason: "mock row count too large",
            });
        }
        let mut rows = Vec::new();
        for _ in 0..n {
            let id = take_u64(&mut r)?;
            let mut v = Vec::new();
            for _ in 0..dim {
                v.push(take_u32(&mut r)?);
            }
            rows.push((id, v));
        }
        Ok(Self {
            dim,
            metric: DistanceMetric::Cosine,
            rows,
        })
    }

    fn dim(&self) -> usize {
        self.dim
    }
    fn metric(&self) -> DistanceMetric {
        self.metric
    }
    fn len(&self) -> usize {
        self.rows.len()
    }
    fn insert(
        &mut self,
        id: VectorId,
        vector: Vec<u32>,
        _meta: Option<Metadata>,
    ) -> std::result::Result<(), IqdbError> {
        if let VectorId::U64(n) = id {
            self.rows.push((n, vector));
        }
        Ok(())
    }
    fn delete(&mut self, id: &VectorId) -> std::result::Result<(), IqdbError> {
        if let VectorId::U64(n) = id {
            self.rows.retain(|(r, _)| r != n);
        }
        Ok(())
    }
}

fn populated(dim: usize, n: u64) -> StoreIndex {
    let mut idx = StoreIndex::new(dim, DistanceMetric::Cosine);
    for i in 0..n {
        let v: Vec<u32> = (0..dim)
            .map(|d| ((i as f32) + d as f32 * 0.25).to_bits())
            .collect();
        idx.insert(VectorId::from(i), v, None).unwrap();
    }
    idx
}

/// A small PRNG (SplitMix64) for deterministic garbage.
fn garbage(seed: u64, len: usize) -> Vec<u8> {
    let mut state = seed.wrapping_add(0x9E37_79B9_7F4A_7C15);
    (0..len)
        .map(|_| {
            state = state.wrapping_add(0x9E37_79B9_7F4A_7C15);
            let mut z = state;
            z = (z ^ (z >> 30)).wrapping_mul(0xBF58_476D_1CE4_E5B9);
            z = (z ^ (z >> 27)).wrapping_mul(0x94D0_49BB_1331_11EB);
            ((z ^ (z >> 31)) & 0xFF) as u8
        })
        .collect()
}

fn saved_bytes(inner: StoreIndex) -> Vec<u8> {
    let db = PersistedIndex::open_with(inner, PersistConfig::new("good.iqdb"))
        .unwrap()
        .index;
    match db.save().unwrap() {
        DiskAction::WriteSnapshot { bytes } => bytes,
        _ => panic!("save asked for something else"),
    }
}

fn load_snapshot(bytes: &[u8]) -> Result<PersistedIndex<StoreIndex>> {
    PersistedIndex::load(PersistConfig::new("probe.iqdb"), bytes, None).map(|opened| opened.index)
}

#[test]
fn sanity_version_is_current() {
    // Guards against the harness drifting from the crate version.
    assert!(VERSION.starts_with("0.5"));
    assert_eq!(VERSION.split('.').count(), 3);
}

#[test]
fn every_single_byte_flip_in_a_snapshot_is_rejected() {
    let bytes = saved_bytes(populated(8, 20));
    assert!(load_snapshot(&bytes).is_ok(), "baseline must load");

    for i in 0..bytes.len() {
        let mut m = bytes.clone();
        m[i] ^= 0xFF;
        // Every byte is either header metadata (validated / cross-checked)
        // or inside the CRC-covered payload region, so any flip is caught.
        assert!(
            load_snapshot(&m).is_err(),
            "single-byte flip at offset {i} loaded successfully",
        );
    }
}

#[test]
fn every_one_bit_flip_in_a_snapshot_is_rejected() {
    let bytes = saved_bytes(populated(3, 4));
    for i in 0..bytes.len() {
        for bit in 0..8 {
            let mut m = bytes.clone();
            m[i] ^= 1 << bit;
            assert!(load_snapshot(&m).is_err(), "bit {bit} of byte {i}");
        }
    }
}

#[test]
fn every_truncation_of_a_snapshot_is_rejected() {
    let bytes = saved_bytes(populated(8, 20));
    for t in 0..bytes.len() {
        assert!(
            load_snapshot(&bytes[..t]).is_err(),
            "truncation to {t} of {} bytes loaded successfully",
            bytes.len(),
        );
        if t < 41 + "store".len() {
            assert!(matches!(
                load_snapshot(&bytes[..t]),
                Err(PersistError::TruncatedHeader { .. })
            ));
        } else {
            assert!(matches!(
                load_snapshot(&bytes[..t]),
                Err(PersistError::ChecksumMismatch { .. })
            ));
        }
    }
    assert!(load_snapshot(&bytes).is_ok());
}

#[test]
fn pseudo_random_garbage_is_never_a_valid_snapshot() {
    for seed in 0..512u64 {
        // Result is ignored on purpose: this neither panics nor aborts.
        let _ = load_snapshot(&garbage(seed, 96));
    }
    // And a garbage buffer carrying the real magic still cannot pass the
    // header/CRC gauntlet.
    let mut with_magic = b"IQDBPRST".to_vec();
    with_magic.extend_from_slice(&garbage(7, 200));
    assert!(load_snapshot(&with_magic).is_err());
}

fn wal_cfg() -> PersistConfig {
    let mut cfg = PersistConfig::new("idx.iqdb");
    cfg.wal_enabled = true;
    cfg
}

/// Build a WAL-backed db with `n` logged inserts (no checkpoint) and return
/// the snapshot and the raw WAL bytes.
fn build_wal(n: u64) -> (Vec<u8>, Vec<u8>) {
    let mut opened =
        PersistedIndex::open_with(StoreIndex::new(4, DistanceMetric::Cosine), wal_cfg()).unwrap();
    let mut snapshot = Vec::new();
    let mut wal = Vec::new();
    for action in opened.actions {
        match action {
            DiskAction::WriteSnapshot { bytes } => snapshot = bytes,
            DiskAction::WriteLog { bytes } => wal = bytes,
            _ => panic!("unexpected action"),
        }
    }
    for i in 0..n {
        let v = vec![(i as f32).to_bits(); 4];
        match opened.index.insert(VectorId::from(i), v, None).unwrap() {
            Mutation::Logging(pending) => {
                let mark = wal.len() as u64;
                wal.extend_from_slice(pending.frame());
                opened
                    .index
                    .commit(pending, LogOutcome::Appended { mark })
                    .unwrap();
            }
            Mutation::Applied => panic!("not logged"),
        }
    }
    assert_eq!(opened.index.index().len() as u64, n);
    (snapshot, wal)
}

fn load_wal(snapshot: &[u8], wal: &[u8]) -> Result<PersistedIndex<StoreIndex>> {
    PersistedIndex::load(wal_cfg(), snapshot, Some(wal)).map(|opened| opened.index)
}

#[test]
fn every_truncation_of_a_wal_recovers_cleanly() {
    let (snapshot, wal) = build_wal(12);
    let frame = (wal.len() - 12) / 12;

    for t in 0..=wal.len() {
        // A truncated WAL is a crash mid-append: replay must drop the torn
        // tail and succeed, never panic.
        let db = load_wal(&snapshot, &wal[..t])
            .unwrap_or_else(|e| panic!("WAL truncation to {t} failed to recover: {e:?}"));
        assert!(db.index().len() <= 12);
        let whole = if t < 12 { 0 } else { (t - 12) / frame };
        assert_eq!(db.index().len(), whole);
    }
}

#[test]
fn every_single_byte_flip_in_a_wal_is_handled() {
    let (snapshot, wal) = build_wal(12);

    for i in 0..wal.len() {
        let mut m = wal.clone();
        m[i] ^= 0xFF;
        // Either a clean Err (corrupt WAL header) or a correctly-shortened
        // replay (corrupt frame stops replay): never a panic, never more
        // records than were written.
        if let Ok(db) = load_wal(&snapshot, &m) {
            assert!(db.index().len() <= 12);
        }
    }
}

#[test]
fn a_flip_in_a_frame_keeps_exactly_the_records_before_it() {
    let (snapshot, wal) = build_wal(5);
    let frame = (wal.len() - 12) / 5;
    for i in 12..wal.len() {
        let within = (i - 12) % frame;
        if within < 4 {
            continue;
        }
        let mut m = wal.clone();
        m[i] ^= 0x10;
        let db = load_wal(&snapshot, &m).unwrap();
        assert_eq!(db.index().len(), (i - 12) / frame);
    }
}

#[test]
fn pseudo_random_garbage_as_a_wal_is_handled() {
    let (snapshot, _wal) = build_wal(4);

    for seed in 0..256u64 {
        // Must not panic; a garbage WAL is rejected (bad magic) or, by
        // astronomically unlikely coincidence, parsed.
        let _ = load_wal(&snapshot, &garbage(seed, 80));
    }
    assert!(matches!(
        load_wal(&snapshot, &garbage(1, 80)),
        Err(PersistError::BadMagic { .. })
    ));
}

#[test]
fn a_log_of_another_version_is_rejected() {
    let (snapshot, mut wal) = build_wal(1);
    wal[8] = 9;
    assert!(matches!(
        load_wal(&snapshot, &wal),
        Err(PersistError::UnsupportedVersion {
            found: 9,
            supported: 1
        })
    ));
}
