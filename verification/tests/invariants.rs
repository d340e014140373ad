//! The two core invariants, over pseudo-random inputs: a snapshot preserves
//! the state, and log replay reproduces the in-memory model.

use iqdb_persist::wal::{decode_record, encode_frame, encode_record, log_header, parse_records};
use iqdb_persist::{
    Codecs, Compression, DiskAction, DistanceMetric, Entry, LogOutcome, Metadata, Mutation,
    Persistable, PersistConfig, PersistError, PersistedIndex, Result, Value, VectorId, WalRecord,
};
use iqdb_types::IqdbError;

/// SplitMix64.
struct Rng(u64);

impl Rng {
    fn next(&mut self) -> u64 {
        self.0 = self.0.wrapping_add(0x9E37_79B9_7F4A_7C15);
        let mut z = self.0;
        z = (z ^ (z >> 30)).wrapping_mul(0xBF58_476D_1CE4_E5B9);
        z = (z ^ (z >> 27)).wrapping_mul(0x94D0_49BB_1331_11EB);
        z ^ (z >> 31)
    }
    fn below(&mut self, n: u64) -> u64 {
        self.next() % n
    }
}

type Row = (u64, Vec<u32>, Option<Metadata>);

/// An index that stores everything it is given, payloads being lists of
/// encoded insert records.
#[derive(Debug, Clone)]
struct StoreIndex {
    dim: usize,
    rows: Vec<Row>,
}

impl StoreIndex {
    fn new(dim: usize) -> Self {
        Self {
            dim,
            rows: Vec::new(),
        }
    }

    fn snapshot_state(&self) -> Vec<Row> {
        let mut out = self.rows.clone();
        out.sort_by_key(|(id, _, _)| *id);
        out
    }
}

impl Persistable for StoreIndex {
    const INDEX_TYPE: &'static str = "store";

    fn save_to(&self, w: &mut Vec<u8>) -> Result<()> {
        w.extend_from_slice(&(self.dim as u64).to_le_bytes());
        for (id, vector, meta) in &self.rows {
            let body = encode_record(&WalRecord::Insert {
                id: VectorId::U64(*id),
                vector: vector.clone(),
                meta: meta.clone(),
            })?;
            w.extend_from_slice(&(body.len() as u32).to_le_bytes());
            w.extend_from_slice(&body);
        }
        Ok(())
    }

    fn load_from(payload: &[u8]) -> Result<Self> {
        let bad = || PersistError::InvalidPayload {
            reason: "mock payload is malformed",
        };
        if payload.len() < 8 {
            return Err(bad());
        }
        let dim = u64::from_le_bytes(payload[..8].try_into().unwrap()) as usize;
        let mut rest = &payload[8..];
        let mut rows = Vec::new();
        while !rest.is_empty() {
            if rest.len() < 4 {
                return Err(bad());
            }
            let len = u32::from_le_bytes(rest[..4].try_into().unwrap()) as usize;
            if rest.len() < 4 + len {
                return Err(bad());
            }
            match decode_record(&rest[4..4 + len]) {
                Some(WalRecord::Insert {
                    id: VectorId::U64(id),
                    vector,
                    meta,
                }) => rows.push((id, vector, meta)),
                _ => return Err(bad()),
            }
            rest = &rest[4 + len..];
        }
        Ok(Self { dim, rows })
    }

    fn dim(&self) -> usize {
        self.dim
    }
    fn metric(&self) -> DistanceMetric {
        DistanceMetric::Cosine
    }
    fn len(&self) -> usize {
        self.rows.len()
    }
    fn insert(
        &mut self,
        id: VectorId,
        vector: Vec<u32>,
        meta: Option<Metadata>,
    ) -> std::result::Result<(), IqdbError> {
        if let VectorId::U64(n) = id {
            self.rows.push((n, vector, meta));
        }
        Ok(())
    }
    fn delete(&mut self, id: &VectorId) -> std::result::Result<(), IqdbError> {
        if let VectorId::U64(n) = id {
            self.rows.retain(|(r, _, _)| r != n);
        }
        Ok(())
    }
}

const DIM: usize = 4;

fn random_vector(rng: &mut Rng) -> Vec<u32> {
    (0..DIM)
        .map(|_| ((rng.below(2000) as i32 - 1000) as f32 / 8.0).to_bits())
        .collect()
}

fn random_text(rng: &mut Rng, most: u64) -> String {
    let n = rng.below(most + 1);
    (0..n)
        .map(|_| match rng.below(30) {
            26 => 'é',
            27 => '漢',
            28 => '🦀',
            k => (b'a' + (k % 26) as u8) as char,
        })
        .collect()
}

fn random_meta(rng: &mut Rng) -> Option<Metadata> {
    if rng.below(2) == 0 {
        return None;
    }
    let n = rng.below(4);
    let entries = (0..n)
        .map(|_| Entry {
            key: random_text(rng, 6),
            value: match rng.below(6) {
                0 => Value::String(random_text(rng, 8)),
                1 => Value::Int(rng.next() as i64),
                2 => Value::Int(if rng.below(2) == 0 { i64::MIN } else { -1 }),
                3 => Value::Float((rng.next() as f64 / 3.0).to_bits()),
                4 => Value::Bool(rng.below(2) == 0),
                _ => Value::Null,
            },
        })
        .collect();
    Some(Metadata { entries })
}

#[derive(Default)]
struct Disk {
    snapshot: Option<Vec<u8>>,
    log: Option<Vec<u8>>,
}

impl Disk {
    fn perform(&mut self, action: DiskAction) {
        match action {
            DiskAction::WriteSnapshot { bytes } => self.snapshot = Some(bytes),
            DiskAction::WriteLog { bytes } => self.log = Some(bytes),
            DiskAction::AppendLog { bytes } => {
                self.log.as_mut().unwrap().extend_from_slice(&bytes)
            }
            DiskAction::TruncateLog { len } => self.log.as_mut().unwrap().truncate(len as usize),
        }
    }

    fn finish(&mut self, db: &mut PersistedIndex<StoreIndex>, step: Mutation) {
        match step {
            Mutation::Logging(pending) => {
                let mark = self.log.as_ref().unwrap().len() as u64;
                self.perform(pending.action());
                db.commit(pending, LogOutcome::Appended { mark }).unwrap();
            }
            Mutation::Applied => panic!("not logged"),
        }
    }
}

#[test]
fn snapshot_round_trip_preserves_state() {
    let mut rng = Rng(1);
    for _ in 0..48 {
        let mut idx = StoreIndex::new(DIM);
        let n = rng.below(40);
        let mut seen = std::collections::HashSet::new();
        for _ in 0..n {
            let id = rng.next();
            if seen.insert(id) {
                let v = random_vector(&mut rng);
                let m = random_meta(&mut rng);
                idx.insert(VectorId::from(id), v, m).unwrap();
            }
        }
        let want = idx.snapshot_state();
        for scheme in [
            Compression::Off,
            Compression::Zstd { level: 3 },
            Compression::Lz4,
        ] {
            let mut cfg = PersistConfig::new("s.iqdb");
            cfg.compression = scheme;
            let db = PersistedIndex::open_with_codecs(idx.clone(), cfg.clone(), Codecs::all())
                .unwrap()
                .index;
            let file = match db.save().unwrap() {
                DiskAction::WriteSnapshot { bytes } => bytes,
                _ => panic!("save asked for something else"),
            };
            let restored: PersistedIndex<StoreIndex> =
                PersistedIndex::load_with_codecs(cfg, Codecs::all(), &file, None)
                    .unwrap()
                    .index;
            assert_eq!(restored.index().snapshot_state(), want);
        }
    }
}

#[test]
fn wal_replay_matches_in_memory_model() {
    let mut rng = Rng(2);
    for _ in 0..48 {
        let mut cfg = PersistConfig::new("idx.iqdb");
        cfg.wal_enabled = true;
        let mut disk = Disk::default();
        let mut model = StoreIndex::new(DIM);
        let mut live: Vec<u64> = Vec::new();
        let mut next_id: u64 = 0;

        let opened = PersistedIndex::open_with(StoreIndex::new(DIM), cfg.clone()).unwrap();
        let mut db = opened.index;
        for action in opened.actions {
            disk.perform(action);
        }
        let n_actions = rng.below(60);
        for _ in 0..n_actions {
            match rng.below(9) {
                0..=4 => {
                    let id = next_id;
                    next_id += 1;
                    live.push(id);
                    let v = random_vector(&mut rng);
                    let m = random_meta(&mut rng);
                    model
                        .insert(VectorId::from(id), v.clone(), m.clone())
                        .unwrap();
                    let step = db.insert(VectorId::from(id), v, m).unwrap();
                    disk.finish(&mut db, step);
                }
                5..=7 => {
                    if !live.is_empty() {
                        let k = rng.below(live.len() as u64) as usize;
                        let id = live.remove(k);
                        model.delete(&VectorId::from(id)).unwrap();
                        let step = db.delete(&VectorId::from(id)).unwrap();
                        disk.finish(&mut db, step);
                    }
                }
                _ => {
                    for action in db.checkpoint().unwrap() {
                        disk.perform(action);
                    }
                }
            }
        }
        // drop db -> simulated crash (no trailing checkpoint)
        drop(db);

        let recovered: PersistedIndex<StoreIndex> = PersistedIndex::load(
            cfg,
            disk.snapshot.as_ref().unwrap(),
            disk.log.as_deref(),
        )
        .unwrap()
        .index;
        assert_eq!(recovered.index().snapshot_state(), model.snapshot_state());
    }
}

fn random_record(rng: &mut Rng) -> WalRecord {
    let id = if rng.below(2) == 0 {
        VectorId::U64(rng.next())
    } else {
        let n = rng.below(20);
        VectorId::Bytes((0..n).map(|_| rng.next() as u8).collect())
    };
    if rng.below(4) == 0 {
        WalRecord::Delete { id }
    } else {
        WalRecord::Insert {
            id,
            vector: random_vector(rng),
            meta: random_meta(rng),
        }
    }
}

#[test]
fn records_and_logs_round_trip() {
    let mut rng = Rng(3);
    let mut log = log_header();
    let mut records = Vec::new();
    for _ in 0..200 {
        let record = random_record(&mut rng);
        let body = encode_record(&record).unwrap();
        assert_eq!(decode_record(&body), Some(record.clone()));
        let frame = encode_frame(&record).unwrap();
        assert_eq!(frame[..4], (body.len() as u32).to_le_bytes());
        assert_eq!(frame[4..8], crc32fast::hash(&body).to_le_bytes());
        assert_eq!(frame[8..], body[..]);
        log.extend_from_slice(&frame);
        records.push(record);
    }
    let contents = parse_records(&log).unwrap();
    assert_eq!(contents.records, records);
    assert_eq!(contents.committed, log.len());

    log.extend_from_slice(b"torn");
    let contents = parse_records(&log).unwrap();
    assert_eq!(contents.records, records);
    assert_eq!(contents.committed, log.len() - 4);
}

#[test]
fn records_have_the_documented_layout() {
    let record = WalRecord::Insert {
        id: VectorId::Bytes(b"key".to_vec()),
        vector: vec![1.0f32.to_bits(), 2.5f32.to_bits()],
        meta: Some(Metadata {
            entries: vec![
                Entry {
                    key: "a".to_string(),
                    value: Value::String("é".to_string()),
                },
                Entry {
                    key: "b".to_string(),
                    value: Value::Int(-2),
                },
                Entry {
                    key: "c".to_string(),
                    value: Value::Float(1.5f64.to_bits()),
                },
                Entry {
                    key: "d".to_string(),
                    value: Value::Bool(true),
                },
                Entry {
                    key: "e".to_string(),
                    value: Value::Null,
                },
            ],
        }),
    };
    let mut want: Vec<u8> = vec![1, 1];
    want.extend_from_slice(&3u64.to_le_bytes());
    want.extend_from_slice(b"key");
    want.extend_from_slice(&2u32.to_le_bytes());
    want.extend_from_slice(&1.0f32.to_le_bytes());
    want.extend_from_slice(&2.5f32.to_le_bytes());
    want.push(1);
    want.extend_from_slice(&5u32.to_le_bytes());
    for (key, value) in [
        (b"a", [&[0u8][..], &2u32.to_le_bytes(), "é".as_bytes()].concat()),
        (b"b", [&[1u8][..], &(-2i64).to_le_bytes()].concat()),
        (b"c", [&[2u8][..], &1.5f64.to_le_bytes()].concat()),
        (b"d", vec![3, 1]),
        (b"e", vec![4]),
    ] {
        want.extend_from_slice(&1u32.to_le_bytes());
        want.extend_from_slice(key);
        want.extend_from_slice(&value);
    }
    assert_eq!(encode_record(&record).unwrap(), want);

    let delete = WalRecord::Delete {
        id: VectorId::from(258u64),
    };
    assert_eq!(
        encode_record(&delete).unwrap(),
        vec![2, 0, 2, 1, 0, 0, 0, 0, 0, 0]
    );
}

#[test]
fn a_checksummed_record_that_does_not_decode_is_an_error() {
    for body in [
        &b""[..],
        b"\x03",
        b"\x02\x02\0\0\0\0\0\0\0\0",
        b"\x02\0\0\0\0\0\0\0\0\0trailing",
        b"\x01\0\0\0\0\0\0\0\0\0\0\0\0\0\x07",
        b"\x02\x01\xFF\xFF\xFF\xFF\xFF\xFF\xFF\xFF",
        b"\x01\0\0\0\0\0\0\0\0\0\0\0\0\0\x01\x01\0\0\0\x01\0\0\0\xFF\x04",
        b"\x01\0\0\0\0\0\0\0\0\0\0\0\0\0\x01\x01\0\0\0\0\0\0\0\x03\x02",
    ] {
        assert_eq!(decode_record(body), None);
        let mut log = log_header();
        log.extend_from_slice(&(body.len() as u32).to_le_bytes());
        log.extend_from_slice(&crc32fast::hash(body).to_le_bytes());
        log.extend_from_slice(body);
        assert!(matches!(
            parse_records(&log),
            Err(PersistError::InvalidPayload {
                reason: "WAL record does not decode"
            })
        ));
    }
}
