//! Snapshot compression, and the files of older format versions.

use iqdb_persist::compression::{open_payload, seal_payload};
use iqdb_persist::format::write_header;
use iqdb_persist::{
    checksum, Codecs, Compression, DiskAction, DistanceMetric, FileHeader, Metadata, Persistable,
    PersistConfig, PersistError, PersistedIndex, Result, VectorId, MAGIC,
};
use iqdb_types::IqdbError;

#[derive(Debug)]
struct StoreIndex {
    dim: usize,
    metric: DistanceMetric,
    rows: Vec<(u64, Vec<u32>)>,
}

fn take<'a>(r: &mut &'a [u8], n: usize) -> Result<&'a [u8]> {
    if r.len() < n {
        return Err(PersistError::InvalidPayload {
            reason: "mock payload ended early",
        });
    }
    let (head, tail) = r.split_at(n);
    *r = tail;
    Ok(head)
}

fn take_u64(r: &mut &[u8]) -> Result<u64> {
    Ok(u64::from_le_bytes(take(r, 8)?.try_into().unwrap()))
}

fn take_u32(r: &mut &[u8]) -> Result<u32> {
    Ok(u32::from_le_bytes(take(r, 4)?.try_into().unwrap()))
}

impl Persistable for StoreIndex {
    const INDEX_TYPE: &'static str = "store";

    fn save_to(&self, w: &mut Vec<u8>) -> Result<()> {
        w.extend_from_slice(&(self.dim as u64).to_le_bytes());
        w.push(iqdb_persist::format::metric_to_tag(self.metric)?);
        w.extend_from_slice(&(self.rows.len() as u64).to_le_bytes());
        for (id, v) in &self.rows {
            w.extend_from_slice(&id.to_le_bytes());
            for c in v {
                w.extend_from_slice(&c.to_le_bytes());
            }
        }
        Ok(())
    }

    fn load_from(payload: &[u8]) -> Result<Self> {
        let mut r = payload;
        let dim = take_u64(&mut r)? as usize;
        let metric = iqdb_persist::format::tag_to_metric(take(&mut r, 1)?[0])?;
        let n = take_u64(&mut r)? as usize;
        let mut rows = Vec::new();
        for _ in 0..n {
            let id = take_u64(&mut r)?;
            let mut v = Vec::new();
            for _ in 0..dim {
                v.push(take_u32(&mut r)?);
            }
            rows.push((id, v));
        }
        Ok(Self { dim, metric, rows })
    }

    fn dim(&self) -> usize {
        self.dim
    }
    fn metric(&self) -> DistanceMetric {
        self.metric
    }
    fn len(&self) -> usize {
        self.rows.len()
    }
    fn insert(
        &mut self,
        id: VectorId,
        vector: Vec<u32>,
        _meta: Option<Metadata>,
    ) -> std::result::Result<(), IqdbError> {
        if let VectorId::U64(n) = id {
            self.rows.push((n, vector));
        }
        Ok(())
    }
    fn delete(&mut self, _id: &VectorId) -> std::result::Result<(), IqdbError> {
        Ok(())
    }
}

fn populated(dim: usize, n: u64) -> StoreIndex {
    let mut idx = StoreIndex {
        dim,
        metric: DistanceMetric::Cosine,
        rows: Vec::new(),
    };
    for i in 0..n {
        // Zero-ish vectors compress well, exercising a real ratio.
        idx.insert(VectorId::from(i), vec![0.0f32.to_bits(); dim], None)
            .unwrap();
    }
    idx
}

fn cfg_with(scheme: Compression) -> PersistConfig {
    let mut cfg = PersistConfig::new("c.iqdb");
    cfg.compression = scheme;
    cfg
}

fn save_with(inner: StoreIndex, scheme: Compression) -> Result<Vec<u8>> {
    let db = PersistedIndex::open_with_codecs(inner, cfg_with(scheme), Codecs::all())?.index;
    match db.save()? {
        DiskAction::WriteSnapshot { bytes } => Ok(bytes),
        _ => panic!("save asked for something else"),
    }
}

fn load_with(scheme: Compression, codecs: Codecs, file: &[u8]) -> Result<PersistedIndex<StoreIndex>> {
    PersistedIndex::load_with_codecs(cfg_with(scheme), codecs, file, None)
        .map(|opened| opened.index)
}

fn round_trip_with(scheme: Compression) {
    let file = save_with(populated(16, 200), scheme).unwrap();
    let restored = load_with(scheme, Codecs::all(), &file).unwrap();
    assert_eq!(restored.index().len(), 200);
    assert_eq!(restored.index().dim(), 16);
}

#[test]
fn zstd_snapshot_round_trips() {
    round_trip_with(Compression::Zstd { level: 3 });
}

#[test]
fn lz4_snapshot_round_trips() {
    round_trip_with(Compression::Lz4);
}

#[test]
fn compression_shrinks_a_compressible_snapshot() {
    let raw = save_with(populated(64, 500), Compression::Off).unwrap().len();
    let zstd = save_with(populated(64, 500), Compression::Zstd { level: 9 })
        .unwrap()
        .len();
    assert!(zstd < raw, "compressed {zstd} not smaller than raw {raw}");
    let lz4 = save_with(populated(64, 500), Compression::Lz4).unwrap().len();
    assert!(lz4 < raw, "compressed {lz4} not smaller than raw {raw}");
}

#[test]
fn corrupt_compressed_payload_is_caught_by_crc() {
    let mut bytes = save_with(populated(8, 50), Compression::Lz4).unwrap();

    // Flip a byte in the payload region (well past the header).
    let last = bytes.len() - 1;
    bytes[last] ^= 0x01;

    let err = load_with(Compression::Lz4, Codecs::all(), &bytes).unwrap_err();
    assert!(matches!(err, PersistError::ChecksumMismatch { .. }));
}

/// A format-v1 snapshot (no compression preamble) must still load.
#[test]
fn legacy_v1_snapshot_still_loads() {
    let index = populated(4, 10);

    // Serialize exactly what v1 stored: header (version 1) + raw payload,
    // crc32 over the raw payload.
    let mut raw = Vec::new();
    index.save_to(&mut raw).unwrap();
    let header = FileHeader {
        magic: MAGIC,
        version: 1,
        index_type: StoreIndex::INDEX_TYPE.to_string(),
        dim: index.dim(),
        metric: index.metric(),
        n_vectors: index.len(),
        crc32: checksum::compute(&raw),
    };
    let mut file = Vec::new();
    write_header(&mut file, &header).unwrap();
    file.extend_from_slice(&raw);

    let restored =
        PersistedIndex::<StoreIndex>::load(PersistConfig::new("legacy.iqdb"), &file, None)
            .unwrap()
            .index;
    assert_eq!(restored.index().len(), 10);
    assert_eq!(restored.index().dim(), 4);
}

#[test]
fn payloads_round_trip_under_every_scheme() {
    let mut mixed = Vec::new();
    for i in 0..100_000u32 {
        mixed.extend_from_slice(&(i.wrapping_mul(2_654_435_761) >> (i % 29)).to_le_bytes());
    }
    let payloads: Vec<Vec<u8>> = vec![
        Vec::new(),
        vec![7],
        b"hello hello hello hello".to_vec(),
        vec![0xFF; 300_000],
        vec![0; 5_000_000],
        mixed,
    ];
    for raw in &payloads {
        for scheme in [
            Compression::Off,
            Compression::Zstd { level: 1 },
            Compression::Zstd { level: 22 },
            Compression::Lz4,
        ] {
            let region = seal_payload(raw, scheme).unwrap();
            let back = open_payload(2, &region, Codecs::all()).unwrap();
            assert!(&back == raw, "{scheme:?} lost a payload of {}", raw.len());
        }
    }
}

#[test]
fn regions_start_with_the_preamble() {
    let raw = b"abcabcabcabcabcabcabcabcabcabc";
    let off = seal_payload(raw, Compression::Off).unwrap();
    assert_eq!(off[0], 0);
    assert_eq!(off[1..9], 30u64.to_le_bytes());
    assert_eq!(&off[9..], raw);
    let zstd = seal_payload(raw, Compression::Zstd { level: 3 }).unwrap();
    assert_eq!(zstd[0], 1);
    assert_eq!(zstd[1..9], 30u64.to_le_bytes());
    assert_ne!(&zstd[9..], raw);
    assert_eq!(zstd::bulk::decompress(&zstd[9..], 30).unwrap(), raw);
    let lz4 = seal_payload(raw, Compression::Lz4).unwrap();
    assert_eq!(lz4[0], 2);
    assert_eq!(lz4[1..9], 30u64.to_le_bytes());
    assert_ne!(&lz4[9..], raw);
    assert_eq!(lz4_flex::block::decompress(&lz4[9..], 30).unwrap(), raw);
}

#[test]
fn version_one_regions_are_the_payload() {
    assert_eq!(
        open_payload(1, b"verbatim", Codecs::default()).unwrap(),
        b"verbatim".to_vec()
    );
}

#[test]
fn zstd_levels_outside_the_range_are_rejected() {
    for level in [i32::MIN, -1, 0, 23, i32::MAX] {
        assert!(matches!(
            seal_payload(b"x", Compression::Zstd { level }),
            Err(PersistError::Compression {
                reason: "zstd level is outside 1..=22"
            })
        ));
        assert!(matches!(
            save_with(populated(2, 2), Compression::Zstd { level }),
            Err(PersistError::Compression { .. })
        ));
    }
}

#[test]
fn the_zstd_encoder_is_asked_at_the_level_given() {
    let raw: Vec<u8> = (0..20_000u32)
        .flat_map(|i| (i.wrapping_mul(2_654_435_761) >> 21).to_le_bytes())
        .collect();
    for level in [1, 3, 9, 19] {
        let region = seal_payload(&raw, Compression::Zstd { level }).unwrap();
        assert_eq!(region[9..], zstd::bulk::compress(&raw, level).unwrap());
    }
    let fast = seal_payload(&raw, Compression::Zstd { level: 1 }).unwrap();
    let small = seal_payload(&raw, Compression::Zstd { level: 19 }).unwrap();
    assert_ne!(fast, small);
}

#[test]
fn a_frame_that_holds_more_than_declared_is_rejected() {
    let frame = zstd::bulk::compress(&[7u8; 1000], 3).unwrap();
    for claimed in [0u64, 1, 999] {
        assert!(matches!(
            open_payload(2, &region(1, claimed, &frame), Codecs::all()),
            Err(PersistError::Compression {
                reason: "zstd decompression failed"
            })
        ));
    }
    assert!(matches!(
        open_payload(2, &region(1, 1001, &frame), Codecs::all()),
        Err(PersistError::Compression {
            reason: "decompressed length disagrees with the declared length"
        })
    ));
    assert_eq!(
        open_payload(2, &region(1, 1000, &frame), Codecs::all()).unwrap(),
        vec![7u8; 1000]
    );
}

#[test]
fn a_truncated_snapshot_is_reported_for_what_it_is() {
    for scheme in [
        Compression::Off,
        Compression::Zstd { level: 3 },
        Compression::Lz4,
    ] {
        let file = save_with(populated(8, 20), scheme).unwrap();
        for cut in 0..file.len() {
            let out = load_with(scheme, Codecs::all(), &file[..cut]);
            if cut < 41 + "store".len() {
                assert!(matches!(out, Err(PersistError::TruncatedHeader { .. })));
            } else {
                assert!(matches!(out, Err(PersistError::ChecksumMismatch { .. })));
            }
        }
        assert!(load_with(scheme, Codecs::all(), &file).is_ok());
    }
}

#[test]
fn a_codec_that_is_off_is_unsupported() {
    let zstd_only = Codecs {
        zstd: true,
        lz4: false,
    };
    let file = save_with(populated(2, 2), Compression::Lz4).unwrap();
    // The config asks for it.
    assert!(matches!(
        load_with(Compression::Lz4, zstd_only, &file),
        Err(PersistError::Unsupported {
            feature: "compression",
            available_in: "v0.4"
        })
    ));
    // Only the file asks for it.
    assert!(matches!(
        load_with(Compression::Off, zstd_only, &file),
        Err(PersistError::Unsupported {
            feature: "compression",
            ..
        })
    ));
    // The scheme on disk decides, not the config.
    assert_eq!(
        load_with(Compression::Off, Codecs::all(), &file)
            .unwrap()
            .index()
            .len(),
        2
    );
    let zstd_file = save_with(populated(2, 2), Compression::Zstd { level: 5 }).unwrap();
    assert!(load_with(Compression::Off, zstd_only, &zstd_file).is_ok());
    assert!(matches!(
        load_with(Compression::Off, Codecs::default(), &zstd_file),
        Err(PersistError::Unsupported { .. })
    ));
}

fn region(tag: u8, len: u64, stored: &[u8]) -> Vec<u8> {
    let mut out = vec![tag];
    out.extend_from_slice(&len.to_le_bytes());
    out.extend_from_slice(stored);
    out
}

#[test]
fn malformed_regions_are_rejected() {
    let all = Codecs::all();
    assert!(matches!(
        open_payload(2, &[0; 8], all),
        Err(PersistError::TruncatedPayload {
            needed: 9,
            found: 8
        })
    ));
    assert!(matches!(
        open_payload(2, &region(0, 5, b"abc"), all),
        Err(PersistError::TruncatedPayload {
            needed: 5,
            found: 3
        })
    ));
    assert!(matches!(
        open_payload(2, &region(0, 2, b"abc"), all),
        Err(PersistError::InvalidPayload {
            reason: "payload is longer than its declared length"
        })
    ));
    assert!(matches!(
        open_payload(2, &region(3, 3, b"abc"), all),
        Err(PersistError::InvalidPayload {
            reason: "unknown compression scheme tag"
        })
    ));
    assert!(matches!(
        open_payload(2, &region(1, 3, b"abc"), all),
        Err(PersistError::Compression {
            reason: "zstd decompression failed"
        })
    ));
    assert!(matches!(
        open_payload(2, &region(2, 3, &[0xF0, 0xFF]), all),
        Err(PersistError::Compression {
            reason: "lz4 decompression failed"
        })
    ));
    // A well-formed block of three bytes, declared as two and as four.
    let block = [0x30, b'a', b'4', b'9'];
    assert_eq!(
        open_payload(2, &region(2, 3, &block), all).unwrap(),
        b"a49".to_vec()
    );
    assert!(matches!(
        open_payload(2, &region(2, 2, &block), all),
        Err(PersistError::Compression {
            reason: "lz4 decompression failed"
        })
    ));
    assert!(matches!(
        open_payload(2, &region(2, 4, &block), all),
        Err(PersistError::Compression {
            reason: "decompressed length disagrees with the declared length"
        })
    ));
}

#[test]
fn a_decompression_bomb_is_rejected_before_it_is_opened() {
    for tag in [1, 2] {
        for len in [u64::MAX, u64::MAX / 2, 1 << 40, 65_536 * 3 + 1] {
            assert!(matches!(
                open_payload(2, &region(tag, len, b"abc"), Codecs::all()),
                Err(PersistError::InvalidPayload {
                    reason: "declared payload length is implausible"
                })
            ));
        }
    }
}

#[test]
fn a_block_of_many_literal_ff_bytes_is_read() {
    let raw = vec![0xFFu8; 9_000_000];
    let mut block = vec![0xF0u8];
    block.resize(1 + (raw.len() - 15) / 255, 0xFF);
    block.push(((raw.len() - 15) % 255) as u8);
    block.extend_from_slice(&raw);
    assert_eq!(
        open_payload(2, &region(2, raw.len() as u64, &block), Codecs::all()).unwrap(),
        raw
    );
}

#[test]
fn the_lz4_encoder_is_asked() {
    let raw: Vec<u8> = (0..5_000u32).flat_map(|i| (i / 3).to_le_bytes()).collect();
    let sealed = seal_payload(&raw, Compression::Lz4).unwrap();
    assert_eq!(sealed[9..], lz4_flex::block::compress(&raw));
}

#[test]
fn a_run_of_length_bytes_beyond_the_decoder_is_rejected() {
    let mut block = vec![0xF0u8];
    block.resize(16_843_010, 0xFF);
    assert!(matches!(
        open_payload(2, &region(2, 1 << 20, &block), Codecs::all()),
        Err(PersistError::Compression {
            reason: "lz4 decompression failed"
        })
    ));
}
