//! The file header: round trips and targeted error shapes.

use iqdb_persist::format::{metric_to_tag, read_header, tag_to_metric, write_header};
use iqdb_persist::{DistanceMetric, FileHeader, PersistError, CURRENT_VERSION, MAGIC};

const METRICS: [DistanceMetric; 5] = [
    DistanceMetric::Cosine,
    DistanceMetric::DotProduct,
    DistanceMetric::Euclidean,
    DistanceMetric::Manhattan,
    DistanceMetric::Hamming,
];

/// SplitMix64.
fn next(state: &mut u64) -> u64 {
    *state = state.wrapping_add(0x9E37_79B9_7F4A_7C15);
    let mut z = *state;
    z = (z ^ (z >> 30)).wrapping_mul(0xBF58_476D_1CE4_E5B9);
    z = (z ^ (z >> 27)).wrapping_mul(0x94D0_49BB_1331_11EB);
    z ^ (z >> 31)
}

#[test]
fn header_roundtrip() {
    let mut state = 0u64;
    let alphabet = b"abcdefghijklmnopqrstuvwxyz0123456789_-";
    for _ in 0..128 {
        let len = 1 + next(&mut state) % 16;
        let index_type: String = (0..len)
            .map(|_| alphabet[(next(&mut state) % 38) as usize] as char)
            .collect();
        let header = FileHeader {
            magic: MAGIC,
            version: CURRENT_VERSION,
            index_type,
            dim: 1 + (next(&mut state) % 16384) as usize,
            metric: METRICS[(next(&mut state) % 5) as usize],
            n_vectors: (next(&mut state) % ((1 << 20) + 1)) as usize,
            crc32: next(&mut state) as u32,
        };
        let mut buf: Vec<u8> = Vec::new();
        write_header(&mut buf, &header).unwrap();

        let mut cur = &buf[..];
        let parsed = read_header(&mut cur).unwrap();
        assert_eq!(parsed, header);
        assert!(cur.is_empty());
    }
}

#[test]
fn a_header_cut_off_anywhere_is_truncated() {
    let header = FileHeader {
        magic: MAGIC,
        version: CURRENT_VERSION,
        index_type: "flat".to_string(),
        dim: 8,
        metric: DistanceMetric::Euclidean,
        n_vectors: 3,
        crc32: 0,
    };
    let mut buf: Vec<u8> = Vec::new();
    write_header(&mut buf, &header).unwrap();
    assert_eq!(buf.len(), 45);
    for cut in 0..buf.len() {
        let mut cur = &buf[..cut];
        assert!(matches!(
            read_header(&mut cur),
            Err(PersistError::TruncatedHeader { .. })
        ));
        assert!(cur.is_empty());
    }
}

#[test]
fn a_faulty_field_is_the_last_one_read() {
    let mut magic: Vec<u8> = b"NOTAFILE".to_vec();
    magic.extend_from_slice(&[1, 2, 3, 4]);
    let mut cur = &magic[..];
    assert!(read_header(&mut cur).is_err());
    assert_eq!(cur, [1, 2, 3, 4]);

    let header = FileHeader {
        magic: MAGIC,
        version: CURRENT_VERSION,
        index_type: "flat".to_string(),
        dim: 8,
        metric: DistanceMetric::Euclidean,
        n_vectors: 3,
        crc32: 0,
    };
    let mut sound: Vec<u8> = Vec::new();
    write_header(&mut sound, &header).unwrap();
    // The version, the length of the tag, the tag, the metric.
    for (at, byte, end) in [(8, 3, 12), (13, 0xFF, 20), (21, 0xFF, 24), (32, 5, 33)] {
        let mut faulty = sound.clone();
        faulty[at] = byte;
        let mut cur = &faulty[..];
        assert!(read_header(&mut cur).is_err());
        assert_eq!(cur, &faulty[end..]);
    }
}

#[test]
fn index_type_is_capped_and_checked() {
    let mut buf: Vec<u8> = Vec::new();
    buf.extend_from_slice(&MAGIC);
    buf.extend_from_slice(&1u32.to_le_bytes());
    let mut long = buf.clone();
    long.extend_from_slice(&4097u64.to_le_bytes());
    assert!(matches!(
        read_header(&mut &long[..]),
        Err(PersistError::InvalidPayload {
            reason: "index_type length exceeds the 4 KiB cap"
        })
    ));
    let mut bad = buf.clone();
    bad.extend_from_slice(&2u64.to_le_bytes());
    bad.extend_from_slice(&[0xC3, 0x28]);
    assert!(matches!(
        read_header(&mut &bad[..]),
        Err(PersistError::InvalidPayload {
            reason: "index_type is not valid UTF-8"
        })
    ));
}

#[test]
fn an_untagged_metric_stops_the_header_before_its_tag() {
    let header = FileHeader {
        magic: MAGIC,
        version: CURRENT_VERSION,
        index_type: "flat".to_string(),
        dim: 8,
        metric: DistanceMetric::Other,
        n_vectors: 3,
        crc32: 0,
    };
    let mut buf: Vec<u8> = Vec::new();
    assert!(matches!(
        write_header(&mut buf, &header),
        Err(PersistError::UnsupportedMetric {
            metric: DistanceMetric::Other
        })
    ));
    assert_eq!(buf.len(), 32);
}

#[test]
fn bad_magic_surfaces_as_bad_magic() {
    let mut buf: Vec<u8> = b"NOTAFILE".to_vec();
    buf.extend_from_slice(&1u32.to_le_bytes());

    let mut cur = &buf[..];
    let err = read_header(&mut cur).unwrap_err();
    assert!(matches!(err, PersistError::BadMagic { .. }));
}

#[test]
fn wrong_version_surfaces_as_unsupported_version() {
    let mut buf: Vec<u8> = Vec::new();
    buf.extend_from_slice(&MAGIC);
    buf.extend_from_slice(&999u32.to_le_bytes());

    let mut cur = &buf[..];
    let err = read_header(&mut cur).unwrap_err();
    assert!(matches!(
        err,
        PersistError::UnsupportedVersion {
            found: 999,
            supported: 1,
        }
    ));
}

#[test]
fn truncated_after_magic_surfaces_as_truncated_header() {
    let buf = MAGIC.to_vec();
    let mut cur = &buf[..];
    let err = read_header(&mut cur).unwrap_err();
    assert!(matches!(err, PersistError::TruncatedHeader { .. }));
}

#[test]
fn truncated_in_index_type_surfaces_as_truncated_header() {
    let mut buf: Vec<u8> = Vec::new();
    buf.extend_from_slice(&MAGIC);
    buf.extend_from_slice(&CURRENT_VERSION.to_le_bytes());
    buf.extend_from_slice(&100u64.to_le_bytes());
    buf.extend_from_slice(b"hello"); // only 5 of 100 bytes
    let mut cur = &buf[..];
    let err = read_header(&mut cur).unwrap_err();
    assert!(matches!(err, PersistError::TruncatedHeader { .. }));
    assert!(matches!(
        err,
        PersistError::TruncatedHeader {
            needed: 100,
            found: 5,
        }
    ));
}

#[test]
fn invalid_metric_tag_surfaces_as_invalid_metric() {
    let mut buf: Vec<u8> = Vec::new();
    buf.extend_from_slice(&MAGIC);
    buf.extend_from_slice(&CURRENT_VERSION.to_le_bytes());
    let tag = b"flat";
    buf.extend_from_slice(&(tag.len() as u64).to_le_bytes());
    buf.extend_from_slice(tag);
    buf.extend_from_slice(&8u64.to_le_bytes()); // dim
    buf.push(99); // <- invalid metric tag
    buf.extend_from_slice(&3u64.to_le_bytes()); // n_vectors
    buf.extend_from_slice(&0u32.to_le_bytes()); // crc32

    let mut cur = &buf[..];
    let err = read_header(&mut cur).unwrap_err();
    assert!(matches!(err, PersistError::InvalidMetric { tag: 99 }));
}

#[test]
fn tags_and_metrics_correspond() {
    for (tag, metric) in METRICS.iter().enumerate() {
        assert_eq!(metric_to_tag(*metric).unwrap(), tag as u8);
        assert_eq!(tag_to_metric(tag as u8).unwrap(), *metric);
    }
    for tag in 5..=255u8 {
        assert!(matches!(
            tag_to_metric(tag),
            Err(PersistError::InvalidMetric { tag: found }) if found == tag
        ));
    }
    assert!(metric_to_tag(DistanceMetric::Other).is_err());
}

#[test]
fn a_header_that_is_read_is_written_back_the_same() {
    let mut buf: Vec<u8> = Vec::new();
    buf.extend_from_slice(&MAGIC);
    buf.extend_from_slice(&1u32.to_le_bytes());
    buf.extend_from_slice(&3u64.to_le_bytes());
    buf.extend_from_slice("né".as_bytes());
    buf.extend_from_slice(&77u64.to_le_bytes());
    buf.push(3);
    buf.extend_from_slice(&5u64.to_le_bytes());
    buf.extend_from_slice(&0xABCD_EF01u32.to_le_bytes());
    let header_len = buf.len();
    buf.extend_from_slice(b"payload");
    let mut cur = &buf[..];
    let header = read_header(&mut cur).unwrap();
    assert_eq!(cur, b"payload");
    let mut again: Vec<u8> = Vec::new();
    write_header(&mut again, &header).unwrap();
    assert_eq!(again, buf[..header_len]);
}
