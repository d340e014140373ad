//! Messages, kinds, captions and the small pure helpers.

use iqdb_persist::error::io_message;
use iqdb_persist::{checksum, DistanceMetric, PersistError};
use iqdb_types::IqdbError;

#[test]
fn messages_are_exact() {
    let cases: Vec<(PersistError, &str)> = vec![
        (
            PersistError::BadMagic {
                found: *b"NOTAFILE",
            },
            "bad magic: not an iqdb snapshot (found [78, 79, 84, 65, 70, 73, 76, 69])",
        ),
        (
            PersistError::UnsupportedVersion {
                found: 999,
                supported: 1,
            },
            "unsupported format version: found 999, supported 1",
        ),
        (
            PersistError::ChecksumMismatch {
                expected: 0xDEAD_BEEF,
                computed: 0,
            },
            "checksum mismatch: header expected 0xdeadbeef, computed 0x00000000",
        ),
        (
            PersistError::TruncatedHeader {
                needed: 100,
                found: 5,
            },
            "truncated header: needed 100 bytes, found 5",
        ),
        (
            PersistError::TruncatedPayload {
                needed: u64::MAX,
                found: 0,
            },
            "truncated payload: needed 18446744073709551615 bytes, found 0",
        ),
        (PersistError::InvalidMetric { tag: 99 }, "invalid metric tag: 99"),
        (
            PersistError::UnsupportedMetric {
                metric: DistanceMetric::Hamming,
            },
            "unsupported metric for this build: Hamming",
        ),
        (
            PersistError::InvalidIndexType {
                found: "a\"b".to_string(),
                expected: "flat",
            },
            "index type mismatch: file declared \"a\\\"b\", caller expected \"flat\"",
        ),
        (
            PersistError::InvalidPayload { reason: "short" },
            "invalid payload: short",
        ),
        (
            PersistError::Compression { reason: "level" },
            "compression error: level",
        ),
        (
            PersistError::Unsupported {
                feature: "wal_enabled",
                available_in: "v0.3",
            },
            "feature not supported in this build: wal_enabled (available in v0.3)",
        ),
    ];
    for (error, text) in cases {
        assert_eq!(error.to_string(), text);
    }
}

#[test]
fn wrapped_errors_end_in_their_cause() {
    let cause = IqdbError::Duplicate;
    let want = format!("index construction failed: {}", cause);
    assert_eq!(PersistError::from(cause).to_string(), want);

    let error = PersistError::Io {
        path: "some/where.iqdb".into(),
        source: std::io::Error::other("disk full"),
    };
    assert_eq!(error.to_string(), "I/O error on some/where.iqdb: disk full");
    assert_eq!(io_message("p", "c"), "I/O error on p: c");
}

#[test]
fn kinds_and_captions() {
    let error = PersistError::ChecksumMismatch {
        expected: 1,
        computed: 2,
    };
    assert_eq!(error.kind(), "ChecksumMismatch");
    assert_eq!(error.caption(), "payload CRC32 does not match the header");
    let error = PersistError::IndexBuild(IqdbError::NotFound);
    assert_eq!(error.kind(), "IndexBuild");
    assert_eq!(
        error.caption(),
        "a downstream Index::new or insert returned an error"
    );
    let error = PersistError::Compression { reason: "level" };
    assert_eq!(error.kind(), "Compression");
}

#[test]
fn crc32_check_values() {
    assert_eq!(checksum::compute(b""), 0);
    assert_eq!(checksum::compute(b"123456789"), 0xCBF4_3926);
    assert_eq!(checksum::compute(b"hello"), 0x3610_A686);
    // The register recurrence that the checksum is specified by.
    let mut long = Vec::new();
    for i in 0..5000u32 {
        long.push((i.wrapping_mul(31) >> 3) as u8);
    }
    for n in [1, 2, 3, 15, 16, 17, 63, 64, 65, 1000, 5000] {
        let mut register = 0xFFFF_FFFFu32;
        for byte in &long[..n] {
            register ^= *byte as u32;
            for _ in 0..8 {
                register = if register & 1 == 1 {
                    (register >> 1) ^ 0xEDB8_8320
                } else {
                    register >> 1
                };
            }
        }
        assert_eq!(checksum::compute(&long[..n]), !register);
    }
}

#[test]
fn verify_accepts_the_crc_and_nothing_else() {
    let payload = b"hello";
    let crc = checksum::compute(payload);
    assert!(checksum::verify(payload, crc).is_ok());
    match checksum::verify(payload, crc.wrapping_add(1)) {
        Err(PersistError::ChecksumMismatch { expected, computed }) => {
            assert_eq!(expected, crc.wrapping_add(1));
            assert_eq!(computed, crc);
        }
        other => panic!("{other:?}"),
    }
}

#[test]
fn changing_bits_within_32_consecutive_ones_changes_the_crc() {
    let sound: Vec<u8> = (0..24u8).map(|i| i.wrapping_mul(37)).collect();
    let crc = checksum::compute(&sound);
    for from in 0..(8 * sound.len() - 32) {
        for burst in [1u32, 0x8000_0001, 0xFFFF_FFFF, 0xDEAD_BEEF, 0xEDB8_8320] {
            let mut damaged = sound.clone();
            for k in 0..32 {
                if burst >> k & 1 == 1 {
                    damaged[(from + k) / 8] ^= 1 << ((from + k) % 8);
                }
            }
            assert_ne!(checksum::compute(&damaged), crc);
        }
    }
}

#[test]
fn changing_any_byte_changes_the_crc() {
    let payload: Vec<u8> = (0..64).map(|i| (i * 37) as u8).collect();
    let crc = checksum::compute(&payload);
    for i in 0..payload.len() {
        for value in 0..=255u8 {
            if value != payload[i] {
                let mut m = payload.clone();
                m[i] = value;
                assert_ne!(checksum::compute(&m), crc);
            }
        }
    }
}
