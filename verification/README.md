# iqdb-persist

On-disk persistence for the iQDB vector database, verified with Verus: atomic
snapshots behind a versioned header and a CRC32, a write-ahead log with crash
recovery, and optional Zstd or LZ4 compression of the payload.

The library (`src/`) decides and computes. It performs no I/O: what is to be
done on disk comes out as values, what was found there goes in as bytes. The
crate under `app/` performs the I/O, for any `iqdb_index::Index`.

| Module | What it holds |
|--------|---------------|
| `bytes`, `text` | little-endian integers and byte runs; numbers as text |
| `checksum` | CRC32 (IEEE) |
| `types`, `config`, `error` | plain values, configuration, errors |
| `format` | the file header |
| `compression` | codecs, and the preamble of the payload region |
| `persistable` | the trait an index implements |
| `snapshot`, `snapshot_laws` | snapshot files, and what holds of them |
| `wal`, `wal_laws` | log records, frames and files, and what holds of them |
| `recovery` | replay of a log onto a snapshot |
| `storage` | atomic replacement of a file, step by step |
| `persisted`, `persisted_laws` | the persisted index, and what a crash can do to it |

## What is trusted

- `crc32fast::hash` computes the CRC32 (IEEE).
- `lz4_flex::block` and `zstd::bulk` decompress what they compressed (LZ4 as far
  as the lengths in a block fit the decoder's arithmetic), and decompression is
  a function of its arguments, the size of the buffer among them.
- `String::from_utf8` accepts exactly valid UTF-8.
- `Debug` for `str` quotes a text in one way. Nothing is claimed of how
  `Path::display` shows a path, nor of the other `std` values that are carried
  through.
- An index does what its own implementation of `Persistable` says it does.

## Formats

A snapshot is a header followed by the payload region:

```text
0       8      magic ("IQDBPRST")
8       4      version (u32)
12      8      index_type length, N (u64)
20      N      index_type (UTF-8)
20+N    8      dim (u64)
28+N    1      metric tag
29+N    8      n_vectors (u64)
37+N    4      crc32 (u32) of the payload region
41+N    ...    payload region
```

From version 2 on the payload region is a scheme tag (u8), the length of the
uncompressed payload (u64), and the stored bytes. A version-1 region is the
payload itself. The log format is described in `src/wal.rs`. All numbers are
little-endian.
