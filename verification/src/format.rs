//! The on-disk file header.
//!
//! The header is the first thing in a snapshot file. Its layout is strict
//! little-endian and fixed-width:
//!
//! ```text
//! offset  bytes  field
//! 0       8      magic ("IQDBPRST")
//! 8       4      version (u32)
//! 12      8      index_type length, N (u64)
//! 20      N      index_type (UTF-8)
//! 20+N    8      dim (u64)
//! 28+N    1      metric tag
//! 29+N    8      n_vectors (u64)
//! 37+N    4      crc32 (u32), of the payload region only
//! 41+N    ...    payload region
//! ```
//!
//! Sizes are always 64 bits wide, so a file is portable across hosts.

use vstd::prelude::*;
use vstd::slice::slice_subrange;

use crate::bytes;
use crate::error;
use crate::error::{PersistError, Result};
use crate::types::DistanceMetric;

verus! {

/// Magic bytes that prefix every snapshot file: `IQDBPRST`.
pub const MAGIC: [u8; 8] = [0x49, 0x51, 0x44, 0x42, 0x50, 0x52, 0x53, 0x54];

/// The format version this build writes.
///
/// Version 1 stored the payload verbatim. Version 2 prefixes the payload
/// region with a compression preamble. Both are read.
pub const CURRENT_VERSION: u32 = 2;

/// The oldest format version this build reads.
pub const MIN_SUPPORTED_VERSION: u32 = 1;

/// The longest index-type tag a header may declare, in bytes.
pub const MAX_INDEX_TYPE_LEN: usize = 4096;

/// The header at the start of every snapshot file.
#[derive(Debug, Clone, PartialEq, Eq)]
pub struct FileHeader {
    /// The magic bytes.
    pub magic: [u8; 8],
    /// The format version.
    pub version: u32,
    /// Stable identifier for the concrete index type.
    pub index_type: String,
    /// The dimensionality of the stored vectors.
    pub dim: usize,
    /// The metric the index compares vectors by.
    pub metric: DistanceMetric,
    /// The number of stored vectors.
    pub n_vectors: usize,
    /// The CRC32 of the payload region (header not covered).
    pub crc32: u32,
}

/// What a [`FileHeader`] says, mathematically.
#[verifier::ext_equal]
pub struct FileHeaderView {
    /// The magic bytes.
    pub magic: Seq<u8>,
    /// The format version.
    pub version: u32,
    /// Stable identifier for the concrete index type.
    pub index_type: Seq<char>,
    /// The dimensionality of the stored vectors.
    pub dim: nat,
    /// The metric the index compares vectors by.
    pub metric: DistanceMetric,
    /// The number of stored vectors.
    pub n_vectors: nat,
    /// The CRC32 of the payload region.
    pub crc32: u32,
}

impl View for FileHeader {
    type V = FileHeaderView;

    open spec fn view(&self) -> FileHeaderView {
        FileHeaderView {
            magic: self.magic@,
            version: self.version,
            index_type: self.index_type@,
            dim: self.dim as nat,
            metric: self.metric,
            n_vectors: self.n_vectors as nat,
            crc32: self.crc32,
        }
    }
}

/// The on-disk tag of a metric, if it has one.
pub open spec fn metric_tag(metric: DistanceMetric) -> Option<u8> {
    match metric {
        DistanceMetric::Cosine => Some(0),
        DistanceMetric::DotProduct => Some(1),
        DistanceMetric::Euclidean => Some(2),
        DistanceMetric::Manhattan => Some(3),
        DistanceMetric::Hamming => Some(4),
        DistanceMetric::Other => None,
    }
}

/// The metric with on-disk tag `tag`, if there is one.
pub open spec fn tagged_metric(tag: u8) -> Option<DistanceMetric> {
    match tag {
        0 => Some(DistanceMetric::Cosine),
        1 => Some(DistanceMetric::DotProduct),
        2 => Some(DistanceMetric::Euclidean),
        3 => Some(DistanceMetric::Manhattan),
        4 => Some(DistanceMetric::Hamming),
        _ => None,
    }
}

/// A header's fields up to the metric tag.
pub open spec fn header_prefix(header: FileHeaderView) -> Seq<u8> {
    let tag = vstd::utf8::encode_utf8(header.index_type);
    header.magic + (bytes::le_bytes(header.version as nat, 4) + (bytes::le_bytes(tag.len(), 8) + (tag
        + bytes::le_bytes(header.dim, 8))))
}

/// A header's fields after the metric tag.
pub open spec fn header_suffix(header: FileHeaderView) -> Seq<u8> {
    bytes::le_bytes(header.n_vectors, 8) + bytes::le_bytes(header.crc32 as nat, 4)
}

/// The on-disk bytes of a header whose metric has a tag.
pub open spec fn header_bytes(header: FileHeaderView) -> Seq<u8> {
    header_prefix(header) + (seq![metric_tag(header.metric)->0] + header_suffix(header))
}

/// Whether this build reads back a header with these fields.
pub open spec fn readable(header: FileHeaderView) -> bool {
    &&& header.magic == MAGIC@
    &&& MIN_SUPPORTED_VERSION <= header.version <= CURRENT_VERSION
    &&& vstd::utf8::encode_utf8(header.index_type).len() <= MAX_INDEX_TYPE_LEN
    &&& header.dim <= usize::MAX
    &&& metric_tag(header.metric) is Some
    &&& header.n_vectors <= usize::MAX
}

/// The first `n` bytes of `input` and the rest, or how far short it falls.
pub open spec fn split_or_truncated(input: Seq<u8>, n: nat) -> core::result::Result<
    (Seq<u8>, Seq<u8>),
    error::PersistErrorView,
> {
    match bytes::split_spec(input, n) {
        Some(split) => Ok(split),
        None => Err(
            error::PersistErrorView::TruncatedHeader { needed: n, found: input.len() },
        ),
    }
}

/// A header field that holds a size.
#[derive(Debug, Clone, Copy, PartialEq, Eq, Structural)]
pub enum SizeField {
    /// The length of the index-type tag.
    IndexTypeLen,
    /// The dimensionality.
    Dim,
    /// The vector count.
    NVectors,
}

/// What is reported when a size field is too large for the host.
pub open spec fn too_large_for_host(field: SizeField) -> error::PersistErrorView {
    match field {
        SizeField::IndexTypeLen => error::invalid_payload(
            "index_type length does not fit in usize on this host",
        ),
        SizeField::Dim => error::invalid_payload("dim does not fit in usize on this host"),
        SizeField::NVectors => error::invalid_payload(
            "n_vectors does not fit in usize on this host",
        ),
    }
}

/// Reading the fields that follow the dimensionality.
pub open spec fn parse_tail(
    version: u32,
    index_type: Seq<char>,
    dim: u64,
    input: Seq<u8>,
) -> core::result::Result<(FileHeaderView, Seq<u8>), error::PersistErrorView> {
    match split_or_truncated(input, 1) {
        Err(e) => Err(e),
        Ok((tag, after_tag)) => match tagged_metric(tag[0]) {
            None => Err(error::PersistErrorView::InvalidMetric { tag: tag[0] }),
            Some(metric) => match split_or_truncated(after_tag, 8) {
                Err(e) => Err(e),
                Ok((count, after_count)) => if bytes::le_value(count) > usize::MAX {
                    Err(too_large_for_host(SizeField::NVectors))
                } else {
                    match split_or_truncated(after_count, 4) {
                        Err(e) => Err(e),
                        Ok((crc, rest)) => Ok(
                            (
                                FileHeaderView {
                                    magic: MAGIC@,
                                    version,
                                    index_type,
                                    dim: dim as nat,
                                    metric,
                                    n_vectors: bytes::le_value(count),
                                    crc32: bytes::le_value(crc) as u32,
                                },
                                rest,
                            ),
                        ),
                    }
                },
            },
        },
    }
}

/// Reading the fields that follow the version.
pub open spec fn parse_body(version: u32, input: Seq<u8>) -> core::result::Result<
    (FileHeaderView, Seq<u8>),
    error::PersistErrorView,
> {
    match split_or_truncated(input, 8) {
        Err(e) => Err(e),
        Ok((len, after_len)) => if bytes::le_value(len) > usize::MAX {
            Err(too_large_for_host(SizeField::IndexTypeLen))
        } else if bytes::le_value(len) > MAX_INDEX_TYPE_LEN {
            Err(error::invalid_payload("index_type length exceeds the 4 KiB cap"))
        } else {
            match split_or_truncated(after_len, bytes::le_value(len)) {
                Err(e) => Err(e),
                Ok((tag, after_tag)) => if !vstd::utf8::valid_utf8(tag) {
                    Err(error::invalid_payload("index_type is not valid UTF-8"))
                } else {
                    match split_or_truncated(after_tag, 8) {
                        Err(e) => Err(e),
                        Ok((dim, after_dim)) => if bytes::le_value(dim) > usize::MAX {
                            Err(too_large_for_host(SizeField::Dim))
                        } else {
                            parse_tail(
                                version,
                                vstd::utf8::decode_utf8(tag),
                                bytes::le_value(dim) as u64,
                                after_dim,
                            )
                        },
                    }
                },
            }
        },
    }
}

/// Reading a header: the header and the bytes that follow it, or the first
/// fault, in the order of the fields.
pub open spec fn parse_header(input: Seq<u8>) -> core::result::Result<
    (FileHeaderView, Seq<u8>),
    error::PersistErrorView,
> {
    match split_or_truncated(input, 8) {
        Err(e) => Err(e),
        Ok((magic, after_magic)) => if magic != MAGIC@ {
            Err(error::PersistErrorView::BadMagic { found: magic })
        } else {
            match split_or_truncated(after_magic, 4) {
                Err(e) => Err(e),
                Ok((word, after_version)) => {
                    let version = bytes::le_value(word) as u32;
                    if MIN_SUPPORTED_VERSION <= version <= CURRENT_VERSION {
                        parse_body(version, after_version)
                    } else {
                        Err(
                            error::PersistErrorView::UnsupportedVersion {
                                found: version,
                                supported: MIN_SUPPORTED_VERSION,
                            },
                        )
                    }
                },
            }
        },
    }
}

/// Where reading a header ends: behind the first field that is faulty or cut
/// short, or else behind the last field.
pub open spec fn reading_ends(input: Seq<u8>) -> int {
    let version = bytes::le_value(input.subrange(8, 12)) as u32;
    let n = bytes::le_value(input.subrange(12, 20)) as int;
    if input.len() < 8 || input.subrange(0, 8) != MAGIC@ {
        8
    } else if input.len() < 12 || !(MIN_SUPPORTED_VERSION <= version <= CURRENT_VERSION) {
        12
    } else if input.len() < 20 || n > MAX_INDEX_TYPE_LEN {
        20
    } else if input.len() < 20 + n || !vstd::utf8::valid_utf8(input.subrange(20, 20 + n)) {
        20 + n
    } else if input.len() < 28 + n || bytes::le_value(input.subrange(20 + n, 28 + n))
        > usize::MAX {
        28 + n
    } else if input.len() < 29 + n || tagged_metric(input[28 + n]) is None {
        29 + n
    } else if input.len() < 37 + n || bytes::le_value(input.subrange(29 + n, 37 + n))
        > usize::MAX {
        37 + n
    } else {
        41 + n
    }
}

/// What reading a header leaves unread, whether or not it succeeds. A field
/// that is cut short is read as far as it goes.
pub open spec fn left_unread(input: Seq<u8>) -> Seq<u8> {
    if reading_ends(input) <= input.len() {
        input.skip(reading_ends(input))
    } else {
        Seq::empty()
    }
}

/// Encode a metric to its on-disk tag.
///
/// # Errors
///
/// Returns [`PersistError::UnsupportedMetric`] if the metric has no tag.
pub fn metric_to_tag(metric: DistanceMetric) -> (out: Result<u8>)
    ensures
        match metric_tag(metric) {
            Some(tag) => out == Ok::<u8, PersistError>(tag),
            None => out == Err::<u8, PersistError>(PersistError::UnsupportedMetric { metric }),
        },
{
    match metric {
        DistanceMetric::Cosine => Ok(0),
        DistanceMetric::DotProduct => Ok(1),
        DistanceMetric::Euclidean => Ok(2),
        DistanceMetric::Manhattan => Ok(3),
        DistanceMetric::Hamming => Ok(4),
        DistanceMetric::Other => Err(PersistError::UnsupportedMetric { metric }),
    }
}

/// Decode an on-disk tag back to a metric.
///
/// # Errors
///
/// Returns [`PersistError::InvalidMetric`] if no metric has the tag.
pub fn tag_to_metric(tag: u8) -> (out: Result<DistanceMetric>)
    ensures
        match tagged_metric(tag) {
            Some(metric) => out == Ok::<DistanceMetric, PersistError>(metric),
            None => out == Err::<DistanceMetric, PersistError>(PersistError::InvalidMetric { tag }),
        },
{
    match tag {
        0 => Ok(DistanceMetric::Cosine),
        1 => Ok(DistanceMetric::DotProduct),
        2 => Ok(DistanceMetric::Euclidean),
        3 => Ok(DistanceMetric::Manhattan),
        4 => Ok(DistanceMetric::Hamming),
        _ => Err(PersistError::InvalidMetric { tag }),
    }
}

/// Widens a host size to its on-disk form. No host size exceeds 64 bits.
pub fn usize_to_u64(value: usize) -> (out: u64)
    ensures
        out == value,
{
    value as u64
}

/// Narrows an on-disk size to the host's.
///
/// # Errors
///
/// Returns [`PersistError::InvalidPayload`] if the host's sizes are too
/// narrow for `value`.
pub fn u64_to_usize(value: u64, field: SizeField) -> (out: Result<usize>)
    ensures
        match out {
            Ok(n) => n == value,
            Err(e) => value > usize::MAX && e@ == too_large_for_host(field),
        },
{
    if value > usize::MAX as u64 {
        Err(
            PersistError::InvalidPayload {
                reason: match field {
                    SizeField::IndexTypeLen => {
                        "index_type length does not fit in usize on this host"
                    },
                    SizeField::Dim => "dim does not fit in usize on this host",
                    SizeField::NVectors => "n_vectors does not fit in usize on this host",
                },
            },
        )
    } else {
        Ok(value as usize)
    }
}

/// Appends `run` to the bytes written so far.
pub fn write_all(writer: &mut Vec<u8>, run: &[u8])
    ensures
        final(writer)@ == old(writer)@ + run@,
{
    bytes::put_bytes(writer, run)
}

/// Splits off the next `n` bytes.
///
/// # Errors
///
/// Returns [`PersistError::TruncatedHeader`] if there are fewer left.
pub fn read_exact_or_truncated<'a>(input: &'a [u8], n: usize) -> (out: Result<
    (&'a [u8], &'a [u8]),
>)
    ensures
        match out {
            Ok((head, tail)) => split_or_truncated(input@, n as nat) == Ok::<
                (Seq<u8>, Seq<u8>),
                error::PersistErrorView,
            >((head@, tail@)),
            Err(e) => split_or_truncated(input@, n as nat) == Err::<
                (Seq<u8>, Seq<u8>),
                error::PersistErrorView,
            >(e@),
        },
{
    match bytes::split_bytes(input, n) {
        Some(split) => Ok(split),
        None => Err(PersistError::TruncatedHeader { needed: n, found: input.len() }),
    }
}

/// Append `header` to `writer`.
///
/// # Errors
///
/// Returns [`PersistError::UnsupportedMetric`] if the metric has no on-disk
/// tag; the fields before the tag have been written by then.
pub fn write_header(writer: &mut Vec<u8>, header: &FileHeader) -> (out: Result<()>)
    ensures
        match metric_tag(header.metric) {
            Some(_) => out is Ok && final(writer)@ == old(writer)@ + header_bytes(header@),
            None => {
                &&& out == Err::<(), PersistError>(
                    PersistError::UnsupportedMetric { metric: header.metric },
                )
                &&& final(writer)@ == old(writer)@ + header_prefix(header@)
            },
        },
{
    let tag = header.index_type.as_str().as_bytes();
    write_all(writer, header.magic.as_slice());
    bytes::put_u32(writer, header.version);
    bytes::put_u64(writer, usize_to_u64(tag.len()));
    write_all(writer, tag);
    bytes::put_u64(writer, usize_to_u64(header.dim));
    assert(writer@ =~= old(writer)@ + header_prefix(header@));

    let metric_byte: u8 = match metric_to_tag(header.metric) {
        Ok(byte) => byte,
        Err(e) => return Err(e),
    };
    bytes::put_u8(writer, metric_byte);
    bytes::put_u64(writer, usize_to_u64(header.n_vectors));
    bytes::put_u32(writer, header.crc32);
    assert(writer@ =~= old(writer)@ + header_bytes(header@));
    Ok(())
}

/// Read and validate a header from the front of `reader`, leaving `reader` at
/// the first byte behind it. On an error `reader` is left behind the field that
/// is at fault, and at its end if the field is cut short.
///
/// The `crc32` field is returned as it stands.
///
/// # Errors
///
/// - [`PersistError::BadMagic`] if the magic bytes do not match.
/// - [`PersistError::UnsupportedVersion`] if the version is not supported.
/// - [`PersistError::InvalidMetric`] if the metric tag is unknown.
/// - [`PersistError::TruncatedHeader`] if `reader` ends too early.
/// - [`PersistError::InvalidPayload`] if the index-type tag is too long or not
///   valid UTF-8, or a size does not fit the host.
pub fn read_header<'a>(reader: &mut &'a [u8]) -> (out: Result<FileHeader>)
    ensures
        match out {
            Ok(header) => parse_header(old(reader)@) == Ok::<
                (FileHeaderView, Seq<u8>),
                error::PersistErrorView,
            >((header@, final(reader)@)),
            Err(e) => parse_header(old(reader)@) == Err::<
                (FileHeaderView, Seq<u8>),
                error::PersistErrorView,
            >(e@),
        },
        final(reader)@ == left_unread(old(reader)@),
{
    let input: &'a [u8] = *reader;
    let (out, rest) = read_header_at(input);
    *reader = rest;
    out
}

/// The end of `input`.
fn end_of<'a>(input: &'a [u8]) -> (end: &'a [u8])
    ensures
        end@ == Seq::<u8>::empty(),
{
    let end = slice_subrange(input, input.len(), input.len());
    assert(end@ =~= Seq::<u8>::empty());
    end
}

/// Reads a header from the front of `input`, and says what is left unread.
#[verifier::rlimit(40)]
fn read_header_at<'a>(input: &'a [u8]) -> (read: (Result<FileHeader>, &'a [u8]))
    ensures
        match read.0 {
            Ok(header) => parse_header(input@) == Ok::<
                (FileHeaderView, Seq<u8>),
                error::PersistErrorView,
            >((header@, read.1@)),
            Err(e) => parse_header(input@) == Err::<
                (FileHeaderView, Seq<u8>),
                error::PersistErrorView,
            >(e@),
        },
        read.1@ == left_unread(input@),
{
    let (magic_run, after_magic) = match read_exact_or_truncated(input, 8) {
        Ok(split) => split,
        Err(e) => return (Err(e), end_of(input)),
    };
    assert(magic_run@ =~= input@.subrange(0, 8));
    let magic: [u8; 8] = [
        magic_run[0],
        magic_run[1],
        magic_run[2],
        magic_run[3],
        magic_run[4],
        magic_run[5],
        magic_run[6],
        magic_run[7],
    ];
    assert(magic@ =~= magic_run@);
    if !bytes::same_bytes(magic_run, MAGIC.as_slice()) {
        return (Err(PersistError::BadMagic { found: magic }), after_magic);
    }
    let (version_run, after_version) = match read_exact_or_truncated(after_magic, 4) {
        Ok(split) => split,
        Err(e) => return (Err(e), end_of(input)),
    };
    assert(version_run@ =~= input@.subrange(8, 12));
    assert(after_version@ =~= input@.skip(12));
    let version: u32 = bytes::word_u32(version_run);
    if version < MIN_SUPPORTED_VERSION || version > CURRENT_VERSION {
        let e = PersistError::UnsupportedVersion {
            found: version,
            supported: MIN_SUPPORTED_VERSION,
        };
        return (Err(e), after_version);
    }
    let (len_run, after_len) = match read_exact_or_truncated(after_version, 8) {
        Ok(split) => split,
        Err(e) => return (Err(e), end_of(input)),
    };
    assert(len_run@ =~= input@.subrange(12, 20));
    assert(after_len@ =~= input@.skip(20));
    let len: usize = match u64_to_usize(bytes::word_u64(len_run), SizeField::IndexTypeLen) {
        Ok(len) => len,
        Err(e) => return (Err(e), after_len),
    };
    if len > MAX_INDEX_TYPE_LEN {
        let e = PersistError::InvalidPayload { reason: "index_type length exceeds the 4 KiB cap" };
        return (Err(e), after_len);
    }
    let ghost n = len as int;
    let (tag_run, after_tag) = match read_exact_or_truncated(after_len, len) {
        Ok(split) => split,
        Err(e) => return (Err(e), end_of(input)),
    };
    assert(tag_run@ =~= input@.subrange(20, 20 + n));
    assert(after_tag@ =~= input@.skip(20 + n));
    let index_type: String = match bytes::take_text(tag_run) {
        Some(text) => text,
        None => {
            let e = PersistError::InvalidPayload { reason: "index_type is not valid UTF-8" };
            return (Err(e), after_tag);
        },
    };
    let (dim_run, after_dim) = match read_exact_or_truncated(after_tag, 8) {
        Ok(split) => split,
        Err(e) => return (Err(e), end_of(input)),
    };
    assert(dim_run@ =~= input@.subrange(20 + n, 28 + n));
    assert(after_dim@ =~= input@.skip(28 + n));
    let dim: usize = match u64_to_usize(bytes::word_u64(dim_run), SizeField::Dim) {
        Ok(dim) => dim,
        Err(e) => return (Err(e), after_dim),
    };
    let (metric_run, after_metric) = match read_exact_or_truncated(after_dim, 1) {
        Ok(split) => split,
        Err(e) => return (Err(e), end_of(input)),
    };
    assert(metric_run@[0] == input@[28 + n]);
    assert(after_metric@ =~= input@.skip(29 + n));
    let metric: DistanceMetric = match tag_to_metric(metric_run[0]) {
        Ok(metric) => metric,
        Err(e) => return (Err(e), after_metric),
    };
    let (count_run, after_count) = match read_exact_or_truncated(after_metric, 8) {
        Ok(split) => split,
        Err(e) => return (Err(e), end_of(input)),
    };
    assert(count_run@ =~= input@.subrange(29 + n, 37 + n));
    assert(after_count@ =~= input@.skip(37 + n));
    let n_vectors: usize = match u64_to_usize(bytes::word_u64(count_run), SizeField::NVectors) {
        Ok(n_vectors) => n_vectors,
        Err(e) => return (Err(e), after_count),
    };
    let (crc_run, rest) = match read_exact_or_truncated(after_count, 4) {
        Ok(split) => split,
        Err(e) => return (Err(e), end_of(input)),
    };
    assert(rest@ =~= input@.skip(41 + n));
    let crc32: u32 = bytes::word_u32(crc_run);
    let header = FileHeader { magic, version, index_type, dim, metric, n_vectors, crc32 };
    (Ok(header), rest)
}

/// Metrics and their on-disk tags are in one-to-one correspondence.
pub proof fn metric_tags_are_one_to_one(metric: DistanceMetric, tag: u8)
    ensures
        metric_tag(metric) == Some(tag) <==> tagged_metric(tag) == Some(metric),
{
}

/// The bytes of a header followed by `rest`, field by field.
proof fn lemma_header_fields(header: FileHeaderView, rest: Seq<u8>)
    ensures
        ({
            let tag = vstd::utf8::encode_utf8(header.index_type);
            let after_count = bytes::le_bytes(header.crc32 as nat, 4) + rest;
            let after_metric = bytes::le_bytes(header.n_vectors, 8) + after_count;
            let after_dim = seq![metric_tag(header.metric)->0] + after_metric;
            let after_tag = bytes::le_bytes(header.dim, 8) + after_dim;
            let after_len = tag + after_tag;
            let after_version = bytes::le_bytes(tag.len(), 8) + after_len;
            let after_magic = bytes::le_bytes(header.version as nat, 4) + after_version;
            header_bytes(header) + rest == header.magic + after_magic
        }),
{
    let tag = vstd::utf8::encode_utf8(header.index_type);
    let after_count = bytes::le_bytes(header.crc32 as nat, 4) + rest;
    let after_metric = bytes::le_bytes(header.n_vectors, 8) + after_count;
    let after_dim = seq![metric_tag(header.metric)->0] + after_metric;
    let after_tag = bytes::le_bytes(header.dim, 8) + after_dim;
    let after_len = tag + after_tag;
    let after_version = bytes::le_bytes(tag.len(), 8) + after_len;
    let after_magic = bytes::le_bytes(header.version as nat, 4) + after_version;
    assert(header_bytes(header) + rest =~= header.magic + after_magic);
}

/// The widths of a readable header's fields.
proof fn lemma_field_widths(header: FileHeaderView)
    requires
        readable(header),
    ensures
        header.magic.len() == 8,
        bytes::le_bytes(header.version as nat, 4).len() == 4,
        bytes::le_value(bytes::le_bytes(header.version as nat, 4)) == header.version,
        bytes::le_bytes(vstd::utf8::encode_utf8(header.index_type).len(), 8).len() == 8,
        bytes::le_value(bytes::le_bytes(vstd::utf8::encode_utf8(header.index_type).len(), 8))
            == vstd::utf8::encode_utf8(header.index_type).len(),
        vstd::utf8::valid_utf8(vstd::utf8::encode_utf8(header.index_type)),
        vstd::utf8::decode_utf8(vstd::utf8::encode_utf8(header.index_type)) == header.index_type,
        bytes::le_bytes(header.dim, 8).len() == 8,
        bytes::le_value(bytes::le_bytes(header.dim, 8)) == header.dim,
        bytes::le_bytes(header.n_vectors, 8).len() == 8,
        bytes::le_value(bytes::le_bytes(header.n_vectors, 8)) == header.n_vectors,
        bytes::le_bytes(header.crc32 as nat, 4).len() == 4,
        bytes::le_value(bytes::le_bytes(header.crc32 as nat, 4)) == header.crc32,
{
    let tag = vstd::utf8::encode_utf8(header.index_type);
    bytes::lemma_pow256_widths();
    bytes::lemma_le_bytes_len(header.version as nat, 4);
    bytes::lemma_le_value_of_bytes(header.version as nat, 4);
    bytes::lemma_le_bytes_len(tag.len(), 8);
    bytes::lemma_le_value_of_bytes(tag.len(), 8);
    vstd::utf8::encode_utf8_valid_utf8(header.index_type);
    vstd::utf8::encode_utf8_decode_utf8(header.index_type);
    bytes::lemma_le_bytes_len(header.dim, 8);
    bytes::lemma_le_value_of_bytes(header.dim, 8);
    bytes::lemma_le_bytes_len(header.n_vectors, 8);
    bytes::lemma_le_value_of_bytes(header.n_vectors, 8);
    bytes::lemma_le_bytes_len(header.crc32 as nat, 4);
    bytes::lemma_le_value_of_bytes(header.crc32 as nat, 4);
}

/// Reading a written header gives the header back and stops right behind it.
pub proof fn header_round_trips(header: FileHeaderView, rest: Seq<u8>)
    requires
        readable(header),
    ensures
        parse_header(header_bytes(header) + rest) == Ok::<
            (FileHeaderView, Seq<u8>),
            error::PersistErrorView,
        >((header, rest)),
{
    let tag = vstd::utf8::encode_utf8(header.index_type);
    let metric = seq![metric_tag(header.metric)->0];
    let after_count = bytes::le_bytes(header.crc32 as nat, 4) + rest;
    let after_metric = bytes::le_bytes(header.n_vectors, 8) + after_count;
    let after_dim = metric + after_metric;
    let after_tag = bytes::le_bytes(header.dim, 8) + after_dim;
    let after_len = tag + after_tag;
    let after_version = bytes::le_bytes(tag.len(), 8) + after_len;
    let after_magic = bytes::le_bytes(header.version as nat, 4) + after_version;
    lemma_header_fields(header, rest);
    lemma_field_widths(header);
    bytes::lemma_split(header.magic, after_magic);
    bytes::lemma_split(bytes::le_bytes(header.version as nat, 4), after_version);
    bytes::lemma_split(bytes::le_bytes(tag.len(), 8), after_len);
    bytes::lemma_split(tag, after_tag);
    bytes::lemma_split(bytes::le_bytes(header.dim, 8), after_dim);
    bytes::lemma_split(metric, after_metric);
    bytes::lemma_split(bytes::le_bytes(header.n_vectors, 8), after_count);
    bytes::lemma_split(bytes::le_bytes(header.crc32 as nat, 4), rest);
    metric_tags_are_one_to_one(header.metric, metric[0]);
}

/// A header that is read is readable, and is spelled by exactly one byte
/// string: the one that writing it gives.
#[verifier::rlimit(40)]
pub proof fn parsed_header_is_canonical(input: Seq<u8>)
    ensures
        parse_header(input) matches Ok((header, rest)) ==> readable(header) && input
            == header_bytes(header) + rest,
{
    if let Ok((header, rest)) = parse_header(input) {
        let after_magic = input.skip(8);
        let after_version = after_magic.skip(4);
        let len = bytes::le_value(after_version.take(8));
        let after_len = after_version.skip(8);
        let tag = after_len.take(len as int);
        let after_tag = after_len.skip(len as int);
        let after_dim = after_tag.skip(8);
        let after_metric = after_dim.skip(1);
        let after_count = after_metric.skip(8);
        bytes::lemma_field_is_canonical(input, 8);
        bytes::lemma_field_is_canonical(after_magic, 4);
        bytes::lemma_field_is_canonical(after_version, 8);
        bytes::lemma_field_is_canonical(after_len, len);
        bytes::lemma_field_is_canonical(after_tag, 8);
        bytes::lemma_field_is_canonical(after_dim, 1);
        bytes::lemma_field_is_canonical(after_metric, 8);
        bytes::lemma_field_is_canonical(after_count, 4);
        bytes::lemma_pow256_widths();
        bytes::lemma_le_value_bound(after_magic.take(4));
        bytes::lemma_le_value_bound(after_version.take(8));
        bytes::lemma_le_value_bound(after_tag.take(8));
        bytes::lemma_le_value_bound(after_metric.take(8));
        bytes::lemma_le_value_bound(after_count.take(4));
        vstd::utf8::decode_utf8_encode_utf8(tag);
        metric_tags_are_one_to_one(header.metric, after_dim[0]);
        assert(after_dim.take(1) =~= seq![after_dim[0]]);
        assert(header_bytes(header) + rest =~= input) by {
            lemma_header_fields(header, rest);
        }
    }
}

/// A field cut short is reported as truncated; a whole one is read.
proof fn lemma_split_of_cut(run: Seq<u8>, rest: Seq<u8>, cut: int)
    requires
        0 <= cut <= run.len() + rest.len(),
    ensures
        cut < run.len() ==> split_or_truncated((run + rest).take(cut), run.len())
            == Err::<(Seq<u8>, Seq<u8>), error::PersistErrorView>(
            error::PersistErrorView::TruncatedHeader { needed: run.len(), found: cut as nat },
        ),
        cut >= run.len() ==> split_or_truncated((run + rest).take(cut), run.len()) == Ok::<
            (Seq<u8>, Seq<u8>),
            error::PersistErrorView,
        >((run, rest.take(cut - run.len()))),
{
    if cut >= run.len() {
        assert((run + rest).take(cut).take(run.len() as int) =~= run);
        assert((run + rest).take(cut).skip(run.len() as int) =~= rest.take(cut - run.len()));
    }
}

/// A header cut off anywhere is reported as truncated.
#[verifier::rlimit(60)]
#[verifier::spinoff_prover]
pub proof fn truncated_header_is_rejected(header: FileHeaderView, cut: int)
    requires
        readable(header),
        0 <= cut < header_bytes(header).len(),
    ensures
        parse_header(header_bytes(header).take(cut)) matches Err(
            error::PersistErrorView::TruncatedHeader { .. },
        ),
{
    let tag = vstd::utf8::encode_utf8(header.index_type);
    let metric = seq![metric_tag(header.metric)->0];
    let rest = Seq::<u8>::empty();
    let version = bytes::le_bytes(header.version as nat, 4);
    let len = bytes::le_bytes(tag.len(), 8);
    let dim = bytes::le_bytes(header.dim, 8);
    let count = bytes::le_bytes(header.n_vectors, 8);
    let crc = bytes::le_bytes(header.crc32 as nat, 4);
    let after_count = crc + rest;
    let after_metric = count + after_count;
    let after_dim = metric + after_metric;
    let after_tag = dim + after_dim;
    let after_len = tag + after_tag;
    let after_version = len + after_len;
    let after_magic = version + after_version;
    lemma_header_fields(header, rest);
    lemma_field_widths(header);
    assert(header_bytes(header) + rest =~= header_bytes(header));
    metric_tags_are_one_to_one(header.metric, metric[0]);
    lemma_split_of_cut(header.magic, after_magic, cut);
    if cut >= 8 {
        lemma_split_of_cut(version, after_version, cut - 8);
        if cut >= 12 {
            lemma_split_of_cut(len, after_len, cut - 12);
            if cut >= 20 {
                lemma_split_of_cut(tag, after_tag, cut - 20);
                let at_dim = cut - 20 - tag.len();
                if at_dim >= 0 {
                    lemma_split_of_cut(dim, after_dim, at_dim);
                    if at_dim >= 8 {
                        lemma_split_of_cut(metric, after_metric, at_dim - 8);
                        if at_dim >= 9 {
                            lemma_split_of_cut(count, after_count, at_dim - 9);
                            if at_dim >= 17 {
                                lemma_split_of_cut(crc, rest, at_dim - 17);
                            }
                        }
                    }
                }
            }
        }
    }
}

} // verus!
