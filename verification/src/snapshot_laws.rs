//! What holds of snapshots as a whole.

use vstd::prelude::*;

use crate::bytes;
use crate::checksum;
use crate::compression;
use crate::compression::Codecs;
use crate::config::Compression;
use crate::error;
use crate::error::{PersistError, Result};
use crate::persistable::Persistable;
use crate::snapshot;
use crate::snapshot::Shape;

verus! {

/// Whether an index type's tag is at most 4 KiB long, and so read back.
pub open spec fn tag_fits<I: Persistable>() -> bool {
    vstd::utf8::encode_utf8(I::INDEX_TYPE@).len() <= 4096
}

/// Whether rebuilding an index from what it was serialized to always succeeds
/// and keeps what can be observed of the index and its `state`.
pub open spec fn faithful<I: Persistable, S>(state: spec_fn(I) -> S) -> bool {
    forall|index: I, payload: Seq<u8>, loaded: Result<I>|
        #![trigger index.saves(Ok(payload)), I::loads(payload, loaded)]
        index.saves(Ok(payload)) && I::loads(payload, loaded) ==> {
            &&& loaded is Ok
            &&& loaded->Ok_0.profile() == index.profile()
            &&& state(loaded->Ok_0) == state(index)
        }
}

/// The file of a snapshot is opened to the payload it was made of.
proof fn lemma_file_opens(
    shape: Shape,
    scheme: Compression,
    payload: Seq<u8>,
    region: Seq<u8>,
    codecs: Codecs,
)
    requires
        crate::format::readable(shape.header(region)),
        compression::seals(scheme, region, payload),
        codecs.handles(scheme),
    ensures
        snapshot::opened_file(shape.file(region), shape.index_type@, codecs) == Ok::<
            (crate::format::FileHeaderView, Seq<u8>),
            error::PersistErrorView,
        >((shape.header(region), payload)),
{
    crate::format::header_round_trips(shape.header(region), region);
    compression::payload_round_trips(
        crate::format::CURRENT_VERSION,
        scheme,
        region,
        payload,
        codecs,
    );
}

/// A snapshot carries its payload: what is handed to the index on load is, byte
/// for byte, what the index was serialized to on save, under every compression
/// scheme, and the header agrees with the index.
pub proof fn snapshot_carries_its_payload<I: Persistable>(
    index: I,
    scheme: Compression,
    file: Vec<u8>,
    codecs: Codecs,
)
    requires
        snapshot::snapshots(index, scheme, Ok(file)),
        codecs.handles(scheme),
        tag_fits::<I>(),
    ensures
        exists|payload: Seq<u8>, header: crate::format::FileHeaderView|
            {
                &&& #[trigger] index.saves(Ok(payload))
                &&& snapshot::opened_file(file@, I::INDEX_TYPE@, codecs) == Ok::<
                    (crate::format::FileHeaderView, Seq<u8>),
                    error::PersistErrorView,
                >((header, payload))
                &&& #[trigger] snapshot::shape_of(index).disagreement(header) is None
            },
{
    let (payload, region) = lemma_snapshot_parts(index, scheme, file);
    let shape = snapshot::shape_of(index);
    lemma_file_opens(shape, scheme, payload, region, codecs);
    let header = shape.header(region);
    assert(index.saves(Ok(payload)));
    assert(shape.disagreement(header) is None);
}

/// The payload and the region that a snapshot was made of.
pub(crate) proof fn lemma_snapshot_parts<I: Persistable>(index: I, scheme: Compression, file: Vec<u8>) -> (parts: (
    Seq<u8>,
    Seq<u8>,
))
    requires
        snapshot::snapshots(index, scheme, Ok(file)),
        tag_fits::<I>(),
    ensures
        ({
            let (payload, region) = parts;
            let shape = snapshot::shape_of(index);
            &&& index.saves(Ok(payload))
            &&& compression::seals(scheme, region, payload)
            &&& file@ == shape.file(region)
            &&& crate::format::readable(shape.header(region))
        }),
{
    let saved = choose|saved: core::result::Result<Seq<u8>, PersistError>| #[trigger]
        index.saves(saved) && snapshot::snapshot_outcome(index, scheme, saved, Ok(file));
    let payload = saved->Ok_0;
    let shape = snapshot::shape_of(index);
    assert(saved == Ok::<Seq<u8>, PersistError>(payload));
    assert(shape.frames(scheme, payload, Ok(file@)));
    let sealed = choose|sealed: core::result::Result<Seq<u8>, error::PersistErrorView>| #[trigger]
        compression::seals_to(scheme, payload, sealed) && shape.frame_outcome(
            scheme,
            payload,
            sealed,
            Ok(file@),
        );
    (payload, sealed->Ok_0)
}

/// Saving a faithful index and loading what was saved gives back an index of
/// the same state, under every compression scheme.
pub proof fn faithful_index_round_trips<I: Persistable, S>(
    state: spec_fn(I) -> S,
    index: I,
    scheme: Compression,
    file: Vec<u8>,
    codecs: Codecs,
    restored: Result<I>,
)
    requires
        faithful(state),
        snapshot::snapshots(index, scheme, Ok(file)),
        codecs.handles(scheme),
        tag_fits::<I>(),
        snapshot::restores(file@, codecs, restored),
    ensures
        restored is Ok,
        state(restored->Ok_0) == state(index),
{
    let (payload, region) = lemma_snapshot_parts(index, scheme, file);
    let shape = snapshot::shape_of(index);
    let header = shape.header(region);
    lemma_file_opens(shape, scheme, payload, region, codecs);
    assert(snapshot::rebuilds(header, payload, restored));
    let loaded = choose|loaded: Result<I>| #[trigger]
        I::loads(payload, loaded) && snapshot::restore_outcome(header, loaded, restored);
    assert(index.saves(Ok(payload)));
    assert(loaded is Ok);
    assert(snapshot::shape_of(loaded->Ok_0) == shape);
    assert(shape.disagreement(header) is None);
}

/// A file of format version 1 holds its payload verbatim.
pub proof fn version_one_payload_is_verbatim(
    header: crate::format::FileHeaderView,
    payload: Seq<u8>,
    codecs: Codecs,
)
    requires
        crate::format::readable(header),
        header.version == 1,
        header.crc32 == checksum::crc32(payload),
    ensures
        snapshot::opened_file(
            crate::format::header_bytes(header) + payload,
            header.index_type,
            codecs,
        ) == Ok::<(crate::format::FileHeaderView, Seq<u8>), error::PersistErrorView>(
            (header, payload),
        ),
{
    crate::format::header_round_trips(header, payload);
}

/// Changing a snapshot's payload region within 32 consecutive bits, a byte among
/// them, is reported as a checksum mismatch, whatever the change.
pub proof fn damaged_payload_is_detected(
    shape: Shape,
    region: Seq<u8>,
    damaged: Seq<u8>,
    from: int,
    codecs: Codecs,
)
    requires
        crate::format::readable(shape.header(region)),
        checksum::differ_within(region, damaged, from),
        region != damaged,
    ensures
        snapshot::opened_file(
            crate::format::header_bytes(shape.header(region)) + damaged,
            shape.index_type@,
            codecs,
        ) == Err::<(crate::format::FileHeaderView, Seq<u8>), error::PersistErrorView>(
            error::PersistErrorView::ChecksumMismatch {
                expected: checksum::crc32(region),
                computed: checksum::crc32(damaged),
            },
        ),
{
    crate::format::header_round_trips(shape.header(region), damaged);
    checksum::burst_changes_crc(region, damaged, from);
}

/// Where the fields of a header with an index-type tag of `n` bytes start.
pub(crate) proof fn lemma_field_offsets(header: crate::format::FileHeaderView, rest: Seq<u8>)
    requires
        crate::format::readable(header),
    ensures
        ({
            let tag = vstd::utf8::encode_utf8(header.index_type);
            let n = tag.len() as int;
            let file = crate::format::header_bytes(header) + rest;
            &&& crate::format::header_bytes(header).len() == 41 + n
            &&& file.subrange(0, 8) == header.magic
            &&& file.subrange(8, 12) == bytes::le_bytes(header.version as nat, 4)
            &&& file.subrange(12, 20) == bytes::le_bytes(tag.len(), 8)
            &&& file.subrange(20, 20 + n) == tag
            &&& file.subrange(20 + n, 28 + n) == bytes::le_bytes(header.dim, 8)
            &&& file[28 + n] == crate::format::metric_tag(header.metric)->0
            &&& file.subrange(29 + n, 37 + n) == bytes::le_bytes(header.n_vectors, 8)
            &&& file.subrange(37 + n, 41 + n) == bytes::le_bytes(header.crc32 as nat, 4)
            &&& file.skip(41 + n) == rest
        }),
{
    let tag = vstd::utf8::encode_utf8(header.index_type);
    let n = tag.len() as int;
    let file = crate::format::header_bytes(header) + rest;
    bytes::lemma_le_bytes_len(header.version as nat, 4);
    bytes::lemma_le_bytes_len(tag.len(), 8);
    bytes::lemma_le_bytes_len(header.dim, 8);
    bytes::lemma_le_bytes_len(header.n_vectors, 8);
    bytes::lemma_le_bytes_len(header.crc32 as nat, 4);
    assert(file.subrange(0, 8) =~= header.magic);
    assert(file.subrange(8, 12) =~= bytes::le_bytes(header.version as nat, 4));
    assert(file.subrange(12, 20) =~= bytes::le_bytes(tag.len(), 8));
    assert(file.subrange(20, 20 + n) =~= tag);
    assert(file.subrange(20 + n, 28 + n) =~= bytes::le_bytes(header.dim, 8));
    assert(file.subrange(29 + n, 37 + n) =~= bytes::le_bytes(header.n_vectors, 8));
    assert(file.subrange(37 + n, 41 + n) =~= bytes::le_bytes(header.crc32 as nat, 4));
    assert(file.skip(41 + n) =~= rest);
}

/// Byte strings that differ at `at` agree on every range that leaves it out,
/// and on none that has it.
proof fn lemma_differing_range(a: Seq<u8>, b: Seq<u8>, at: int, from: int, to: int)
    requires
        checksum::differ_at(a, b, at),
        0 <= from <= to <= a.len(),
    ensures
        (a.subrange(from, to) == b.subrange(from, to)) <==> !(from <= at < to),
{
    if from <= at < to {
        assert(a.subrange(from, to)[at - from] != b.subrange(from, to)[at - from]);
    } else {
        assert(a.subrange(from, to) =~= b.subrange(from, to));
    }
}

/// Whether two headers agree on what an index is checked against.
spec fn same_shape(
    a: crate::format::FileHeaderView,
    b: crate::format::FileHeaderView,
) -> bool {
    a.dim == b.dim && a.metric == b.metric && a.n_vectors == b.n_vectors
}

/// A file that differs in one byte from a sound one and is opened all the same
/// has the same payload, and its header differs in the dimensionality, the
/// metric or the vector count.
#[verifier::rlimit(40)]
proof fn lemma_undetected_damage(
    written: crate::format::FileHeaderView,
    region: Seq<u8>,
    damaged: Seq<u8>,
    at: int,
    codecs: Codecs,
)
    requires
        crate::format::readable(written),
        written.crc32 == checksum::crc32(region),
        checksum::differ_at(crate::format::header_bytes(written) + region, damaged, at),
        !swaps_version(damaged, at),
    ensures
        snapshot::opened_file(damaged, written.index_type, codecs) matches Ok((header, payload))
            ==> !same_shape(header, written) && snapshot::opened_file(
            crate::format::header_bytes(written) + region,
            written.index_type,
            codecs,
        ) == Ok::<(crate::format::FileHeaderView, Seq<u8>), error::PersistErrorView>(
            (written, payload),
        ),
{
    let file = crate::format::header_bytes(written) + region;
    bytes::lemma_pow256_widths();
    if let Ok((header, payload)) = snapshot::opened_file(damaged, written.index_type, codecs) {
        crate::format::parsed_header_is_canonical(damaged);
        let (_, found) = crate::format::parse_header(damaged)->Ok_0;
        let n = vstd::utf8::encode_utf8(written.index_type).len() as int;
        lemma_field_offsets(written, region);
        lemma_field_offsets(header, found);
        lemma_differing_range(file, damaged, at, 0, 8);
        lemma_differing_range(file, damaged, at, 8, 12);
        lemma_differing_range(file, damaged, at, 12, 20);
        lemma_differing_range(file, damaged, at, 20, 20 + n);
        lemma_differing_range(file, damaged, at, 20 + n, 28 + n);
        lemma_differing_range(file, damaged, at, 29 + n, 37 + n);
        lemma_differing_range(file, damaged, at, 37 + n, 41 + n);
        lemma_differing_range(file, damaged, at, 41 + n, file.len() as int);
        assert(file.subrange(41 + n, file.len() as int) =~= region);
        assert(damaged.subrange(41 + n, file.len() as int) =~= found);
        assert(at >= 8);
        assert(!(12 <= at < 20 + n));
        if at < 12 {
            lemma_version_byte(written.version, header.version, damaged, at, file);
        }
        assert(!(8 <= at < 12));
        if at >= 41 + n {
            assert(header.crc32 == written.crc32) by {
                lemma_same_number(header.crc32 as nat, written.crc32 as nat, 4);
            }
            assert(checksum::differ_at(region, found, at - (41 + n))) by {
                assert(region[at - (41 + n)] == file[at]);
                assert(found[at - (41 + n)] == damaged[at]);
                assert forall|j: int| 0 <= j < region.len() && j != at - (41 + n) implies region[j]
                    == found[j] by {
                    assert(region[j] == file[j + 41 + n]);
                    assert(found[j] == damaged[j + 41 + n]);
                }
            }
            checksum::single_byte_change_changes_crc(region, found, at - (41 + n));
            assert(false);
        }
        assert(found == region);
        assert(header.version == written.version) by {
            lemma_same_number(header.version as nat, written.version as nat, 4);
        }
        crate::format::header_round_trips(written, region);
        if same_shape(header, written) {
            assert(header =~= written);
            assert(damaged == file);
            assert(false);
        }
    }
}

/// Numbers with the same little-endian bytes are the same.
proof fn lemma_same_number(a: nat, b: nat, width: nat)
    requires
        a < bytes::pow256(width),
        b < bytes::pow256(width),
        bytes::le_bytes(a, width) == bytes::le_bytes(b, width),
    ensures
        a == b,
{
    bytes::lemma_le_value_of_bytes(a, width);
    bytes::lemma_le_value_of_bytes(b, width);
}

/// Whether a change at `at` turned the version into another supported one. The
/// payload region is then read another way.
pub open spec fn swaps_version(damaged: Seq<u8>, at: int) -> bool {
    at == 8 && crate::format::MIN_SUPPORTED_VERSION <= damaged[8] <= crate::format::CURRENT_VERSION
}

/// A change to one byte of the version either leaves the supported versions or
/// turns one into the other.
proof fn lemma_version_byte(
    written: u32,
    version: u32,
    damaged: Seq<u8>,
    at: int,
    file: Seq<u8>,
)
    requires
        checksum::differ_at(file, damaged, at),
        8 <= at < 12,
        file.len() >= 12,
        file.subrange(8, 12) == bytes::le_bytes(written as nat, 4),
        crate::format::MIN_SUPPORTED_VERSION <= written <= crate::format::CURRENT_VERSION,
        damaged.subrange(8, 12) == bytes::le_bytes(version as nat, 4),
        crate::format::MIN_SUPPORTED_VERSION <= version <= crate::format::CURRENT_VERSION,
    ensures
        swaps_version(damaged, at),
{
    reveal_with_fuel(bytes::le_bytes, 5);
    assert(damaged[at] == damaged.subrange(8, 12)[at - 8]);
    assert(file[at] == file.subrange(8, 12)[at - 8]);
    assert(damaged[8] == damaged.subrange(8, 12)[0]);
}

/// Whether two indexes rebuilt from one payload always look the same.
pub open spec fn repeatable<I: Persistable>() -> bool {
    forall|payload: Seq<u8>, a: I, b: I|
        #![trigger I::loads(payload, Ok(a)), I::loads(payload, Ok(b))]
        I::loads(payload, Ok(a)) && I::loads(payload, Ok(b)) ==> a.profile() == b.profile()
}

/// A file that loads does not load any more once one byte of it was changed,
/// whatever the file, the byte and the change. The one change left out turns
/// the format version into another supported one.
pub proof fn damaged_file_is_rejected<I: Persistable>(
    file: Seq<u8>,
    codecs: Codecs,
    first: I,
    damaged: Seq<u8>,
    at: int,
    out: Result<I>,
)
    requires
        repeatable::<I>(),
        snapshot::restores(file, codecs, Ok(first)),
        checksum::differ_at(file, damaged, at),
        !swaps_version(damaged, at),
        snapshot::restores(damaged, codecs, out),
    ensures
        out is Err,
{
    let (written, payload) = snapshot::opened_file(file, I::INDEX_TYPE@, codecs)->Ok_0;
    let (_, region) = crate::format::parse_header(file)->Ok_0;
    crate::format::parsed_header_is_canonical(file);
    lemma_undetected_damage(written, region, damaged, at, codecs);
    assert(snapshot::rebuilds(written, payload, Ok(first)));
    assert(I::loads(payload, Ok(first)) && snapshot::shape_of(first).disagreement(written) is None);
    if let Ok((header, found)) = snapshot::opened_file(damaged, I::INDEX_TYPE@, codecs) {
        assert(found == payload);
        assert(snapshot::rebuilds(header, payload, out));
        let loaded = choose|loaded: Result<I>| #[trigger]
            I::loads(payload, loaded) && snapshot::restore_outcome(header, loaded, out);
        if let Ok(again) = loaded {
            assert(I::loads(payload, Ok(again)));
            assert(again.profile() == first.profile());
        }
    }
}

/// A snapshot in which one byte was changed does not load, whatever the byte
/// and whatever the change, if the index is faithful. The one change left out
/// turns the version into 1, under which the region is read as the payload.
pub proof fn damaged_snapshot_is_rejected<I: Persistable, S>(
    state: spec_fn(I) -> S,
    index: I,
    scheme: Compression,
    file: Vec<u8>,
    damaged: Seq<u8>,
    at: int,
    codecs: Codecs,
    out: Result<I>,
)
    requires
        faithful(state),
        tag_fits::<I>(),
        snapshot::snapshots(index, scheme, Ok(file)),
        checksum::differ_at(file@, damaged, at),
        !(at == 8 && damaged[8] == 1),
        snapshot::restores(damaged, codecs, out),
    ensures
        out is Err,
{
    let (payload, region) = lemma_snapshot_parts(index, scheme, file);
    let shape = snapshot::shape_of(index);
    lemma_field_offsets(shape.header(region), region);
    assert(file@[8] == 2) by {
        reveal_with_fuel(bytes::le_bytes, 5);
        assert(file@[8] == file@.subrange(8, 12)[0]);
    }
    lemma_undetected_damage(shape.header(region), region, damaged, at, codecs);
    if codecs.handles(scheme) {
        lemma_file_opens(shape, scheme, payload, region, codecs);
    } else {
        crate::format::header_round_trips(shape.header(region), region);
        compression::switched_off_codec_is_reported(
            crate::format::CURRENT_VERSION,
            scheme,
            region,
            payload,
            codecs,
        );
    }
    if let Ok((header, found)) = snapshot::opened_file(damaged, I::INDEX_TYPE@, codecs) {
        assert(found == payload);
        assert(snapshot::rebuilds(header, payload, out));
        let loaded = choose|loaded: Result<I>| #[trigger]
            I::loads(payload, loaded) && snapshot::restore_outcome(header, loaded, out);
        assert(index.saves(Ok(payload)));
        assert(loaded is Ok);
        assert(snapshot::shape_of(loaded->Ok_0) == shape);
    }
}

/// The length of the header of a snapshot of an `I`.
pub open spec fn header_len<I: Persistable>() -> int {
    41 + vstd::utf8::encode_utf8(I::INDEX_TYPE@).len() as int
}

/// Whether a snapshot that was cut off shows it: always within the header and
/// where the payload region is stored as it is, otherwise by its CRC32.
pub open spec fn shows_truncation(
    scheme: Compression,
    file: Seq<u8>,
    head: int,
    cut: int,
) -> bool {
    ||| cut < head
    ||| scheme is Off
    ||| checksum::crc32(file.take(cut).skip(head)) != checksum::crc32(file.skip(head))
}

/// Whether `e` is what a snapshot with a header of `head` bytes, cut off at
/// `cut`, is reported as: a truncated header if the cut lies within the header,
/// a checksum mismatch if the CRC32 of what is left of the payload region is
/// another, and a truncated payload otherwise.
pub open spec fn reports_truncation(
    file: Seq<u8>,
    head: int,
    cut: int,
    e: error::PersistErrorView,
) -> bool {
    let expected = checksum::crc32(file.skip(head));
    let computed = checksum::crc32(file.take(cut).skip(head));
    if cut < head {
        e is TruncatedHeader
    } else if computed != expected {
        e == (error::PersistErrorView::ChecksumMismatch { expected, computed })
    } else {
        e is TruncatedPayload
    }
}

/// A snapshot that was cut off anywhere does not load, and is reported for what
/// it is, under every compression scheme. What is left out is a compressed one
/// whose payload region has the same CRC32 when cut off.
pub proof fn truncated_snapshot_is_rejected<I: Persistable>(
    index: I,
    scheme: Compression,
    file: Vec<u8>,
    cut: int,
    codecs: Codecs,
    out: Result<I>,
)
    requires
        tag_fits::<I>(),
        snapshot::snapshots(index, scheme, Ok(file)),
        0 <= cut < file@.len(),
        shows_truncation(scheme, file@, header_len::<I>(), cut),
        snapshot::restores(file@.take(cut), codecs, out),
    ensures
        out is Err,
        reports_truncation(file@, header_len::<I>(), cut, out->Err_0@),
{
    let (payload, region) = lemma_snapshot_parts(index, scheme, file);
    let header = snapshot::shape_of(index).header(region);
    let head = crate::format::header_bytes(header);
    lemma_field_offsets(header, region);
    assert(file@.skip(head.len() as int) =~= region);
    if cut < head.len() {
        crate::format::truncated_header_is_rejected(header, cut);
        assert(file@.take(cut) =~= head.take(cut));
    } else {
        let left = region.take(cut - head.len());
        assert(file@.take(cut) =~= head + left);
        assert(file@.take(cut).skip(head.len() as int) =~= left);
        crate::format::header_round_trips(header, left);
        if scheme is Off {
            compression::truncated_payload_is_rejected(
                crate::format::CURRENT_VERSION,
                region,
                payload,
                codecs,
                cut - head.len(),
            );
        }
    }
}

} // verus!
