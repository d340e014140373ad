//! What a caller can rely on of the functions that encode, decode, check and
//! render: headers, log records, payload regions, checksums and texts.

use vstd::prelude::*;

use crate::bytes;
use crate::checksum;
use crate::compression;
use crate::compression::Codecs;
use crate::config::{Compression, FsyncPolicy};
use crate::error::{PersistError, Result};
use crate::format::FileHeader;
use crate::lifecycle_laws;
use crate::storage;
use crate::storage::{Former, WriteStep};
use crate::text;
use crate::types::{
    DistanceMetric, EntryView, Metadata, Value, ValueView, VectorId, VectorIdView,
};
use crate::wal;
use crate::wal::{WalContents, WalRecord, WalRecordView};
use crate::wal_laws;

verus! {

// ----------------------------------------------------------------------
// Values
// ----------------------------------------------------------------------

/// The view of an identifier has all that the identifier holds.
pub proof fn identifier_view_loses_nothing(id: VectorId, n: u64, copy: VectorId)
    requires
        call_ensures(VectorId::duplicate, (&id,), copy),
    ensures
        id@ == VectorIdView::U64(n) <==> id == VectorId::U64(n),
        id matches VectorId::Bytes(run) ==> id@ == VectorIdView::Bytes(run@),
        id matches VectorId::U64(m) ==> copy == VectorId::U64(m),
        id matches VectorId::Bytes(run) ==> (copy matches VectorId::Bytes(again) && again@ == run@),
{
}

/// The view of a metadata value has all that the value holds.
pub proof fn value_view_loses_nothing(value: Value)
    ensures
        match value {
            Value::String(text) => value@ == ValueView::String(text@),
            Value::Int(n) => value@ == ValueView::Int(n),
            Value::Float(bits) => value@ == ValueView::Float(bits),
            Value::Bool(b) => value@ == ValueView::Bool(b),
            Value::Null => value@ == ValueView::Null,
        },
{
}

/// The view of metadata has every entry, in order, with its key and its value.
pub proof fn metadata_view_loses_nothing(metadata: Metadata, i: int)
    requires
        0 <= i < metadata.entries@.len(),
    ensures
        metadata@.len() == metadata.entries@.len(),
        metadata@[i] == (EntryView {
            key: metadata.entries@[i].key@,
            value: metadata.entries@[i].value@,
        }),
{
}

/// The view of a record has the identifier, the vector and the metadata.
pub proof fn record_view_loses_nothing(record: WalRecord)
    ensures
        match record {
            WalRecord::Insert { id, vector, meta } => record@ == lifecycle_laws::insertion(
                id,
                vector,
                meta,
            ),
            WalRecord::Delete { id } => record@ == lifecycle_laws::deletion(id),
        },
{
}

/// The view of a header has every field.
pub proof fn header_view_loses_nothing(header: FileHeader)
    ensures
        header@.magic == header.magic@,
        header@.version == header.version,
        header@.index_type == header.index_type@,
        header@.dim == header.dim,
        header@.metric == header.metric,
        header@.n_vectors == header.n_vectors,
        header@.crc32 == header.crc32,
{
}

// ----------------------------------------------------------------------
// Checksums
// ----------------------------------------------------------------------

/// A checksum is verified exactly if it is the one that is computed, and a
/// mismatch is reported with both.
pub proof fn checksum_is_verified_if_it_is_the_one_computed(
    run: &[u8],
    crc: u32,
    expected: u32,
    out: Result<()>,
)
    requires
        call_ensures(checksum::compute, (run,), crc),
        call_ensures(checksum::verify, (run, expected), out),
    ensures
        out is Ok <==> crc == expected,
        out matches Err(e) ==> e == (PersistError::ChecksumMismatch { expected, computed: crc }),
{
}

/// Runs of which the bits differ only within 32 consecutive ones, and runs that
/// differ in one byte, have different checksums.
pub proof fn checksums_of_damaged_runs_differ(a: &[u8], b: &[u8], from: int, crc_a: u32, crc_b: u32)
    requires
        checksum::differ_within(a@, b@, from),
        a@ != b@,
        call_ensures(checksum::compute, (a,), crc_a),
        call_ensures(checksum::compute, (b,), crc_b),
    ensures
        crc_a != crc_b,
{
    checksum::burst_changes_crc(a@, b@, from);
}

// ----------------------------------------------------------------------
// Headers
// ----------------------------------------------------------------------

/// Whether a header is one that can be written and read back: the magic bytes,
/// version 1 or 2, a tag of at most 4 KiB, and a metric with a number. Nothing
/// is asked of the dimensionality, the count or the checksum.
pub open spec fn is_ordinary(header: FileHeader) -> bool {
    &&& header.magic@ == seq![0x49u8, 0x51, 0x44, 0x42, 0x50, 0x52, 0x53, 0x54]
    &&& 1 <= header.version <= 2
    &&& vstd::utf8::encode_utf8(header.index_type@).len() <= 4096
    &&& lifecycle_laws::metric_number(header.metric) >= 0
}

/// Reading what was written gives the header back, field by field, and stops
/// right behind it.
#[verifier::rlimit(80)]
#[verifier::spinoff_prover]
pub proof fn written_header_is_read_back(
    writer: &mut Vec<u8>,
    header: FileHeader,
    written: Result<()>,
    rest: Seq<u8>,
    reader: &mut &[u8],
    out: Result<FileHeader>,
)
    requires
        is_ordinary(header),
        call_ensures(crate::format::write_header, (writer, &header), written),
        old(reader)@ == final(writer)@.skip(old(writer)@.len() as int) + rest,
        call_ensures(crate::format::read_header, (reader,), out),
    ensures
        written is Ok,
        final(writer)@.take(old(writer)@.len() as int) == old(writer)@,
        out is Ok,
        out->Ok_0.magic@ == header.magic@,
        out->Ok_0.version == header.version,
        out->Ok_0.index_type@ == header.index_type@,
        out->Ok_0.dim == header.dim,
        out->Ok_0.metric == header.metric,
        out->Ok_0.n_vectors == header.n_vectors,
        out->Ok_0.crc32 == header.crc32,
        final(reader)@ == rest,
{
    assert(crate::format::MAGIC@ =~= header.magic@);
    let spelled = crate::format::header_bytes(header@);
    assert((old(writer)@ + spelled).skip(old(writer)@.len() as int) =~= spelled);
    assert((old(writer)@ + spelled).take(old(writer)@.len() as int) =~= old(writer)@);
    crate::format::header_round_trips(header@, rest);
}

/// A metric without a number cannot be written.
pub proof fn metric_without_a_number_is_not_written(
    writer: &mut Vec<u8>,
    header: FileHeader,
    written: Result<()>,
    tag: Result<u8>,
)
    requires
        call_ensures(crate::format::write_header, (writer, &header), written),
        call_ensures(crate::format::metric_to_tag, (header.metric,), tag),
    ensures
        written is Ok <==> lifecycle_laws::metric_number(header.metric) >= 0,
        written matches Err(e) ==> e == (PersistError::UnsupportedMetric { metric: header.metric }),
        lifecycle_laws::metric_number(header.metric) >= 0 ==> tag is Ok && tag->Ok_0
            == lifecycle_laws::metric_number(header.metric),
        tag matches Err(e) ==> e == (PersistError::UnsupportedMetric { metric: header.metric }),
{
}

/// A number stands for the metric that it was written for, and for none if there
/// is no such metric.
pub proof fn metric_numbers_are_read_back(tag: u8, out: Result<DistanceMetric>)
    requires
        call_ensures(crate::format::tag_to_metric, (tag,), out),
    ensures
        match out {
            Ok(metric) => lifecycle_laws::metric_number(metric) == tag,
            Err(e) => tag > 4 && e == (PersistError::InvalidMetric { tag }),
        },
{
}

/// Whether an outcome is an invalid payload, for the reason given.
pub open spec fn is_invalid<T>(out: Result<T>, reason: &str) -> bool {
    out matches Err(PersistError::InvalidPayload { reason: given }) && given@ == reason@
}

/// What is reported for a field of `needed` bytes at `at`, where the input ends
/// too early.
pub open spec fn cut_short(input: Seq<u8>, needed: int, at: int) -> Result<FileHeader> {
    Err(
        PersistError::TruncatedHeader {
            needed: needed as usize,
            found: (input.len() - at) as usize,
        },
    )
}

/// What reading a header comes to, field by field: the first field that is cut
/// short or faulty is reported and the reader is left behind it, and otherwise
/// every field is the number that its bytes spell.
#[verifier::rlimit(80)]
#[verifier::spinoff_prover]
pub proof fn header_is_read_field_by_field(reader: &mut &[u8], out: Result<FileHeader>)
    requires
        call_ensures(crate::format::read_header, (reader,), out),
    ensures
        ({
            let input = old(reader)@;
            let len = input.len();
            let version = bytes::le_value(input.subrange(8, 12));
            let n = bytes::le_value(input.subrange(12, 20)) as int;
            let dim = bytes::le_value(input.subrange(20 + n, 28 + n));
            let count = bytes::le_value(input.subrange(29 + n, 37 + n));
            if len < 8 {
                out == cut_short(input, 8, 0) && final(reader)@.len() == 0
            } else if input.subrange(0, 8) != seq![
                0x49u8,
                0x51,
                0x44,
                0x42,
                0x50,
                0x52,
                0x53,
                0x54,
            ] {
                &&& out matches Err(PersistError::BadMagic { found }) && found@ == input.subrange(
                    0,
                    8,
                )
                &&& final(reader)@ == input.skip(8)
            } else if len < 12 {
                out == cut_short(input, 4, 8) && final(reader)@.len() == 0
            } else if version != 1 && version != 2 {
                &&& out == Err::<FileHeader, PersistError>(
                    PersistError::UnsupportedVersion { found: version as u32, supported: 1 },
                )
                &&& final(reader)@ == input.skip(12)
            } else if len < 20 {
                out == cut_short(input, 8, 12) && final(reader)@.len() == 0
            } else if n > 4096 {
                &&& n <= usize::MAX ==> is_invalid(out, "index_type length exceeds the 4 KiB cap")
                &&& n > usize::MAX ==> is_invalid(
                    out,
                    "index_type length does not fit in usize on this host",
                )
                &&& final(reader)@ == input.skip(20)
            } else if len < 20 + n {
                out == cut_short(input, n, 20) && final(reader)@.len() == 0
            } else if !vstd::utf8::valid_utf8(input.subrange(20, 20 + n)) {
                is_invalid(out, "index_type is not valid UTF-8") && final(reader)@ == input.skip(
                    20 + n,
                )
            } else if len < 28 + n {
                out == cut_short(input, 8, 20 + n) && final(reader)@.len() == 0
            } else if dim > usize::MAX {
                is_invalid(out, "dim does not fit in usize on this host") && final(reader)@
                    == input.skip(28 + n)
            } else if len < 29 + n {
                out == cut_short(input, 1, 28 + n) && final(reader)@.len() == 0
            } else if input[28 + n] > 4 {
                &&& out == Err::<FileHeader, PersistError>(
                    PersistError::InvalidMetric { tag: input[28 + n] },
                )
                &&& final(reader)@ == input.skip(29 + n)
            } else if len < 37 + n {
                out == cut_short(input, 8, 29 + n) && final(reader)@.len() == 0
            } else if count > usize::MAX {
                is_invalid(out, "n_vectors does not fit in usize on this host") && final(reader)@
                    == input.skip(37 + n)
            } else if len < 41 + n {
                out == cut_short(input, 4, 37 + n) && final(reader)@.len() == 0
            } else {
                &&& out is Ok
                &&& out->Ok_0.magic@ == input.subrange(0, 8)
                &&& out->Ok_0.version == version
                &&& out->Ok_0.index_type@ == vstd::utf8::decode_utf8(input.subrange(20, 20 + n))
                &&& out->Ok_0.dim == dim
                &&& lifecycle_laws::metric_number(out->Ok_0.metric) == input[28 + n]
                &&& out->Ok_0.n_vectors == count
                &&& out->Ok_0.crc32 == bytes::le_value(input.subrange(37 + n, 41 + n))
                &&& final(reader)@ == input.skip(41 + n)
            }
        }),
{
    let input = old(reader)@;
    let n = bytes::le_value(input.subrange(12, 20)) as int;
    assert(crate::format::MAGIC@ =~= seq![0x49u8, 0x51, 0x44, 0x42, 0x50, 0x52, 0x53, 0x54]);
    bytes::lemma_pow256_widths();
    assert(input.len() >= 8 ==> input.take(8) =~= input.subrange(0, 8));
    if input.len() >= 12 {
        bytes::lemma_le_value_bound(input.subrange(8, 12));
        assert(input.skip(8).take(4) =~= input.subrange(8, 12));
        assert(input.skip(8).skip(4) =~= input.skip(12));
    }
    if input.len() >= 20 {
        assert(input.skip(12).take(8) =~= input.subrange(12, 20));
        assert(input.skip(12).skip(8) =~= input.skip(20));
    }
    if input.len() >= 20 + n && input.len() >= 20 {
        assert(input.skip(20).take(n) =~= input.subrange(20, 20 + n));
        assert(input.skip(20).skip(n) =~= input.skip(20 + n));
    }
    if input.len() >= 28 + n && input.len() >= 20 {
        bytes::lemma_le_value_bound(input.subrange(20 + n, 28 + n));
        assert(input.skip(20 + n).take(8) =~= input.subrange(20 + n, 28 + n));
        assert(input.skip(20 + n).skip(8) =~= input.skip(28 + n));
    }
    if input.len() >= 29 + n && input.len() >= 20 {
        assert(input.skip(28 + n).take(1)[0] == input[28 + n]);
        assert(input.skip(28 + n).skip(1) =~= input.skip(29 + n));
    }
    if input.len() >= 37 + n && input.len() >= 20 {
        bytes::lemma_le_value_bound(input.subrange(29 + n, 37 + n));
        assert(input.skip(29 + n).take(8) =~= input.subrange(29 + n, 37 + n));
        assert(input.skip(29 + n).skip(8) =~= input.skip(37 + n));
    }
    if input.len() >= 41 + n && input.len() >= 20 {
        bytes::lemma_le_value_bound(input.subrange(37 + n, 41 + n));
        assert(input.skip(37 + n).take(4) =~= input.subrange(37 + n, 41 + n));
        assert(input.skip(37 + n).skip(4) =~= input.skip(41 + n));
    }
}

// ----------------------------------------------------------------------
// Log records
// ----------------------------------------------------------------------

/// How many bytes an identifier takes in a record.
pub open spec fn id_size(id: VectorIdView) -> nat {
    match id {
        VectorIdView::U64(_) => 9,
        VectorIdView::Bytes(run) => 9 + run.len(),
    }
}

/// How many bytes a metadata value takes in a record.
pub open spec fn value_size(value: ValueView) -> nat {
    match value {
        ValueView::String(text) => 5 + vstd::utf8::encode_utf8(text).len(),
        ValueView::Int(_) => 9,
        ValueView::Float(_) => 9,
        ValueView::Bool(_) => 2,
        ValueView::Null => 1,
    }
}

/// How many bytes metadata entries take in a record.
pub open spec fn entries_size(entries: Seq<EntryView>) -> nat
    decreases entries.len(),
{
    if entries.len() == 0 {
        0
    } else {
        4 + vstd::utf8::encode_utf8(entries[0].key).len() + value_size(entries[0].value)
            + entries_size(entries.drop_first())
    }
}

/// How many bytes a record takes.
pub open spec fn record_size(record: WalRecordView) -> nat {
    match record {
        WalRecordView::Insert { id, vector, meta } => 6 + id_size(id) + 4 * vector.len()
            + match meta {
            None => 0,
            Some(entries) => 4 + entries_size(entries),
        },
        WalRecordView::Delete { id } => 1 + id_size(id),
    }
}

/// Entries take the bytes they should.
proof fn lemma_entries_size(entries: Seq<EntryView>)
    ensures
        wal::entries_bytes(entries).len() == entries_size(entries),
    decreases entries.len(),
{
    if entries.len() > 0 {
        let first = entries[0];
        bytes::lemma_le_bytes_len(vstd::utf8::encode_utf8(first.key).len(), 4);
        match first.value {
            ValueView::String(text) => {
                bytes::lemma_le_bytes_len(vstd::utf8::encode_utf8(text).len(), 4);
            },
            ValueView::Int(n) => {
                bytes::lemma_le_bytes_len(bytes::bits_of_i64(n) as nat, 8);
            },
            ValueView::Float(bits) => {
                bytes::lemma_le_bytes_len(bits as nat, 8);
            },
            _ => {},
        }
        lemma_entries_size(entries.drop_first());
    }
}

/// A record takes one byte for the operation, the identifier, and for an
/// insertion four bytes for the number of components, four for each, one that
/// says whether there is metadata, and that.
pub proof fn record_takes_its_size(record: WalRecordView)
    ensures
        wal::record_bytes(record).len() == record_size(record),
{
    match record {
        WalRecordView::Insert { id, vector, meta } => {
            wal::lemma_component_bytes_len(vector);
            bytes::lemma_le_bytes_len(vector.len(), 4);
            if let Some(entries) = meta {
                lemma_entries_size(entries);
                bytes::lemma_le_bytes_len(entries.len(), 4);
            }
            lemma_id_size(id);
        },
        WalRecordView::Delete { id } => {
            lemma_id_size(id);
        },
    }
}

/// An identifier takes the bytes it should.
proof fn lemma_id_size(id: VectorIdView)
    ensures
        wal::id_bytes(id).len() == id_size(id),
{
    match id {
        VectorIdView::U64(n) => {
            bytes::lemma_le_bytes_len(n as nat, 8);
        },
        VectorIdView::Bytes(run) => {
            bytes::lemma_le_bytes_len(run.len(), 8);
        },
    }
}

/// Decoding what a record was encoded to gives the record back, with its
/// identifier, its vector and its metadata. Every record of at most `u32::MAX`
/// bytes is encoded.
pub proof fn encoded_record_is_decoded(
    record: WalRecord,
    encoded: Result<Vec<u8>>,
    body: &[u8],
    decoded: Option<WalRecord>,
)
    requires
        call_ensures(wal::encode_record, (&record,), encoded),
        encoded is Ok ==> body@ == encoded->Ok_0@,
        call_ensures(wal::decode_record, (body,), decoded),
    ensures
        encoded is Ok <==> record_size(record@) <= 0xFFFF_FFFF,
        encoded matches Err(e) ==> e is InvalidPayload,
        encoded matches Ok(run) ==> run@.len() == record_size(record@),
        encoded is Ok ==> decoded is Some && decoded->0@ == record@,
{
    record_takes_its_size(record@);
    if encoded is Ok {
        wal_laws::record_round_trips(record@);
    }
}

/// What decodes to a record is what the record is encoded to.
pub proof fn decoded_record_is_encoded(body: &[u8], record: WalRecord, encoded: Result<Vec<u8>>)
    requires
        call_ensures(wal::decode_record, (body,), Some(record)),
        body@.len() <= 0xFFFF_FFFF,
        call_ensures(wal::encode_record, (&record,), encoded),
    ensures
        encoded is Ok,
        encoded->Ok_0@ == body@,
{
    wal_laws::decoded_record_is_canonical(body@);
}

/// A frame carries the record that it was made for, behind its length and its
/// CRC32.
#[verifier::rlimit(80)]
#[verifier::spinoff_prover]
pub proof fn encoded_frame_carries_its_record(
    record: WalRecord,
    body: Result<Vec<u8>>,
    out: Result<Vec<u8>>,
)
    requires
        call_ensures(wal::encode_record, (&record,), body),
        call_ensures(wal::encode_frame, (&record,), out),
    ensures
        out is Ok <==> record_size(record@) <= 0xFFFF_FFFF,
        out matches Err(e) ==> e is InvalidPayload,
        out matches Ok(frame) ==> {
            &&& wal_laws::carries(frame@, record@)
            &&& body is Ok
            &&& frame@.len() == 8 + record_size(record@)
            &&& bytes::le_value(frame@.subrange(0, 4)) == record_size(record@)
            &&& bytes::le_value(frame@.subrange(4, 8)) == checksum::crc32(body->Ok_0@)
            &&& frame@.skip(8) == body->Ok_0@
        },
{
    record_takes_its_size(record@);
    if let Ok(frame) = out {
        let run = wal::record_bytes(record@);
        wal_laws::frame_of_a_record_is_unique(frame@, record@);
        bytes::lemma_pow256_widths();
        bytes::lemma_le_bytes_len(run.len(), 4);
        bytes::lemma_le_bytes_len(checksum::crc32(run) as nat, 4);
        bytes::lemma_le_value_of_bytes(run.len(), 4);
        bytes::lemma_le_value_of_bytes(checksum::crc32(run) as nat, 4);
        assert(frame@.subrange(0, 4) =~= bytes::le_bytes(run.len(), 4));
        assert(frame@.subrange(4, 8) =~= bytes::le_bytes(checksum::crc32(run) as nat, 4));
        assert(frame@.skip(8) =~= run);
    }
}

/// The frames that were read with nothing left over are those of the records.
#[verifier::rlimit(80)]
#[verifier::spinoff_prover]
proof fn lemma_frames_are_canonical(input: Seq<u8>)
    ensures
        wal::parse_frames(input) matches Some((records, tail)) ==> {
            &&& input == wal::frames_bytes(records) + tail
            &&& wal::next_frame(tail) is None
            &&& forall|i: int|
                0 <= i < records.len() ==> wal::record_bytes(#[trigger] records[i]).len()
                    <= 0xFFFF_FFFF
        },
    decreases input.len(),
{
    if let Some((records, tail)) = wal::parse_frames(input) {
        if let Some((body, rest)) = wal::next_frame(input) {
            let record = wal::parse_record(body)->0;
            let (more, _) = wal::parse_frames(rest)->0;
            lemma_frames_are_canonical(rest);
            lemma_frame_in_front(input, body, rest);
            wal_laws::decoded_record_is_canonical(body);
            assert(records.drop_first() =~= more);
            assert(records[0] == record);
            bytes::lemma_concat(wal::frame_bytes(record), wal::frames_bytes(more), tail);
            assert forall|i: int| 0 <= i < records.len() implies wal::record_bytes(
                #[trigger] records[i],
            ).len() <= 0xFFFF_FFFF by {
                if i > 0 {
                    assert(records[i] == more[i - 1]);
                }
            }
        } else {
            assert(wal::frames_bytes(records) + tail =~= input);
        }
    }
}

/// A frame that is split off is the frame of its body.
proof fn lemma_frame_in_front(input: Seq<u8>, body: Seq<u8>, rest: Seq<u8>)
    requires
        wal::next_frame(input) == Some((body, rest)),
    ensures
        input == wal::framed(body) + rest,
        body.len() <= 0xFFFF_FFFF,
{
    let (len, after_len) = bytes::split_u32(input)->0;
    let (crc, after_crc) = bytes::split_u32(after_len)->0;
    bytes::lemma_words_are_canonical(input);
    bytes::lemma_words_are_canonical(after_len);
    bytes::lemma_run_is_canonical(after_crc, len as nat);
    let len_run = bytes::le_bytes(len as nat, 4);
    let crc_run = bytes::le_bytes(crc as nat, 4);
    bytes::lemma_concat(crc_run, body, rest);
    bytes::lemma_concat(len_run, crc_run + body, rest);
}

/// Reading a log that a frame was appended to gives one record more, the one
/// that the frame carries; what else follows, unless it is another whole frame,
/// is left out.
#[verifier::rlimit(80)]
#[verifier::spinoff_prover]
pub proof fn appended_frame_is_read(
    log: &[u8],
    before: WalContents,
    frame: Seq<u8>,
    record: WalRecordView,
    torn: Seq<u8>,
    longer: &[u8],
    out: Result<WalContents>,
)
    requires
        call_ensures(wal::parse_records, (log,), Ok(before)),
        log@.len() >= 12,
        before.committed == log@.len(),
        wal_laws::carries(frame, record),
        wal::next_frame(torn) is None,
        longer@ == log@ + frame + torn,
        call_ensures(wal::parse_records, (longer,), out),
    ensures
        out is Ok,
        wal::record_views(out->Ok_0.records@) == wal::record_views(before.records@).push(record),
        out->Ok_0.committed == log@.len() + frame.len(),
{
    let records = wal::record_views(before.records@);
    let all = records.push(record);
    lemma_log_is_canonical(log@, records);
    wal_laws::frame_of_a_record_is_unique(frame, record);
    wal_laws::appending_a_frame_adds_a_record(records, record);
    assert forall|i: int| 0 <= i < all.len() implies wal::record_bytes(#[trigger] all[i]).len()
        <= 0xFFFF_FFFF by {
        if i < records.len() {
            assert(all[i] == records[i]);
        }
    }
    wal_laws::torn_log_is_read(all, torn);
}

/// A log that was read to its end is that of its records.
#[verifier::rlimit(80)]
#[verifier::spinoff_prover]
proof fn lemma_log_is_canonical(log: Seq<u8>, records: Seq<WalRecordView>)
    requires
        log.len() >= 12,
        wal::parse_log(log) == Ok::<
            (Seq<WalRecordView>, nat),
            crate::error::PersistErrorView,
        >((records, log.len())),
    ensures
        log == wal::log_bytes(records),
        forall|i: int|
            0 <= i < records.len() ==> wal::record_bytes(#[trigger] records[i]).len()
                <= 0xFFFF_FFFF,
{
    let (_, tail) = wal::parse_frames(log.skip(12))->0;
    lemma_frames_are_canonical(log.skip(12));
    bytes::lemma_pow256_widths();
    bytes::lemma_le_bytes_len(wal::WAL_VERSION as nat, 4);
    bytes::lemma_le_value_of_bytes(wal::WAL_VERSION as nat, 4);
    bytes::lemma_le_value_injective(
        log.subrange(8, 12),
        bytes::le_bytes(wal::WAL_VERSION as nat, 4),
    );
    assert(tail =~= Seq::<u8>::empty());
    assert(wal::frames_bytes(records) + tail =~= wal::frames_bytes(records));
    assert(log =~= log.take(8) + log.subrange(8, 12) + log.skip(12));
    assert(log =~= wal::log_bytes(records));
}

/// What a fresh log is, what is read from it, and what is reported of something
/// else in its place.
pub proof fn start_of_a_log_is_checked(header: Vec<u8>, log: &[u8], out: Result<WalContents>)
    requires
        call_ensures(wal::log_header, (), header),
        call_ensures(wal::parse_records, (log,), out),
    ensures
        lifecycle_laws::is_empty_log(header@),
        log@ == header@ ==> out is Ok && out->Ok_0.records@.len() == 0 && out->Ok_0.committed == 12,
        log@.len() < 12 ==> out is Ok && out->Ok_0.records@.len() == 0 && out->Ok_0.committed == 0,
        log@.len() >= 12 && log@.subrange(0, 8) != header@.subrange(0, 8) ==> (out matches Err(
            PersistError::BadMagic { found },
        ) && found@ == log@.subrange(0, 8)),
        log@.len() >= 12 && log@.subrange(0, 8) == header@.subrange(0, 8) && bytes::le_value(
            log@.subrange(8, 12),
        ) != 1 ==> out == Err::<WalContents, PersistError>(
            PersistError::UnsupportedVersion {
                found: bytes::le_value(log@.subrange(8, 12)) as u32,
                supported: 1,
            },
        ),
{
    reveal_with_fuel(bytes::le_bytes, 5);
    let none = Seq::<WalRecordView>::empty();
    assert(header@ =~= seq![0x49u8, 0x51, 0x44, 0x42, 0x57, 0x41, 0x4C, 0x00, 1, 0, 0, 0]);
    assert(header@.subrange(0, 8) =~= wal::WAL_MAGIC@);
    assert(log@.len() >= 12 ==> log@.take(8) =~= log@.subrange(0, 8));
    wal_laws::log_round_trips(none);
    if let Ok(contents) = out {
        assert(wal::record_views(contents.records@).len() == contents.records@.len());
    }
}

/// A whole frame whose body does not decode makes the log unreadable, however
/// many records stand before it.
#[verifier::rlimit(80)]
#[verifier::spinoff_prover]
pub proof fn undecodable_frame_is_reported(
    records: Seq<WalRecordView>,
    body: Seq<u8>,
    frame: Seq<u8>,
    rest: Seq<u8>,
    log: &[u8],
    out: Result<WalContents>,
)
    requires
        forall|i: int|
            0 <= i < records.len() ==> wal::record_bytes(#[trigger] records[i]).len()
                <= 0xFFFF_FFFF,
        wal::next_frame(frame + rest) == Some((body, rest)),
        wal::parse_record(body) is None,
        log@ == wal::log_bytes(records) + (frame + rest),
        call_ensures(wal::parse_records, (log,), out),
    ensures
        is_invalid(out, "WAL record does not decode"),
{
    wal_laws::unreadable_tail_is_reported(records, frame + rest);
}

// ----------------------------------------------------------------------
// Payload regions
// ----------------------------------------------------------------------

/// The payload region of an uncompressed payload is a zero byte, the length of
/// the payload and the payload, however long it is; and it opens to the payload,
/// whatever codecs are switched on.
pub proof fn uncompressed_payload_is_stored_as_it_is(
    raw: &[u8],
    sealed: Result<Vec<u8>>,
    version: u32,
    region: &[u8],
    codecs: Codecs,
    opened: Result<Vec<u8>>,
)
    requires
        call_ensures(compression::seal_payload, (raw, Compression::Off), sealed),
        version >= 2,
        sealed is Ok ==> region@ == sealed->Ok_0@,
        call_ensures(compression::open_payload, (version, region, codecs), opened),
    ensures
        sealed is Ok,
        region@.len() == 9 + raw@.len(),
        region@[0] == 0,
        bytes::le_value(region@.subrange(1, 9)) == raw@.len(),
        region@.skip(9) == raw@,
        opened is Ok,
        opened->Ok_0@ == raw@,
{
    lemma_region(Compression::Off, raw@, region@);
    compression::payload_round_trips(version, Compression::Off, region@, raw@, codecs);
}

/// What a region starts with.
proof fn lemma_region(scheme: Compression, raw: Seq<u8>, region: Seq<u8>)
    requires
        compression::seals(scheme, region, raw),
    ensures
        region.len() >= 9,
        region[0] == lifecycle_laws::scheme_number(scheme),
        bytes::le_value(region.subrange(1, 9)) == raw.len(),
        scheme is Off ==> region.skip(9) == raw,
{
    let head = region.take(9);
    bytes::lemma_pow256_widths();
    bytes::lemma_le_bytes_len(raw.len(), 8);
    bytes::lemma_le_value_of_bytes(raw.len(), 8);
    assert(region[0] == head[0]);
    assert(region.subrange(1, 9) =~= head.subrange(1, 9));
    assert(head.subrange(1, 9) =~= bytes::le_bytes(raw.len(), 8));
}

/// What was sealed opens to the payload, under every scheme, if its codec is
/// switched on, and is refused if it is not.
pub proof fn sealed_payload_is_opened(
    raw: &[u8],
    scheme: Compression,
    sealed: Vec<u8>,
    version: u32,
    region: &[u8],
    codecs: Codecs,
    opened: Result<Vec<u8>>,
)
    requires
        call_ensures(compression::seal_payload, (raw, scheme), Ok(sealed)),
        version >= 2,
        region@ == sealed@,
        call_ensures(compression::open_payload, (version, region, codecs), opened),
    ensures
        sealed@[0] == lifecycle_laws::scheme_number(scheme),
        bytes::le_value(sealed@.subrange(1, 9)) == raw@.len(),
        match opened {
            Ok(payload) => lifecycle_laws::switched_on(codecs, scheme) && payload@ == raw@,
            Err(e) => !lifecycle_laws::switched_on(codecs, scheme)
                && lifecycle_laws::says_unsupported(e),
        },
{
    lemma_region(scheme, raw@, region@);
    if lifecycle_laws::switched_on(codecs, scheme) {
        compression::payload_round_trips(version, scheme, region@, raw@, codecs);
    } else {
        compression::switched_off_codec_is_reported(version, scheme, region@, raw@, codecs);
    }
}

/// Sealing a payload comes to what storing it may come to: the scheme's number,
/// the length of the payload and the stored form, or a refusal.
pub proof fn sealing_stores_the_payload(raw: &[u8], scheme: Compression, out: Result<Vec<u8>>)
    requires
        call_ensures(compression::seal_payload, (raw, scheme), out),
    ensures
        match out {
            Ok(region) => {
                &&& region@.len() >= 9
                &&& region@[0] == lifecycle_laws::scheme_number(scheme)
                &&& bytes::le_value(region@.subrange(1, 9)) == raw@.len()
                &&& lifecycle_laws::may_store(scheme, raw@, Some(region@.skip(9)))
            },
            Err(e) => e is Compression && lifecycle_laws::may_store(scheme, raw@, None),
        },
        scheme matches Compression::Zstd { level } && !(1 <= level <= 22) ==> (out matches Err(
            PersistError::Compression { reason },
        ) && reason@ == "zstd level is outside 1..=22"@),
{
    let outcome = match out {
        Ok(region) => Ok::<Seq<u8>, crate::error::PersistErrorView>(region@),
        Err(e) => Err(e@),
    };
    let form = lifecycle_laws::lemma_sealing(scheme, raw@, outcome);
    if let Ok(region) = out {
        bytes::lemma_le_bytes_len(raw@.len(), 8);
        lemma_region(scheme, raw@, region@);
        assert(region@.skip(9) =~= form->0);
    }
}

/// What opening a region comes to, by its version, its scheme byte and its
/// declared length.
#[verifier::rlimit(80)]
#[verifier::spinoff_prover]
pub proof fn region_is_opened_by_its_scheme(
    version: u32,
    region: &[u8],
    codecs: Codecs,
    out: Result<Vec<u8>>,
)
    requires
        call_ensures(compression::open_payload, (version, region, codecs), out),
    ensures
        ({
            let claimed = bytes::le_value(region@.subrange(1, 9));
            let stored = region@.skip(9);
            if version < 2 {
                out is Ok && out->Ok_0@ == region@
            } else if region@.len() < 9 {
                out matches Err(PersistError::TruncatedPayload { needed, found }) && needed == 9
                    && found == region@.len()
            } else if region@[0] == 0 {
                match out {
                    Ok(raw) => stored.len() == claimed && raw@ == stored,
                    Err(e) => {
                        ||| stored.len() < claimed && e == (PersistError::TruncatedPayload {
                            needed: claimed as u64,
                            found: stored.len() as u64,
                        })
                        ||| stored.len() > claimed && is_invalid(
                            out,
                            "payload is longer than its declared length",
                        )
                    },
                }
            } else if region@[0] > 2 {
                is_invalid(out, "unknown compression scheme tag")
            } else if (region@[0] == 1 && !codecs.zstd) || (region@[0] == 2 && !codecs.lz4) {
                out is Err && lifecycle_laws::says_unsupported(out->Err_0)
            } else if claimed > 65_536 * stored.len() || claimed > isize::MAX {
                is_invalid(out, "declared payload length is implausible")
            } else if region@[0] == 1 {
                match out {
                    Ok(raw) => compression::zstd_decompressed(stored, claimed) == Some(raw@)
                        && raw@.len() == claimed,
                    Err(e) => e is Compression && !(compression::zstd_decompressed(
                        stored,
                        claimed,
                    ) matches Some(raw) && raw.len() == claimed),
                }
            } else {
                match out {
                    Ok(raw) => compression::lz4_decompressed(stored, claimed) == Some(raw@)
                        && raw@.len() == claimed,
                    Err(e) => e is Compression && (compression::longest_ff(stored) <= 16_843_008
                        && claimed + 255 * compression::longest_ff(stored) + 273 <= usize::MAX
                        ==> !(compression::lz4_decompressed(stored, claimed) matches Some(raw)
                        && raw.len() == claimed)),
                }
            }
        }),
{
    if region@.len() >= 9 {
        bytes::lemma_pow256_widths();
        bytes::lemma_le_value_bound(region@.subrange(1, 9));
    }
}

// ----------------------------------------------------------------------
// Flushing and file names
// ----------------------------------------------------------------------

/// A snapshot is flushed unless the policy is never to flush; the log is flushed
/// always, never, or once the interval has passed since the last flush.
pub proof fn flushes_are_as_the_policy_says(
    policy: FsyncPolicy,
    since_last: Option<u128>,
    interval: u128,
    passed: bool,
    snapshot: bool,
    log: bool,
)
    requires
        call_ensures(crate::config::interval_passed, (since_last, interval), passed),
        call_ensures(FsyncPolicy::sync_snapshot, (policy,), snapshot),
        call_ensures(FsyncPolicy::sync_log, (policy, passed), log),
    ensures
        snapshot <==> policy !is Never,
        policy is Always ==> log,
        policy is Never ==> !log,
        policy is Periodic ==> (log <==> match since_last {
            Some(elapsed) => elapsed >= interval,
            None => true,
        }),
{
}

/// What comes next in an atomic write: the temporary file is flushed before the
/// rename unless the policy is never to flush, and so is the directory after it
/// where the platform can; nothing that fails leads to success, but for holding
/// the former target open.
pub proof fn next_step_is_as_the_policy_says(
    step: WriteStep,
    succeeded: bool,
    former: Former,
    policy: FsyncPolicy,
    dir_sync: bool,
    first: WriteStep,
    next: WriteStep,
)
    requires
        call_ensures(storage::first_step, (), first),
        call_ensures(storage::next_step, (step, succeeded, former, policy, dir_sync), next),
    ensures
        first is CreateTemp,
        succeeded && step is CreateTemp ==> next is WriteTemp,
        succeeded && step is WriteTemp ==> if policy is Never {
            next is Rename
        } else {
            next is SyncTemp
        },
        succeeded && step is SyncTemp && policy !is Never ==> if dir_sync {
            next is HoldFormer
        } else {
            next is Rename
        },
        step is HoldFormer ==> next is Rename,
        succeeded && step is Rename ==> if policy !is Never && dir_sync {
            next is SyncDir
        } else {
            next is Done
        },
        succeeded && step is SyncDir ==> next is Done,
        !succeeded && step !is HoldFormer && step !is Done ==> !storage::goes_well(next),
        !succeeded && (step is WriteTemp || step is SyncTemp || step is Rename) ==> next is RemoveTemp,
        !succeeded && step is SyncDir && former is Held ==> next is WriteFormer,
        !succeeded && step is SyncDir && former is Absent ==> next is RemoveTarget,
        succeeded && step is WriteFormer ==> next is PutBack,
        succeeded && (step is PutBack || step is RemoveTarget) ==> next is Failed,
        step is RemoveTemp ==> next is Failed,
{
}

/// The number that decimal digits spell.
pub open spec fn decimal_value(digits: Seq<char>) -> nat
    decreases digits.len(),
{
    if digits.len() == 0 {
        0
    } else {
        (10 * decimal_value(digits.drop_last()) + (digits.last() as int - '0' as int)) as nat
    }
}

/// Decimal digits spell the number that they were written for, and there are no
/// others among them and none to spare.
pub proof fn decimal_digits_spell_the_number(n: nat)
    ensures
        decimal_value(text::decimal(n)) == n,
        forall|i: int|
            0 <= i < text::decimal(n).len() ==> '0' <= #[trigger] text::decimal(n)[i] <= '9',
        text::decimal(n).len() > 1 ==> text::decimal(n)[0] != '0',
        text::decimal(n).len() >= 1,
    decreases n,
{
    reveal_with_fuel(decimal_value, 2);
    if n < 10 {
        assert(text::decimal(n).drop_last() =~= Seq::<char>::empty());
        assert(text::decimal(n)[0] == text::digit_char(n));
    } else {
        decimal_digits_spell_the_number(n / 10);
        let front = text::decimal(n / 10);
        assert(text::decimal(n).drop_last() =~= front);
        assert(text::decimal(n)[0] == front[0]);
        if front.len() == 1 {
            assert(n / 10 > 0);
            assert(decimal_value(front) == front[0] as int - '0' as int) by {
                assert(front.drop_last() =~= Seq::<char>::empty());
            }
        }
        assert forall|i: int| 0 <= i < text::decimal(n).len() implies '0' <= #[trigger] text::decimal(
            n,
        )[i] <= '9' by {
            if i < front.len() {
                assert(text::decimal(n)[i] == front[i]);
            }
        }
    }
}

/// A temporary file's name is the target's, `.tmp.`, the process and the time.
pub proof fn temp_name_is_made_of_its_parts(file_name: &str, pid: u32, nanos: u128, name: String)
    requires
        call_ensures(storage::temp_file_name, (file_name, pid, nanos), name),
    ensures
        name@ == file_name@ + ".tmp."@ + text::decimal(pid as nat) + "."@ + text::decimal(
            nanos as nat,
        ),
        name@ != file_name@,
{
    storage::temp_is_not_the_target(file_name@, pid, nanos);
}

} // verus!
