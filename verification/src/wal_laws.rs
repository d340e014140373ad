//! What holds of the log format as a whole.

use vstd::prelude::*;

use crate::bytes;
use crate::checksum;
use crate::error;
use crate::types::{EntryView, ValueView, VectorIdView};
use crate::wal;
use crate::wal::WalRecordView;

verus! {

/// An identifier is read back.
proof fn lemma_id(id: VectorIdView, rest: Seq<u8>)
    requires
        wal::id_bytes(id).len() <= u32::MAX,
    ensures
        wal::parse_id(wal::id_bytes(id) + rest) == Some((id, rest)),
{
    match id {
        VectorIdView::U64(n) => {
            let word = bytes::le_bytes(n as nat, 8);
            assert(wal::id_bytes(id) + rest =~= seq![0u8] + (word + rest));
            bytes::lemma_split_u8(0, word + rest);
            bytes::lemma_split_u64(n, rest);
        },
        VectorIdView::Bytes(run) => {
            let word = bytes::le_bytes(run.len(), 8);
            assert(wal::id_bytes(id) + rest =~= seq![1u8] + (word + (run + rest)));
            bytes::lemma_split_u8(1, word + (run + rest));
            bytes::lemma_split_u64(run.len() as u64, run + rest);
            bytes::lemma_split(run, rest);
        },
    }
}

/// A text is read back.
proof fn lemma_text(text: Seq<char>, rest: Seq<u8>)
    requires
        wal::text_bytes(text).len() <= u32::MAX,
    ensures
        wal::parse_text(wal::text_bytes(text) + rest) == Some((text, rest)),
{
    let run = vstd::utf8::encode_utf8(text);
    let word = bytes::le_bytes(run.len(), 4);
    assert(wal::text_bytes(text) + rest =~= word + (run + rest));
    bytes::lemma_split_u32(run.len() as u32, run + rest);
    bytes::lemma_split(run, rest);
    vstd::utf8::encode_utf8_valid_utf8(text);
    vstd::utf8::encode_utf8_decode_utf8(text);
}

/// A metadata value is read back.
proof fn lemma_value(value: ValueView, rest: Seq<u8>)
    requires
        wal::value_bytes(value).len() <= u32::MAX,
    ensures
        wal::parse_value(wal::value_bytes(value) + rest) == Some((value, rest)),
{
    match value {
        ValueView::String(text) => {
            assert(wal::value_bytes(value) + rest =~= seq![0u8] + (wal::text_bytes(text) + rest));
            bytes::lemma_split_u8(0, wal::text_bytes(text) + rest);
            lemma_text(text, rest);
        },
        ValueView::Int(n) => {
            let bits = bytes::bits_of_i64(n);
            let word = bytes::le_bytes(bits as nat, 8);
            assert(wal::value_bytes(value) + rest =~= seq![1u8] + (word + rest));
            bytes::lemma_split_u8(1, word + rest);
            bytes::lemma_split_u64(bits, rest);
        },
        ValueView::Float(bits) => {
            let word = bytes::le_bytes(bits as nat, 8);
            assert(wal::value_bytes(value) + rest =~= seq![2u8] + (word + rest));
            bytes::lemma_split_u8(2, word + rest);
            bytes::lemma_split_u64(bits, rest);
        },
        ValueView::Bool(b) => {
            let flag: u8 = if b {
                1
            } else {
                0
            };
            assert(wal::value_bytes(value) + rest =~= seq![3u8] + (seq![flag] + rest));
            bytes::lemma_split_u8(3, seq![flag] + rest);
            bytes::lemma_split_u8(flag, rest);
        },
        ValueView::Null => {
            bytes::lemma_split_u8(4, rest);
        },
    }
}

/// Metadata entries are read back.
proof fn lemma_entries(entries: Seq<EntryView>, rest: Seq<u8>)
    requires
        wal::entries_bytes(entries).len() <= u32::MAX,
    ensures
        wal::parse_entries(entries.len(), wal::entries_bytes(entries) + rest) == Some(
            (entries, rest),
        ),
    decreases entries.len(),
{
    if entries.len() == 0 {
        assert(wal::entries_bytes(entries) + rest =~= rest);
        assert(entries =~= Seq::<EntryView>::empty());
    } else {
        let first = entries[0];
        let more = entries.drop_first();
        let key = wal::text_bytes(first.key);
        let value = wal::value_bytes(first.value);
        let after = wal::entries_bytes(more) + rest;
        assert(wal::entries_bytes(entries) + rest =~= key + (value + after));
        lemma_text(first.key, value + after);
        lemma_value(first.value, after);
        lemma_entries(more, rest);
        assert(entries =~= seq![first] + more);
    }
}

/// Vector components are read back.
proof fn lemma_components(vector: Seq<u32>, rest: Seq<u8>)
    ensures
        wal::parse_components(vector.len(), wal::component_bytes(vector) + rest) == Some(
            (vector, rest),
        ),
    decreases vector.len(),
{
    if vector.len() == 0 {
        assert(wal::component_bytes(vector) + rest =~= rest);
        assert(vector =~= Seq::<u32>::empty());
    } else {
        let word = bytes::le_bytes(vector[0] as nat, 4);
        let more = vector.drop_first();
        let after = wal::component_bytes(more) + rest;
        assert(wal::component_bytes(vector) + rest =~= word + after);
        bytes::lemma_split_u32(vector[0], after);
        lemma_components(more, rest);
        assert(vector =~= seq![vector[0]] + more);
    }
}

/// Optional metadata is read back.
proof fn lemma_meta(meta: Option<Seq<EntryView>>, rest: Seq<u8>)
    requires
        wal::meta_bytes(meta).len() <= u32::MAX,
    ensures
        wal::parse_meta(wal::meta_bytes(meta) + rest) == Some((meta, rest)),
{
    match meta {
        None => {
            bytes::lemma_split_u8(0, rest);
        },
        Some(entries) => {
            let word = bytes::le_bytes(entries.len(), 4);
            let after = wal::entries_bytes(entries) + rest;
            assert(wal::meta_bytes(meta) + rest =~= seq![1u8] + (word + after));
            wal::lemma_entries_bytes_len(entries, entries.len() as int);
            bytes::lemma_split_u8(1, word + after);
            bytes::lemma_split_u32(entries.len() as u32, after);
            lemma_entries(entries, rest);
        },
    }
}

/// Decoding an encoded record gives the record back.
pub proof fn record_round_trips(record: WalRecordView)
    requires
        wal::record_bytes(record).len() <= 0xFFFF_FFFF,
    ensures
        wal::parse_record(wal::record_bytes(record)) == Some(record),
{
    let none = Seq::<u8>::empty();
    match record {
        WalRecordView::Insert { id, vector, meta } => {
            let word = bytes::le_bytes(vector.len(), 4);
            let after_vector = wal::meta_bytes(meta) + none;
            let after_len = wal::component_bytes(vector) + after_vector;
            let after_id = word + after_len;
            let after_op = wal::id_bytes(id) + after_id;
            assert(wal::record_bytes(record) =~= seq![1u8] + after_op);
            wal::lemma_component_bytes_len(vector);
            bytes::lemma_split_u8(1, after_op);
            lemma_id(id, after_id);
            bytes::lemma_split_u32(vector.len() as u32, after_len);
            lemma_components(vector, after_vector);
            lemma_meta(meta, none);
        },
        WalRecordView::Delete { id } => {
            assert(wal::record_bytes(record) =~= seq![2u8] + (wal::id_bytes(id) + none));
            bytes::lemma_split_u8(2, wal::id_bytes(id) + none);
            lemma_id(id, none);
        },
    }
}

/// What an identifier is read from is its encoding.
proof fn lemma_id_is_canonical(input: Seq<u8>)
    ensures
        wal::parse_id(input) matches Some((id, rest)) ==> input == wal::id_bytes(id) + rest,
{
    if let Some((id, rest)) = wal::parse_id(input) {
        let (kind, at_word) = bytes::split_u8(input)->0;
        let (n, at_run) = bytes::split_u64(at_word)->0;
        let word = bytes::le_bytes(n as nat, 8);
        bytes::lemma_words_are_canonical(input);
        bytes::lemma_words_are_canonical(at_word);
        assert(input == seq![kind] + (word + at_run));
        if kind == 0 {
            bytes::lemma_concat(seq![kind], word, rest);
        } else {
            let (run, _) = bytes::split_spec(at_run, n as nat)->0;
            bytes::lemma_run_is_canonical(at_run, n as nat);
            bytes::lemma_concat(seq![kind], word + run, rest);
            bytes::lemma_concat(word, run, rest);
        }
    }
}

/// What a text is read from is its encoding.
proof fn lemma_text_is_canonical(input: Seq<u8>)
    ensures
        wal::parse_text(input) matches Some((text, rest)) ==> input == wal::text_bytes(text) + rest,
{
    if let Some((text, rest)) = wal::parse_text(input) {
        let (len, at_run) = bytes::split_u32(input)->0;
        let (run, _) = bytes::split_spec(at_run, len as nat)->0;
        bytes::lemma_words_are_canonical(input);
        bytes::lemma_run_is_canonical(at_run, len as nat);
        vstd::utf8::decode_utf8_encode_utf8(run);
        bytes::lemma_concat(bytes::le_bytes(len as nat, 4), run, rest);
    }
}

/// What a metadata value is read from is its encoding.
proof fn lemma_value_is_canonical(input: Seq<u8>)
    ensures
        wal::parse_value(input) matches Some((value, rest)) ==> input == wal::value_bytes(value)
            + rest,
{
    if let Some((value, rest)) = wal::parse_value(input) {
        let (tag, after) = bytes::split_u8(input)->0;
        bytes::lemma_words_are_canonical(input);
        bytes::lemma_words_are_canonical(after);
        match value {
            ValueView::String(text) => {
                lemma_text_is_canonical(after);
                bytes::lemma_concat(seq![tag], wal::text_bytes(text), rest);
            },
            ValueView::Int(n) => {
                let word = bytes::le_bytes(bytes::bits_of_i64(n) as nat, 8);
                bytes::lemma_concat(seq![tag], word, rest);
            },
            ValueView::Float(bits) => {
                let word = bytes::le_bytes(bits as nat, 8);
                bytes::lemma_concat(seq![tag], word, rest);
            },
            ValueView::Bool(b) => {
                let flag: u8 = if b {
                    1
                } else {
                    0
                };
                bytes::lemma_concat(seq![tag], seq![flag], rest);
            },
            ValueView::Null => {},
        }
    }
}

/// What a metadata entry is read from is its encoding.
proof fn lemma_entry_is_canonical(input: Seq<u8>)
    ensures
        wal::parse_entry(input) matches Some((entry, rest)) ==> input == wal::entry_bytes(entry)
            + rest,
{
    if let Some((entry, rest)) = wal::parse_entry(input) {
        let (key, at_value) = wal::parse_text(input)->0;
        lemma_text_is_canonical(input);
        lemma_value_is_canonical(at_value);
        bytes::lemma_concat(wal::text_bytes(entry.key), wal::value_bytes(entry.value), rest);
    }
}

/// What metadata entries are read from is their encoding.
#[verifier::rlimit(40)]
proof fn lemma_entries_are_canonical(n: nat, input: Seq<u8>)
    ensures
        wal::parse_entries(n, input) matches Some((entries, rest)) ==> entries.len() == n && input
            == wal::entries_bytes(entries) + rest,
    decreases n,
{
    if let Some((entries, rest)) = wal::parse_entries(n, input) {
        if n == 0 {
            assert(input =~= wal::entries_bytes(entries) + rest);
        } else {
            let (entry, after) = wal::parse_entry(input)->0;
            let (more, _) = wal::parse_entries((n - 1) as nat, after)->0;
            lemma_entry_is_canonical(input);
            lemma_entries_are_canonical((n - 1) as nat, after);
            assert(entries.drop_first() =~= more);
            bytes::lemma_concat(wal::entry_bytes(entry), wal::entries_bytes(more), rest);
        }
    }
}

/// What vector components are read from is their encoding.
proof fn lemma_components_are_canonical(n: nat, input: Seq<u8>)
    ensures
        wal::parse_components(n, input) matches Some((vector, rest)) ==> vector.len() == n && input
            == wal::component_bytes(vector) + rest,
    decreases n,
{
    if let Some((vector, rest)) = wal::parse_components(n, input) {
        if n == 0 {
            assert(input =~= wal::component_bytes(vector) + rest);
        } else {
            let (component, after) = bytes::split_u32(input)->0;
            let (more, _) = wal::parse_components((n - 1) as nat, after)->0;
            bytes::lemma_words_are_canonical(input);
            lemma_components_are_canonical((n - 1) as nat, after);
            assert(vector.drop_first() =~= more);
            bytes::lemma_concat(
                bytes::le_bytes(component as nat, 4),
                wal::component_bytes(more),
                rest,
            );
        }
    }
}

/// What optional metadata is read from is its encoding.
#[verifier::rlimit(40)]
proof fn lemma_meta_is_canonical(input: Seq<u8>)
    ensures
        wal::parse_meta(input) matches Some((meta, rest)) ==> input == wal::meta_bytes(meta) + rest,
{
    if let Some((meta, rest)) = wal::parse_meta(input) {
        let (has_meta, after) = bytes::split_u8(input)->0;
        bytes::lemma_words_are_canonical(input);
        if has_meta == 1 {
            let (n, at_entries) = bytes::split_u32(after)->0;
            let (entries, _) = wal::parse_entries(n as nat, at_entries)->0;
            bytes::lemma_words_are_canonical(after);
            lemma_entries_are_canonical(n as nat, at_entries);
            let word = bytes::le_bytes(n as nat, 4);
            let run = wal::entries_bytes(entries);
            bytes::lemma_concat(seq![1u8], word + run, rest);
            bytes::lemma_concat(word, run, rest);
        }
    }
}

/// A record is spelled by exactly one byte string: bytes that decode are the
/// encoding of what they decode to.
pub proof fn decoded_record_is_canonical(body: Seq<u8>)
    ensures
        wal::parse_record(body) matches Some(record) ==> body == wal::record_bytes(record),
{
    if let Some(record) = wal::parse_record(body) {
        let (op, at_id) = bytes::split_u8(body)->0;
        let (id, after_id) = wal::parse_id(at_id)->0;
        let id_run = wal::id_bytes(id);
        bytes::lemma_words_are_canonical(body);
        lemma_id_is_canonical(at_id);
        if op == 1 {
            let (len, at_vector) = bytes::split_u32(after_id)->0;
            let (vector, at_meta) = wal::parse_components(len as nat, at_vector)->0;
            let (meta, rest) = wal::parse_meta(at_meta)->0;
            bytes::lemma_words_are_canonical(after_id);
            lemma_components_are_canonical(len as nat, at_vector);
            lemma_meta_is_canonical(at_meta);
            assert(wal::meta_bytes(meta) + rest =~= wal::meta_bytes(meta));
        } else {
            assert(id_run + after_id =~= id_run);
        }
    }
}

/// An intact frame is split off whole.
proof fn lemma_next_frame(body: Seq<u8>, rest: Seq<u8>)
    requires
        body.len() <= u32::MAX,
    ensures
        wal::next_frame(wal::framed(body) + rest) == Some((body, rest)),
        wal::framed(body).len() == 8 + body.len(),
{
    let len = bytes::le_bytes(body.len(), 4);
    let crc = bytes::le_bytes(checksum::crc32(body) as nat, 4);
    bytes::lemma_le_bytes_len(body.len(), 4);
    bytes::lemma_le_bytes_len(checksum::crc32(body) as nat, 4);
    assert(wal::framed(body) + rest =~= len + (crc + (body + rest)));
    bytes::lemma_split_u32(body.len() as u32, crc + (body + rest));
    bytes::lemma_split_u32(checksum::crc32(body), body + rest);
    bytes::lemma_split(body, rest);
}

/// Reading one whole frame in front of `after`.
#[verifier::rlimit(40)]
proof fn lemma_frame_then(record: WalRecordView, after: Seq<u8>)
    requires
        wal::record_bytes(record).len() <= 0xFFFF_FFFF,
    ensures
        wal::parse_frames(wal::frame_bytes(record) + after) == match wal::parse_frames(after) {
            None => None,
            Some((found, tail)) => Some((seq![record] + found, tail)),
        },
{
    lemma_next_frame(wal::record_bytes(record), after);
    record_round_trips(record);
}

/// Frames followed by something that is not an intact frame are read back, and
/// the rest is left as the tail.
#[verifier::rlimit(40)]
pub proof fn torn_tail_is_left_out(records: Seq<WalRecordView>, tail: Seq<u8>)
    requires
        forall|i: int| 0 <= i < records.len() ==> wal::record_bytes(#[trigger] records[i]).len() <= 0xFFFF_FFFF,
        wal::next_frame(tail) is None,
    ensures
        wal::parse_frames(wal::frames_bytes(records) + tail) == Some((records, tail)),
    decreases records.len(),
{
    if records.len() == 0 {
        assert(wal::frames_bytes(records) + tail =~= tail);
        assert(records =~= Seq::<WalRecordView>::empty());
    } else {
        let first = records[0];
        let more = records.drop_first();
        let after = wal::frames_bytes(more) + tail;
        bytes::lemma_concat(wal::frame_bytes(first), wal::frames_bytes(more), tail);
        assert forall|i: int| 0 <= i < more.len() implies wal::record_bytes(#[trigger] more[i]).len() <= 0xFFFF_FFFF by {
            assert(more[i] == records[i + 1]);
        }
        torn_tail_is_left_out(more, tail);
        lemma_frame_then(first, after);
        assert(records =~= seq![first] + more);
    }
}

/// The header of a log is recognised, whatever follows it.
proof fn lemma_log_header(frames: Seq<u8>)
    ensures
        ({
            let log = wal::log_header_bytes() + frames;
            &&& wal::log_header_bytes().len() == wal::WAL_HEADER_LEN
            &&& wal::parse_log(log) == match wal::parse_frames(frames) {
                None => Err::<(Seq<WalRecordView>, nat), error::PersistErrorView>(
                    error::invalid_payload("WAL record does not decode"),
                ),
                Some((records, tail)) => Ok((records, (log.len() - tail.len()) as nat)),
            }
        }),
{
    let log = wal::log_header_bytes() + frames;
    let word = bytes::le_bytes(wal::WAL_VERSION as nat, 4);
    bytes::lemma_le_bytes_len(wal::WAL_VERSION as nat, 4);
    bytes::lemma_pow256_widths();
    bytes::lemma_le_value_of_bytes(wal::WAL_VERSION as nat, 4);
    assert(log.take(8) =~= wal::WAL_MAGIC@);
    assert(log.subrange(8, 12) =~= word);
    assert(log.skip(12) =~= frames);
}

/// Reading a log gives back exactly the records it was made of.
pub proof fn log_round_trips(records: Seq<WalRecordView>)
    requires
        forall|i: int| 0 <= i < records.len() ==> wal::record_bytes(#[trigger] records[i]).len() <= 0xFFFF_FFFF,
    ensures
        wal::parse_log(wal::log_bytes(records)) == Ok::<
            (Seq<WalRecordView>, nat),
            error::PersistErrorView,
        >((records, wal::log_bytes(records).len())),
{
    let none = Seq::<u8>::empty();
    torn_tail_is_left_out(records, none);
    assert(wal::frames_bytes(records) + none =~= wal::frames_bytes(records));
    lemma_log_header(wal::frames_bytes(records));
}

/// Reading a log that something other than an intact frame follows gives back
/// exactly the records of the log.
#[verifier::rlimit(40)]
pub proof fn torn_log_is_read(records: Seq<WalRecordView>, torn: Seq<u8>)
    requires
        forall|i: int| 0 <= i < records.len() ==> wal::record_bytes(#[trigger] records[i]).len() <= 0xFFFF_FFFF,
        wal::next_frame(torn) is None,
    ensures
        wal::parse_log(wal::log_bytes(records) + torn) == Ok::<
            (Seq<WalRecordView>, nat),
            error::PersistErrorView,
        >((records, wal::log_bytes(records).len())),
        wal::log_bytes(records).len() >= wal::WAL_HEADER_LEN,
{
    torn_tail_is_left_out(records, torn);
    lemma_log_header(wal::frames_bytes(records) + torn);
    bytes::lemma_concat(wal::log_header_bytes(), wal::frames_bytes(records), torn);
}

/// Frames followed by a whole frame that does not decode are not read at all.
#[verifier::rlimit(40)]
pub proof fn unreadable_tail_is_reported(records: Seq<WalRecordView>, tail: Seq<u8>)
    requires
        forall|i: int|
            0 <= i < records.len() ==> wal::record_bytes(#[trigger] records[i]).len()
                <= 0xFFFF_FFFF,
        wal::next_frame(tail) matches Some((body, rest)) && wal::parse_record(body) is None,
    ensures
        wal::parse_frames(wal::frames_bytes(records) + tail) is None,
        wal::parse_log(wal::log_bytes(records) + tail) == Err::<
            (Seq<WalRecordView>, nat),
            error::PersistErrorView,
        >(error::invalid_payload("WAL record does not decode")),
    decreases records.len(),
{
    if records.len() == 0 {
        assert(wal::frames_bytes(records) + tail =~= tail);
    } else {
        let first = records[0];
        let more = records.drop_first();
        bytes::lemma_concat(wal::frame_bytes(first), wal::frames_bytes(more), tail);
        assert forall|i: int| 0 <= i < more.len() implies wal::record_bytes(
            #[trigger] more[i],
        ).len() <= 0xFFFF_FFFF by {
            assert(more[i] == records[i + 1]);
        }
        unreadable_tail_is_reported(more, tail);
        lemma_frame_then(first, wal::frames_bytes(more) + tail);
    }
    lemma_log_header(wal::frames_bytes(records) + tail);
    bytes::lemma_concat(wal::log_header_bytes(), wal::frames_bytes(records), tail);
}

/// The frames of records, from the front: one more record.
proof fn lemma_frames_push(records: Seq<WalRecordView>, record: WalRecordView)
    ensures
        wal::frames_bytes(records.push(record)) == wal::frames_bytes(records) + wal::frame_bytes(
            record,
        ),
    decreases records.len(),
{
    let all = records.push(record);
    if records.len() == 0 {
        reveal_with_fuel(wal::frames_bytes, 2);
        assert(all.drop_first() =~= Seq::<WalRecordView>::empty());
        assert(wal::frames_bytes(all) =~= wal::frame_bytes(record));
        assert(wal::frames_bytes(records) + wal::frame_bytes(record) =~= wal::frame_bytes(record));
    } else {
        assert(all.drop_first() =~= records.drop_first().push(record));
        lemma_frames_push(records.drop_first(), record);
        assert(wal::frames_bytes(all) =~= wal::frames_bytes(records) + wal::frame_bytes(record));
    }
}

/// Appending a record's frame to a log gives the log of one record more, and
/// cutting the log back to its former length takes the record out again.
pub proof fn appending_a_frame_adds_a_record(records: Seq<WalRecordView>, record: WalRecordView)
    ensures
        wal::log_bytes(records) + wal::frame_bytes(record) == wal::log_bytes(records.push(record)),
        wal::log_bytes(records.push(record)).take(wal::log_bytes(records).len() as int)
            == wal::log_bytes(records),
{
    lemma_frames_push(records, record);
    assert(wal::log_bytes(records) + wal::frame_bytes(record) =~= wal::log_bytes(
        records.push(record),
    ));
    assert(wal::log_bytes(records.push(record)).take(wal::log_bytes(records).len() as int)
        =~= wal::log_bytes(records));
}

/// A log starts with the log of its first records.
pub proof fn log_starts_with_its_first_records(records: Seq<WalRecordView>, k: int)
    requires
        0 <= k <= records.len(),
    ensures
        wal::log_bytes(records.take(k)).len() <= wal::log_bytes(records).len(),
        wal::log_bytes(records).take(wal::log_bytes(records.take(k)).len() as int)
            == wal::log_bytes(records.take(k)),
    decreases records.len(),
{
    if k == records.len() {
        assert(records.take(k) =~= records);
        assert(wal::log_bytes(records).take(wal::log_bytes(records).len() as int)
            =~= wal::log_bytes(records));
    } else {
        let front = records.drop_last();
        let last = records.last();
        let shorter = wal::log_bytes(records.take(k));
        assert(front.push(last) =~= records);
        assert(front.take(k) =~= records.take(k));
        appending_a_frame_adds_a_record(front, last);
        log_starts_with_its_first_records(front, k);
        assert((wal::log_bytes(front) + wal::frame_bytes(last)).take(shorter.len() as int)
            =~= wal::log_bytes(front).take(shorter.len() as int));
    }
}

/// A frame is whole exactly if as many bytes follow its length and its CRC32 as
/// the length says, and the CRC32 is theirs.
pub proof fn frame_is_whole_if_its_length_and_crc_hold(input: Seq<u8>)
    ensures
        ({
            let len = bytes::le_value(input.subrange(0, 4)) as int;
            let whole = input.len() >= 8 && input.len() >= 8 + len && bytes::le_value(
                input.subrange(4, 8),
            ) == checksum::crc32(input.subrange(8, 8 + len));
            wal::next_frame(input) == if whole {
                Some((input.subrange(8, 8 + len), input.skip(8 + len)))
            } else {
                None
            }
        }),
{
    if input.len() >= 8 {
        let len = bytes::le_value(input.subrange(0, 4)) as int;
        bytes::lemma_pow256_widths();
        bytes::lemma_le_value_bound(input.subrange(0, 4));
        bytes::lemma_le_value_bound(input.subrange(4, 8));
        assert(input.take(4) =~= input.subrange(0, 4));
        assert(input.skip(4).take(4) =~= input.subrange(4, 8));
        assert(input.skip(4).skip(4) =~= input.skip(8));
        if input.len() >= 8 + len {
            assert(input.skip(8).take(len) =~= input.subrange(8, 8 + len));
            assert(input.skip(8).skip(len) =~= input.skip(8 + len));
        }
    }
}

/// Whether `frame` is one whole frame that spells `record`: it is split off with
/// nothing left over, and its body decodes to the record.
pub open spec fn carries(frame: Seq<u8>, record: WalRecordView) -> bool {
    wal::next_frame(frame) matches Some((body, rest)) && rest.len() == 0 && wal::parse_record(body)
        == Some(record)
}

/// A record is carried by exactly one frame, the one that is written for it.
#[verifier::rlimit(80)]
#[verifier::spinoff_prover]
pub proof fn frame_of_a_record_is_unique(frame: Seq<u8>, record: WalRecordView)
    ensures
        carries(frame, record) <==> frame == wal::frame_bytes(record) && wal::record_bytes(
            record,
        ).len() <= 0xFFFF_FFFF,
{
    if carries(frame, record) {
        let (len, after_len) = bytes::split_u32(frame)->0;
        let (crc, after_crc) = bytes::split_u32(after_len)->0;
        let (body, rest) = wal::next_frame(frame)->0;
        decoded_record_is_canonical(body);
        bytes::lemma_words_are_canonical(frame);
        bytes::lemma_words_are_canonical(after_len);
        bytes::lemma_run_is_canonical(after_crc, len as nat);
        assert(body + rest =~= body);
    }
    if frame == wal::frame_bytes(record) && wal::record_bytes(record).len() <= 0xFFFF_FFFF {
        let none = Seq::<u8>::empty();
        lemma_next_frame(wal::record_bytes(record), none);
        assert(frame + none =~= frame);
        record_round_trips(record);
    }
}

/// How many of the leading frames of `records` lie wholly within `n` bytes.
pub open spec fn whole_frames(records: Seq<WalRecordView>, n: int) -> nat
    decreases records.len(),
{
    if records.len() == 0 || n < wal::frame_bytes(records[0]).len() {
        0
    } else {
        1 + whole_frames(records.drop_first(), n - wal::frame_bytes(records[0]).len())
    }
}

/// A frame that is cut short is not intact.
proof fn lemma_cut_frame(body: Seq<u8>, cut: int)
    requires
        body.len() <= u32::MAX,
        0 <= cut < wal::framed(body).len(),
    ensures
        wal::next_frame(wal::framed(body).take(cut)) is None,
{
    let len = bytes::le_bytes(body.len(), 4);
    let crc = bytes::le_bytes(checksum::crc32(body) as nat, 4);
    let frame = wal::framed(body);
    lemma_next_frame(body, Seq::empty());
    bytes::lemma_le_bytes_len(body.len(), 4);
    bytes::lemma_le_bytes_len(checksum::crc32(body) as nat, 4);
    if cut >= 4 {
        let rest = frame.take(cut).skip(4);
        assert(frame.take(cut) =~= len + rest);
        bytes::lemma_split_u32(body.len() as u32, rest);
        if cut >= 8 {
            let left = rest.skip(4);
            assert(rest =~= crc + left);
            bytes::lemma_split_u32(checksum::crc32(body), left);
        }
    }
}

/// The first records are the first one and the first of the rest.
proof fn lemma_take_first(records: Seq<WalRecordView>, k: int)
    requires
        1 <= k <= records.len(),
    ensures
        records.take(k) == seq![records[0]] + records.drop_first().take(k - 1),
        records.take(k).drop_first() == records.drop_first().take(k - 1),
{
    assert(records.take(k) =~= seq![records[0]] + records.drop_first().take(k - 1));
    assert(records.take(k).drop_first() =~= records.drop_first().take(k - 1));
}

/// A record's frame that is cut short is not intact.
pub proof fn cut_frame_is_not_intact(record: WalRecordView, cut: int)
    requires
        wal::record_bytes(record).len() <= 0xFFFF_FFFF,
        0 <= cut < wal::frame_bytes(record).len(),
    ensures
        wal::next_frame(wal::frame_bytes(record).take(cut)) is None,
{
    lemma_cut_frame(wal::record_bytes(record), cut);
}

/// Frames cut off after `n` bytes: what lies wholly within is read back.
#[verifier::rlimit(40)]
proof fn lemma_cut_frames(records: Seq<WalRecordView>, n: int)
    requires
        forall|i: int| 0 <= i < records.len() ==> wal::record_bytes(#[trigger] records[i]).len() <= 0xFFFF_FFFF,
        0 <= n <= wal::frames_bytes(records).len(),
    ensures
        ({
            let k = whole_frames(records, n);
            &&& k <= records.len()
            &&& wal::frames_bytes(records.take(k as int)).len() <= n
            &&& wal::parse_frames(wal::frames_bytes(records).take(n)) matches Some((found, tail))
            &&& found == records.take(k as int)
            &&& tail.len() == n - wal::frames_bytes(records.take(k as int)).len()
        }),
    decreases records.len(),
{
    let input = wal::frames_bytes(records).take(n);
    let k = whole_frames(records, n);
    if records.len() == 0 {
        assert(input =~= Seq::<u8>::empty());
        assert(records.take(0) =~= Seq::<WalRecordView>::empty());
    } else {
        let first = records[0];
        let frame = wal::frame_bytes(first);
        let more = records.drop_first();
        if n < frame.len() {
            bytes::lemma_cut_first(frame, wal::frames_bytes(more), n);
            cut_frame_is_not_intact(first, n);
            assert(records.take(0) =~= Seq::<WalRecordView>::empty());
        } else {
            assert forall|i: int| 0 <= i < more.len() implies wal::record_bytes(#[trigger] more[i]).len() <= 0xFFFF_FFFF by {
                assert(more[i] == records[i + 1]);
            }
            let left = n - frame.len();
            let after = wal::frames_bytes(more).take(left);
            lemma_cut_frames(more, left);
            bytes::lemma_cut_concat(frame, wal::frames_bytes(more), n);
            lemma_frame_then(first, after);
            lemma_take_first(records, k as int);
        }
    }
}

/// A log that was cut off anywhere is read without an error, and gives back
/// exactly the records whose frames are whole.
#[verifier::rlimit(80)]
#[verifier::spinoff_prover]
pub proof fn truncated_log_keeps_whole_records(records: Seq<WalRecordView>, cut: int)
    requires
        forall|i: int| 0 <= i < records.len() ==> wal::record_bytes(#[trigger] records[i]).len() <= 0xFFFF_FFFF,
        0 <= cut <= wal::log_bytes(records).len(),
    ensures
        ({
            let k = whole_frames(records, cut - wal::WAL_HEADER_LEN);
            let kept = if cut < wal::WAL_HEADER_LEN {
                Seq::empty()
            } else {
                records.take(k as int)
            };
            &&& k <= records.len()
            &&& cut >= wal::WAL_HEADER_LEN ==> wal::WAL_HEADER_LEN <= wal::log_bytes(kept).len()
                <= cut
            &&& wal::parse_log(wal::log_bytes(records).take(cut)) == Ok::<
                (Seq<WalRecordView>, nat),
                error::PersistErrorView,
            >(
                (
                    kept,
                    if cut < wal::WAL_HEADER_LEN {
                        0
                    } else {
                        wal::log_bytes(kept).len()
                    },
                ),
            )
        }),
{
    lemma_log_header(wal::frames_bytes(records));
    if cut < wal::WAL_HEADER_LEN {
        lemma_no_whole_frames(records, cut - wal::WAL_HEADER_LEN);
    } else {
        let n = cut - wal::WAL_HEADER_LEN;
        lemma_cut_frames(records, n);
        let frames = wal::frames_bytes(records).take(n);
        assert(wal::log_bytes(records).take(cut) =~= wal::log_header_bytes() + frames);
        lemma_log_header(frames);
    }
}

/// No frame lies within a negative number of bytes.
proof fn lemma_no_whole_frames(records: Seq<WalRecordView>, n: int)
    requires
        n < 0,
    ensures
        whole_frames(records, n) == 0,
{
}

/// A frame in which one byte of the checksum or of the record was changed is
/// not intact, whatever the change and whatever follows.
#[verifier::rlimit(40)]
proof fn lemma_damaged_frame(body: Seq<u8>, damaged: Seq<u8>, at: int, rest: Seq<u8>)
    requires
        body.len() <= u32::MAX,
        checksum::differ_at(wal::framed(body), damaged, at),
        4 <= at,
    ensures
        wal::next_frame(damaged + rest) is None,
{
    let len = bytes::le_bytes(body.len(), 4);
    let crc = bytes::le_bytes(checksum::crc32(body) as nat, 4);
    lemma_next_frame(body, Seq::empty());
    bytes::lemma_le_bytes_len(body.len(), 4);
    bytes::lemma_le_bytes_len(checksum::crc32(body) as nat, 4);
    bytes::lemma_pow256_widths();
    let frame = wal::framed(body);
    let found_crc = damaged.subrange(4, 8);
    let found_body = damaged.skip(8);
    assert(damaged + rest =~= len + (found_crc + (found_body + rest))) by {
        assert forall|i: int| 0 <= i < 4 implies damaged[i] == len[i] by {
            assert(frame[i] == len[i]);
        }
    }
    bytes::lemma_split_u32(body.len() as u32, found_crc + (found_body + rest));
    let input = found_crc + (found_body + rest);
    assert(input.take(4) =~= found_crc);
    assert(input.skip(4) =~= found_body + rest);
    bytes::lemma_split(found_body, rest);
    bytes::lemma_le_value_bound(found_crc);
    bytes::lemma_le_value_of_bytes(checksum::crc32(body) as nat, 4);
    if at < 8 {
        assert(found_body =~= body) by {
            assert forall|i: int| 0 <= i < body.len() implies found_body[i] == body[i] by {
                assert(frame[i + 8] == body[i]);
            }
        }
        assert(found_crc[at - 4] != crc[at - 4]) by {
            assert(frame[at] == crc[at - 4]);
        }
        if bytes::le_value(found_crc) == bytes::le_value(crc) {
            bytes::lemma_le_value_injective(found_crc, crc);
        }
    } else {
        assert(found_crc =~= crc) by {
            assert forall|i: int| 0 <= i < 4 implies found_crc[i] == crc[i] by {
                assert(frame[i + 4] == crc[i]);
            }
        }
        assert forall|i: int| 0 <= i < body.len() implies frame[i + 8] == body[i] by {}
        assert(checksum::differ_at(body, found_body, at - 8)) by {
            assert forall|j: int| 0 <= j < body.len() && j != at - 8 implies body[j]
                == found_body[j] by {
                assert(frame[j + 8] == damaged[j + 8]);
            }
        }
        checksum::single_byte_change_changes_crc(body, found_body, at - 8);
    }
}

/// Replay stops at a frame in which one byte of the checksum or of the record
/// was changed: exactly the records before it are read, whatever follows it.
pub proof fn damaged_frame_stops_replay(
    before: Seq<WalRecordView>,
    record: WalRecordView,
    damaged: Seq<u8>,
    at: int,
    after: Seq<u8>,
)
    requires
        forall|i: int| 0 <= i < before.len() ==> wal::record_bytes(#[trigger] before[i]).len() <= 0xFFFF_FFFF,
        wal::record_bytes(record).len() <= 0xFFFF_FFFF,
        checksum::differ_at(wal::frame_bytes(record), damaged, at),
        4 <= at,
    ensures
        wal::parse_log(wal::log_bytes(before) + (damaged + after)) == Ok::<
            (Seq<WalRecordView>, nat),
            error::PersistErrorView,
        >((before, wal::log_bytes(before).len())),
{
    lemma_damaged_frame(wal::record_bytes(record), damaged, at, after);
    torn_log_is_read(before, damaged + after);
}

} // verus!
