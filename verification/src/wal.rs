//! The write-ahead log: records, frames and the log file.
//!
//! The log is a 12-byte header followed by self-checked frames:
//!
//! ```text
//! header:    8  magic ("IQDBWAL\0")  +  4  version (u32)
//! frame:     4  record length L (u32)
//!            4  crc32 of the record (u32)
//!            L  record
//! record:    op (u8)  1 = insert | 2 = delete
//!   insert:  vector_id, vec_len (u32), vec_len x f32 bits (u32),
//!            has_meta (u8), [n_entries (u32), (key, value)...]
//!   delete:  vector_id
//! vector_id: kind (u8) 0 U64 (u64) | 1 Bytes (len u64 + bytes)
//! key:       len (u32) + UTF-8
//! value:     tag (u8) 0 String (len u32 + UTF-8) | 1 Int (i64)
//!            | 2 Float (f64 bits) | 3 Bool (u8) | 4 Null
//! ```
//!
//! All numbers are little-endian.

use vstd::prelude::*;
use vstd::slice::{slice_subrange, slice_to_vec};

use crate::bytes;
use crate::checksum;
use crate::error;
use crate::error::{PersistError, Result};
use crate::types;
use crate::types::{Entry, EntryView, Metadata, Value, ValueView, VectorId, VectorIdView};

verus! {

/// Magic bytes that prefix every log: `IQDBWAL` and a zero byte.
pub const WAL_MAGIC: [u8; 8] = [0x49, 0x51, 0x44, 0x42, 0x57, 0x41, 0x4C, 0x00];

/// The log format version this build reads and writes.
pub const WAL_VERSION: u32 = 1;

/// The length of the log header.
pub const WAL_HEADER_LEN: usize = 12;

/// What is appended to the snapshot's path to name its log.
pub const WAL_SUFFIX: &'static str = ".wal";

/// One logged mutation.
#[derive(Debug, Clone, PartialEq, Eq)]
pub enum WalRecord {
    /// A vector was inserted.
    Insert {
        /// The vector's identifier.
        id: VectorId,
        /// The vector's components, as `f32` bits.
        vector: Vec<u32>,
        /// The metadata, if any.
        meta: Option<Metadata>,
    },
    /// A vector was deleted.
    Delete {
        /// The vector's identifier.
        id: VectorId,
    },
}

/// What a [`WalRecord`] says, mathematically.
#[verifier::ext_equal]
pub enum WalRecordView {
    /// A vector was inserted.
    Insert {
        /// The vector's identifier.
        id: VectorIdView,
        /// The vector's components, as `f32` bits.
        vector: Seq<u32>,
        /// The metadata, if any.
        meta: Option<Seq<EntryView>>,
    },
    /// A vector was deleted.
    Delete {
        /// The vector's identifier.
        id: VectorIdView,
    },
}

impl View for WalRecord {
    type V = WalRecordView;

    open spec fn view(&self) -> WalRecordView {
        match *self {
            WalRecord::Insert { id, vector, meta } => WalRecordView::Insert {
                id: id@,
                vector: vector@,
                meta: types::meta_view(meta),
            },
            WalRecord::Delete { id } => WalRecordView::Delete { id: id@ },
        }
    }
}

/// What the records of `records` say.
pub open spec fn record_views(records: Seq<WalRecord>) -> Seq<WalRecordView> {
    records.map_values(|record: WalRecord| record@)
}

// ----------------------------------------------------------------------
// Encoding
// ----------------------------------------------------------------------

/// The encoding of an identifier.
pub open spec fn id_bytes(id: VectorIdView) -> Seq<u8> {
    match id {
        VectorIdView::U64(n) => seq![0u8] + bytes::le_bytes(n as nat, 8),
        VectorIdView::Bytes(run) => seq![1u8] + (bytes::le_bytes(run.len(), 8) + run),
    }
}

/// The encoding of a length-prefixed text.
pub open spec fn text_bytes(text: Seq<char>) -> Seq<u8> {
    let run = vstd::utf8::encode_utf8(text);
    bytes::le_bytes(run.len(), 4) + run
}

/// The encoding of a metadata value.
pub open spec fn value_bytes(value: ValueView) -> Seq<u8> {
    match value {
        ValueView::String(text) => seq![0u8] + text_bytes(text),
        ValueView::Int(n) => seq![1u8] + bytes::le_bytes(bytes::bits_of_i64(n) as nat, 8),
        ValueView::Float(bits) => seq![2u8] + bytes::le_bytes(bits as nat, 8),
        ValueView::Bool(b) => seq![3u8] + seq![if b { 1u8 } else { 0u8 }],
        ValueView::Null => seq![4u8],
    }
}

/// The encoding of a metadata entry.
pub open spec fn entry_bytes(entry: EntryView) -> Seq<u8> {
    text_bytes(entry.key) + value_bytes(entry.value)
}

/// The encodings of metadata entries, one after the other.
pub open spec fn entries_bytes(entries: Seq<EntryView>) -> Seq<u8>
    decreases entries.len(),
{
    if entries.len() == 0 {
        Seq::empty()
    } else {
        entry_bytes(entries[0]) + entries_bytes(entries.drop_first())
    }
}

/// The encoding of optional metadata.
pub open spec fn meta_bytes(meta: Option<Seq<EntryView>>) -> Seq<u8> {
    match meta {
        None => seq![0u8],
        Some(entries) => seq![1u8] + (bytes::le_bytes(entries.len(), 4) + entries_bytes(entries)),
    }
}

/// The encodings of vector components, one after the other.
pub open spec fn component_bytes(vector: Seq<u32>) -> Seq<u8>
    decreases vector.len(),
{
    if vector.len() == 0 {
        Seq::empty()
    } else {
        bytes::le_bytes(vector[0] as nat, 4) + component_bytes(vector.drop_first())
    }
}

/// The encoding of a record.
pub open spec fn record_bytes(record: WalRecordView) -> Seq<u8> {
    match record {
        WalRecordView::Insert { id, vector, meta } => seq![1u8] + (id_bytes(id) + (bytes::le_bytes(
            vector.len(),
            4,
        ) + (component_bytes(vector) + meta_bytes(meta)))),
        WalRecordView::Delete { id } => seq![2u8] + id_bytes(id),
    }
}

/// Whether a record is short enough for a frame.
pub open spec fn fits_frame(record: WalRecordView) -> bool {
    record_bytes(record).len() <= u32::MAX
}

/// What is reported for a record that is too long for a frame.
pub open spec fn too_long(record: WalRecordView) -> error::PersistErrorView {
    match record {
        WalRecordView::Insert { vector, .. } => if vector.len() > u32::MAX {
            error::invalid_payload("WAL insert vector length does not fit in u32")
        } else {
            error::invalid_payload("WAL record length does not fit in u32")
        },
        WalRecordView::Delete { .. } => error::invalid_payload(
            "WAL record length does not fit in u32",
        ),
    }
}

/// The frame around an encoded record.
pub open spec fn framed(body: Seq<u8>) -> Seq<u8> {
    bytes::le_bytes(body.len(), 4) + (bytes::le_bytes(checksum::crc32(body) as nat, 4) + body)
}

/// The frame of a record.
pub open spec fn frame_bytes(record: WalRecordView) -> Seq<u8> {
    framed(record_bytes(record))
}

/// The frames of records, one after the other.
pub open spec fn frames_bytes(records: Seq<WalRecordView>) -> Seq<u8>
    decreases records.len(),
{
    if records.len() == 0 {
        Seq::empty()
    } else {
        frame_bytes(records[0]) + frames_bytes(records.drop_first())
    }
}

/// The bytes of the log header.
pub open spec fn log_header_bytes() -> Seq<u8> {
    WAL_MAGIC@ + bytes::le_bytes(WAL_VERSION as nat, 4)
}

/// The bytes of a log that holds exactly `records`.
pub open spec fn log_bytes(records: Seq<WalRecordView>) -> Seq<u8> {
    log_header_bytes() + frames_bytes(records)
}

// ----------------------------------------------------------------------
// Decoding
// ----------------------------------------------------------------------

/// Reading an identifier.
pub open spec fn parse_id(input: Seq<u8>) -> Option<(VectorIdView, Seq<u8>)> {
    match bytes::split_u8(input) {
        None => None,
        Some((kind, rest)) => match bytes::split_u64(rest) {
            None => None,
            Some((n, rest)) => if kind == 0 {
                Some((VectorIdView::U64(n), rest))
            } else if kind == 1 {
                match bytes::split_spec(rest, n as nat) {
                    None => None,
                    Some((run, rest)) => Some((VectorIdView::Bytes(run), rest)),
                }
            } else {
                None
            },
        },
    }
}

/// Reading a length-prefixed text.
pub open spec fn parse_text(input: Seq<u8>) -> Option<(Seq<char>, Seq<u8>)> {
    match bytes::split_u32(input) {
        None => None,
        Some((len, rest)) => match bytes::split_spec(rest, len as nat) {
            None => None,
            Some((run, rest)) => if vstd::utf8::valid_utf8(run) {
                Some((vstd::utf8::decode_utf8(run), rest))
            } else {
                None
            },
        },
    }
}

/// Reading a metadata value.
pub open spec fn parse_value(input: Seq<u8>) -> Option<(ValueView, Seq<u8>)> {
    match bytes::split_u8(input) {
        None => None,
        Some((tag, rest)) => if tag == 0 {
            match parse_text(rest) {
                None => None,
                Some((text, rest)) => Some((ValueView::String(text), rest)),
            }
        } else if tag == 1 {
            match bytes::split_u64(rest) {
                None => None,
                Some((bits, rest)) => Some((ValueView::Int(bytes::i64_of_bits(bits)), rest)),
            }
        } else if tag == 2 {
            match bytes::split_u64(rest) {
                None => None,
                Some((bits, rest)) => Some((ValueView::Float(bits), rest)),
            }
        } else if tag == 3 {
            match bytes::split_u8(rest) {
                None => None,
                Some((flag, rest)) => if flag <= 1 {
                    Some((ValueView::Bool(flag == 1), rest))
                } else {
                    None
                },
            }
        } else if tag == 4 {
            Some((ValueView::Null, rest))
        } else {
            None
        },
    }
}

/// Reading a metadata entry.
pub open spec fn parse_entry(input: Seq<u8>) -> Option<(EntryView, Seq<u8>)> {
    match parse_text(input) {
        None => None,
        Some((key, rest)) => match parse_value(rest) {
            None => None,
            Some((value, rest)) => Some((EntryView { key, value }, rest)),
        },
    }
}

/// Reading `n` metadata entries.
pub open spec fn parse_entries(n: nat, input: Seq<u8>) -> Option<(Seq<EntryView>, Seq<u8>)>
    decreases n,
{
    if n == 0 {
        Some((Seq::empty(), input))
    } else {
        match parse_entry(input) {
            None => None,
            Some((entry, rest)) => match parse_entries((n - 1) as nat, rest) {
                None => None,
                Some((entries, rest)) => Some((seq![entry] + entries, rest)),
            },
        }
    }
}

/// Reading optional metadata.
pub open spec fn parse_meta(input: Seq<u8>) -> Option<(Option<Seq<EntryView>>, Seq<u8>)> {
    match bytes::split_u8(input) {
        None => None,
        Some((has_meta, rest)) => if has_meta == 0 {
            Some((None, rest))
        } else if has_meta == 1 {
            match bytes::split_u32(rest) {
                None => None,
                Some((n, rest)) => match parse_entries(n as nat, rest) {
                    None => None,
                    Some((entries, rest)) => Some((Some(entries), rest)),
                },
            }
        } else {
            None
        },
    }
}

/// Reading `n` vector components.
pub open spec fn parse_components(n: nat, input: Seq<u8>) -> Option<(Seq<u32>, Seq<u8>)>
    decreases n,
{
    if n == 0 {
        Some((Seq::empty(), input))
    } else {
        match bytes::split_u32(input) {
            None => None,
            Some((component, rest)) => match parse_components((n - 1) as nat, rest) {
                None => None,
                Some((vector, rest)) => Some((seq![component] + vector, rest)),
            },
        }
    }
}

/// Reading the fields of an insert that follow the op.
pub open spec fn parse_insert(input: Seq<u8>) -> Option<(WalRecordView, Seq<u8>)> {
    match parse_id(input) {
        None => None,
        Some((id, rest)) => match bytes::split_u32(rest) {
            None => None,
            Some((len, rest)) => match parse_components(len as nat, rest) {
                None => None,
                Some((vector, rest)) => match parse_meta(rest) {
                    None => None,
                    Some((meta, rest)) => Some((WalRecordView::Insert { id, vector, meta }, rest)),
                },
            },
        },
    }
}

/// The record that `body` encodes, if it encodes one. Nothing may follow it.
pub open spec fn parse_record(body: Seq<u8>) -> Option<WalRecordView> {
    match bytes::split_u8(body) {
        None => None,
        Some((op, rest)) => if op == 1 {
            match parse_insert(rest) {
                None => None,
                Some((record, rest)) => if rest.len() == 0 {
                    Some(record)
                } else {
                    None
                },
            }
        } else if op == 2 {
            match parse_id(rest) {
                None => None,
                Some((id, rest)) => if rest.len() == 0 {
                    Some(WalRecordView::Delete { id })
                } else {
                    None
                },
            }
        } else {
            None
        },
    }
}

/// The body of the intact frame at the front of `input`, and what follows the
/// frame. A frame that is cut short or fails its checksum is not intact.
pub open spec fn next_frame(input: Seq<u8>) -> Option<(Seq<u8>, Seq<u8>)> {
    match bytes::split_u32(input) {
        None => None,
        Some((len, rest)) => match bytes::split_u32(rest) {
            None => None,
            Some((crc, rest)) => match bytes::split_spec(rest, len as nat) {
                None => None,
                Some((body, rest)) => if checksum::crc32(body) == crc {
                    Some((body, rest))
                } else {
                    None
                },
            },
        },
    }
}

/// The records of the intact frames at the front of `input`, and the tail that
/// follows the last of them. There are none if an intact frame does not decode.
pub open spec fn parse_frames(input: Seq<u8>) -> Option<(Seq<WalRecordView>, Seq<u8>)>
    decreases input.len(),
{
    match next_frame(input) {
        None => Some((Seq::empty(), input)),
        Some((body, rest)) => if rest.len() < input.len() {
            match parse_record(body) {
                None => None,
                Some(record) => match parse_frames(rest) {
                    None => None,
                    Some((records, tail)) => Some((seq![record] + records, tail)),
                },
            }
        } else {
            None
        },
    }
}

/// Reading a log: its committed records and the length of the log up to the
/// end of the last of them, or why the log is not one.
///
/// A log too short for its header holds nothing yet. A torn tail is left out.
pub open spec fn parse_log(input: Seq<u8>) -> core::result::Result<
    (Seq<WalRecordView>, nat),
    error::PersistErrorView,
> {
    if input.len() < WAL_HEADER_LEN {
        Ok((Seq::empty(), 0))
    } else if input.take(8) != WAL_MAGIC@ {
        Err(error::PersistErrorView::BadMagic { found: input.take(8) })
    } else if bytes::le_value(input.subrange(8, 12)) != WAL_VERSION {
        Err(
            error::PersistErrorView::UnsupportedVersion {
                found: bytes::le_value(input.subrange(8, 12)) as u32,
                supported: WAL_VERSION,
            },
        )
    } else {
        match parse_frames(input.skip(12)) {
            None => Err(error::invalid_payload("WAL record does not decode")),
            Some((records, tail)) => Ok((records, (input.len() - tail.len()) as nat)),
        }
    }
}

// ----------------------------------------------------------------------
// Encoding functions
// ----------------------------------------------------------------------

/// Appends the encoding of an identifier.
fn put_id(out: &mut Vec<u8>, id: &VectorId)
    ensures
        final(out)@ == old(out)@ + id_bytes(id@),
{
    match id {
        VectorId::U64(n) => {
            bytes::put_u8(out, 0);
            bytes::put_u64(out, *n);
        },
        VectorId::Bytes(run) => {
            bytes::put_u8(out, 1);
            bytes::put_u64(out, run.len() as u64);
            bytes::put_bytes(out, run.as_slice());
        },
    }
    assert(out@ =~= old(out)@ + id_bytes(id@));
}

/// Appends the encoding of a text, if its length fits its prefix.
fn put_text(out: &mut Vec<u8>, text: &String) -> (fits: bool)
    ensures
        fits == (vstd::utf8::encode_utf8(text@).len() <= u32::MAX),
        fits ==> final(out)@ == old(out)@ + text_bytes(text@),
{
    let run = text.as_str().as_bytes();
    if run.len() as u64 > u32::MAX as u64 {
        return false;
    }
    bytes::put_u32(out, run.len() as u32);
    bytes::put_bytes(out, run);
    assert(out@ =~= old(out)@ + text_bytes(text@));
    true
}

/// Appends the encoding of a value, if every length in it fits its prefix.
fn put_value(out: &mut Vec<u8>, value: &Value) -> (fits: bool)
    ensures
        fits ==> final(out)@ == old(out)@ + value_bytes(value@),
        !fits ==> value_bytes(value@).len() > u32::MAX,
{
    match value {
        Value::String(text) => {
            bytes::put_u8(out, 0);
            if !put_text(out, text) {
                return false;
            }
        },
        Value::Int(n) => {
            bytes::put_u8(out, 1);
            bytes::put_u64(out, bytes::i64_to_bits(*n));
        },
        Value::Float(bits) => {
            bytes::put_u8(out, 2);
            bytes::put_u64(out, *bits);
        },
        Value::Bool(b) => {
            bytes::put_u8(out, 3);
            bytes::put_u8(out, if *b { 1 } else { 0 });
        },
        Value::Null => {
            bytes::put_u8(out, 4);
        },
    }
    assert(out@ =~= old(out)@ + value_bytes(value@));
    true
}

/// The encoding of entries, from the front: one more entry.
proof fn lemma_entries_bytes_push(entries: Seq<EntryView>, entry: EntryView)
    ensures
        entries_bytes(entries.push(entry)) == entries_bytes(entries) + entry_bytes(entry),
    decreases entries.len(),
{
    let all = entries.push(entry);
    if entries.len() == 0 {
        reveal_with_fuel(entries_bytes, 2);
        assert(all.drop_first() =~= Seq::<EntryView>::empty());
        assert(entries_bytes(all) =~= entry_bytes(entry));
        assert(entries_bytes(entries) + entry_bytes(entry) =~= entry_bytes(entry));
    } else {
        assert(all.drop_first() =~= entries.drop_first().push(entry));
        lemma_entries_bytes_push(entries.drop_first(), entry);
        assert(entries_bytes(all) =~= entries_bytes(entries) + entry_bytes(entry));
    }
}

/// More entries take no fewer bytes, and each takes at least five.
pub proof fn lemma_entries_bytes_len(entries: Seq<EntryView>, n: int)
    requires
        0 <= n <= entries.len(),
    ensures
        entries_bytes(entries.take(n)).len() <= entries_bytes(entries).len(),
        5 * entries.len() <= entries_bytes(entries).len(),
    decreases entries.len(),
{
    if entries.len() > 0 {
        let last = entries.last();
        let front = entries.drop_last();
        assert(front.push(last) =~= entries);
        lemma_entries_bytes_push(front, last);
        bytes::lemma_le_bytes_len(vstd::utf8::encode_utf8(last.key).len(), 4);
        assert(value_bytes(last.value).len() >= 1);
        if n == entries.len() {
            assert(entries.take(n) =~= entries);
            lemma_entries_bytes_len(front, front.len() as int);
        } else {
            assert(entries.take(n) =~= front.take(n));
            lemma_entries_bytes_len(front, n);
        }
    }
}

/// Appends the encodings of entries, if every length in them fits its prefix.
fn put_entries(out: &mut Vec<u8>, entries: &Vec<Entry>) -> (fits: bool)
    ensures
        fits ==> final(out)@ == old(out)@ + entries_bytes(types::entry_views(entries@)),
        !fits ==> entries_bytes(types::entry_views(entries@)).len() > u32::MAX,
{
    let ghost views = types::entry_views(entries@);
    let mut i: usize = 0;
    assert(views.take(0) =~= Seq::<EntryView>::empty());
    assert(out@ =~= old(out)@ + entries_bytes(views.take(0)));
    while i < entries.len()
        invariant
            i <= entries@.len(),
            views == types::entry_views(entries@),
            out@ == old(out)@ + entries_bytes(views.take(i as int)),
        decreases entries@.len() - i,
    {
        proof {
            assert(views[i as int] == entries@[i as int]@);
            assert(views.take(i + 1) =~= views.take(i as int).push(views[i as int]));
            lemma_entries_bytes_push(views.take(i as int), views[i as int]);
            lemma_entries_bytes_len(views, i + 1);
        }
        let entry = &entries[i];
        if !put_text(out, &entry.key) {
            return false;
        }
        if !put_value(out, &entry.value) {
            return false;
        }
        assert(out@ =~= old(out)@ + entries_bytes(views.take(i + 1)));
        i = i + 1;
    }
    assert(views.take(i as int) =~= views);
    true
}

/// Appends the encoding of optional metadata, if every length in it fits its
/// prefix.
fn put_meta(out: &mut Vec<u8>, meta: &Option<Metadata>) -> (fits: bool)
    ensures
        fits ==> final(out)@ == old(out)@ + meta_bytes(types::meta_view(*meta)),
        !fits ==> meta_bytes(types::meta_view(*meta)).len() > u32::MAX,
{
    match meta {
        None => {
            bytes::put_u8(out, 0);
        },
        Some(metadata) => {
            proof {
                let views = metadata@;
                lemma_entries_bytes_len(views, views.len() as int);
                assert(views.len() == metadata.entries@.len());
            }
            if metadata.entries.len() as u64 > u32::MAX as u64 {
                return false;
            }
            bytes::put_u8(out, 1);
            bytes::put_u32(out, metadata.entries.len() as u32);
            if !put_entries(out, &metadata.entries) {
                return false;
            }
        },
    }
    assert(out@ =~= old(out)@ + meta_bytes(types::meta_view(*meta)));
    true
}

/// The encoding of components, from the front: one more component.
proof fn lemma_component_bytes_push(vector: Seq<u32>, component: u32)
    ensures
        component_bytes(vector.push(component)) == component_bytes(vector) + bytes::le_bytes(
            component as nat,
            4,
        ),
    decreases vector.len(),
{
    let all = vector.push(component);
    let last = bytes::le_bytes(component as nat, 4);
    if vector.len() == 0 {
        reveal_with_fuel(component_bytes, 2);
        assert(all.drop_first() =~= Seq::<u32>::empty());
        assert(component_bytes(all) =~= last);
        assert(component_bytes(vector) + last =~= last);
    } else {
        assert(all.drop_first() =~= vector.drop_first().push(component));
        lemma_component_bytes_push(vector.drop_first(), component);
        assert(component_bytes(all) =~= component_bytes(vector) + last);
    }
}

/// Each component takes four bytes.
pub proof fn lemma_component_bytes_len(vector: Seq<u32>)
    ensures
        component_bytes(vector).len() == 4 * vector.len(),
    decreases vector.len(),
{
    if vector.len() > 0 {
        bytes::lemma_le_bytes_len(vector[0] as nat, 4);
        lemma_component_bytes_len(vector.drop_first());
    }
}

/// Appends the encodings of components.
fn put_components(out: &mut Vec<u8>, vector: &Vec<u32>)
    ensures
        final(out)@ == old(out)@ + component_bytes(vector@),
{
    let mut i: usize = 0;
    assert(vector@.take(0) =~= Seq::<u32>::empty());
    assert(out@ =~= old(out)@ + component_bytes(vector@.take(0)));
    while i < vector.len()
        invariant
            i <= vector@.len(),
            out@ == old(out)@ + component_bytes(vector@.take(i as int)),
        decreases vector@.len() - i,
    {
        proof {
            assert(vector@.take(i + 1) =~= vector@.take(i as int).push(vector@[i as int]));
            lemma_component_bytes_push(vector@.take(i as int), vector@[i as int]);
        }
        bytes::put_u32(out, vector[i]);
        assert(out@ =~= old(out)@ + component_bytes(vector@.take(i + 1)));
        i = i + 1;
    }
    assert(vector@.take(i as int) =~= vector@);
}

/// Encodes a record.
///
/// # Errors
///
/// Returns [`PersistError::InvalidPayload`] if the record does not fit a
/// frame.
pub fn encode_record(record: &WalRecord) -> (out: Result<Vec<u8>>)
    ensures
        match out {
            Ok(body) => fits_frame(record@) && body@ == record_bytes(record@),
            Err(e) => !fits_frame(record@) && e@ == too_long(record@),
        },
{
    let mut out: Vec<u8> = Vec::new();
    match record {
        WalRecord::Insert { id, vector, meta } => {
            proof {
                lemma_component_bytes_len(vector@);
                bytes::lemma_le_bytes_len(vector@.len(), 4);
            }
            if vector.len() as u64 > u32::MAX as u64 {
                return Err(
                    PersistError::InvalidPayload {
                        reason: "WAL insert vector length does not fit in u32",
                    },
                );
            }
            bytes::put_u8(&mut out, 1);
            put_id(&mut out, id);
            bytes::put_u32(&mut out, vector.len() as u32);
            put_components(&mut out, vector);
            if !put_meta(&mut out, meta) {
                return Err(
                    PersistError::InvalidPayload {
                        reason: "WAL record length does not fit in u32",
                    },
                );
            }
        },
        WalRecord::Delete { id } => {
            bytes::put_u8(&mut out, 2);
            put_id(&mut out, id);
        },
    }
    assert(out@ =~= record_bytes(record@));
    if out.len() as u64 > u32::MAX as u64 {
        return Err(
            PersistError::InvalidPayload { reason: "WAL record length does not fit in u32" },
        );
    }
    Ok(out)
}

/// Encodes a record and puts it into a frame.
///
/// # Errors
///
/// Returns [`PersistError::InvalidPayload`] if the record does not fit a
/// frame.
pub fn encode_frame(record: &WalRecord) -> (out: Result<Vec<u8>>)
    ensures
        match out {
            Ok(frame) => fits_frame(record@) && frame@ == frame_bytes(record@),
            Err(e) => !fits_frame(record@) && e@ == too_long(record@),
        },
{
    let body = match encode_record(record) {
        Ok(body) => body,
        Err(e) => return Err(e),
    };
    let mut out: Vec<u8> = Vec::new();
    bytes::put_u32(&mut out, body.len() as u32);
    bytes::put_u32(&mut out, checksum::compute(body.as_slice()));
    bytes::put_bytes(&mut out, body.as_slice());
    assert(out@ =~= frame_bytes(record@));
    Ok(out)
}

/// The log header: the whole of a log that holds nothing.
pub fn log_header() -> (out: Vec<u8>)
    ensures
        out@ == log_header_bytes(),
        out@ == log_bytes(Seq::empty()),
        out@.len() == WAL_HEADER_LEN,
{
    let mut out: Vec<u8> = Vec::new();
    bytes::put_bytes(&mut out, WAL_MAGIC.as_slice());
    bytes::put_u32(&mut out, WAL_VERSION);
    proof {
        bytes::lemma_le_bytes_len(WAL_VERSION as nat, 4);
    }
    assert(out@ =~= log_header_bytes());
    assert(out@ =~= log_bytes(Seq::empty()));
    out
}

// ----------------------------------------------------------------------
// Decoding functions
// ----------------------------------------------------------------------

/// Reads an identifier.
fn take_id<'a>(input: &'a [u8]) -> (out: Option<(VectorId, &'a [u8])>)
    ensures
        match out {
            Some((id, rest)) => parse_id(input@) == Some((id@, rest@)),
            None => parse_id(input@) is None,
        },
{
    let (kind, rest) = match bytes::take_u8(input) {
        Some(split) => split,
        None => return None,
    };
    let (n, rest) = match bytes::take_u64(rest) {
        Some(split) => split,
        None => return None,
    };
    if kind == 0 {
        Some((VectorId::U64(n), rest))
    } else if kind == 1 {
        if n > rest.len() as u64 {
            return None;
        }
        match bytes::split_bytes(rest, n as usize) {
            Some((run, rest)) => Some((VectorId::Bytes(slice_to_vec(run)), rest)),
            None => None,
        }
    } else {
        None
    }
}

/// Reads a length-prefixed text.
fn take_text<'a>(input: &'a [u8]) -> (out: Option<(String, &'a [u8])>)
    ensures
        match out {
            Some((text, rest)) => parse_text(input@) == Some((text@, rest@)),
            None => parse_text(input@) is None,
        },
{
    let (len, rest) = match bytes::take_u32(input) {
        Some(split) => split,
        None => return None,
    };
    let (run, rest) = match bytes::split_bytes(rest, len as usize) {
        Some(split) => split,
        None => return None,
    };
    match bytes::take_text(run) {
        Some(text) => Some((text, rest)),
        None => None,
    }
}

/// Reads a metadata value.
fn take_value<'a>(input: &'a [u8]) -> (out: Option<(Value, &'a [u8])>)
    ensures
        match out {
            Some((value, rest)) => parse_value(input@) == Some((value@, rest@)),
            None => parse_value(input@) is None,
        },
{
    let (tag, rest) = match bytes::take_u8(input) {
        Some(split) => split,
        None => return None,
    };
    if tag == 0 {
        match take_text(rest) {
            Some((text, rest)) => Some((Value::String(text), rest)),
            None => None,
        }
    } else if tag == 1 {
        match bytes::take_u64(rest) {
            Some((bits, rest)) => Some((Value::Int(bytes::i64_from_bits(bits)), rest)),
            None => None,
        }
    } else if tag == 2 {
        match bytes::take_u64(rest) {
            Some((bits, rest)) => Some((Value::Float(bits), rest)),
            None => None,
        }
    } else if tag == 3 {
        match bytes::take_u8(rest) {
            Some((flag, rest)) => if flag <= 1 {
                Some((Value::Bool(flag == 1), rest))
            } else {
                None
            },
            None => None,
        }
    } else if tag == 4 {
        Some((Value::Null, rest))
    } else {
        None
    }
}

/// Reads a metadata entry.
fn take_entry<'a>(input: &'a [u8]) -> (out: Option<(Entry, &'a [u8])>)
    ensures
        match out {
            Some((entry, rest)) => parse_entry(input@) == Some((entry@, rest@)),
            None => parse_entry(input@) is None,
        },
{
    let (key, rest) = match take_text(input) {
        Some(split) => split,
        None => return None,
    };
    match take_value(rest) {
        Some((value, rest)) => Some((Entry { key, value }, rest)),
        None => None,
    }
}

/// What reading `n` more entries gives once `done` have been read.
spec fn entries_after(done: Seq<EntryView>, n: nat, input: Seq<u8>) -> Option<
    (Seq<EntryView>, Seq<u8>),
> {
    match parse_entries(n, input) {
        None => None,
        Some((entries, rest)) => Some((done + entries, rest)),
    }
}

/// Reads `n` metadata entries.
fn take_entries<'a>(n: u32, input: &'a [u8]) -> (out: Option<(Vec<Entry>, &'a [u8])>)
    ensures
        match out {
            Some((entries, rest)) => parse_entries(n as nat, input@) == Some(
                (types::entry_views(entries@), rest@),
            ),
            None => parse_entries(n as nat, input@) is None,
        },
{
    let mut entries: Vec<Entry> = Vec::new();
    let mut rest: &'a [u8] = input;
    let mut i: u32 = 0;
    proof {
        if let Some((found, tail)) = parse_entries(n as nat, input@) {
            assert(types::entry_views(entries@) + found =~= found);
        }
    }
    while i < n
        invariant
            i <= n,
            parse_entries(n as nat, input@) == entries_after(
                types::entry_views(entries@),
                (n - i) as nat,
                rest@,
            ),
        decreases n - i,
    {
        let ghost done = types::entry_views(entries@);
        match take_entry(rest) {
            None => return None,
            Some((entry, after)) => {
                proof {
                    let left = (n - i - 1) as nat;
                    if let Some((found, tail)) = parse_entries(left, after@) {
                        assert(done.push(entry@) + found =~= done + (seq![entry@] + found));
                    }
                    assert(types::entry_views(entries@.push(entry)) =~= done.push(entry@));
                }
                entries.push(entry);
                rest = after;
            },
        }
        i = i + 1;
    }
    assert(types::entry_views(entries@) + Seq::<EntryView>::empty() =~= types::entry_views(
        entries@,
    ));
    Some((entries, rest))
}

/// Reads optional metadata.
fn take_meta<'a>(input: &'a [u8]) -> (out: Option<(Option<Metadata>, &'a [u8])>)
    ensures
        match out {
            Some((meta, rest)) => parse_meta(input@) == Some((types::meta_view(meta), rest@)),
            None => parse_meta(input@) is None,
        },
{
    let (has_meta, rest) = match bytes::take_u8(input) {
        Some(split) => split,
        None => return None,
    };
    if has_meta == 0 {
        Some((None, rest))
    } else if has_meta == 1 {
        let (n, rest) = match bytes::take_u32(rest) {
            Some(split) => split,
            None => return None,
        };
        match take_entries(n, rest) {
            Some((entries, rest)) => Some((Some(Metadata { entries }), rest)),
            None => None,
        }
    } else {
        None
    }
}

/// What reading `n` more components gives once `done` have been read.
spec fn components_after(done: Seq<u32>, n: nat, input: Seq<u8>) -> Option<(Seq<u32>, Seq<u8>)> {
    match parse_components(n, input) {
        None => None,
        Some((vector, rest)) => Some((done + vector, rest)),
    }
}

/// Reads `n` vector components.
fn take_components<'a>(n: u32, input: &'a [u8]) -> (out: Option<(Vec<u32>, &'a [u8])>)
    ensures
        match out {
            Some((vector, rest)) => parse_components(n as nat, input@) == Some((vector@, rest@)),
            None => parse_components(n as nat, input@) is None,
        },
{
    let mut vector: Vec<u32> = Vec::new();
    let mut rest: &'a [u8] = input;
    let mut i: u32 = 0;
    proof {
        if let Some((found, tail)) = parse_components(n as nat, input@) {
            assert(vector@ + found =~= found);
        }
    }
    while i < n
        invariant
            i <= n,
            parse_components(n as nat, input@) == components_after(
                vector@,
                (n - i) as nat,
                rest@,
            ),
        decreases n - i,
    {
        let ghost done = vector@;
        match bytes::take_u32(rest) {
            None => return None,
            Some((component, after)) => {
                proof {
                    let left = (n - i - 1) as nat;
                    if let Some((found, tail)) = parse_components(left, after@) {
                        assert(done.push(component) + found =~= done + (seq![component] + found));
                    }
                }
                vector.push(component);
                rest = after;
            },
        }
        i = i + 1;
    }
    assert(vector@ + Seq::<u32>::empty() =~= vector@);
    Some((vector, rest))
}

/// Reads the fields of an insert that follow the op.
fn take_insert<'a>(input: &'a [u8]) -> (out: Option<(WalRecord, &'a [u8])>)
    ensures
        match out {
            Some((record, rest)) => parse_insert(input@) == Some((record@, rest@)),
            None => parse_insert(input@) is None,
        },
{
    let (id, rest) = match take_id(input) {
        Some(split) => split,
        None => return None,
    };
    let (len, rest) = match bytes::take_u32(rest) {
        Some(split) => split,
        None => return None,
    };
    let (vector, rest) = match take_components(len, rest) {
        Some(split) => split,
        None => return None,
    };
    match take_meta(rest) {
        Some((meta, rest)) => Some((WalRecord::Insert { id, vector, meta }, rest)),
        None => None,
    }
}

/// Decodes a record. Nothing may follow it in `body`.
pub fn decode_record(body: &[u8]) -> (out: Option<WalRecord>)
    ensures
        match out {
            Some(record) => parse_record(body@) == Some(record@),
            None => parse_record(body@) is None,
        },
{
    let (op, rest) = match bytes::take_u8(body) {
        Some(split) => split,
        None => return None,
    };
    if op == 1 {
        match take_insert(rest) {
            Some((record, rest)) => if rest.len() == 0 {
                Some(record)
            } else {
                None
            },
            None => None,
        }
    } else if op == 2 {
        match take_id(rest) {
            Some((id, rest)) => if rest.len() == 0 {
                Some(WalRecord::Delete { id })
            } else {
                None
            },
            None => None,
        }
    } else {
        None
    }
}

/// Splits off the intact frame at the front of `input`.
fn take_frame<'a>(input: &'a [u8]) -> (out: Option<(&'a [u8], &'a [u8])>)
    ensures
        match out {
            Some((body, rest)) => {
                &&& next_frame(input@) == Some((body@, rest@))
                &&& rest@.len() == input@.len() - body@.len() - 8
            },
            None => next_frame(input@) is None,
        },
{
    let (len, rest) = match bytes::take_u32(input) {
        Some(split) => split,
        None => return None,
    };
    let (crc, rest) = match bytes::take_u32(rest) {
        Some(split) => split,
        None => return None,
    };
    let (body, rest) = match bytes::split_bytes(rest, len as usize) {
        Some(split) => split,
        None => return None,
    };
    if checksum::compute(body) == crc {
        Some((body, rest))
    } else {
        None
    }
}

/// What reading the frames of `input` gives once `done` have been read.
spec fn frames_after(done: Seq<WalRecordView>, input: Seq<u8>) -> Option<
    (Seq<WalRecordView>, Seq<u8>),
> {
    match parse_frames(input) {
        None => None,
        Some((records, tail)) => Some((done + records, tail)),
    }
}

/// Reads the intact frames at the front of `input`, and the length of the
/// tail that follows them.
fn take_frames(input: &[u8]) -> (out: Option<(Vec<WalRecord>, usize)>)
    ensures
        match out {
            Some((records, tail_len)) => parse_frames(input@) matches Some((found, tail))
                && found == record_views(records@) && tail.len() == tail_len && tail_len
                <= input@.len(),
            None => parse_frames(input@) is None,
        },
{
    let mut records: Vec<WalRecord> = Vec::new();
    let mut rest: &[u8] = input;
    proof {
        if let Some((found, tail)) = parse_frames(input@) {
            assert(record_views(records@) + found =~= found);
        }
    }
    loop
        invariant
            rest@.len() <= input@.len(),
            parse_frames(input@) == frames_after(record_views(records@), rest@),
        decreases rest@.len(),
    {
        match take_frame(rest) {
            None => {
                assert(record_views(records@) + Seq::<WalRecordView>::empty() =~= record_views(
                    records@,
                ));
                return Some((records, rest.len()));
            },
            Some((body, after)) => match decode_record(body) {
                None => return None,
                Some(record) => {
                    proof {
                        let done = record_views(records@);
                        if let Some((found, tail)) = parse_frames(after@) {
                            assert(done.push(record@) + found =~= done + (seq![record@] + found));
                        }
                        assert(record_views(records@.push(record)) =~= done.push(record@));
                    }
                    records.push(record);
                    rest = after;
                },
            },
        }
    }
}

/// What a log holds.
#[derive(Debug)]
pub struct WalContents {
    /// The committed records, in log order.
    pub records: Vec<WalRecord>,
    /// The length of the log up to the end of the last committed record. Zero
    /// if not even the header is whole.
    pub committed: usize,
}

/// Read the committed records of a log.
///
/// A torn tail, the mark of a crash in the middle of an append, is left out.
///
/// # Errors
///
/// - [`PersistError::BadMagic`] if `log` has a header of another kind of file.
/// - [`PersistError::UnsupportedVersion`] if the log is of another version.
/// - [`PersistError::InvalidPayload`] if a frame passes its checksum and does
///   not decode.
pub fn parse_records(log: &[u8]) -> (out: Result<WalContents>)
    ensures
        match out {
            Ok(contents) => {
                &&& parse_log(log@) == Ok::<
                    (Seq<WalRecordView>, nat),
                    error::PersistErrorView,
                >((record_views(contents.records@), contents.committed as nat))
                &&& contents.committed <= log@.len()
            },
            Err(e) => parse_log(log@) == Err::<
                (Seq<WalRecordView>, nat),
                error::PersistErrorView,
            >(e@),
        },
{
    if log.len() < WAL_HEADER_LEN {
        let records: Vec<WalRecord> = Vec::new();
        assert(record_views(records@) =~= Seq::<WalRecordView>::empty());
        return Ok(WalContents { records, committed: 0 });
    }
    let magic_run = slice_subrange(log, 0, 8);
    assert(magic_run@ =~= log@.take(8));
    if !bytes::same_bytes(magic_run, WAL_MAGIC.as_slice()) {
        let found: [u8; 8] = [log[0], log[1], log[2], log[3], log[4], log[5], log[6], log[7]];
        assert(found@ =~= log@.take(8));
        return Err(PersistError::BadMagic { found });
    }
    let version: u32 = bytes::word_u32(slice_subrange(log, 8, 12));
    if version != WAL_VERSION {
        return Err(
            PersistError::UnsupportedVersion { found: version, supported: WAL_VERSION },
        );
    }
    let frames = slice_subrange(log, 12, log.len());
    assert(frames@ =~= log@.skip(12));
    match take_frames(frames) {
        None => Err(PersistError::InvalidPayload { reason: "WAL record does not decode" }),
        Some((records, tail_len)) => Ok(
            WalContents { records, committed: log.len() - tail_len },
        ),
    }
}

} // verus!
