//! What a caller can rely on of errors, their messages, the configuration and
//! the small functions that everything is built from.

use iqdb_types::IqdbError;
use vstd::prelude::*;

use crate::bytes;
use crate::compression;
use crate::compression::Codecs;
use crate::config::{Compression, PersistConfig};
use crate::encoding_laws;
use crate::error;
use crate::error::{PersistError, PersistErrorView, Result};
use crate::format::{FileHeader, SizeField};
use crate::lifecycle_laws;
use crate::persisted::{DiskAction, DiskActionView};
use crate::snapshot;
use crate::snapshot::Shape;
use crate::text;
use crate::types::DistanceMetric;

verus! {

// ----------------------------------------------------------------------
// Errors
// ----------------------------------------------------------------------

/// The view of an error has all that the error reports.
pub proof fn error_view_loses_nothing(e: PersistError)
    ensures
        match e {
            PersistError::Io { path, source } => e@ == (PersistErrorView::Io { path, source }),
            PersistError::BadMagic { found } => e@ == (PersistErrorView::BadMagic {
                found: found@,
            }),
            PersistError::UnsupportedVersion { found, supported } => e@ == (
            PersistErrorView::UnsupportedVersion { found, supported }),
            PersistError::ChecksumMismatch { expected, computed } => e@ == (
            PersistErrorView::ChecksumMismatch { expected, computed }),
            PersistError::TruncatedHeader { needed, found } => e@ == (
            PersistErrorView::TruncatedHeader { needed: needed as nat, found: found as nat }),
            PersistError::TruncatedPayload { needed, found } => e@ == (
            PersistErrorView::TruncatedPayload { needed: needed as nat, found: found as nat }),
            PersistError::InvalidMetric { tag } => e@ == (PersistErrorView::InvalidMetric { tag }),
            PersistError::UnsupportedMetric { metric } => e@ == (
            PersistErrorView::UnsupportedMetric { metric }),
            PersistError::InvalidIndexType { found, expected } => e@ == (
            PersistErrorView::InvalidIndexType { found: found@, expected: expected@ }),
            PersistError::InvalidPayload { reason } => e@ == (PersistErrorView::InvalidPayload {
                reason: reason@,
            }),
            PersistError::Compression { reason } => e@ == (PersistErrorView::Compression {
                reason: reason@,
            }),
            PersistError::IndexBuild(cause) => e@ == PersistErrorView::IndexBuild(cause),
            PersistError::Unsupported { feature, available_in } => e@ == (
            PersistErrorView::Unsupported { feature: feature@, available_in: available_in@ }),
        },
{
}

/// The view of an action has all that the action asks for.
pub proof fn action_view_loses_nothing(action: DiskAction)
    ensures
        match action {
            DiskAction::WriteSnapshot { bytes } => action@ == (DiskActionView::WriteSnapshot {
                bytes: bytes@,
            }),
            DiskAction::WriteLog { bytes } => action@ == (DiskActionView::WriteLog {
                bytes: bytes@,
            }),
            DiskAction::AppendLog { bytes } => action@ == (DiskActionView::AppendLog {
                bytes: bytes@,
            }),
            DiskAction::TruncateLog { len } => action@ == (DiskActionView::TruncateLog {
                len: len as nat,
            }),
        },
{
}

/// Whether two errors are of one variant.
pub open spec fn same_variant(a: PersistError, b: PersistError) -> bool {
    ||| a is Io && b is Io
    ||| a is BadMagic && b is BadMagic
    ||| a is UnsupportedVersion && b is UnsupportedVersion
    ||| a is ChecksumMismatch && b is ChecksumMismatch
    ||| a is TruncatedHeader && b is TruncatedHeader
    ||| a is TruncatedPayload && b is TruncatedPayload
    ||| a is InvalidMetric && b is InvalidMetric
    ||| a is UnsupportedMetric && b is UnsupportedMetric
    ||| a is InvalidIndexType && b is InvalidIndexType
    ||| a is InvalidPayload && b is InvalidPayload
    ||| a is Compression && b is Compression
    ||| a is IndexBuild && b is IndexBuild
    ||| a is Unsupported && b is Unsupported
}

/// Errors of one variant have one kind and one caption, and errors of different
/// variants have different kinds.
pub proof fn kind_and_caption_tell_the_variant(
    a: PersistError,
    b: PersistError,
    kind_a: &'static str,
    kind_b: &'static str,
    caption_a: &'static str,
    caption_b: &'static str,
)
    requires
        call_ensures(PersistError::kind, (&a,), kind_a),
        call_ensures(PersistError::kind, (&b,), kind_b),
        call_ensures(PersistError::caption, (&a,), caption_a),
        call_ensures(PersistError::caption, (&b,), caption_b),
    ensures
        same_variant(a, b) <==> kind_a@ == kind_b@,
        same_variant(a, b) ==> caption_a@ == caption_b@,
{
    reveal_strlit("Io");
    reveal_strlit("BadMagic");
    reveal_strlit("UnsupportedVersion");
    reveal_strlit("ChecksumMismatch");
    reveal_strlit("TruncatedHeader");
    reveal_strlit("TruncatedPayload");
    reveal_strlit("InvalidMetric");
    reveal_strlit("UnsupportedMetric");
    reveal_strlit("InvalidIndexType");
    reveal_strlit("InvalidPayload");
    reveal_strlit("Compression");
    reveal_strlit("IndexBuild");
    reveal_strlit("Unsupported");
    assert(!same_variant(a, b) && kind_a@.len() == kind_b@.len() ==> kind_a@[0] != kind_b@[0]
        || kind_a@[9] != kind_b@[9]);
}

/// The message of an error says everything that the error reports, in the words
/// of its variant.
pub proof fn message_says_what_the_error_reports(e: PersistError, out: String)
    requires
        call_ensures(PersistError::to_string, (&e,), out),
    ensures
        match e {
            PersistError::BadMagic { found } => out@ == "bad magic: not an iqdb snapshot (found "@
                + text::byte_list(found@) + ")"@,
            PersistError::UnsupportedVersion { found, supported } => out@
                == "unsupported format version: found "@ + text::decimal(found as nat)
                + ", supported "@ + text::decimal(supported as nat),
            PersistError::ChecksumMismatch { expected, computed } => out@
                == "checksum mismatch: header expected "@ + text::hex32(expected) + ", computed "@
                + text::hex32(computed),
            PersistError::TruncatedHeader { needed, found } => out@ == "truncated header: needed "@
                + text::decimal(needed as nat) + " bytes, found "@ + text::decimal(found as nat),
            PersistError::TruncatedPayload { needed, found } => out@
                == "truncated payload: needed "@ + text::decimal(needed as nat) + " bytes, found "@
                + text::decimal(found as nat),
            PersistError::InvalidMetric { tag } => out@ == "invalid metric tag: "@ + text::decimal(
                tag as nat,
            ),
            PersistError::InvalidIndexType { found, expected } => out@
                == "index type mismatch: file declared "@ + text::debug_quoted(found@)
                + ", caller expected "@ + text::debug_quoted(expected@),
            PersistError::InvalidPayload { reason } => out@ == "invalid payload: "@ + reason@,
            PersistError::Compression { reason } => out@ == "compression error: "@ + reason@,
            PersistError::Unsupported { feature, available_in } => out@
                == "feature not supported in this build: "@ + feature@ + " (available in "@
                + available_in@ + ")"@,
            PersistError::Io { path, source } => exists|shown: String, cause: String|
                {
                    &&& #[trigger] call_ensures(error::shown_path, (&path,), shown)
                    &&& #[trigger] vstd::string::to_string_from_display_ensures::<std::io::Error>(
                        &source,
                        cause,
                    )
                    &&& out@ == "I/O error on "@ + shown@ + ": "@ + cause@
                },
            PersistError::IndexBuild(cause) => exists|shown: String| #[trigger]
                vstd::string::to_string_from_display_ensures::<IqdbError>(&cause, shown) && out@
                    == "index construction failed: "@ + shown@,
            PersistError::UnsupportedMetric { metric } => forall|name: &'static str| #[trigger]
                call_ensures(error::metric_text, (metric,), name) ==> out@
                    == "unsupported metric for this build: "@ + name@,
        },
{
}

/// A metric is called by its name.
pub proof fn metric_is_called_by_its_name(metric: DistanceMetric, name: &'static str)
    requires
        call_ensures(error::metric_text, (metric,), name),
    ensures
        metric is Cosine ==> name@ == "Cosine"@,
        metric is DotProduct ==> name@ == "DotProduct"@,
        metric is Euclidean ==> name@ == "Euclidean"@,
        metric is Manhattan ==> name@ == "Manhattan"@,
        metric is Hamming ==> name@ == "Hamming"@,
        metric is Other ==> name@ == "Other"@,
{
}

/// The messages that are put together from two parts name both, in order.
pub proof fn messages_name_both_parts(a: &str, b: &str, io: String, index_type: String)
    requires
        call_ensures(error::io_message, (a, b), io),
        call_ensures(error::index_type_message, (a, b), index_type),
    ensures
        io@ == "I/O error on "@ + a@ + ": "@ + b@,
        index_type@ == "index type mismatch: file declared "@ + a@ + ", caller expected "@ + b@,
{
}

/// An error of the index is carried as it is.
pub proof fn index_error_is_carried(cause: IqdbError, out: PersistError)
    requires
        call_ensures(<PersistError as From<IqdbError>>::from, (cause,), out),
    ensures
        out == PersistError::IndexBuild(cause),
{
}

// ----------------------------------------------------------------------
// Numbers as text
// ----------------------------------------------------------------------

/// What a hexadecimal digit stands for.
pub open spec fn hex_digit_value(digit: char) -> int {
    if digit <= '9' {
        digit as int - '0' as int
    } else {
        digit as int - 'a' as int + 10
    }
}

/// The number that hexadecimal digits spell.
pub open spec fn hex_value(digits: Seq<char>) -> int
    decreases digits.len(),
{
    if digits.len() == 0 {
        0
    } else {
        16 * hex_value(digits.drop_last()) + hex_digit_value(digits.last())
    }
}

/// `16` to the power `width`.
pub open spec fn pow16(width: nat) -> nat
    decreases width,
{
    if width == 0 {
        1
    } else {
        16 * pow16((width - 1) as nat)
    }
}

/// Hexadecimal digits spell the number that they were written for.
pub proof fn hexadecimal_digits_spell_the_number(n: nat, width: nat)
    requires
        n < pow16(width),
    ensures
        text::hexadecimal(n, width).len() == width,
        hex_value(text::hexadecimal(n, width)) == n,
        forall|i: int|
            0 <= i < width ==> '0' <= #[trigger] text::hexadecimal(n, width)[i] <= '9' || 'a'
                <= text::hexadecimal(n, width)[i] <= 'f',
    decreases width,
{
    if width > 0 {
        let front = text::hexadecimal(n / 16, (width - 1) as nat);
        hexadecimal_digits_spell_the_number(n / 16, (width - 1) as nat);
        assert(text::hexadecimal(n, width).drop_last() =~= front);
        assert forall|i: int| 0 <= i < width implies '0' <= #[trigger] text::hexadecimal(
            n,
            width,
        )[i] <= '9' || 'a' <= text::hexadecimal(n, width)[i] <= 'f' by {
            if i < front.len() {
                assert(text::hexadecimal(n, width)[i] == front[i]);
            }
        }
    }
}

/// A 32-bit number is shown as `0x` and eight hexadecimal digits that spell it.
pub proof fn hex32_spells_the_number(out: &mut String, n: u32)
    requires
        call_ensures(text::push_hex32, (out, n), ()),
    ensures
        final(out)@.len() == old(out)@.len() + 10,
        final(out)@.take(old(out)@.len() as int) == old(out)@,
        final(out)@.subrange(old(out)@.len() as int, old(out)@.len() as int + 2) == "0x"@,
        hex_value(final(out)@.skip(old(out)@.len() as int + 2)) == n,
{
    reveal_strlit("0x");
    let digits = text::hexadecimal(n as nat, 8);
    assert(pow16(8) == 0x1_0000_0000) by {
        reveal_with_fuel(pow16, 9);
    }
    hexadecimal_digits_spell_the_number(n as nat, 8);
    let all = old(out)@ + ("0x"@ + digits);
    assert(all.take(old(out)@.len() as int) =~= old(out)@);
    assert(all.subrange(old(out)@.len() as int, old(out)@.len() as int + 2) =~= "0x"@);
    assert(all.skip(old(out)@.len() as int + 2) =~= digits);
}

/// A number is appended as the decimal digits that spell it.
pub proof fn appended_decimal_spells_the_number(out: &mut String, n: u128)
    requires
        call_ensures(text::push_decimal, (out, n), ()),
    ensures
        final(out)@.take(old(out)@.len() as int) == old(out)@,
        encoding_laws::decimal_value(final(out)@.skip(old(out)@.len() as int)) == n,
        final(out)@.len() > old(out)@.len(),
{
    encoding_laws::decimal_digits_spell_the_number(n as nat);
    let all = old(out)@ + text::decimal(n as nat);
    assert(all.take(old(out)@.len() as int) =~= old(out)@);
    assert(all.skip(old(out)@.len() as int) =~= text::decimal(n as nat));
}

/// A list of bytes is in brackets, and each byte but the first follows a comma.
pub proof fn byte_list_shows_every_byte(front: Seq<u8>, byte: u8)
    ensures
        text::byte_list(Seq::empty()) == "[]"@,
        text::byte_list(seq![byte]) == "["@ + text::decimal(byte as nat) + "]"@,
        front.len() > 0 ==> text::byte_list(front.push(byte)) == text::byte_list(front).drop_last()
            + ", "@ + text::decimal(byte as nat) + "]"@,
{
    reveal_strlit("[");
    reveal_strlit("]");
    reveal_strlit("[]");
    assert(text::byte_list(Seq::empty()) =~= "[]"@);
    assert(seq![byte].len() == 1 && seq![byte][0] == byte);
    if front.len() > 0 {
        assert(front.push(byte).drop_last() =~= front);
        assert(text::byte_list(front).drop_last() =~= "["@ + text::joined(front));
        assert(text::byte_list(front.push(byte)) =~= text::byte_list(front).drop_last() + ", "@
            + text::decimal(byte as nat) + "]"@);
    }
}

// ----------------------------------------------------------------------
// Configuration
// ----------------------------------------------------------------------

/// By default nothing is logged, everything is flushed and nothing is
/// compressed, and no codec is switched on.
pub proof fn defaults_are_the_safe_ones(config: PersistConfig, codecs: Codecs, all: Codecs)
    requires
        call_ensures(<PersistConfig as Default>::default, (), config),
        call_ensures(<Codecs as Default>::default, (), codecs),
        call_ensures(Codecs::all, (), all),
    ensures
        !config.wal_enabled,
        config.fsync_policy is Always,
        config.compression is Off,
        !codecs.zstd && !codecs.lz4,
        all.zstd && all.lz4,
{
}

/// A scheme is handled exactly if it needs no codec or its codec is switched on.
pub proof fn scheme_is_handled_if_its_codec_is_on(
    codecs: Codecs,
    scheme: Compression,
    handled: bool,
)
    requires
        call_ensures(Codecs::handle, (codecs, scheme), handled),
    ensures
        handled <==> lifecycle_laws::switched_on(codecs, scheme),
{
}

// ----------------------------------------------------------------------
// Pieces
// ----------------------------------------------------------------------

/// A size is widened and narrowed without loss, and refused only if the host
/// cannot hold it.
pub proof fn sizes_are_converted_without_loss(
    size: usize,
    wide: u64,
    value: u64,
    field: SizeField,
    back: Result<usize>,
)
    requires
        call_ensures(crate::format::usize_to_u64, (size,), wide),
        call_ensures(crate::format::u64_to_usize, (value, field), back),
    ensures
        wide == size,
        back is Ok <==> value <= usize::MAX,
        back matches Ok(n) ==> n == value,
        back matches Err(e) ==> e is InvalidPayload,
{
}

/// Reading a field takes exactly its bytes, or says how many were missing.
pub proof fn field_is_read_whole_or_not_at_all(
    input: &[u8],
    n: usize,
    out: Result<(&[u8], &[u8])>,
)
    requires
        call_ensures(crate::format::read_exact_or_truncated, (input, n), out),
    ensures
        match out {
            Ok((head, tail)) => head@.len() == n && head@ + tail@ == input@,
            Err(e) => input@.len() < n && e == (PersistError::TruncatedHeader {
                needed: n,
                found: input@.len() as usize,
            }),
        },
{
    if let Ok((head, tail)) = out {
        assert(head@ + tail@ =~= input@);
    }
}

/// Numbers that were appended are taken off again, with what follows them.
pub proof fn appended_numbers_are_taken_off(
    out: &mut Vec<u8>,
    a: u32,
    then: &mut Vec<u8>,
    b: u64,
    rest: Seq<u8>,
    input: &[u8],
    first: Option<(u32, &[u8])>,
    second: Option<(u64, &[u8])>,
)
    requires
        old(out)@.len() == 0,
        call_ensures(bytes::put_u32, (out, a), ()),
        *old(then) == *final(out),
        call_ensures(bytes::put_u64, (then, b), ()),
        input@ == final(then)@ + rest,
        call_ensures(bytes::take_u32, (input,), first),
        first matches Some((_, more)) ==> call_ensures(bytes::take_u64, (more,), second),
    ensures
        first matches Some((n, _)) && n == a,
        second matches Some((n, more)) && n == b && more@ == rest,
{
    let x = bytes::le_bytes(a as nat, 4);
    let y = bytes::le_bytes(b as nat, 8);
    assert(final(out)@ =~= x);
    assert(input@ =~= x + (y + rest));
    bytes::lemma_split_u32(a, y + rest);
    bytes::lemma_split_u64(b, rest);
}

/// A signed number is the one that its bit pattern was made from.
pub proof fn signed_numbers_keep_their_bits(value: i64, bits: u64, back: i64)
    requires
        call_ensures(bytes::i64_to_bits, (value,), bits),
        call_ensures(bytes::i64_from_bits, (bits,), back),
    ensures
        back == value,
        value >= 0 ==> bits == value,
        value < 0 ==> bits == value + 0x1_0000_0000_0000_0000,
{
}

/// Byte strings are the same exactly if they have the same bytes.
pub proof fn same_bytes_are_the_same(a: &[u8], b: &[u8], same: bool)
    requires
        call_ensures(bytes::same_bytes, (a, b), same),
    ensures
        same <==> a@ == b@,
{
}

/// Whether the `k` bytes from `i` on are all `0xFF`.
pub open spec fn is_ff_run(block: Seq<u8>, i: int, k: int) -> bool {
    &&& 0 <= i
    &&& 0 <= k
    &&& i + k <= block.len()
    &&& forall|j: int| i <= j < i + k ==> block[j] == 0xFF
}

/// No run of `0xFF` bytes is longer than the longest.
pub proof fn no_run_is_longer_than_the_longest(block: Seq<u8>, i: int, k: int)
    requires
        is_ff_run(block, i, k),
    ensures
        k <= compression::longest_ff(block),
    decreases block.len(),
{
    if k > 0 {
        if i + k == block.len() {
            lemma_trailing_run(block, k);
        } else {
            assert forall|j: int| i <= j < i + k implies block.drop_last()[j] == 0xFF by {
                assert(block[j] == 0xFF);
            }
            no_run_is_longer_than_the_longest(block.drop_last(), i, k);
        }
    }
}

/// There is a run of `0xFF` bytes as long as the longest.
pub proof fn longest_run_is_there(block: Seq<u8>) -> (i: int)
    ensures
        is_ff_run(block, i, compression::longest_ff(block) as int),
    decreases block.len(),
{
    if block.len() == 0 {
        0
    } else {
        let i = longest_run_is_there(block.drop_last());
        lemma_trailing_is_run(block);
        if compression::trailing_ff(block) > compression::longest_ff(block.drop_last()) {
            block.len() - compression::trailing_ff(block)
        } else {
            let k = compression::longest_ff(block.drop_last()) as int;
            assert forall|j: int| i <= j < i + k implies block[j] == 0xFF by {
                assert(block.drop_last()[j] == 0xFF);
            }
            i
        }
    }
}

/// A run at the end is within the trailing one.
proof fn lemma_trailing_run(block: Seq<u8>, k: int)
    requires
        0 < k,
        is_ff_run(block, block.len() - k, k),
    ensures
        k <= compression::trailing_ff(block),
        k <= compression::longest_ff(block),
    decreases block.len(),
{
    assert(block[block.len() - 1] == 0xFF);
    let front = block.drop_last();
    if k > 1 {
        assert forall|j: int| front.len() - (k - 1) <= j < front.len() implies front[j] == 0xFF by {
            assert(block[j] == 0xFF);
        }
        lemma_trailing_run(front, k - 1);
    }
}

/// The trailing run is a run.
proof fn lemma_trailing_is_run(block: Seq<u8>)
    ensures
        is_ff_run(
            block,
            block.len() - compression::trailing_ff(block),
            compression::trailing_ff(block) as int,
        ),
    decreases block.len(),
{
    if block.len() > 0 && block.last() == 0xFF {
        let front = block.drop_last();
        lemma_trailing_is_run(front);
        let k = compression::trailing_ff(block) as int;
        assert forall|j: int| block.len() - k <= j < block.len() implies block[j] == 0xFF by {
            if j < front.len() {
                assert(front[j] == 0xFF);
            }
        }
    }
}

// ----------------------------------------------------------------------
// Checks on what others returned
// ----------------------------------------------------------------------

/// A header and the index that was rebuilt behind it agree exactly if they have
/// the same dimensionality, metric and count.
pub proof fn agreement_is_on_all_three(header: FileHeader, rebuilt: Shape, out: Result<()>)
    requires
        call_ensures(snapshot::check_agreement, (&header, rebuilt), out),
    ensures
        out is Ok <==> rebuilt.dim == header.dim && rebuilt.metric == header.metric
            && rebuilt.n_vectors == header.n_vectors,
        out matches Err(e) ==> (e matches PersistError::InvalidPayload { reason } && reason@
            == if rebuilt.dim != header.dim {
            "header dim disagrees with payload-reconstructed index"@
        } else if rebuilt.metric != header.metric {
            "header metric disagrees with payload-reconstructed index"@
        } else {
            "header n_vectors disagrees with payload-reconstructed index"@
        }),
{
}

/// What a decoder returned is taken exactly if it has the declared length.
pub proof fn decoded_payload_has_its_declared_length(
    found: Option<Vec<u8>>,
    claimed: usize,
    failed: &'static str,
    out: Result<Vec<u8>>,
)
    requires
        call_ensures(compression::check_length, (found, claimed, failed), out),
    ensures
        match out {
            Ok(raw) => found is Some && found->0@ == raw@ && raw@.len() == claimed,
            Err(e) => {
                &&& found is None || found->0@.len() != claimed
                &&& e matches PersistError::Compression { reason } && reason@ == if found is None {
                    failed@
                } else {
                    "decompressed length disagrees with the declared length"@
                }
            },
        },
{
}

/// What an encoder returned is taken as it is, exactly if it can be read back:
/// the payload is at most 65,536 times as long and, for LZ4, no run of `0xFF`
/// bytes is beyond the decoder.
pub proof fn encoded_form_is_one_that_is_read_back(
    scheme: Compression,
    len: usize,
    found: Option<Vec<u8>>,
    out: Result<Vec<u8>>,
)
    requires
        call_ensures(compression::check_form, (scheme, len, found), out),
    ensures
        out matches Ok(stored) ==> found is Some && found->0@ == stored@,
        out matches Err(e) ==> (e matches PersistError::Compression { reason } && reason@
            == if found is None {
            "payload could not be compressed"@
        } else {
            "compressed payload is not readable"@
        }),
        found is None ==> out is Err,
        found is Some && scheme is Off ==> out is Ok,
        found is Some && scheme is Zstd ==> (out is Ok <==> len <= 65_536 * found->0@.len() && len
            <= isize::MAX),
        found is Some && scheme is Lz4 ==> (out is Ok <==> len <= 65_536 * found->0@.len() && len
            <= isize::MAX && compression::longest_ff(found->0@) <= 16_843_008 && len + 255
            * compression::longest_ff(found->0@) + 273 <= usize::MAX),
{
}

} // verus!
