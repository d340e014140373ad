//! Payload compression and the preamble that records it.
//!
//! From format version 2 on, the payload region of a snapshot starts with a
//! 9-byte preamble: the scheme tag (`0` uncompressed, `1` Zstd, `2` LZ4) and
//! the length of the uncompressed payload (u64, little-endian). The stored
//! bytes follow.

use vstd::prelude::*;
use vstd::slice::{slice_subrange, slice_to_vec};

use crate::bytes;
use crate::config::Compression;
use crate::error;
use crate::error::{PersistError, Result};

verus! {

/// The codecs that are switched on. Both are off by default.
#[derive(Debug, Clone, Copy, PartialEq, Eq, Structural)]
pub struct Codecs {
    /// Whether Zstd may be used.
    pub zstd: bool,
    /// Whether LZ4 may be used.
    pub lz4: bool,
}

impl Default for Codecs {
    fn default() -> (codecs: Self)
        ensures
            codecs == (Codecs { zstd: false, lz4: false }),
    {
        Codecs { zstd: false, lz4: false }
    }
}

impl Codecs {
    /// Every codec switched on.
    pub fn all() -> (codecs: Self)
        ensures
            codecs == (Codecs { zstd: true, lz4: true }),
    {
        Codecs { zstd: true, lz4: true }
    }

    /// Whether payloads compressed this way can be handled.
    pub open spec fn handles(self, compression: Compression) -> bool {
        match compression {
            Compression::Off => true,
            Compression::Zstd { .. } => self.zstd,
            Compression::Lz4 => self.lz4,
        }
    }

    /// Whether payloads compressed this way can be handled.
    pub fn handle(self, compression: Compression) -> (handled: bool)
        ensures
            handled == self.handles(compression),
    {
        match compression {
            Compression::Off => true,
            Compression::Zstd { .. } => self.zstd,
            Compression::Lz4 => self.lz4,
        }
    }
}

/// The first format version with a preamble.
pub const FIRST_PREAMBLE_VERSION: u32 = 2;

/// The length of the preamble.
pub const PREAMBLE_LEN: usize = 9;

/// The lowest Zstd level.
pub const MIN_ZSTD_LEVEL: i32 = 1;

/// The highest Zstd level.
pub const MAX_ZSTD_LEVEL: i32 = 22;

/// The longest run of `0xFF` bytes an LZ4 block may hold. The decoder adds up
/// such runs in 32 bits where they spell lengths, and a longer one, with the
/// byte behind it, may not fit.
pub const MAX_LZ4_LENGTH_RUN: usize = 16_843_008;

/// How many times longer than its stored form a payload may claim to be.
pub const MAX_EXPANSION: u64 = 65_536;

/// The on-disk tag of a compression scheme.
pub open spec fn scheme_tag(compression: Compression) -> u8 {
    match compression {
        Compression::Off => 0,
        Compression::Zstd { .. } => 1,
        Compression::Lz4 => 2,
    }
}

/// The length of the run of `0xFF` bytes at the end of `run`.
pub open spec fn trailing_ff(run: Seq<u8>) -> nat
    decreases run.len(),
{
    if run.len() == 0 || run.last() != 0xFF {
        0
    } else {
        1 + trailing_ff(run.drop_last())
    }
}

/// The length of the longest run of `0xFF` bytes in `run`.
pub open spec fn longest_ff(run: Seq<u8>) -> nat
    decreases run.len(),
{
    if run.len() == 0 {
        0
    } else if trailing_ff(run) > longest_ff(run.drop_last()) {
        trailing_ff(run)
    } else {
        longest_ff(run.drop_last())
    }
}

/// What `lz4_flex::block::decompress` returns for `block` when told that the
/// payload is at most `limit` bytes long.
pub uninterp spec fn lz4_decompressed(block: Seq<u8>, limit: nat) -> Option<Seq<u8>>;

/// What `zstd::bulk::decompress_to_buffer` writes to a buffer of `limit` bytes
/// when given `frame`, if it succeeds.
pub uninterp spec fn zstd_decompressed(frame: Seq<u8>, limit: nat) -> Option<Seq<u8>>;

/// What a codec returned, mathematically.
pub open spec fn codec_view(found: Option<Vec<u8>>) -> Option<Seq<u8>> {
    match found {
        Some(run) => Some(run@),
        None => None,
    }
}

/// Whether a payload of `len` bytes is within what the LZ4 encoder computes
/// its buffer size for.
pub open spec fn lz4_takes(len: nat) -> bool {
    len * 110 <= usize::MAX
}

/// Whether a block is within what the LZ4 decoder computes lengths and
/// positions for, given the longest run of `0xFF` bytes in it and the size of
/// the buffer.
pub open spec fn lz4_reads(run: nat, limit: nat) -> bool {
    &&& run <= MAX_LZ4_LENGTH_RUN
    &&& limit <= isize::MAX
    &&& limit + 255 * run + 273 <= usize::MAX
}

/// Whether a payload of `len` bytes is within what the Zstd encoder can
/// reserve a buffer for.
pub open spec fn zstd_takes(len: nat) -> bool {
    len + len / 256 + 64 <= isize::MAX
}

/// `lz4_flex::block::compress`: the block it returns decompresses, with the
/// payload's length as the limit, to the payload, unless it spells lengths that
/// are beyond the decoder. Which of the possible blocks it picks is left open.
#[verifier::external_body]
pub fn lz4_compress(raw: &[u8]) -> (block: Vec<u8>)
    requires
        lz4_takes(raw@.len()),
    ensures
        lz4_reads(longest_ff(block@), raw@.len()) ==> lz4_decompressed(block@, raw@.len()) == Some(
            raw@,
        ),
{
    lz4_flex::block::compress(raw)
}

/// `lz4_flex::block::decompress`: a function of the block and the limit. The
/// bounds keep its length arithmetic and its buffer within range.
#[verifier::external_body]
fn lz4_decompress(block: &[u8], limit: usize) -> (out: Option<Vec<u8>>)
    requires
        lz4_reads(longest_ff(block@), limit as nat),
    ensures
        codec_view(out) == lz4_decompressed(block@, limit as nat),
{
    lz4_flex::block::decompress(block, limit).ok()
}

/// `zstd::bulk::compress`: a frame it returns decompresses, into a buffer of the
/// payload's length, to the payload. Which frame the level leads to is left
/// open, and so is whether the encoder gets the memory it asks for.
#[verifier::external_body]
pub fn zstd_compress(raw: &[u8], level: i32) -> (out: Option<Vec<u8>>)
    requires
        MIN_ZSTD_LEVEL <= level <= MAX_ZSTD_LEVEL,
        zstd_takes(raw@.len()),
    ensures
        out matches Some(frame) ==> zstd_decompressed(frame@, raw@.len()) == Some(raw@),
{
    zstd::bulk::compress(raw, level).ok()
}

/// `zstd::bulk::decompress_to_buffer`: whether it succeeds, and what it then
/// writes to the front of the buffer, are functions of the frame and of the
/// buffer's length. It returns how many bytes it wrote. The formats that predate
/// Zstd 0.8, whose decoders allocate, are not compiled in.
#[verifier::external_body]
fn zstd_decompress(frame: &[u8], buffer: &mut Vec<u8>) -> (written: Option<usize>)
    ensures
        final(buffer)@.len() == old(buffer)@.len(),
        match written {
            Some(n) => n <= final(buffer)@.len() && zstd_decompressed(frame@, old(buffer)@.len())
                == Some(final(buffer)@.take(n as int)),
            None => zstd_decompressed(frame@, old(buffer)@.len()) is None,
        },
{
    zstd::bulk::decompress_to_buffer(frame, buffer.as_mut_slice()).ok()
}

/// The preamble for a payload of `len` bytes stored under the scheme `tag`.
pub open spec fn preamble(tag: u8, len: nat) -> Seq<u8> {
    seq![tag] + bytes::le_bytes(len, 8)
}

/// Whether a claim that `stored` bytes hold a payload of `claimed` bytes is
/// worth a buffer of that size.
pub open spec fn plausible(compression: Compression, claimed: nat, stored: nat) -> bool {
    &&& claimed <= MAX_EXPANSION * stored
    &&& compression is Off || claimed <= isize::MAX
}

/// Whether `stored` holds the payload `raw` under the given scheme, in a form
/// that is read back.
pub open spec fn stores(compression: Compression, stored: Seq<u8>, raw: Seq<u8>) -> bool {
    match compression {
        Compression::Off => stored == raw,
        Compression::Zstd { .. } => {
            &&& acceptable(compression, raw.len(), stored)
            &&& zstd_decompressed(stored, raw.len()) == Some(raw)
        },
        Compression::Lz4 => {
            &&& acceptable(compression, raw.len(), stored)
            &&& lz4_decompressed(stored, raw.len()) == Some(raw)
        },
    }
}

/// Whether `region` is a payload region for `raw` under the given scheme.
pub open spec fn seals(compression: Compression, region: Seq<u8>, raw: Seq<u8>) -> bool {
    &&& region.len() >= PREAMBLE_LEN
    &&& raw.len() <= u64::MAX
    &&& region.take(PREAMBLE_LEN as int) == preamble(scheme_tag(compression), raw.len())
    &&& stores(compression, region.skip(PREAMBLE_LEN as int), raw)
}

/// What is reported for a codec that is switched off.
pub open spec fn codec_off() -> error::PersistErrorView {
    error::PersistErrorView::Unsupported { feature: "compression"@, available_in: "v0.4"@ }
}

/// What a decompressor's result for a payload of `claimed` bytes amounts to.
pub open spec fn checked_length(
    found: Option<Seq<u8>>,
    claimed: nat,
    failed: &str,
) -> core::result::Result<Seq<u8>, error::PersistErrorView> {
    match found {
        None => Err(error::PersistErrorView::Compression { reason: failed@ }),
        Some(raw) => if raw.len() == claimed {
            Ok(raw)
        } else {
            Err(
                error::PersistErrorView::Compression {
                    reason: "decompressed length disagrees with the declared length"@,
                },
            )
        },
    }
}

/// The payload of `claimed` bytes that `stored` holds under the scheme `tag`,
/// or the first fault.
pub open spec fn unpacked(
    codecs: Codecs,
    tag: u8,
    claimed: nat,
    stored: Seq<u8>,
) -> core::result::Result<Seq<u8>, error::PersistErrorView> {
    if tag == 0 {
        if stored.len() < claimed {
            Err(
                error::PersistErrorView::TruncatedPayload {
                    needed: claimed,
                    found: stored.len(),
                },
            )
        } else if stored.len() > claimed {
            Err(error::invalid_payload("payload is longer than its declared length"))
        } else {
            Ok(stored)
        }
    } else if tag == 1 {
        if !codecs.zstd {
            Err(codec_off())
        } else if !plausible(Compression::Zstd { level: MIN_ZSTD_LEVEL }, claimed, stored.len()) {
            Err(error::invalid_payload("declared payload length is implausible"))
        } else {
            checked_length(
                zstd_decompressed(stored, claimed),
                claimed,
                "zstd decompression failed",
            )
        }
    } else if tag == 2 {
        if !codecs.lz4 {
            Err(codec_off())
        } else if !plausible(Compression::Lz4, claimed, stored.len()) {
            Err(error::invalid_payload("declared payload length is implausible"))
        } else if !lz4_reads(longest_ff(stored), claimed) {
            Err(error::PersistErrorView::Compression { reason: "lz4 decompression failed"@ })
        } else {
            checked_length(lz4_decompressed(stored, claimed), claimed, "lz4 decompression failed")
        }
    } else {
        Err(error::invalid_payload("unknown compression scheme tag"))
    }
}

/// The payload that a region of the given format version holds, or the first
/// fault. Version 1 stores the payload verbatim.
pub open spec fn opened(version: u32, region: Seq<u8>, codecs: Codecs) -> core::result::Result<
    Seq<u8>,
    error::PersistErrorView,
> {
    if version < FIRST_PREAMBLE_VERSION {
        Ok(region)
    } else if region.len() < PREAMBLE_LEN {
        Err(
            error::PersistErrorView::TruncatedPayload {
                needed: PREAMBLE_LEN as nat,
                found: region.len(),
            },
        )
    } else {
        unpacked(
            codecs,
            region[0],
            bytes::le_value(region.subrange(1, 9)),
            region.skip(PREAMBLE_LEN as int),
        )
    }
}

/// The length of the longest run of `0xFF` bytes.
fn longest_ff_run(run: &[u8]) -> (longest: usize)
    ensures
        longest == longest_ff(run@),
{
    let mut i: usize = 0;
    let mut current: usize = 0;
    let mut longest: usize = 0;
    while i < run.len()
        invariant
            i <= run@.len(),
            current <= i,
            longest <= i,
            current == trailing_ff(run@.take(i as int)),
            longest == longest_ff(run@.take(i as int)),
        decreases run@.len() - i,
    {
        assert(run@.take(i + 1).drop_last() =~= run@.take(i as int));
        if run[i] == 0xFF {
            current = current + 1;
        } else {
            current = 0;
        }
        if current > longest {
            longest = current;
        }
        i = i + 1;
    }
    assert(run@.take(i as int) =~= run@);
    longest
}

/// Whether a claimed payload length is worth a buffer of that size.
fn is_plausible(compression: Compression, claimed: u64, stored: usize) -> (out: bool)
    ensures
        out == plausible(compression, claimed as nat, stored as nat),
{
    assert(MAX_EXPANSION == 65_536);
    let most: u128 = MAX_EXPANSION as u128 * stored as u128;
    if claimed as u128 > most {
        return false;
    }
    match compression {
        Compression::Off => true,
        Compression::Zstd { .. } => claimed <= isize::MAX as u64,
        Compression::Lz4 => claimed <= isize::MAX as u64,
    }
}

/// Whether a block is within what the LZ4 decoder takes.
fn lz4_can_read(block: &[u8], limit: usize) -> (out: bool)
    ensures
        out == lz4_reads(longest_ff(block@), limit as nat),
{
    let run: usize = longest_ff_run(block);
    run <= MAX_LZ4_LENGTH_RUN && limit <= isize::MAX as usize && limit as u128 + 255 * run as u128
        + 273 <= usize::MAX as u128
}

/// What is reported for a payload of `len` bytes before a codec is asked.
pub open spec fn refusal(compression: Compression, len: nat) -> Option<error::PersistErrorView> {
    match compression {
        Compression::Off => None,
        Compression::Zstd { level } => if level < MIN_ZSTD_LEVEL || level > MAX_ZSTD_LEVEL {
            Some(
                error::PersistErrorView::Compression { reason: "zstd level is outside 1..=22"@ },
            )
        } else if !zstd_takes(len) {
            Some(
                error::PersistErrorView::Compression {
                    reason: "payload is too large to compress"@,
                },
            )
        } else {
            None
        },
        Compression::Lz4 => if !lz4_takes(len) {
            Some(
                error::PersistErrorView::Compression {
                    reason: "payload is too large to compress"@,
                },
            )
        } else {
            None
        },
    }
}

/// Whether `found` is what asking the Zstd encoder for `raw` at `level` may
/// have returned.
pub open spec fn zstd_returns(raw: Seq<u8>, level: i32, found: Option<Seq<u8>>) -> bool {
    exists|run: &[u8], out: Option<Vec<u8>>|
        run@ == raw && codec_view(out) == found && #[trigger] call_ensures(
            zstd_compress,
            (run, level),
            out,
        )
}

/// Whether `block` is what asking the LZ4 encoder for `raw` may have returned.
pub open spec fn lz4_returns(raw: Seq<u8>, block: Seq<u8>) -> bool {
    exists|run: &[u8], out: Vec<u8>|
        run@ == raw && out@ == block && #[trigger] call_ensures(lz4_compress, (run,), out)
}

/// What an encoder may return for `raw`: whatever form it picks, it
/// decompresses to `raw`, as far as the decoder takes it. Zstd is asked at the
/// level given, and only Zstd may return nothing.
pub open spec fn encodes(compression: Compression, raw: Seq<u8>, found: Option<Seq<u8>>) -> bool {
    match compression {
        Compression::Off => found == Some(raw),
        Compression::Zstd { level } => {
            &&& zstd_returns(raw, level, found)
            &&& found matches Some(frame) ==> zstd_decompressed(frame, raw.len()) == Some(raw)
        },
        Compression::Lz4 => {
            &&& found matches Some(block)
            &&& lz4_returns(raw, block)
            &&& lz4_reads(longest_ff(block), raw.len()) ==> lz4_decompressed(block, raw.len())
                == Some(raw)
        },
    }
}

/// Whether stored bytes for a payload of `len` bytes are within what is
/// accepted on load.
pub open spec fn acceptable(compression: Compression, len: nat, stored: Seq<u8>) -> bool {
    match compression {
        Compression::Off => true,
        Compression::Zstd { .. } => plausible(compression, len, stored.len()),
        Compression::Lz4 => {
            &&& plausible(compression, len, stored.len())
            &&& lz4_reads(longest_ff(stored), len)
        },
    }
}

/// What an encoder's result for a payload of `len` bytes amounts to.
pub open spec fn checked_form(
    compression: Compression,
    len: nat,
    found: Option<Seq<u8>>,
) -> core::result::Result<Seq<u8>, error::PersistErrorView> {
    match found {
        None => Err(
            error::PersistErrorView::Compression { reason: "payload could not be compressed"@ },
        ),
        Some(stored) => if acceptable(compression, len, stored) {
            Ok(stored)
        } else {
            Err(
                error::PersistErrorView::Compression {
                    reason: "compressed payload is not readable"@,
                },
            )
        },
    }
}

/// What building the payload region for `raw` may come to.
pub open spec fn seals_to(
    compression: Compression,
    raw: Seq<u8>,
    outcome: core::result::Result<Seq<u8>, error::PersistErrorView>,
) -> bool {
    match refusal(compression, raw.len()) {
        Some(e) => outcome == Err::<Seq<u8>, error::PersistErrorView>(e),
        None => exists|found: Option<Seq<u8>>| #[trigger]
            encodes(compression, raw, found) && outcome == match checked_form(
                compression,
                raw.len(),
                found,
            ) {
                Ok(stored) => Ok(preamble(scheme_tag(compression), raw.len()) + stored),
                Err(e) => Err(e),
            },
    }
}

/// Checks that an encoder's result for a payload of `len` bytes is accepted on
/// load.
///
/// # Errors
///
/// Returns [`PersistError::Compression`] if there is no result, or it is not
/// within what is accepted.
pub fn check_form(compression: Compression, len: usize, found: Option<Vec<u8>>) -> (out: Result<
    Vec<u8>,
>)
    ensures
        match out {
            Ok(stored) => checked_form(compression, len as nat, codec_view(found)) == Ok::<
                Seq<u8>,
                error::PersistErrorView,
            >(stored@),
            Err(e) => checked_form(compression, len as nat, codec_view(found)) == Err::<
                Seq<u8>,
                error::PersistErrorView,
            >(e@),
        },
{
    let stored = match found {
        Some(stored) => stored,
        None => return Err(
            PersistError::Compression { reason: "payload could not be compressed" },
        ),
    };
    let accepted: bool = match compression {
        Compression::Off => true,
        Compression::Zstd { .. } => is_plausible(compression, len as u64, stored.len()),
        Compression::Lz4 => is_plausible(compression, len as u64, stored.len())
            && lz4_can_read(stored.as_slice(), len),
    };
    if accepted {
        Ok(stored)
    } else {
        Err(PersistError::Compression { reason: "compressed payload is not readable" })
    }
}

/// Asks the encoder for a stored form of the payload.
fn encode(raw: &[u8], compression: Compression) -> (found: Option<Vec<u8>>)
    requires
        refusal(compression, raw@.len()) is None,
    ensures
        encodes(compression, raw@, codec_view(found)),
{
    match compression {
        Compression::Off => Some(slice_to_vec(raw)),
        Compression::Zstd { level } => {
            let found = zstd_compress(raw, level);
            assert(call_ensures(zstd_compress, (raw, level), found));
            found
        },
        Compression::Lz4 => {
            let block = lz4_compress(raw);
            assert(call_ensures(lz4_compress, (raw,), block));
            Some(block)
        },
    }
}

/// Refuses what no encoder is asked for.
fn check_request(compression: Compression, len: usize) -> (out: Result<()>)
    ensures
        match refusal(compression, len as nat) {
            Some(e) => out is Err && out->Err_0@ == e,
            None => out is Ok,
        },
{
    match compression {
        Compression::Off => Ok(()),
        Compression::Zstd { level } => {
            if level < MIN_ZSTD_LEVEL || level > MAX_ZSTD_LEVEL {
                return Err(PersistError::Compression { reason: "zstd level is outside 1..=22" });
            }
            let wide: u128 = len as u128;
            if wide + wide / 256 + 64 > isize::MAX as u128 {
                return Err(
                    PersistError::Compression { reason: "payload is too large to compress" },
                );
            }
            Ok(())
        },
        Compression::Lz4 => {
            if len as u128 * 110 > usize::MAX as u128 {
                return Err(
                    PersistError::Compression { reason: "payload is too large to compress" },
                );
            }
            Ok(())
        },
    }
}

/// Build the payload region for `raw`: the preamble and the stored bytes.
///
/// # Errors
///
/// Returns [`PersistError::Compression`] if the Zstd level is out of range, the
/// payload is too large, or the encoder's result is not one that is accepted on
/// load.
pub fn seal_payload(raw: &[u8], compression: Compression) -> (out: Result<Vec<u8>>)
    ensures
        match out {
            Ok(region) => seals_to(compression, raw@, Ok(region@)) && seals(
                compression,
                region@,
                raw@,
            ),
            Err(e) => seals_to(compression, raw@, Err(e@)),
        },
{
    match check_request(compression, raw.len()) {
        Ok(()) => {},
        Err(e) => return Err(e),
    }
    let found = encode(raw, compression);
    assert(encodes(compression, raw@, codec_view(found)));
    let stored = match check_form(compression, raw.len(), found) {
        Ok(stored) => stored,
        Err(e) => return Err(e),
    };
    let tag: u8 = match compression {
        Compression::Off => 0,
        Compression::Zstd { .. } => 1,
        Compression::Lz4 => 2,
    };
    let mut region: Vec<u8> = Vec::new();
    bytes::put_u8(&mut region, tag);
    bytes::put_u64(&mut region, raw.len() as u64);
    bytes::put_bytes(&mut region, stored.as_slice());
    proof {
        let head = preamble(tag, raw@.len());
        bytes::lemma_le_bytes_len(raw@.len(), 8);
        assert(region@ =~= head + stored@);
        assert(region@.take(9) =~= head);
        assert(region@.skip(9) =~= stored@);
    }
    Ok(region)
}

/// Checks a decompressor's result against the declared length of the payload.
///
/// # Errors
///
/// Returns [`PersistError::Compression`] if there is no result, or it has
/// another length.
pub fn check_length(found: Option<Vec<u8>>, claimed: usize, failed: &'static str) -> (out: Result<
    Vec<u8>,
>)
    ensures
        match out {
            Ok(raw) => checked_length(codec_view(found), claimed as nat, failed) == Ok::<
                Seq<u8>,
                error::PersistErrorView,
            >(raw@),
            Err(e) => checked_length(codec_view(found), claimed as nat, failed) == Err::<
                Seq<u8>,
                error::PersistErrorView,
            >(e@),
        },
{
    match found {
        None => Err(PersistError::Compression { reason: failed }),
        Some(raw) => if raw.len() == claimed {
            Ok(raw)
        } else {
            Err(
                PersistError::Compression {
                    reason: "decompressed length disagrees with the declared length",
                },
            )
        },
    }
}

/// Decompresses a Zstd frame that is to hold at most `limit` bytes.
fn unpack_zstd(frame: &[u8], limit: usize) -> (out: Option<Vec<u8>>)
    requires
        limit <= isize::MAX,
    ensures
        codec_view(out) == zstd_decompressed(frame@, limit as nat),
{
    let mut buffer: Vec<u8> = vec![0u8; limit];
    match zstd_decompress(frame, &mut buffer) {
        Some(n) => {
            buffer.truncate(n);
            Some(buffer)
        },
        None => None,
    }
}

/// Decompresses a stored payload.
fn unpack(codecs: Codecs, tag: u8, claimed: u64, stored: &[u8]) -> (out: Result<Vec<u8>>)
    ensures
        match out {
            Ok(raw) => unpacked(codecs, tag, claimed as nat, stored@) == Ok::<
                Seq<u8>,
                error::PersistErrorView,
            >(raw@),
            Err(e) => unpacked(codecs, tag, claimed as nat, stored@) == Err::<
                Seq<u8>,
                error::PersistErrorView,
            >(e@),
        },
{
    if tag == 0 {
        let found: u64 = stored.len() as u64;
        if found < claimed {
            Err(PersistError::TruncatedPayload { needed: claimed, found })
        } else if found > claimed {
            Err(
                PersistError::InvalidPayload {
                    reason: "payload is longer than its declared length",
                },
            )
        } else {
            Ok(slice_to_vec(stored))
        }
    } else if tag == 1 {
        if !codecs.zstd {
            return Err(
                PersistError::Unsupported { feature: "compression", available_in: "v0.4" },
            );
        }
        if !is_plausible(Compression::Zstd { level: MIN_ZSTD_LEVEL }, claimed, stored.len()) {
            return Err(
                PersistError::InvalidPayload { reason: "declared payload length is implausible" },
            );
        }
        let limit: usize = claimed as usize;
        check_length(unpack_zstd(stored, limit), limit, "zstd decompression failed")
    } else if tag == 2 {
        if !codecs.lz4 {
            return Err(
                PersistError::Unsupported { feature: "compression", available_in: "v0.4" },
            );
        }
        if !is_plausible(Compression::Lz4, claimed, stored.len()) {
            return Err(
                PersistError::InvalidPayload { reason: "declared payload length is implausible" },
            );
        }
        let limit: usize = claimed as usize;
        if !lz4_can_read(stored, limit) {
            return Err(PersistError::Compression { reason: "lz4 decompression failed" });
        }
        check_length(lz4_decompress(stored, limit), limit, "lz4 decompression failed")
    } else {
        Err(PersistError::InvalidPayload { reason: "unknown compression scheme tag" })
    }
}

/// Recover the payload from the payload region of a snapshot of the given
/// format version.
///
/// # Errors
///
/// - [`PersistError::TruncatedPayload`] if the region ends too early.
/// - [`PersistError::InvalidPayload`] if the region is too long, its scheme is
///   unknown or its declared length is implausible.
/// - [`PersistError::Unsupported`] if its codec is switched off.
/// - [`PersistError::Compression`] if it does not decompress to a payload of
///   the declared length.
pub fn open_payload(version: u32, region: &[u8], codecs: Codecs) -> (out: Result<Vec<u8>>)
    ensures
        match out {
            Ok(raw) => opened(version, region@, codecs) == Ok::<
                Seq<u8>,
                error::PersistErrorView,
            >(raw@),
            Err(e) => opened(version, region@, codecs) == Err::<
                Seq<u8>,
                error::PersistErrorView,
            >(e@),
        },
{
    if version < FIRST_PREAMBLE_VERSION {
        return Ok(slice_to_vec(region));
    }
    if region.len() < PREAMBLE_LEN {
        return Err(
            PersistError::TruncatedPayload {
                needed: PREAMBLE_LEN as u64,
                found: region.len() as u64,
            },
        );
    }
    let claimed: u64 = bytes::word_u64(slice_subrange(region, 1, 9));
    let stored = slice_subrange(region, PREAMBLE_LEN, region.len());
    assert(stored@ =~= region@.skip(9));
    unpack(codecs, region[0], claimed, stored)
}

/// A payload is recovered from its region, under every scheme.
pub proof fn payload_round_trips(
    version: u32,
    compression: Compression,
    region: Seq<u8>,
    raw: Seq<u8>,
    codecs: Codecs,
)
    requires
        version >= FIRST_PREAMBLE_VERSION,
        seals(compression, region, raw),
        codecs.handles(compression),
    ensures
        opened(version, region, codecs) == Ok::<Seq<u8>, error::PersistErrorView>(raw),
{
    let head = region.take(9);
    bytes::lemma_le_bytes_len(raw.len(), 8);
    bytes::lemma_pow256_widths();
    bytes::lemma_le_value_of_bytes(raw.len(), 8);
    assert(region[0] == head[0]);
    assert(region.subrange(1, 9) =~= bytes::le_bytes(raw.len(), 8)) by {
        assert forall|i: int| 0 <= i < 8 implies region.subrange(1, 9)[i] == bytes::le_bytes(
            raw.len(),
            8,
        )[i] by {
            assert(region[i + 1] == head[i + 1]);
            assert(head[i + 1] == preamble(scheme_tag(compression), raw.len())[i + 1]);
        }
    }
}

/// A region whose codec is switched off is reported as unsupported.
pub proof fn switched_off_codec_is_reported(
    version: u32,
    compression: Compression,
    region: Seq<u8>,
    raw: Seq<u8>,
    codecs: Codecs,
)
    requires
        version >= FIRST_PREAMBLE_VERSION,
        seals(compression, region, raw),
        !codecs.handles(compression),
    ensures
        opened(version, region, codecs) == Err::<Seq<u8>, error::PersistErrorView>(codec_off()),
{
    assert(region[0] == region.take(9)[0]);
    assert(region[0] == preamble(scheme_tag(compression), raw.len())[0]);
}

/// A region that stores its payload uncompressed and is cut off anywhere is
/// rejected as truncated.
pub proof fn truncated_payload_is_rejected(
    version: u32,
    region: Seq<u8>,
    raw: Seq<u8>,
    codecs: Codecs,
    cut: int,
)
    requires
        version >= FIRST_PREAMBLE_VERSION,
        seals(Compression::Off, region, raw),
        0 <= cut < region.len(),
    ensures
        opened(version, region.take(cut), codecs) matches Err(
            error::PersistErrorView::TruncatedPayload { .. },
        ),
{
    if cut >= 9 {
        payload_round_trips(version, Compression::Off, region, raw, codecs);
        assert(region.take(cut).subrange(1, 9) =~= region.subrange(1, 9));
        assert(region.take(cut).skip(9).len() == cut - 9);
        assert(region.skip(9) == raw);
        assert(bytes::le_value(region.subrange(1, 9)) == raw.len());
    }
}

} // verus!
