//! The crate's error type.

use std::path::PathBuf;

use iqdb_types::IqdbError;
use vstd::prelude::*;

use crate::text;
use crate::types::DistanceMetric;

verus! {

/// `iqdb_types::IqdbError`, carried through unread.
#[verifier::external_type_specification]
#[verifier::external_body]
pub struct ExIqdbError(IqdbError);

/// `std::path::PathBuf`, carried through unread.
#[verifier::external_type_specification]
#[verifier::external_body]
pub struct ExPathBuf(PathBuf);

/// `std::io::Error`, carried through unread.
#[verifier::external_type_specification]
#[verifier::external_body]
pub struct ExIoError(std::io::Error);

/// An error from a save, load, log or format operation.
///
/// Each variant identifies one specific failure.
#[non_exhaustive]
#[derive(Debug)]
pub enum PersistError {
    /// An OS-level I/O failure.
    Io {
        /// The path whose I/O operation failed.
        path: PathBuf,
        /// The underlying I/O error.
        source: std::io::Error,
    },
    /// The leading eight bytes are not the expected magic.
    BadMagic {
        /// The eight bytes actually found.
        found: [u8; 8],
    },
    /// The declared format version is not one this build reads.
    UnsupportedVersion {
        /// The version the file declared.
        found: u32,
        /// The oldest format version this build reads.
        supported: u32,
    },
    /// The CRC32 of the payload region is not the one in the header.
    ChecksumMismatch {
        /// The CRC32 the header claimed.
        expected: u32,
        /// The CRC32 computed over the payload region.
        computed: u32,
    },
    /// The file ended before the full header could be read.
    TruncatedHeader {
        /// Bytes the parser still needed.
        needed: usize,
        /// Bytes that were available.
        found: usize,
    },
    /// The file ended before the full payload could be read.
    TruncatedPayload {
        /// Payload bytes the parser still needed.
        needed: u64,
        /// Payload bytes that were available.
        found: u64,
    },
    /// The header's metric tag is not in the known set.
    InvalidMetric {
        /// The on-disk metric tag byte.
        tag: u8,
    },
    /// A metric that has no on-disk tag in this build.
    UnsupportedMetric {
        /// The metric that could not be encoded.
        metric: DistanceMetric,
    },
    /// The header's index-type tag is not the caller's.
    InvalidIndexType {
        /// The index-type tag the file declared.
        found: String,
        /// The index-type tag the caller requires.
        expected: &'static str,
    },
    /// Bytes that passed their checks do not describe a valid value.
    InvalidPayload {
        /// Short, stable identifier for the structural check that failed.
        reason: &'static str,
    },
    /// A payload could not be compressed or decompressed.
    Compression {
        /// Short, stable identifier for what went wrong.
        reason: &'static str,
    },
    /// The wrapped index rejected a construction step or a mutation.
    IndexBuild(IqdbError),
    /// The configuration asked for a feature that is not enabled.
    Unsupported {
        /// Short, stable identifier for the feature.
        feature: &'static str,
        /// The version the feature appeared in.
        available_in: &'static str,
    },
}

/// A specialized `Result` whose error is [`PersistError`].
pub type Result<T> = core::result::Result<T, PersistError>;

/// What a [`PersistError`] reports, mathematically.
#[verifier::ext_equal]
pub enum PersistErrorView {
    /// An OS-level I/O failure.
    Io {
        /// The path whose I/O operation failed.
        path: PathBuf,
        /// The underlying I/O error.
        source: std::io::Error,
    },
    /// The leading eight bytes are not the expected magic.
    BadMagic {
        /// The bytes actually found.
        found: Seq<u8>,
    },
    /// The declared format version is not one this build reads.
    UnsupportedVersion {
        /// The version the file declared.
        found: u32,
        /// The oldest format version this build reads.
        supported: u32,
    },
    /// The CRC32 of the payload region is not the one in the header.
    ChecksumMismatch {
        /// The CRC32 the header claimed.
        expected: u32,
        /// The CRC32 of the payload region.
        computed: u32,
    },
    /// The file ended before the full header could be read.
    TruncatedHeader {
        /// Bytes the parser still needed.
        needed: nat,
        /// Bytes that were available.
        found: nat,
    },
    /// The file ended before the full payload could be read.
    TruncatedPayload {
        /// Payload bytes the parser still needed.
        needed: nat,
        /// Payload bytes that were available.
        found: nat,
    },
    /// The header's metric tag is not in the known set.
    InvalidMetric {
        /// The on-disk metric tag byte.
        tag: u8,
    },
    /// A metric that has no on-disk tag in this build.
    UnsupportedMetric {
        /// The metric that could not be encoded.
        metric: DistanceMetric,
    },
    /// The header's index-type tag is not the caller's.
    InvalidIndexType {
        /// The index-type tag the file declared.
        found: Seq<char>,
        /// The index-type tag the caller requires.
        expected: Seq<char>,
    },
    /// Bytes that passed their checks do not describe a valid value.
    InvalidPayload {
        /// The structural check that failed.
        reason: Seq<char>,
    },
    /// A payload could not be compressed or decompressed.
    Compression {
        /// What went wrong.
        reason: Seq<char>,
    },
    /// The wrapped index rejected a construction step or a mutation.
    IndexBuild(IqdbError),
    /// The configuration asked for a feature that is not enabled.
    Unsupported {
        /// The feature.
        feature: Seq<char>,
        /// The version the feature appeared in.
        available_in: Seq<char>,
    },
}

impl View for PersistError {
    type V = PersistErrorView;

    open spec fn view(&self) -> PersistErrorView {
        match *self {
            PersistError::Io { path, source } => PersistErrorView::Io { path, source },
            PersistError::BadMagic { found } => PersistErrorView::BadMagic { found: found@ },
            PersistError::UnsupportedVersion { found, supported } => {
                PersistErrorView::UnsupportedVersion { found, supported }
            },
            PersistError::ChecksumMismatch { expected, computed } => {
                PersistErrorView::ChecksumMismatch { expected, computed }
            },
            PersistError::TruncatedHeader { needed, found } => PersistErrorView::TruncatedHeader {
                needed: needed as nat,
                found: found as nat,
            },
            PersistError::TruncatedPayload { needed, found } => {
                PersistErrorView::TruncatedPayload { needed: needed as nat, found: found as nat }
            },
            PersistError::InvalidMetric { tag } => PersistErrorView::InvalidMetric { tag },
            PersistError::UnsupportedMetric { metric } => PersistErrorView::UnsupportedMetric {
                metric,
            },
            PersistError::InvalidIndexType { found, expected } => {
                PersistErrorView::InvalidIndexType { found: found@, expected: expected@ }
            },
            PersistError::InvalidPayload { reason } => PersistErrorView::InvalidPayload {
                reason: reason@,
            },
            PersistError::Compression { reason } => PersistErrorView::Compression {
                reason: reason@,
            },
            PersistError::IndexBuild(error) => PersistErrorView::IndexBuild(error),
            PersistError::Unsupported { feature, available_in } => PersistErrorView::Unsupported {
                feature: feature@,
                available_in: available_in@,
            },
        }
    }
}

/// An [`PersistErrorView::InvalidPayload`] for `reason`.
pub open spec fn invalid_payload(reason: &str) -> PersistErrorView {
    PersistErrorView::InvalidPayload { reason: reason@ }
}

/// The message for an I/O failure on the path shown as `path`, caused by
/// `cause`.
pub open spec fn io_text(path: Seq<char>, cause: Seq<char>) -> Seq<char> {
    "I/O error on "@ + path + ": "@ + cause
}

/// The name of a metric.
pub open spec fn metric_name(metric: DistanceMetric) -> Seq<char> {
    match metric {
        DistanceMetric::Cosine => "Cosine"@,
        DistanceMetric::DotProduct => "DotProduct"@,
        DistanceMetric::Euclidean => "Euclidean"@,
        DistanceMetric::Manhattan => "Manhattan"@,
        DistanceMetric::Hamming => "Hamming"@,
        DistanceMetric::Other => "Other"@,
    }
}

/// The message for a file that declares another index type than expected, both
/// given in quotes.
pub open spec fn index_type_text(declared: Seq<char>, expected: Seq<char>) -> Seq<char> {
    "index type mismatch: file declared "@ + declared + ", caller expected "@ + expected
}

/// Whether `text` is the message of `error`. For an I/O failure it names the
/// path as [`shown_path`] shows it. For the variants that wrap an error of
/// another crate, the message ends in that error's own rendering.
pub open spec fn is_message(error: PersistError, text: Seq<char>) -> bool {
    match error {
        PersistError::Io { path, source } => exists|shown: String, cause: String|
            {
                &&& call_ensures(shown_path, (&path,), shown)
                &&& vstd::string::to_string_from_display_ensures::<std::io::Error>(&source, cause)
                &&& text == #[trigger] io_text(shown@, cause@)
            },
        PersistError::BadMagic { found } => text == "bad magic: not an iqdb snapshot (found "@
            + text::byte_list(found@) + ")"@,
        PersistError::UnsupportedVersion { found, supported } => text
            == "unsupported format version: found "@ + text::decimal(found as nat) + ", supported "@
            + text::decimal(supported as nat),
        PersistError::ChecksumMismatch { expected, computed } => text
            == "checksum mismatch: header expected "@ + text::hex32(expected) + ", computed "@
            + text::hex32(computed),
        PersistError::TruncatedHeader { needed, found } => text == "truncated header: needed "@
            + text::decimal(needed as nat) + " bytes, found "@ + text::decimal(found as nat),
        PersistError::TruncatedPayload { needed, found } => text == "truncated payload: needed "@
            + text::decimal(needed as nat) + " bytes, found "@ + text::decimal(found as nat),
        PersistError::InvalidMetric { tag } => text == "invalid metric tag: "@ + text::decimal(
            tag as nat,
        ),
        PersistError::UnsupportedMetric { metric } => text
            == "unsupported metric for this build: "@ + metric_name(metric),
        PersistError::InvalidIndexType { found, expected } => text == index_type_text(
            text::debug_quoted(found@),
            text::debug_quoted(expected@),
        ),
        PersistError::InvalidPayload { reason } => text == "invalid payload: "@ + reason@,
        PersistError::Compression { reason } => text == "compression error: "@ + reason@,
        PersistError::IndexBuild(error) => exists|cause: String|
            {
                &&& #[trigger] vstd::string::to_string_from_display_ensures::<IqdbError>(
                    &error,
                    cause,
                )
                &&& text == "index construction failed: "@ + cause@
            },
        PersistError::Unsupported { feature, available_in } => text
            == "feature not supported in this build: "@ + feature@ + " (available in "@
            + available_in@ + ")"@,
    }
}

/// How a path is shown to people, by `std::path::Path::display`. Nothing is
/// claimed of the text: how unrepresentable parts of a path come out is left
/// to std.
#[verifier::external_body]
pub fn shown_path(path: &PathBuf) -> String {
    path.display().to_string()
}

/// The message for an I/O failure on the path shown as `path`, caused by
/// `cause`.
pub fn io_message(path: &str, cause: &str) -> (out: String)
    ensures
        out@ == io_text(path@, cause@),
{
    let mut out = String::new();
    out.append("I/O error on ");
    out.append(path);
    out.append(": ");
    out.append(cause);
    assert(out@ =~= io_text(path@, cause@));
    out
}

/// The message for a file that declares another index type than expected, both
/// given in quotes.
pub fn index_type_message(declared: &str, expected: &str) -> (out: String)
    ensures
        out@ == index_type_text(declared@, expected@),
{
    let mut out = String::new();
    out.append("index type mismatch: file declared ");
    out.append(declared);
    out.append(", caller expected ");
    out.append(expected);
    assert(out@ =~= index_type_text(declared@, expected@));
    out
}

/// The name of a metric.
pub fn metric_text(metric: DistanceMetric) -> (out: &'static str)
    ensures
        out@ == metric_name(metric),
{
    match metric {
        DistanceMetric::Cosine => "Cosine",
        DistanceMetric::DotProduct => "DotProduct",
        DistanceMetric::Euclidean => "Euclidean",
        DistanceMetric::Manhattan => "Manhattan",
        DistanceMetric::Hamming => "Hamming",
        DistanceMetric::Other => "Other",
    }
}

/// Appends a label and a decimal number.
fn push_labelled(out: &mut String, label: &str, n: u64)
    ensures
        final(out)@ == old(out)@ + label@ + text::decimal(n as nat),
{
    out.append(label);
    text::push_decimal(out, n as u128);
}

impl PersistError {
    /// The error's message, for people.
    pub fn to_string(&self) -> (out: String)
        ensures
            is_message(*self, out@),
    {
        let mut out = String::new();
        assert(out@ =~= Seq::<char>::empty());
        match self {
            PersistError::Io { path, source } => {
                let shown = shown_path(path);
                let cause = source.to_string();
                let message = io_message(shown.as_str(), cause.as_str());
                assert(message@ == io_text(shown@, cause@));
                return message;
            },
            PersistError::BadMagic { found } => {
                out.append("bad magic: not an iqdb snapshot (found ");
                text::push_byte_list(&mut out, found.as_slice());
                out.append(")");
                assert(out@ =~= "bad magic: not an iqdb snapshot (found "@ + text::byte_list(found@)
                    + ")"@);
            },
            PersistError::UnsupportedVersion { found, supported } => {
                push_labelled(&mut out, "unsupported format version: found ", *found as u64);
                push_labelled(&mut out, ", supported ", *supported as u64);
                assert(out@ =~= "unsupported format version: found "@ + text::decimal(*found as nat)
                    + ", supported "@ + text::decimal(*supported as nat));
            },
            PersistError::ChecksumMismatch { expected, computed } => {
                out.append("checksum mismatch: header expected ");
                text::push_hex32(&mut out, *expected);
                out.append(", computed ");
                text::push_hex32(&mut out, *computed);
                assert(out@ =~= "checksum mismatch: header expected "@ + text::hex32(*expected)
                    + ", computed "@ + text::hex32(*computed));
            },
            PersistError::TruncatedHeader { needed, found } => {
                push_labelled(&mut out, "truncated header: needed ", *needed as u64);
                push_labelled(&mut out, " bytes, found ", *found as u64);
                assert(out@ =~= "truncated header: needed "@ + text::decimal(*needed as nat)
                    + " bytes, found "@ + text::decimal(*found as nat));
            },
            PersistError::TruncatedPayload { needed, found } => {
                push_labelled(&mut out, "truncated payload: needed ", *needed);
                push_labelled(&mut out, " bytes, found ", *found);
                assert(out@ =~= "truncated payload: needed "@ + text::decimal(*needed as nat)
                    + " bytes, found "@ + text::decimal(*found as nat));
            },
            PersistError::InvalidMetric { tag } => {
                push_labelled(&mut out, "invalid metric tag: ", *tag as u64);
                assert(out@ =~= "invalid metric tag: "@ + text::decimal(*tag as nat));
            },
            PersistError::UnsupportedMetric { metric } => {
                out.append("unsupported metric for this build: ");
                out.append(metric_text(*metric));
                assert(out@ =~= "unsupported metric for this build: "@ + metric_name(*metric));
            },
            PersistError::InvalidIndexType { found, expected } => {
                let declared = text::quote(found.as_str());
                let wanted = text::quote(expected);
                return index_type_message(declared.as_str(), wanted.as_str());
            },
            PersistError::InvalidPayload { reason } => {
                out.append("invalid payload: ");
                out.append(reason);
                assert(out@ =~= "invalid payload: "@ + reason@);
            },
            PersistError::Compression { reason } => {
                out.append("compression error: ");
                out.append(reason);
                assert(out@ =~= "compression error: "@ + reason@);
            },
            PersistError::IndexBuild(error) => {
                let cause = error.to_string();
                out.append("index construction failed: ");
                out.append(cause.as_str());
                assert(out@ =~= "index construction failed: "@ + cause@);
            },
            PersistError::Unsupported { feature, available_in } => {
                out.append("feature not supported in this build: ");
                out.append(feature);
                out.append(" (available in ");
                out.append(available_in);
                out.append(")");
                assert(out@ =~= "feature not supported in this build: "@ + feature@
                    + " (available in "@ + available_in@ + ")"@);
            },
        }
        out
    }

    /// The name of the variant.
    pub open spec fn kind_name(self) -> Seq<char> {
        match self {
            PersistError::Io { .. } => "Io"@,
            PersistError::BadMagic { .. } => "BadMagic"@,
            PersistError::UnsupportedVersion { .. } => "UnsupportedVersion"@,
            PersistError::ChecksumMismatch { .. } => "ChecksumMismatch"@,
            PersistError::TruncatedHeader { .. } => "TruncatedHeader"@,
            PersistError::TruncatedPayload { .. } => "TruncatedPayload"@,
            PersistError::InvalidMetric { .. } => "InvalidMetric"@,
            PersistError::UnsupportedMetric { .. } => "UnsupportedMetric"@,
            PersistError::InvalidIndexType { .. } => "InvalidIndexType"@,
            PersistError::InvalidPayload { .. } => "InvalidPayload"@,
            PersistError::Compression { .. } => "Compression"@,
            PersistError::IndexBuild(_) => "IndexBuild"@,
            PersistError::Unsupported { .. } => "Unsupported"@,
        }
    }

    /// The name of the variant, for structured error events.
    pub fn kind(&self) -> (out: &'static str)
        ensures
            out@ == self.kind_name(),
    {
        match self {
            PersistError::Io { .. } => "Io",
            PersistError::BadMagic { .. } => "BadMagic",
            PersistError::UnsupportedVersion { .. } => "UnsupportedVersion",
            PersistError::ChecksumMismatch { .. } => "ChecksumMismatch",
            PersistError::TruncatedHeader { .. } => "TruncatedHeader",
            PersistError::TruncatedPayload { .. } => "TruncatedPayload",
            PersistError::InvalidMetric { .. } => "InvalidMetric",
            PersistError::UnsupportedMetric { .. } => "UnsupportedMetric",
            PersistError::InvalidIndexType { .. } => "InvalidIndexType",
            PersistError::InvalidPayload { .. } => "InvalidPayload",
            PersistError::Compression { .. } => "Compression",
            PersistError::IndexBuild(_) => "IndexBuild",
            PersistError::Unsupported { .. } => "Unsupported",
        }
    }

    /// A fixed sentence for the variant.
    pub open spec fn caption_text(self) -> Seq<char> {
        match self {
            PersistError::Io { .. } => "OS-level I/O failure on a snapshot file"@,
            PersistError::BadMagic { .. } => "file is not an iqdb snapshot"@,
            PersistError::UnsupportedVersion {
                ..
            } => "snapshot format version is not supported by this build"@,
            PersistError::ChecksumMismatch { .. } => "payload CRC32 does not match the header"@,
            PersistError::TruncatedHeader {
                ..
            } => "file ended before the full header could be read"@,
            PersistError::TruncatedPayload {
                ..
            } => "file ended before the full payload could be read"@,
            PersistError::InvalidMetric {
                ..
            } => "metric tag does not correspond to any known distance metric"@,
            PersistError::UnsupportedMetric {
                ..
            } => "distance metric has no on-disk tag in this build"@,
            PersistError::InvalidIndexType {
                ..
            } => "header's index-type tag does not match the caller's I"@,
            PersistError::InvalidPayload {
                ..
            } => "payload bytes decoded to a structurally invalid index"@,
            PersistError::Compression {
                ..
            } => "payload could not be compressed or decompressed"@,
            PersistError::IndexBuild(
                _,
            ) => "a downstream Index::new or insert returned an error"@,
            PersistError::Unsupported {
                ..
            } => "the requested feature lands in a later version of iqdb-persist"@,
        }
    }

    /// A fixed sentence for the variant, for structured error events.
    pub fn caption(&self) -> (out: &'static str)
        ensures
            out@ == self.caption_text(),
    {
        match self {
            PersistError::Io { .. } => "OS-level I/O failure on a snapshot file",
            PersistError::BadMagic { .. } => "file is not an iqdb snapshot",
            PersistError::UnsupportedVersion {
                ..
            } => "snapshot format version is not supported by this build",
            PersistError::ChecksumMismatch { .. } => "payload CRC32 does not match the header",
            PersistError::TruncatedHeader {
                ..
            } => "file ended before the full header could be read",
            PersistError::TruncatedPayload {
                ..
            } => "file ended before the full payload could be read",
            PersistError::InvalidMetric {
                ..
            } => "metric tag does not correspond to any known distance metric",
            PersistError::UnsupportedMetric {
                ..
            } => "distance metric has no on-disk tag in this build",
            PersistError::InvalidIndexType {
                ..
            } => "header's index-type tag does not match the caller's I",
            PersistError::InvalidPayload {
                ..
            } => "payload bytes decoded to a structurally invalid index",
            PersistError::Compression {
                ..
            } => "payload could not be compressed or decompressed",
            PersistError::IndexBuild(_) => "a downstream Index::new or insert returned an error",
            PersistError::Unsupported {
                ..
            } => "the requested feature lands in a later version of iqdb-persist",
        }
    }
}

impl vstd::std_specs::convert::FromSpecImpl<IqdbError> for PersistError {
    open spec fn obeys_from_spec() -> bool {
        true
    }

    open spec fn from_spec(value: IqdbError) -> PersistError {
        PersistError::IndexBuild(value)
    }
}

impl From<IqdbError> for PersistError {
    fn from(value: IqdbError) -> (error: PersistError) {
        PersistError::IndexBuild(value)
    }
}

} // verus!
