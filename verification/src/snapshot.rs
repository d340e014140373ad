//! Snapshot files: a header, and behind it the payload region it vouches for.

use vstd::prelude::*;

use crate::checksum;
use crate::compression;
use crate::compression::Codecs;
use crate::config::Compression;
use crate::error;
use crate::error::{PersistError, Result};
use crate::format::{FileHeader, CURRENT_VERSION, MAGIC};
use crate::persistable::Persistable;
use crate::types::DistanceMetric;

verus! {

/// What a snapshot's header says of the index in it.
#[derive(Debug, Clone, Copy)]
pub struct Shape {
    /// Stable identifier for the concrete index type.
    pub index_type: &'static str,
    /// The dimensionality.
    pub dim: usize,
    /// The metric.
    pub metric: DistanceMetric,
    /// The vector count.
    pub n_vectors: usize,
}

impl Shape {
    /// The header of a snapshot of such an index, over the given payload
    /// region.
    pub open spec fn header(self, region: Seq<u8>) -> crate::format::FileHeaderView {
        crate::format::FileHeaderView {
            magic: MAGIC@,
            version: CURRENT_VERSION,
            index_type: self.index_type@,
            dim: self.dim as nat,
            metric: self.metric,
            n_vectors: self.n_vectors as nat,
            crc32: checksum::crc32(region),
        }
    }

    /// The bytes of a snapshot of such an index, with the given payload region.
    pub open spec fn file(self, region: Seq<u8>) -> Seq<u8> {
        crate::format::header_bytes(self.header(region)) + region
    }

    /// What framing a payload may come to: a snapshot file, unless the payload
    /// cannot be sealed or the metric has no tag.
    pub open spec fn frames(
        self,
        scheme: Compression,
        payload: Seq<u8>,
        outcome: core::result::Result<Seq<u8>, error::PersistErrorView>,
    ) -> bool {
        exists|sealed: core::result::Result<Seq<u8>, error::PersistErrorView>| #[trigger]
            compression::seals_to(scheme, payload, sealed) && self.frame_outcome(
                scheme,
                payload,
                sealed,
                outcome,
            )
    }

    /// What framing a payload comes to, given what sealing it came to.
    pub open spec fn frame_outcome(
        self,
        scheme: Compression,
        payload: Seq<u8>,
        sealed: core::result::Result<Seq<u8>, error::PersistErrorView>,
        outcome: core::result::Result<Seq<u8>, error::PersistErrorView>,
    ) -> bool {
        match sealed {
            Err(e) => outcome == Err::<Seq<u8>, error::PersistErrorView>(e),
            Ok(region) => if crate::format::metric_tag(self.metric) is None {
                outcome == Err::<Seq<u8>, error::PersistErrorView>(
                    error::PersistErrorView::UnsupportedMetric { metric: self.metric },
                )
            } else {
                &&& compression::seals(scheme, region, payload)
                &&& outcome == Ok::<Seq<u8>, error::PersistErrorView>(self.file(region))
            },
        }
    }

    /// The first disagreement between a header and an index of this shape.
    pub open spec fn disagreement(self, header: crate::format::FileHeaderView) -> Option<
        error::PersistErrorView,
    > {
        if self.dim != header.dim {
            Some(
                error::invalid_payload("header dim disagrees with payload-reconstructed index"),
            )
        } else if self.metric != header.metric {
            Some(
                error::invalid_payload("header metric disagrees with payload-reconstructed index"),
            )
        } else if self.n_vectors != header.n_vectors {
            Some(
                error::invalid_payload(
                    "header n_vectors disagrees with payload-reconstructed index",
                ),
            )
        } else {
            None
        }
    }
}

/// The shape of an index.
pub open spec fn shape_of<I: Persistable>(index: I) -> Shape {
    Shape {
        index_type: I::INDEX_TYPE,
        dim: index.profile().dim,
        metric: index.profile().metric,
        n_vectors: index.profile().count,
    }
}

/// What taking a snapshot of `index` may come to.
pub open spec fn snapshots<I: Persistable>(
    index: I,
    scheme: Compression,
    out: Result<Vec<u8>>,
) -> bool {
    exists|saved: core::result::Result<Seq<u8>, PersistError>| #[trigger]
        index.saves(saved) && snapshot_outcome(index, scheme, saved, out)
}

/// What taking a snapshot comes to, given what serializing the index came to.
pub open spec fn snapshot_outcome<I: Persistable>(
    index: I,
    scheme: Compression,
    saved: core::result::Result<Seq<u8>, PersistError>,
    out: Result<Vec<u8>>,
) -> bool {
    match saved {
        Err(e) => out == Err::<Vec<u8>, PersistError>(e),
        Ok(payload) => match out {
            Ok(file) => shape_of(index).frames(scheme, payload, Ok(file@)),
            Err(e) => shape_of(index).frames(scheme, payload, Err(e@)),
        },
    }
}

/// What opening a snapshot file as an `expected` index gives: its header and
/// its payload, or the first fault.
pub open spec fn opened_file(
    file: Seq<u8>,
    expected: Seq<char>,
    codecs: Codecs,
) -> core::result::Result<(crate::format::FileHeaderView, Seq<u8>), error::PersistErrorView> {
    match crate::format::parse_header(file) {
        Err(e) => Err(e),
        Ok((header, region)) => if header.index_type != expected {
            Err(
                error::PersistErrorView::InvalidIndexType {
                    found: header.index_type,
                    expected,
                },
            )
        } else if checksum::crc32(region) != header.crc32 {
            Err(
                error::PersistErrorView::ChecksumMismatch {
                    expected: header.crc32,
                    computed: checksum::crc32(region),
                },
            )
        } else {
            match compression::opened(header.version, region, codecs) {
                Err(e) => Err(e),
                Ok(payload) => Ok((header, payload)),
            }
        },
    }
}

/// What loading an index from a snapshot file may come to.
pub open spec fn restores<I: Persistable>(
    file: Seq<u8>,
    codecs: Codecs,
    out: Result<I>,
) -> bool {
    match opened_file(file, I::INDEX_TYPE@, codecs) {
        Err(e) => out is Err && out->Err_0@ == e,
        Ok((header, payload)) => rebuilds(header, payload, out),
    }
}

/// What rebuilding an index from the payload and checking it against the
/// header may come to.
pub open spec fn rebuilds<I: Persistable>(
    header: crate::format::FileHeaderView,
    payload: Seq<u8>,
    out: Result<I>,
) -> bool {
    exists|loaded: Result<I>| #[trigger]
        I::loads(payload, loaded) && restore_outcome(header, loaded, out)
}

/// What loading comes to, given what rebuilding the index came to.
pub open spec fn restore_outcome<I: Persistable>(
    header: crate::format::FileHeaderView,
    loaded: Result<I>,
    out: Result<I>,
) -> bool {
    match loaded {
        Err(e) => out == Err::<I, PersistError>(e),
        Ok(index) => match shape_of(index).disagreement(header) {
            Some(e) => out is Err && out->Err_0@ == e,
            None => out == Ok::<I, PersistError>(index),
        },
    }
}

/// Build the snapshot file for an index of the given shape and payload.
///
/// # Errors
///
/// - [`PersistError::Compression`] if the payload cannot be compressed.
/// - [`PersistError::UnsupportedMetric`] if the metric has no on-disk tag.
pub fn frame_payload(payload: &[u8], shape: Shape, scheme: Compression) -> (out: Result<Vec<u8>>)
    ensures
        match out {
            Ok(file) => shape.frames(scheme, payload@, Ok(file@)),
            Err(e) => shape.frames(scheme, payload@, Err(e@)),
        },
{
    let region = match compression::seal_payload(payload, scheme) {
        Ok(region) => region,
        Err(e) => {
            assert(shape.frame_outcome(scheme, payload@, Err(e@), Err(e@)));
            return Err(e);
        },
    };
    assert(compression::seals_to(scheme, payload@, Ok(region@)));
    let header = FileHeader {
        magic: MAGIC,
        version: CURRENT_VERSION,
        index_type: String::from_str(shape.index_type),
        dim: shape.dim,
        metric: shape.metric,
        n_vectors: shape.n_vectors,
        crc32: checksum::compute(region.as_slice()),
    };
    let mut file: Vec<u8> = Vec::new();
    match crate::format::write_header(&mut file, &header) {
        Ok(()) => {},
        Err(e) => {
            assert(shape.frame_outcome(scheme, payload@, Ok(region@), Err(e@)));
            return Err(e);
        },
    }
    crate::format::write_all(&mut file, region.as_slice());
    proof {
        assert(header@ =~= shape.header(region@));
        assert(file@ =~= shape.file(region@));
        assert(shape.frame_outcome(scheme, payload@, Ok(region@), Ok(file@)));
    }
    Ok(file)
}

/// Serialize an index and build its snapshot file.
///
/// # Errors
///
/// Those of [`Persistable::save_to`] and [`frame_payload`].
pub fn write_snapshot<I: Persistable>(index: &I, scheme: Compression) -> (out: Result<Vec<u8>>)
    ensures
        snapshots(*index, scheme, out),
{
    let mut payload: Vec<u8> = Vec::new();
    match index.save_to(&mut payload) {
        Ok(()) => {},
        Err(e) => {
            let out = Err(e);
            assert(snapshot_outcome(*index, scheme, Err(e), out));
            return out;
        },
    }
    assert(payload@.skip(0) =~= payload@);
    let shape = Shape {
        index_type: I::INDEX_TYPE,
        dim: index.dim(),
        metric: index.metric(),
        n_vectors: index.len(),
    };
    let out = frame_payload(payload.as_slice(), shape, scheme);
    assert(snapshot_outcome(*index, scheme, Ok(payload@), out));
    out
}

/// Open a snapshot file as an `expected` index: its header and its payload.
///
/// # Errors
///
/// - Those of [`crate::format::read_header`].
/// - [`PersistError::InvalidIndexType`] if the file holds another kind of
///   index.
/// - [`PersistError::ChecksumMismatch`] if the payload region is damaged.
/// - Those of [`compression::open_payload`].
pub fn open_file(file: &[u8], expected: &'static str, codecs: Codecs) -> (out: Result<
    (FileHeader, Vec<u8>),
>)
    ensures
        match out {
            Ok((header, payload)) => opened_file(file@, expected@, codecs) == Ok::<
                (crate::format::FileHeaderView, Seq<u8>),
                error::PersistErrorView,
            >((header@, payload@)),
            Err(e) => opened_file(file@, expected@, codecs) == Err::<
                (crate::format::FileHeaderView, Seq<u8>),
                error::PersistErrorView,
            >(e@),
        },
{
    let mut region: &[u8] = file;
    let header = match crate::format::read_header(&mut region) {
        Ok(header) => header,
        Err(e) => return Err(e),
    };
    let wanted = String::from_str(expected);
    if !header.index_type.eq(&wanted) {
        return Err(PersistError::InvalidIndexType { found: header.index_type, expected });
    }
    match checksum::verify(region, header.crc32) {
        Ok(()) => {},
        Err(e) => return Err(e),
    }
    match compression::open_payload(header.version, region, codecs) {
        Ok(payload) => Ok((header, payload)),
        Err(e) => Err(e),
    }
}

/// Check a header against the index that was rebuilt from the payload.
///
/// # Errors
///
/// Returns [`PersistError::InvalidPayload`] if they disagree on the
/// dimensionality, the metric or the vector count.
pub fn check_agreement(header: &FileHeader, rebuilt: Shape) -> (out: Result<()>)
    ensures
        match rebuilt.disagreement(header@) {
            Some(e) => out is Err && out->Err_0@ == e,
            None => out is Ok,
        },
{
    if rebuilt.dim != header.dim {
        return Err(
            PersistError::InvalidPayload {
                reason: "header dim disagrees with payload-reconstructed index",
            },
        );
    }
    if rebuilt.metric != header.metric {
        return Err(
            PersistError::InvalidPayload {
                reason: "header metric disagrees with payload-reconstructed index",
            },
        );
    }
    if rebuilt.n_vectors != header.n_vectors {
        return Err(
            PersistError::InvalidPayload {
                reason: "header n_vectors disagrees with payload-reconstructed index",
            },
        );
    }
    Ok(())
}

/// Rebuild an index from a snapshot file.
///
/// # Errors
///
/// Those of [`open_file`], [`Persistable::load_from`] and [`check_agreement`].
pub fn read_snapshot<I: Persistable>(file: &[u8], codecs: Codecs) -> (out: Result<I>)
    ensures
        restores(file@, codecs, out),
{
    let (header, payload) = match open_file(file, I::INDEX_TYPE, codecs) {
        Ok(opened) => opened,
        Err(e) => return Err(e),
    };
    let loaded: Result<I> = I::load_from(payload.as_slice());
    let ghost outcome = loaded;
    assert(I::loads(payload@, outcome));
    let index: I = match loaded {
        Ok(index) => index,
        Err(e) => {
            let out = Err(e);
            assert(restore_outcome(header@, outcome, out));
            assert(rebuilds(header@, payload@, out));
            return out;
        },
    };
    let rebuilt = Shape {
        index_type: I::INDEX_TYPE,
        dim: index.dim(),
        metric: index.metric(),
        n_vectors: index.len(),
    };
    match check_agreement(&header, rebuilt) {
        Ok(()) => {
            assert(restore_outcome(header@, outcome, Ok(index)));
            assert(rebuilds(header@, payload@, Ok(index)));
            Ok(index)
        },
        Err(e) => {
            assert(restore_outcome(header@, outcome, Err(e)));
            assert(rebuilds::<I>(header@, payload@, Err(e)));
            Err(e)
        },
    }
}

} // verus!
