//! The trait an index implements to be persisted.

use iqdb_types::IqdbError;
use vstd::prelude::*;

use crate::error::{PersistError, Result};
use crate::types::{DistanceMetric, Metadata, VectorId};
use crate::wal::WalRecordView;

verus! {

/// The error that a mutation was rejected with, if it was.
pub open spec fn rejection_of(out: core::result::Result<(), IqdbError>) -> Option<IqdbError> {
    match out {
        Ok(_) => None,
        Err(e) => Some(e),
    }
}

/// What can be observed of an index.
pub struct Profile {
    /// The dimensionality.
    pub dim: usize,
    /// The metric.
    pub metric: DistanceMetric,
    /// The number of vectors.
    pub count: usize,
}

/// An index that can serialize itself and be rebuilt from the payload alone.
///
/// The implementation writes only the index's own bytes; framing, checksum and
/// log are added around it. The payload must be self-describing: what is
/// rebuilt from it is checked against the header's dimensionality, metric and
/// vector count.
///
/// What an implementation does is its own affair. The spec functions give it a
/// name: `profile` is what the observers return, and `saves`, `loads` and
/// `applies` relate a call's inputs to the outcomes it may have. An
/// implementation that is itself verified can say more of them.
pub trait Persistable: Sized {
    /// Stable, short identifier written into the file header.
    ///
    /// This string is part of the on-disk format: renaming it makes existing
    /// files unreadable.
    const INDEX_TYPE: &'static str;

    /// What can be observed of the index. Unless an implementation says more,
    /// some function of the index.
    open spec fn profile(&self) -> Profile {
        (vstd::pervasive::arbitrary::<spec_fn(Self) -> Profile>())(*self)
    }

    /// Whether serializing the index may have this outcome. Unless an
    /// implementation says more, any outcome.
    open spec fn saves(&self, outcome: core::result::Result<Seq<u8>, PersistError>) -> bool {
        true
    }

    /// Whether rebuilding an index from `payload` may have this outcome. Unless
    /// an implementation says more, any outcome.
    open spec fn loads(payload: Seq<u8>, outcome: core::result::Result<Self, PersistError>) -> bool {
        true
    }

    /// Whether `mutation`, asked of the index `before`, may be rejected with
    /// this error (or, if there is none, accepted) and leave the index as
    /// `after`. Unless an implementation says more, any outcome.
    open spec fn applies(
        before: Self,
        mutation: WalRecordView,
        rejection: Option<IqdbError>,
        after: Self,
    ) -> bool {
        true
    }

    /// Append the index's self-contained payload to `writer`.
    fn save_to(&self, writer: &mut Vec<u8>) -> (out: Result<()>)
        ensures
            match out {
                Ok(()) => {
                    &&& old(writer)@.len() <= final(writer)@.len()
                    &&& final(writer)@.take(old(writer)@.len() as int) == old(writer)@
                    &&& self.saves(Ok(final(writer)@.skip(old(writer)@.len() as int)))
                },
                Err(e) => self.saves(Err(e)),
            },
    ;

    /// Rebuild an index from the payload alone.
    fn load_from(reader: &[u8]) -> (out: Result<Self>)
        ensures
            Self::loads(reader@, out),
    ;

    /// The dimensionality of the index.
    fn dim(&self) -> (dim: usize)
        ensures
            dim == self.profile().dim,
    ;

    /// The metric of the index.
    fn metric(&self) -> (metric: DistanceMetric)
        ensures
            metric == self.profile().metric,
    ;

    /// The number of vectors in the index.
    fn len(&self) -> (len: usize)
        ensures
            len == self.profile().count,
    ;

    /// Insert a vector (as `f32` bits) with optional metadata.
    fn insert(
        &mut self,
        id: VectorId,
        vector: Vec<u32>,
        meta: Option<Metadata>,
    ) -> (out: core::result::Result<(), IqdbError>)
        ensures
            Self::applies(
                *old(self),
                WalRecordView::Insert {
                    id: id@,
                    vector: vector@,
                    meta: crate::types::meta_view(meta),
                },
                rejection_of(out),
                *final(self),
            ),
    ;

    /// Delete a vector.
    fn delete(&mut self, id: &VectorId) -> (out: core::result::Result<(), IqdbError>)
        ensures
            Self::applies(
                *old(self),
                WalRecordView::Delete { id: id@ },
                rejection_of(out),
                *final(self),
            ),
    ;
}

} // verus!
