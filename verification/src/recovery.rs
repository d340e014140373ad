//! Crash recovery: replay of the log onto a loaded snapshot.
//!
//! A mutation acknowledged to the caller was logged before it was applied, so
//! it survives a crash and is restored here. A torn tail in the log is left
//! out: the mutation it stands for was never acknowledged.

use vstd::prelude::*;

use crate::error;
use crate::error::{PersistError, Result};
use crate::persistable::Persistable;
use crate::wal;
use crate::wal::{WalContents, WalRecord, WalRecordView};

verus! {

/// Whether a logged mutation has the dimensionality of the index.
pub open spec fn dim_agrees<I: Persistable>(index: I, record: WalRecordView) -> bool {
    record matches WalRecordView::Insert { vector, .. } ==> vector.len() == index.profile().dim
}

/// Whether applying all of `records` in order may take the index from `before`
/// to `after`.
pub open spec fn reaches<I: Persistable>(
    before: I,
    records: Seq<WalRecordView>,
    after: I,
) -> bool
    decreases records.len(),
{
    if records.len() == 0 {
        after == before
    } else {
        exists|mid: I|
            {
                &&& reaches(before, records.drop_last(), mid)
                &&& dim_agrees(mid, records.last())
                &&& #[trigger] I::applies(mid, records.last(), None, after)
            }
    }
}

/// Whether replaying one record onto `mid` may fail with `e` and leave `after`.
pub open spec fn fails_at<I: Persistable>(
    mid: I,
    record: WalRecordView,
    e: error::PersistErrorView,
    after: I,
) -> bool {
    if dim_agrees(mid, record) {
        e matches error::PersistErrorView::IndexBuild(cause) && I::applies(
            mid,
            record,
            Some(cause),
            after,
        )
    } else {
        &&& e == error::invalid_payload("WAL insert vector dimension disagrees with the index")
        &&& after == mid
    }
}

/// Whether replaying `records` onto `before` may stop at one of them with `e`,
/// leaving `after`.
pub open spec fn stops<I: Persistable>(
    before: I,
    records: Seq<WalRecordView>,
    e: error::PersistErrorView,
    after: I,
) -> bool {
    exists|k: int, mid: I|
        0 <= k < records.len() && #[trigger] reaches(before, records.take(k), mid) && fails_at(
            mid,
            records[k],
            e,
            after,
        )
}

/// What replaying the log onto `before` may come to.
pub open spec fn replays<I: Persistable>(
    before: I,
    log: Seq<u8>,
    out: Result<Replayed>,
    after: I,
) -> bool {
    match wal::parse_log(log) {
        Err(e) => out is Err && out->Err_0@ == e && after == before,
        Ok((records, committed)) => match out {
            Ok(replayed) => {
                &&& replayed.applied == records.len()
                &&& replayed.committed == committed
                &&& reaches(before, records, after)
            },
            Err(e) => stops(before, records, e@, after),
        },
    }
}

/// What a replay has done.
#[derive(Debug, Clone, Copy, PartialEq, Eq)]
pub struct Replayed {
    /// How many records were applied.
    pub applied: usize,
    /// The length of the log up to the end of the last of them.
    pub committed: usize,
}

/// Applies one logged mutation.
fn apply<I: Persistable>(index: &mut I, record: WalRecord) -> (out: Result<()>)
    ensures
        match out {
            Ok(()) => dim_agrees(*old(index), record@) && I::applies(
                *old(index),
                record@,
                None,
                *final(index),
            ),
            Err(e) => fails_at(*old(index), record@, e@, *final(index)),
        },
{
    match record {
        WalRecord::Insert { id, vector, meta } => {
            if vector.len() != index.dim() {
                return Err(
                    PersistError::InvalidPayload {
                        reason: "WAL insert vector dimension disagrees with the index",
                    },
                );
            }
            match index.insert(id, vector, meta) {
                Ok(()) => Ok(()),
                Err(e) => Err(PersistError::from(e)),
            }
        },
        WalRecord::Delete { id } => match index.delete(&id) {
            Ok(()) => Ok(()),
            Err(e) => Err(PersistError::from(e)),
        },
    }
}

/// Replay every committed record of `log` onto `index`.
///
/// # Errors
///
/// - Those of [`wal::parse_records`].
/// - [`PersistError::InvalidPayload`] if a logged vector has another
///   dimensionality than the index.
/// - [`PersistError::IndexBuild`] if the index rejects a mutation.
pub fn replay<I: Persistable>(log: &[u8], index: &mut I) -> (out: Result<Replayed>)
    ensures
        replays(*old(index), log@, out, *final(index)),
{
    let contents = match wal::parse_records(log) {
        Ok(contents) => contents,
        Err(e) => return Err(e),
    };
    let WalContents { records, committed } = contents;
    let total: usize = records.len();
    let ghost views = wal::record_views(records@);
    let ghost before = *index;
    let mut applied: usize = 0;
    assert(views.take(0) =~= Seq::<WalRecordView>::empty());
    for record in iter: records.into_iter()
        invariant
            before == *old(index),
            views == wal::record_views(iter.seq()),
            applied == iter.index(),
            total == iter.seq().len(),
            wal::parse_log(log@) matches Ok((found, length)) && found == views && length
                == committed,
            reaches(before, views.take(applied as int), *index),
    {
        let ghost mid = *index;
        let ghost k = applied as int;
        assert(record@ == views[k]);
        match apply(index, record) {
            Ok(()) => {},
            Err(e) => {
                assert(reaches(before, views.take(k), mid));
                assert(fails_at(mid, views[k], e@, *index));
                return Err(e);
            },
        }
        proof {
            assert(views.take(k + 1).drop_last() =~= views.take(k));
            assert(views.take(k + 1).last() == views[k]);
            assert(reaches(before, views.take(k + 1), *index));
        }
        applied = applied + 1;
    }
    assert(views.take(applied as int) =~= views);
    Ok(Replayed { applied, committed })
}

} // verus!
