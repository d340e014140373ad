//! What a caller can rely on when an index is loaded: after a save, after logged
//! mutations, after a crash, and from files that are not sound.

use vstd::prelude::*;

use crate::bytes;
use crate::checksum;
use crate::compression;
use crate::compression::Codecs;
use crate::config::PersistConfig;
use crate::error;
use crate::error::{PersistError, Result};
use crate::lifecycle_laws;
use crate::persistable::{Persistable, Profile};
use crate::persisted;
use crate::persisted::{
    DiskAction, DiskActionView, LogOutcome, Mutation, Opened, Pending, PersistedIndex, Rollback,
};
use crate::persisted_laws;
use crate::persisted_laws::DiskView;
use crate::recovery;
use crate::recovery::Replayed;
use crate::snapshot;
use crate::snapshot_laws;
use crate::types::{Metadata, VectorId};
use crate::wal;
use crate::wal::WalRecordView;
use crate::wal_laws;

verus! {

// ----------------------------------------------------------------------
// After a save
// ----------------------------------------------------------------------

/// Loading what was saved gives back an index of the same state and asks for
/// nothing on disk, under every compression scheme and whatever the log holds,
/// if the index is loaded without a log.
pub proof fn saved_index_loads_back<I: Persistable, S>(
    state: spec_fn(I) -> S,
    db: &PersistedIndex<I>,
    bytes: Vec<u8>,
    config: PersistConfig,
    codecs: Codecs,
    file: &[u8],
    log: Option<&[u8]>,
    out: Result<Opened<I>>,
)
    requires
        snapshot_laws::faithful(state),
        snapshot_laws::tag_fits::<I>(),
        call_ensures(PersistedIndex::<I>::save, (db,), Ok(DiskAction::WriteSnapshot { bytes })),
        file@ == bytes@,
        !config.wal_enabled,
        lifecycle_laws::switched_on(codecs, config.compression),
        lifecycle_laws::switched_on(codecs, db.settings().compression),
        call_ensures(PersistedIndex::<I>::load_with_codecs, (config, codecs, file, log), out),
    ensures
        out is Ok,
        state(out->Ok_0.index.held()) == state(db.held()),
        out->Ok_0.index.settings() == config,
        out->Ok_0.index.codecs_on() == codecs,
        out->Ok_0.actions@.len() == 0,
{
    let scheme = db.settings().compression;
    let action = DiskAction::WriteSnapshot { bytes };
    let saved = Ok::<DiskAction, PersistError>(action);
    let taken = choose|taken: Result<Vec<u8>>| #[trigger]
        snapshot::snapshots(db.held(), scheme, taken) && persisted::save_outcome(taken, saved);
    let restored = choose|restored: Result<I>| #[trigger]
        snapshot::restores(file@, codecs, restored) && persisted::load_outcome(
            config,
            codecs,
            restored,
            log,
            out,
        );
    assert(taken == Ok::<Vec<u8>, PersistError>(taken->Ok_0));
    snapshot_laws::faithful_index_round_trips(
        state,
        db.held(),
        scheme,
        taken->Ok_0,
        codecs,
        restored,
    );
    assert(persisted::action_views(out->Ok_0.actions@).len() == out->Ok_0.actions@.len());
}

/// An insertion made without a log is in what is saved next: loading that gives
/// the state that the insertion led the index to.
pub proof fn unlogged_insert_is_saved<I: Persistable, S>(
    state: spec_fn(I) -> S,
    db: &mut PersistedIndex<I>,
    id: VectorId,
    vector: Vec<u32>,
    meta: Option<Metadata>,
    then: &PersistedIndex<I>,
    bytes: Vec<u8>,
    file: &[u8],
    out: Result<Opened<I>>,
)
    requires
        snapshot_laws::faithful(state),
        snapshot_laws::tag_fits::<I>(),
        !old(db).settings().wal_enabled,
        old(db).settings().compression is Off,
        call_ensures(
            PersistedIndex::<I>::insert,
            (db, id, vector, meta),
            Ok(Mutation::Applied),
        ),
        *then == *final(db),
        call_ensures(PersistedIndex::<I>::save, (then,), Ok(DiskAction::WriteSnapshot { bytes })),
        file@ == bytes@,
        call_ensures(PersistedIndex::<I>::load, (old(db).settings(), file, None), out),
    ensures
        out is Ok,
        exists|after: I| #[trigger]
            I::applies(
                old(db).held(),
                lifecycle_laws::insertion(id, vector, meta),
                None,
                after,
            ) && state(out->Ok_0.index.held()) == state(after),
{
    lifecycle_laws::unlogged_insert_reaches_the_index(db, id, vector, meta, Ok(Mutation::Applied));
    lemma_saved_then_loaded(state, then, bytes, file, out);
}

/// A deletion made without a log is in what is saved next: loading that gives
/// the state that the deletion led the index to.
pub proof fn unlogged_delete_is_saved<I: Persistable, S>(
    state: spec_fn(I) -> S,
    db: &mut PersistedIndex<I>,
    id: &VectorId,
    then: &PersistedIndex<I>,
    bytes: Vec<u8>,
    file: &[u8],
    out: Result<Opened<I>>,
)
    requires
        snapshot_laws::faithful(state),
        snapshot_laws::tag_fits::<I>(),
        !old(db).settings().wal_enabled,
        old(db).settings().compression is Off,
        call_ensures(PersistedIndex::<I>::delete, (db, id), Ok(Mutation::Applied)),
        *then == *final(db),
        call_ensures(PersistedIndex::<I>::save, (then,), Ok(DiskAction::WriteSnapshot { bytes })),
        file@ == bytes@,
        call_ensures(PersistedIndex::<I>::load, (old(db).settings(), file, None), out),
    ensures
        out is Ok,
        exists|after: I| #[trigger]
            I::applies(old(db).held(), lifecycle_laws::deletion(*id), None, after) && state(
                out->Ok_0.index.held(),
            ) == state(after),
{
    lifecycle_laws::unlogged_delete_reaches_the_index(db, id, Ok(Mutation::Applied));
    lemma_saved_then_loaded(state, then, bytes, file, out);
}

/// Loading what was saved uncompressed, with the default codecs.
proof fn lemma_saved_then_loaded<I: Persistable, S>(
    state: spec_fn(I) -> S,
    db: &PersistedIndex<I>,
    bytes: Vec<u8>,
    file: &[u8],
    out: Result<Opened<I>>,
)
    requires
        snapshot_laws::faithful(state),
        snapshot_laws::tag_fits::<I>(),
        !db.settings().wal_enabled,
        db.settings().compression is Off,
        call_ensures(PersistedIndex::<I>::save, (db,), Ok(DiskAction::WriteSnapshot { bytes })),
        file@ == bytes@,
        call_ensures(PersistedIndex::<I>::load, (db.settings(), file, None), out),
    ensures
        out is Ok,
        state(out->Ok_0.index.held()) == state(db.held()),
{
    let codecs = Codecs { zstd: false, lz4: false };
    let action = DiskAction::WriteSnapshot { bytes };
    let disk = DiskView { snapshot: None, log: None };
    persisted_laws::saving_then_loading_gives_the_index_back(
        state,
        db.held(),
        db.settings(),
        codecs,
        action,
        disk,
        None,
        out,
    );
}

// ----------------------------------------------------------------------
// After logged mutations
// ----------------------------------------------------------------------

/// A logged mutation that was committed is recovered.
proof fn lemma_committed_is_recovered<I: Persistable, S>(
    state: spec_fn(I) -> S,
    disk: DiskView,
    config: PersistConfig,
    codecs: Codecs,
    before: I,
    mutation: WalRecordView,
    frame: Seq<u8>,
    after: I,
    cut: int,
    log: &[u8],
    out: Result<Opened<I>>,
)
    requires
        persisted_laws::governs(state),
        snapshot_laws::faithful(state),
        snapshot_laws::tag_fits::<I>(),
        config.wal_enabled,
        codecs.handles(config.compression),
        persisted_laws::in_step(disk, config, state, state(before)),
        persisted_laws::has_dim(before, mutation),
        wal_laws::carries(frame, mutation),
        I::applies(before, mutation, None, after),
        0 <= cut <= frame.len(),
        log@ == disk.log->0 + frame.take(cut),
        persisted::loads_index(config, codecs, disk.snapshot->0, Some(log), out),
    ensures
        out is Ok,
        state(out->Ok_0.index.held()) == if cut == frame.len() {
            state(after)
        } else {
            state(before)
        },
{
    wal_laws::frame_of_a_record_is_unique(frame, mutation);
    persisted_laws::append_is_all_or_nothing(
        state,
        disk,
        config,
        codecs,
        before,
        mutation,
        after,
        cut,
        log,
        out,
    );
}

/// An acknowledged insertion survives a crash. Ask for the insertion, append the
/// frame that was handed out, commit, and lose everything in memory: loading
/// from the files succeeds and gives the state that the insertion led the index
/// to, whatever its dimensionality is. If the frame reached the disk only in
/// part, loading succeeds too and gives the state from before the insertion.
pub proof fn logged_insert_survives_a_crash<I: Persistable, S>(
    state: spec_fn(I) -> S,
    disk: DiskView,
    db: &mut PersistedIndex<I>,
    id: VectorId,
    vector: Vec<u32>,
    meta: Option<Metadata>,
    pending: Pending,
    frame: &[u8],
    then: &mut PersistedIndex<I>,
    mark: u64,
    cut: int,
    file: &[u8],
    log: &[u8],
    out: Result<Opened<I>>,
)
    requires
        persisted_laws::governs(state),
        snapshot_laws::faithful(state),
        snapshot_laws::tag_fits::<I>(),
        old(db).settings().wal_enabled,
        lifecycle_laws::switched_on(old(db).codecs_on(), old(db).settings().compression),
        persisted_laws::in_step(disk, old(db).settings(), state, state(old(db).held())),
        vector@.len() == old(db).held().profile().dim,
        call_ensures(
            PersistedIndex::<I>::insert,
            (db, id, vector, meta),
            Ok(Mutation::Logging(pending)),
        ),
        call_ensures(Pending::frame, (&pending,), frame),
        *old(then) == *final(db),
        call_ensures(
            PersistedIndex::<I>::commit,
            (then, pending, LogOutcome::Appended { mark }),
            Ok(()),
        ),
        0 <= cut <= frame@.len(),
        file@ == disk.snapshot->0,
        log@ == disk.log->0 + frame@.take(cut),
        call_ensures(
            PersistedIndex::<I>::load_with_codecs,
            (old(db).settings(), old(db).codecs_on(), file, Some(log)),
            out,
        ),
    ensures
        I::applies(
            old(db).held(),
            lifecycle_laws::insertion(id, vector, meta),
            None,
            final(then).held(),
        ),
        out is Ok,
        cut == frame@.len() ==> state(out->Ok_0.index.held()) == state(final(then).held()),
        cut < frame@.len() ==> state(out->Ok_0.index.held()) == state(old(db).held()),
{
    let mutation = lifecycle_laws::insertion(id, vector, meta);
    lifecycle_laws::logged_insert_hands_out_its_frame(
        db,
        id,
        vector,
        meta,
        Ok(Mutation::Logging(pending)),
        frame,
    );
    lifecycle_laws::committing_makes_the_mutation(then, pending, mark, Ok(()));
    lemma_committed_is_recovered(
        state,
        disk,
        old(db).settings(),
        old(db).codecs_on(),
        old(db).held(),
        mutation,
        frame@,
        final(then).held(),
        cut,
        log,
        out,
    );
}

/// An acknowledged deletion survives a crash, just as an insertion does.
pub proof fn logged_delete_survives_a_crash<I: Persistable, S>(
    state: spec_fn(I) -> S,
    disk: DiskView,
    db: &mut PersistedIndex<I>,
    id: &VectorId,
    pending: Pending,
    frame: &[u8],
    then: &mut PersistedIndex<I>,
    mark: u64,
    cut: int,
    file: &[u8],
    log: &[u8],
    out: Result<Opened<I>>,
)
    requires
        persisted_laws::governs(state),
        snapshot_laws::faithful(state),
        snapshot_laws::tag_fits::<I>(),
        old(db).settings().wal_enabled,
        lifecycle_laws::switched_on(old(db).codecs_on(), old(db).settings().compression),
        persisted_laws::in_step(disk, old(db).settings(), state, state(old(db).held())),
        call_ensures(
            PersistedIndex::<I>::delete,
            (db, id),
            Ok(Mutation::Logging(pending)),
        ),
        call_ensures(Pending::frame, (&pending,), frame),
        *old(then) == *final(db),
        call_ensures(
            PersistedIndex::<I>::commit,
            (then, pending, LogOutcome::Appended { mark }),
            Ok(()),
        ),
        0 <= cut <= frame@.len(),
        file@ == disk.snapshot->0,
        log@ == disk.log->0 + frame@.take(cut),
        call_ensures(
            PersistedIndex::<I>::load_with_codecs,
            (old(db).settings(), old(db).codecs_on(), file, Some(log)),
            out,
        ),
    ensures
        I::applies(old(db).held(), lifecycle_laws::deletion(*id), None, final(then).held()),
        out is Ok,
        cut == frame@.len() ==> state(out->Ok_0.index.held()) == state(final(then).held()),
        cut < frame@.len() ==> state(out->Ok_0.index.held()) == state(old(db).held()),
{
    let mutation = lifecycle_laws::deletion(*id);
    lifecycle_laws::logged_delete_hands_out_its_frame(
        db,
        id,
        Ok(Mutation::Logging(pending)),
        frame,
    );
    lifecycle_laws::committing_makes_the_mutation(then, pending, mark, Ok(()));
    lemma_committed_is_recovered(
        state,
        disk,
        old(db).settings(),
        old(db).codecs_on(),
        old(db).held(),
        mutation,
        frame@,
        final(then).held(),
        cut,
        log,
        out,
    );
}

/// A mutation that the index rejects, or whose append failed part way, leaves
/// the files as they were once the rollback has been performed.
pub proof fn rolled_back_mutation_leaves_no_trace<I: Persistable>(
    disk: DiskView,
    db: &mut PersistedIndex<I>,
    pending: Pending,
    written: Seq<u8>,
    logged: LogOutcome,
    rollback: Rollback,
)
    requires
        disk.log is Some,
        match logged {
            LogOutcome::Appended { mark } => mark == disk.log->0.len(),
            LogOutcome::Failed { mark, .. } => mark == disk.log->0.len(),
        },
        call_ensures(PersistedIndex::<I>::commit, (db, pending, logged), Err(rollback)),
    ensures
        persisted_laws::performed(
            persisted_laws::performed(disk, DiskActionView::AppendLog { bytes: written }),
            rollback.action@,
        ) == disk,
{
    persisted_laws::rollback_restores_the_log(
        disk,
        disk.log->0,
        old(db).held(),
        pending.mutation(),
        written,
        logged,
        rollback,
        final(db).held(),
    );
}

// ----------------------------------------------------------------------
// Recovery
// ----------------------------------------------------------------------

/// Loading from files that are in step with an index gives back its state, even
/// if something that is no whole frame follows the log, and then puts the files
/// back in step.
pub proof fn loading_recovers_the_state<I: Persistable, S>(
    state: spec_fn(I) -> S,
    disk: DiskView,
    config: PersistConfig,
    codecs: Codecs,
    current: S,
    torn: Seq<u8>,
    file: &[u8],
    log: &[u8],
    out: Result<Opened<I>>,
)
    requires
        persisted_laws::governs(state),
        snapshot_laws::faithful(state),
        snapshot_laws::tag_fits::<I>(),
        config.wal_enabled,
        lifecycle_laws::switched_on(codecs, config.compression),
        persisted_laws::in_step(disk, config, state, current),
        wal::next_frame(torn) is None,
        file@ == disk.snapshot->0,
        log@ == disk.log->0 + torn,
        call_ensures(
            PersistedIndex::<I>::load_with_codecs,
            (config, codecs, file, Some(log)),
            out,
        ),
    ensures
        out is Ok,
        state(out->Ok_0.index.held()) == current,
        out->Ok_0.index.settings() == config,
        out->Ok_0.index.codecs_on() == codecs,
        persisted_laws::all_performed(
            persisted_laws::performed(disk, DiskActionView::AppendLog { bytes: torn }),
            persisted::action_views(out->Ok_0.actions@),
        ) == disk,
{
    persisted_laws::recovery_restores_the_state(
        state,
        disk,
        config,
        codecs,
        current,
        torn,
        log,
        out,
    );
}

/// Loading the snapshot and then recovering the log comes to the same as
/// loading both at once.
#[verifier::rlimit(80)]
#[verifier::spinoff_prover]
pub proof fn loading_in_two_steps_recovers_the_state<I: Persistable, S>(
    state: spec_fn(I) -> S,
    disk: DiskView,
    config: PersistConfig,
    codecs: Codecs,
    current: S,
    torn: Seq<u8>,
    file: &[u8],
    log: &[u8],
    restored: Result<PersistedIndex<I>>,
    db: &mut PersistedIndex<I>,
    out: Result<Vec<DiskAction>>,
)
    requires
        persisted_laws::governs(state),
        snapshot_laws::faithful(state),
        snapshot_laws::tag_fits::<I>(),
        config.wal_enabled,
        lifecycle_laws::switched_on(codecs, config.compression),
        persisted_laws::in_step(disk, config, state, current),
        wal::next_frame(torn) is None,
        file@ == disk.snapshot->0,
        log@ == disk.log->0 + torn,
        call_ensures(PersistedIndex::<I>::load_snapshot, (config, codecs, file), restored),
        restored is Ok ==> *old(db) == restored->Ok_0,
        restored is Ok ==> call_ensures(PersistedIndex::<I>::recover_log, (db, Some(log)), out),
    ensures
        restored is Ok,
        out is Ok,
        state(final(db).held()) == current,
        final(db).settings() == config,
        final(db).codecs_on() == codecs,
        persisted_laws::all_performed(
            persisted_laws::performed(disk, DiskActionView::AppendLog { bytes: torn }),
            persisted::action_views(out->Ok_0@),
        ) == disk,
{
    let read = choose|read: Result<I>| #[trigger]
        snapshot::restores(file@, codecs, read) && match read {
            Err(e) => restored == Err::<PersistedIndex<I>, PersistError>(e),
            Ok(inner) => restored is Ok && restored->Ok_0.consists_of(inner, config, codecs),
        };
    let (base, taken, records, model) = choose|
        base: I,
        taken: Vec<u8>,
        records: Seq<WalRecordView>,
        model: I,
    | #[trigger]
        persisted_laws::logged_from(disk, config, base, taken, records, model) && state(model)
            == current;
    snapshot_laws::faithful_index_round_trips(
        state,
        base,
        config.compression,
        taken,
        codecs,
        read,
    );
    let whole = match out {
        Ok(actions) => Ok::<Opened<I>, PersistError>(Opened { index: *final(db), actions }),
        Err(e) => Err(e),
    };
    assert(persisted::recovers(
        read->Ok_0,
        config.wal_enabled,
        Some(log),
        out,
        final(db).held(),
    ));
    assert(persisted::load_outcome(config, codecs, read, Some(log), whole));
    persisted_laws::recovery_restores_the_state(
        state,
        disk,
        config,
        codecs,
        current,
        torn,
        log,
        whole,
    );
}

/// Without a log, whatever is found in one is left alone: nothing is replayed
/// and nothing is asked for on disk.
pub proof fn log_is_left_alone_without_one<I: Persistable>(
    db: &mut PersistedIndex<I>,
    log: Option<&[u8]>,
    out: Result<Vec<DiskAction>>,
)
    requires
        !old(db).settings().wal_enabled,
        call_ensures(PersistedIndex::<I>::recover_log, (db, log), out),
    ensures
        final(db).held() == old(db).held(),
        final(db).settings() == old(db).settings(),
        final(db).codecs_on() == old(db).codecs_on(),
        out is Ok,
        out->Ok_0@.len() == 0,
{
    assert(persisted::action_views(out->Ok_0@).len() == out->Ok_0@.len());
}

/// Whether replaying `records` onto `before` stopped at one of them with `e`: the
/// first whose vector has another dimensionality than the index, which is then
/// left as it was, or the first that the index rejects, whose error is reported.
pub open spec fn stopped<I: Persistable>(
    before: I,
    records: Seq<WalRecordView>,
    e: PersistError,
    after: I,
) -> bool {
    exists|k: int, mid: I|
        0 <= k < records.len() && #[trigger] persisted_laws::accepts(
            before,
            records.take(k),
            mid,
        ) && if persisted_laws::has_dim(mid, records[k]) {
            e matches PersistError::IndexBuild(cause) && I::applies(
                mid,
                records[k],
                Some(cause),
                after,
            )
        } else {
            &&& after == mid
            &&& e matches PersistError::InvalidPayload { reason } && reason@
                == "WAL insert vector dimension disagrees with the index"@
        }
}

/// What a replay comes to.
#[verifier::rlimit(80)]
#[verifier::spinoff_prover]
proof fn lemma_replayed<I: Persistable>(
    records: Seq<WalRecordView>,
    torn: Seq<u8>,
    log: Seq<u8>,
    before: I,
    out: Result<Replayed>,
    after: I,
)
    requires
        persisted_laws::all_fit(records),
        wal::next_frame(torn) is None,
        log == wal::log_bytes(records) + torn,
        recovery::replays(before, log, out, after),
    ensures
        match out {
            Ok(done) => {
                &&& persisted_laws::accepts(before, records, after)
                &&& done.applied == records.len()
                &&& done.committed == wal::log_bytes(records).len()
            },
            Err(e) => stopped(before, records, e, after),
        },
{
    wal_laws::torn_log_is_read(records, torn);
    match out {
        Ok(_) => {
            persisted_laws::replay_applies_what_is_accepted(before, records, after);
        },
        Err(e) => {
            let (k, mid) = choose|k: int, mid: I|
                0 <= k < records.len() && #[trigger] recovery::reaches(
                    before,
                    records.take(k),
                    mid,
                ) && recovery::fails_at(mid, records[k], e@, after);
            persisted_laws::replay_applies_what_is_accepted(before, records.take(k), mid);
            assert(persisted_laws::accepts(before, records.take(k), mid));
        },
    }
}

/// What replaying a log does: it stops at the first record whose vector has
/// another dimensionality than the index, and reports that, or at the first one
/// that the index rejects, and reports the index's own error. Otherwise it makes
/// every mutation of the log, once and in order, and says how many.
pub proof fn replay_makes_every_mutation<I: Persistable>(
    records: Seq<WalRecordView>,
    torn: Seq<u8>,
    log: &[u8],
    index: &mut I,
    out: Result<Replayed>,
)
    requires
        persisted_laws::all_fit(records),
        wal::next_frame(torn) is None,
        log@ == wal::log_bytes(records) + torn,
        call_ensures(recovery::replay::<I>, (log, index), out),
    ensures
        match out {
            Ok(done) => {
                &&& persisted_laws::accepts(*old(index), records, *final(index))
                &&& done.applied == records.len()
                &&& done.committed == wal::log_bytes(records).len()
            },
            Err(e) => stopped(*old(index), records, e, *final(index)),
        },
{
    lemma_replayed(records, torn, log@, *old(index), out, *final(index));
}

/// Whether `actions` cut a log back to `len` bytes if `torn` bytes follow them,
/// and do nothing otherwise.
pub open spec fn cuts_off(actions: Seq<DiskAction>, len: nat, torn: nat) -> bool {
    if torn == 0 {
        actions.len() == 0
    } else {
        &&& actions.len() == 1
        &&& actions[0] matches DiskAction::TruncateLog { len: to } && to == len
    }
}

/// Recovering a log does what replaying it does, fails where that stops, and
/// otherwise asks for what follows the last whole frame to be cut off.
#[verifier::rlimit(80)]
#[verifier::spinoff_prover]
pub proof fn recovering_replays_the_log<I: Persistable>(
    records: Seq<WalRecordView>,
    torn: Seq<u8>,
    db: &mut PersistedIndex<I>,
    log: &[u8],
    out: Result<Vec<DiskAction>>,
)
    requires
        old(db).settings().wal_enabled,
        persisted_laws::all_fit(records),
        wal::next_frame(torn) is None,
        log@ == wal::log_bytes(records) + torn,
        call_ensures(PersistedIndex::<I>::recover_log, (db, Some(log)), out),
    ensures
        match out {
            Ok(actions) => {
                &&& persisted_laws::accepts(old(db).held(), records, final(db).held())
                &&& cuts_off(actions@, wal::log_bytes(records).len(), torn.len())
            },
            Err(e) => stopped(old(db).held(), records, e, final(db).held()),
        },
        final(db).settings() == old(db).settings(),
        final(db).codecs_on() == old(db).codecs_on(),
{
    let replayed = choose|replayed: Result<Replayed>| #[trigger]
        recovery::replays(old(db).held(), log@, replayed, final(db).held())
            && persisted::recovery_outcome(log@.len(), replayed, out);
    lemma_replayed(records, torn, log@, old(db).held(), replayed, final(db).held());
    wal_laws::torn_log_is_read(records, torn);
    if let Ok(actions) = out {
        let views = persisted::action_views(actions@);
        assert(views.len() == actions@.len());
        if torn.len() > 0 {
            assert(views[0] == actions@[0]@);
        }
    }
}

/// A log that cannot be read is not replayed: what reading it reports is
/// reported, and the index is left alone.
pub proof fn unreadable_log_is_not_replayed<I: Persistable>(
    log: &[u8],
    fault: PersistError,
    index: &mut I,
    out: Result<Replayed>,
)
    requires
        call_ensures(wal::parse_records, (log,), Err(fault)),
        call_ensures(recovery::replay::<I>, (log, index), out),
    ensures
        out is Err && out->Err_0@ == fault@,
        *final(index) == *old(index),
{
}

/// A log that cannot be read makes recovery fail with what reading it reports,
/// and leaves the index alone; and it makes loading fail.
pub proof fn unreadable_log_makes_loading_fail<I: Persistable>(
    log: &[u8],
    fault: PersistError,
    db: &mut PersistedIndex<I>,
    recovered: Result<Vec<DiskAction>>,
    config: PersistConfig,
    codecs: Codecs,
    file: &[u8],
    loaded: Result<Opened<I>>,
)
    requires
        call_ensures(wal::parse_records, (log,), Err(fault)),
        old(db).settings().wal_enabled,
        call_ensures(PersistedIndex::<I>::recover_log, (db, Some(log)), recovered),
        config.wal_enabled,
        call_ensures(
            PersistedIndex::<I>::load_with_codecs,
            (config, codecs, file, Some(log)),
            loaded,
        ),
    ensures
        recovered is Err && recovered->Err_0@ == fault@,
        final(db).held() == old(db).held(),
        loaded is Err,
{
}

/// Loading does what reading the snapshot and then replaying the log onto it
/// does: an index that is loaded is one that was read and that the records of
/// the log were accepted by.
#[verifier::rlimit(80)]
#[verifier::spinoff_prover]
pub proof fn loading_reads_and_replays<I: Persistable>(
    records: Seq<WalRecordView>,
    torn: Seq<u8>,
    config: PersistConfig,
    codecs: Codecs,
    file: &[u8],
    log: &[u8],
    out: Result<Opened<I>>,
)
    requires
        config.wal_enabled,
        lifecycle_laws::switched_on(codecs, config.compression),
        persisted_laws::all_fit(records),
        wal::next_frame(torn) is None,
        log@ == wal::log_bytes(records) + torn,
        call_ensures(
            PersistedIndex::<I>::load_with_codecs,
            (config, codecs, file, Some(log)),
            out,
        ),
    ensures
        exists|read: Result<I>| #[trigger]
            snapshot::restores(file@, codecs, read) && match read {
                Err(e) => out == Err::<Opened<I>, PersistError>(e),
                Ok(inner) => match out {
                    Ok(opened) => {
                        &&& persisted_laws::accepts(inner, records, opened.index.held())
                        &&& opened.index.settings() == config
                        &&& opened.index.codecs_on() == codecs
                    },
                    Err(e) => exists|after: I| #[trigger] stopped(inner, records, e, after),
                },
            },
{
    let read = choose|read: Result<I>| #[trigger]
        snapshot::restores(file@, codecs, read) && persisted::load_outcome(
            config,
            codecs,
            read,
            Some(log),
            out,
        );
    if let Ok(inner) = read {
        let (recovered, after) = choose|recovered: Result<Vec<DiskAction>>, after: I|
            #[trigger] persisted::recovers(inner, config.wal_enabled, Some(log), recovered, after)
                && match recovered {
                Err(e) => out == Err::<Opened<I>, PersistError>(e),
                Ok(actions) => {
                    &&& out is Ok
                    &&& out->Ok_0.index.consists_of(after, config, codecs)
                    &&& out->Ok_0.actions == actions
                },
            };
        let replayed = choose|replayed: Result<Replayed>| #[trigger]
            recovery::replays(inner, log@, replayed, after) && persisted::recovery_outcome(
                log@.len(),
                replayed,
                recovered,
            );
        lemma_replayed(records, torn, log@, inner, replayed, after);
        if let Err(e) = replayed {
            assert(stopped(inner, records, e, after));
        }
    }
    assert(snapshot::restores(file@, codecs, read));
}

// ----------------------------------------------------------------------
// Files that are not sound
// ----------------------------------------------------------------------

/// Where loading succeeded, it does not any more once one byte of the snapshot
/// was changed. The one change left out turns the format version into another
/// supported one.
pub proof fn damage_is_noticed_on_loading<I: Persistable>(
    config: PersistConfig,
    codecs: Codecs,
    file: &[u8],
    log: Option<&[u8]>,
    first: Opened<I>,
    damaged: &[u8],
    at: int,
    later_log: Option<&[u8]>,
    out: Result<Opened<I>>,
)
    requires
        snapshot_laws::repeatable::<I>(),
        call_ensures(
            PersistedIndex::<I>::load_with_codecs,
            (config, codecs, file, log),
            Ok(first),
        ),
        checksum::differ_at(file@, damaged@, at),
        !(at == 8 && 1 <= damaged@[8] <= 2),
        call_ensures(
            PersistedIndex::<I>::load_with_codecs,
            (config, codecs, damaged, later_log),
            out,
        ),
    ensures
        out is Err,
{
    persisted_laws::damaged_snapshot_does_not_load(
        config,
        codecs,
        file@,
        log,
        first,
        damaged@,
        at,
        later_log,
        out,
    );
}

/// What was saved does not load once it was cut off anywhere, and is reported
/// for what it is.
pub proof fn truncation_is_noticed_on_loading<I: Persistable>(
    db: &PersistedIndex<I>,
    bytes: Vec<u8>,
    config: PersistConfig,
    codecs: Codecs,
    cut: int,
    file: &[u8],
    log: Option<&[u8]>,
    out: Result<Opened<I>>,
)
    requires
        snapshot_laws::tag_fits::<I>(),
        call_ensures(PersistedIndex::<I>::save, (db,), Ok(DiskAction::WriteSnapshot { bytes })),
        0 <= cut < bytes@.len(),
        file@ == bytes@.take(cut),
        lifecycle_laws::switched_on(codecs, config.compression),
        config.compression == db.settings().compression,
        snapshot_laws::shows_truncation(
            config.compression,
            bytes@,
            snapshot_laws::header_len::<I>(),
            cut,
        ),
        call_ensures(PersistedIndex::<I>::load_with_codecs, (config, codecs, file, log), out),
    ensures
        out is Err,
        snapshot_laws::reports_truncation(
            bytes@,
            snapshot_laws::header_len::<I>(),
            cut,
            out->Err_0@,
        ),
{
    let action = DiskAction::WriteSnapshot { bytes };
    assert(persisted::saves_index(db.held(), config, Ok(action)));
    persisted_laws::truncated_snapshot_does_not_load(
        db.held(),
        config,
        codecs,
        action,
        bytes@,
        cut,
        log,
        out,
    );
}

/// What a file with a sound header is parsed to.
#[verifier::rlimit(80)]
#[verifier::spinoff_prover]
proof fn lemma_headed_file_parses(file: Seq<u8>, version: nat, tag: Seq<char>, profile: Profile)
    requires
        1 <= version <= 2,
        vstd::utf8::encode_utf8(tag).len() <= 4096,
        lifecycle_laws::is_headed(file, version, tag, profile),
    ensures
        crate::format::parse_header(file) == Ok::<
            (crate::format::FileHeaderView, Seq<u8>),
            error::PersistErrorView,
        >(
            (
                crate::format::FileHeaderView {
                    magic: crate::format::MAGIC@,
                    version: version as u32,
                    index_type: tag,
                    dim: profile.dim as nat,
                    metric: profile.metric,
                    n_vectors: profile.count as nat,
                    crc32: checksum::crc32(
                        file.skip(41 + vstd::utf8::encode_utf8(tag).len() as int),
                    ),
                },
                file.skip(41 + vstd::utf8::encode_utf8(tag).len() as int),
            ),
        ),
{
    let name = vstd::utf8::encode_utf8(tag);
    let n = name.len() as int;
    let rest = file.skip(41 + n);
    let header = crate::format::FileHeaderView {
        magic: crate::format::MAGIC@,
        version: version as u32,
        index_type: tag,
        dim: profile.dim as nat,
        metric: profile.metric,
        n_vectors: profile.count as nat,
        crc32: checksum::crc32(rest),
    };
    let spelled = crate::format::header_bytes(header) + rest;
    bytes::lemma_pow256_widths();
    bytes::lemma_le_value_bound(file.subrange(20 + n, 28 + n));
    assert(crate::format::MAGIC@ =~= seq![0x49u8, 0x51, 0x44, 0x42, 0x50, 0x52, 0x53, 0x54]);
    snapshot_laws::lemma_field_offsets(header, rest);
    bytes::lemma_le_bytes_len(version, 4);
    bytes::lemma_le_bytes_len(name.len(), 8);
    bytes::lemma_le_bytes_len(header.dim, 8);
    bytes::lemma_le_bytes_len(header.n_vectors, 8);
    bytes::lemma_le_bytes_len(header.crc32 as nat, 4);
    bytes::lemma_le_value_of_bytes(version, 4);
    bytes::lemma_le_value_of_bytes(name.len(), 8);
    bytes::lemma_le_value_of_bytes(header.dim, 8);
    bytes::lemma_le_value_of_bytes(header.n_vectors, 8);
    bytes::lemma_le_value_of_bytes(header.crc32 as nat, 4);
    bytes::lemma_le_value_injective(file.subrange(8, 12), bytes::le_bytes(version, 4));
    bytes::lemma_le_value_injective(file.subrange(12, 20), bytes::le_bytes(name.len(), 8));
    bytes::lemma_le_value_injective(
        file.subrange(20 + n, 28 + n),
        bytes::le_bytes(header.dim, 8),
    );
    bytes::lemma_le_value_injective(
        file.subrange(29 + n, 37 + n),
        bytes::le_bytes(header.n_vectors, 8),
    );
    bytes::lemma_le_value_injective(
        file.subrange(37 + n, 41 + n),
        bytes::le_bytes(header.crc32 as nat, 4),
    );
    assert(spelled.len() == file.len());
    assert forall|i: int| 0 <= i < file.len() implies spelled[i] == file[i] by {
        if i < 8 {
            assert(spelled.subrange(0, 8)[i] == file.subrange(0, 8)[i]);
        } else if i < 12 {
            assert(spelled.subrange(8, 12)[i - 8] == file.subrange(8, 12)[i - 8]);
        } else if i < 20 {
            assert(spelled.subrange(12, 20)[i - 12] == file.subrange(12, 20)[i - 12]);
        } else if i < 20 + n {
            assert(spelled.subrange(20, 20 + n)[i - 20] == file.subrange(20, 20 + n)[i - 20]);
        } else if i < 28 + n {
            assert(spelled.subrange(20 + n, 28 + n)[i - 20 - n] == file.subrange(
                20 + n,
                28 + n,
            )[i - 20 - n]);
        } else if i == 28 + n {
        } else if i < 37 + n {
            assert(spelled.subrange(29 + n, 37 + n)[i - 29 - n] == file.subrange(
                29 + n,
                37 + n,
            )[i - 29 - n]);
        } else if i < 41 + n {
            assert(spelled.subrange(37 + n, 41 + n)[i - 37 - n] == file.subrange(
                37 + n,
                41 + n,
            )[i - 37 - n]);
        } else {
            assert(spelled.skip(41 + n)[i - 41 - n] == rest[i - 41 - n]);
        }
    }
    assert(spelled =~= file);
    crate::format::header_round_trips(header, rest);
}

/// Whether a file with a header of this length holds this payload: in version 1
/// right behind the header, in version 2 behind the number of a scheme and the
/// length of the payload. It is there as it is, or in a form that a codec that
/// is switched on decompresses to it.
pub open spec fn holds_payload(
    file: Seq<u8>,
    version: nat,
    head: int,
    codecs: Codecs,
    payload: Seq<u8>,
) -> bool {
    let stored = file.skip(head + 9);
    let run = compression::longest_ff(stored);
    if version == 1 {
        file.skip(head) == payload
    } else {
        &&& version == 2
        &&& file.len() >= head + 9
        &&& bytes::le_value(file.subrange(head + 1, head + 9)) == payload.len()
        &&& file[head] > 0 ==> payload.len() <= 65_536 * stored.len() && payload.len()
            <= isize::MAX
        &&& {
            ||| file[head] == 0 && stored == payload
            ||| file[head] == 1 && codecs.zstd && compression::zstd_decompressed(
                stored,
                payload.len(),
            ) == Some(payload)
            ||| file[head] == 2 && codecs.lz4 && run <= 16_843_008 && payload.len() + 255 * run
                + 273 <= usize::MAX && compression::lz4_decompressed(stored, payload.len())
                == Some(payload)
        }
    }
}

/// What reading a file with a sound header comes to, whatever its
/// dimensionality, its metric and its count are. If the tag is another one, the
/// file is rejected. Otherwise the payload is handed to the index; what that
/// gives is returned if it agrees with the header, and rejected if it does not.
#[verifier::rlimit(80)]
#[verifier::spinoff_prover]
pub proof fn sound_file_is_read<I: Persistable>(
    file: &[u8],
    codecs: Codecs,
    version: nat,
    tag: Seq<char>,
    profile: Profile,
    payload: Seq<u8>,
    out: Result<I>,
)
    requires
        vstd::utf8::encode_utf8(tag).len() <= 4096,
        lifecycle_laws::is_headed(file@, version, tag, profile),
        holds_payload(
            file@,
            version,
            41 + vstd::utf8::encode_utf8(tag).len() as int,
            codecs,
            payload,
        ),
        call_ensures(snapshot::read_snapshot::<I>, (file, codecs), out),
    ensures
        tag != I::INDEX_TYPE@ ==> (out matches Err(PersistError::InvalidIndexType { found, expected })
            && found@ == tag && expected@ == I::INDEX_TYPE@),
        tag == I::INDEX_TYPE@ ==> exists|loaded: Result<I>| #[trigger]
            I::loads(payload, loaded) && match loaded {
                Ok(index) => if index.profile() == profile {
                    out == loaded
                } else {
                    out matches Err(PersistError::InvalidPayload { .. })
                },
                Err(e) => out == loaded,
            },
{
    let n = vstd::utf8::encode_utf8(tag).len() as int;
    let region = file@.skip(41 + n);
    lemma_headed_file_parses(file@, version, tag, profile);
    if version == 2 {
        assert(region.subrange(1, 9) =~= file@.subrange(42 + n, 50 + n));
        assert(region.skip(9) =~= file@.skip(50 + n));
    }
    if tag == I::INDEX_TYPE@ {
        let (header, found) = snapshot::opened_file(file@, I::INDEX_TYPE@, codecs)->Ok_0;
        assert(found == payload);
        assert(snapshot::rebuilds(header, payload, out));
        let loaded = choose|loaded: Result<I>| #[trigger]
            I::loads(payload, loaded) && snapshot::restore_outcome(header, loaded, out);
        assert(I::loads(payload, loaded));
    }
}

/// An index that was read agrees with the file's header in its tag, its
/// dimensionality, its metric and its count, and the payload region has the
/// CRC32 that the header declares.
#[verifier::rlimit(80)]
#[verifier::spinoff_prover]
pub proof fn index_that_was_read_agrees_with_its_header<I: Persistable>(
    file: &[u8],
    codecs: Codecs,
    index: I,
)
    requires
        call_ensures(snapshot::read_snapshot::<I>, (file, codecs), Ok(index)),
    ensures
        lifecycle_laws::is_headed(file@, 1, I::INDEX_TYPE@, index.profile())
            || lifecycle_laws::is_headed(file@, 2, I::INDEX_TYPE@, index.profile()),
        vstd::utf8::encode_utf8(I::INDEX_TYPE@).len() <= 4096,
{
    let out = Ok::<I, PersistError>(index);
    let (header, payload) = snapshot::opened_file(file@, I::INDEX_TYPE@, codecs)->Ok_0;
    let (_, region) = crate::format::parse_header(file@)->Ok_0;
    crate::format::parsed_header_is_canonical(file@);
    assert(snapshot::rebuilds(header, payload, out));
    let name = vstd::utf8::encode_utf8(header.index_type);
    snapshot_laws::lemma_field_offsets(header, region);
    bytes::lemma_pow256_widths();
    bytes::lemma_le_value_of_bytes(header.version as nat, 4);
    bytes::lemma_le_value_of_bytes(name.len(), 8);
    bytes::lemma_le_value_of_bytes(header.dim, 8);
    bytes::lemma_le_value_of_bytes(header.n_vectors, 8);
    bytes::lemma_le_value_of_bytes(header.crc32 as nat, 4);
    assert(crate::format::MAGIC@ =~= seq![0x49u8, 0x51, 0x44, 0x42, 0x50, 0x52, 0x53, 0x54]);
}

// ----------------------------------------------------------------------
// Logs that hold nothing, and the default codecs
// ----------------------------------------------------------------------

/// A log that is missing, or was cut off within its header, holds nothing: a
/// snapshot loads to its state, and the log is to be started afresh.
pub proof fn missing_log_is_started_afresh<I: Persistable, S>(
    state: spec_fn(I) -> S,
    db: &PersistedIndex<I>,
    bytes: Vec<u8>,
    file: &[u8],
    log: Option<&[u8]>,
    out: Result<Opened<I>>,
)
    requires
        persisted_laws::governs(state),
        snapshot_laws::faithful(state),
        snapshot_laws::tag_fits::<I>(),
        db.settings().wal_enabled,
        lifecycle_laws::switched_on(db.codecs_on(), db.settings().compression),
        call_ensures(PersistedIndex::<I>::save, (db,), Ok(DiskAction::WriteSnapshot { bytes })),
        file@ == bytes@,
        log matches Some(found) ==> found@.len() < 12,
        call_ensures(
            PersistedIndex::<I>::load_with_codecs,
            (db.settings(), db.codecs_on(), file, log),
            out,
        ),
    ensures
        out is Ok,
        state(out->Ok_0.index.held()) == state(db.held()),
        out->Ok_0.index.settings() == db.settings(),
        out->Ok_0.index.codecs_on() == db.codecs_on(),
        out->Ok_0.actions@.len() == 1,
        out->Ok_0.actions@[0] matches DiskAction::WriteLog { bytes }
            && lifecycle_laws::is_empty_log(bytes@),
{
    let saved = Ok::<DiskAction, PersistError>(DiskAction::WriteSnapshot { bytes });
    let taken = choose|taken: Result<Vec<u8>>| #[trigger]
        snapshot::snapshots(db.held(), db.settings().compression, taken)
            && persisted::save_outcome(taken, saved);
    assert(taken == Ok::<Vec<u8>, PersistError>(taken->Ok_0));
    persisted_laws::unstarted_log_recovers_the_snapshot(
        state,
        db.held(),
        db.settings(),
        db.codecs_on(),
        taken->Ok_0,
        log,
        out,
    );
    let views = persisted::action_views(out->Ok_0.actions@);
    assert(views.len() == out->Ok_0.actions@.len());
    assert(views[0] == out->Ok_0.actions@[0]@);
    lifecycle_laws::lemma_empty_log();
}

/// In two steps, a missing log is started afresh too, and one that is cut off
/// within its header.
#[verifier::rlimit(80)]
#[verifier::spinoff_prover]
pub proof fn missing_log_is_recovered_as_empty<I: Persistable>(
    db: &mut PersistedIndex<I>,
    log: Option<&[u8]>,
    out: Result<Vec<DiskAction>>,
)
    requires
        old(db).settings().wal_enabled,
        log matches Some(found) ==> found@.len() < 12,
        call_ensures(PersistedIndex::<I>::recover_log, (db, log), out),
    ensures
        final(db).held() == old(db).held(),
        final(db).settings() == old(db).settings(),
        final(db).codecs_on() == old(db).codecs_on(),
        out is Ok,
        out->Ok_0@.len() == 1,
        out->Ok_0@[0] matches DiskAction::WriteLog { bytes } && lifecycle_laws::is_empty_log(
            bytes@,
        ),
{
    let views = persisted::action_views(out->Ok_0@);
    lifecycle_laws::lemma_empty_log();
    if let Some(found) = log {
        let replayed = choose|replayed: Result<Replayed>| #[trigger]
            recovery::replays(old(db).held(), found@, replayed, final(db).held())
                && persisted::recovery_outcome(found@.len(), replayed, out);
        if let Err(e) = replayed {
            assert(recovery::stops(
                old(db).held(),
                Seq::<WalRecordView>::empty(),
                e@,
                final(db).held(),
            ));
        }
    }
    assert(views.len() == out->Ok_0@.len());
    assert(views[0] == out->Ok_0@[0]@);
}

/// With the default codecs, loading recovers the state of an uncompressed index
/// just so.
pub proof fn plain_loading_recovers_the_state<I: Persistable, S>(
    state: spec_fn(I) -> S,
    disk: DiskView,
    config: PersistConfig,
    current: S,
    torn: Seq<u8>,
    file: &[u8],
    log: &[u8],
    out: Result<Opened<I>>,
)
    requires
        persisted_laws::governs(state),
        snapshot_laws::faithful(state),
        snapshot_laws::tag_fits::<I>(),
        config.wal_enabled,
        config.compression is Off,
        persisted_laws::in_step(disk, config, state, current),
        wal::next_frame(torn) is None,
        file@ == disk.snapshot->0,
        log@ == disk.log->0 + torn,
        call_ensures(PersistedIndex::<I>::load, (config, file, Some(log)), out),
    ensures
        out is Ok,
        state(out->Ok_0.index.held()) == current,
        out->Ok_0.index.settings() == config,
        persisted_laws::all_performed(
            persisted_laws::performed(disk, DiskActionView::AppendLog { bytes: torn }),
            persisted::action_views(out->Ok_0.actions@),
        ) == disk,
{
    persisted_laws::recovery_restores_the_state(
        state,
        disk,
        config,
        Codecs { zstd: false, lz4: false },
        current,
        torn,
        log,
        out,
    );
}

/// With the default codecs, asking for compression is refused on loading.
pub proof fn plain_loading_refuses_compression<I: Persistable>(
    config: PersistConfig,
    file: &[u8],
    log: Option<&[u8]>,
    out: Result<Opened<I>>,
)
    requires
        config.compression !is Off,
        call_ensures(PersistedIndex::<I>::load, (config, file, log), out),
    ensures
        out is Err,
        lifecycle_laws::says_unsupported(out->Err_0),
{
}

/// Opening an index with a log and performing what that asks for puts the files
/// in step with it; so does a checkpoint.
pub proof fn opening_and_checkpoint_put_files_in_step<I: Persistable, S>(
    state: spec_fn(I) -> S,
    disk: DiskView,
    inner: I,
    config: PersistConfig,
    codecs: Codecs,
    opened: Opened<I>,
    db: &PersistedIndex<I>,
    actions: Vec<DiskAction>,
)
    requires
        config.wal_enabled,
        call_ensures(
            PersistedIndex::<I>::open_with_codecs,
            (inner, config, codecs),
            Ok(opened),
        ),
        db.settings() == config,
        call_ensures(PersistedIndex::<I>::checkpoint, (db,), Ok(actions)),
    ensures
        persisted_laws::in_step(
            persisted_laws::all_performed(disk, persisted::action_views(opened.actions@)),
            config,
            state,
            state(inner),
        ),
        persisted_laws::in_step(
            persisted_laws::all_performed(disk, persisted::action_views(actions@)),
            config,
            state,
            state(db.held()),
        ),
{
    persisted_laws::opening_puts_files_in_step(state, disk, inner, config, codecs, opened);
    persisted_laws::checkpoint_puts_files_in_step(state, disk, db.held(), config, actions);
}

// ----------------------------------------------------------------------
// How the ways of loading relate
// ----------------------------------------------------------------------

/// What reading a snapshot of an `I` from `file` may come to, given what reading
/// its header and opening its payload region come to. The first fault is
/// reported, in that order: the header's own, another tag, another CRC32, the
/// region's own, the index's own, a disagreement with the header.
pub open spec fn goes_by_its_parts<I: Persistable>(
    header: Result<crate::format::FileHeader>,
    region: Seq<u8>,
    opened: Result<Vec<u8>>,
    out: Result<I>,
) -> bool {
    match header {
        Err(e) => out is Err && out->Err_0@ == e@,
        Ok(header) => if header.index_type@ != I::INDEX_TYPE@ {
            out matches Err(PersistError::InvalidIndexType { found, expected }) && found@
                == header.index_type@ && expected@ == I::INDEX_TYPE@
        } else if checksum::crc32(region) != header.crc32 {
            out == Err::<I, PersistError>(
                PersistError::ChecksumMismatch {
                    expected: header.crc32,
                    computed: checksum::crc32(region),
                },
            )
        } else {
            match opened {
                Err(e) => out is Err && out->Err_0@ == e@,
                Ok(payload) => exists|loaded: Result<I>| #[trigger]
                    I::loads(payload@, loaded) && match loaded {
                        Err(_) => out == loaded,
                        Ok(index) => {
                            let profile = index.profile();
                            if profile.dim == header.dim && profile.metric == header.metric
                                && profile.count == header.n_vectors {
                                out == loaded
                            } else {
                                out matches Err(PersistError::InvalidPayload { .. })
                            }
                        },
                    },
            }
        },
    }
}

/// What reading a snapshot may come to.
#[verifier::rlimit(80)]
#[verifier::spinoff_prover]
proof fn lemma_reading<I: Persistable>(
    file: Seq<u8>,
    codecs: Codecs,
    reader: &mut &[u8],
    header: Result<crate::format::FileHeader>,
    region: &[u8],
    opened: Result<Vec<u8>>,
    out: Result<I>,
)
    requires
        old(reader)@ == file,
        call_ensures(crate::format::read_header, (reader,), header),
        region@ == final(reader)@,
        header matches Ok(found) ==> call_ensures(
            compression::open_payload,
            (found.version, region, codecs),
            opened,
        ),
        snapshot::restores(file, codecs, out),
    ensures
        goes_by_its_parts(header, region@, opened, out),
{
    if let Ok(found) = header {
        if let Ok((head, payload)) = snapshot::opened_file(file, I::INDEX_TYPE@, codecs) {
            assert(opened is Ok && payload == opened->Ok_0@);
            assert(snapshot::rebuilds(head, payload, out));
            let loaded = choose|loaded: Result<I>| #[trigger]
                I::loads(payload, loaded) && snapshot::restore_outcome(head, loaded, out);
            assert(I::loads(opened->Ok_0@, loaded));
        }
    }
}

/// Reading a snapshot goes by what reading its header and opening its payload
/// region come to.
pub proof fn reading_a_snapshot_goes_by_its_parts<I: Persistable>(
    file: &[u8],
    codecs: Codecs,
    reader: &mut &[u8],
    header: Result<crate::format::FileHeader>,
    region: &[u8],
    opened: Result<Vec<u8>>,
    out: Result<I>,
)
    requires
        old(reader)@ == file@,
        call_ensures(crate::format::read_header, (reader,), header),
        region@ == final(reader)@,
        header matches Ok(found) ==> call_ensures(
            compression::open_payload,
            (found.version, region, codecs),
            opened,
        ),
        call_ensures(snapshot::read_snapshot::<I>, (file, codecs), out),
    ensures
        goes_by_its_parts(header, region@, opened, out),
{
    lemma_reading(file@, codecs, reader, header, region, opened, out);
}

/// Whether loading came to what reading the snapshot came to.
pub open spec fn loaded_as_read<I: Persistable>(
    read: Result<I>,
    config: PersistConfig,
    codecs: Codecs,
    out: Result<PersistedIndex<I>>,
) -> bool {
    match read {
        Err(e) => out == Err::<PersistedIndex<I>, PersistError>(e),
        Ok(inner) => {
            &&& out is Ok
            &&& out->Ok_0.held() == inner
            &&& out->Ok_0.settings() == config
            &&& out->Ok_0.codecs_on() == codecs
        },
    }
}

/// Loading a snapshot, with or without a log, and loading an index without a
/// log, whatever a log holds, all come to what reading the snapshot comes to.
#[verifier::rlimit(80)]
#[verifier::spinoff_prover]
pub proof fn loading_without_a_log_is_reading<I: Persistable>(
    file: &[u8],
    config: PersistConfig,
    codecs: Codecs,
    reader: &mut &[u8],
    header: Result<crate::format::FileHeader>,
    region: &[u8],
    opened: Result<Vec<u8>>,
    snapshot: Result<PersistedIndex<I>>,
    log: Option<&[u8]>,
    index: Result<Opened<I>>,
)
    requires
        lifecycle_laws::switched_on(codecs, config.compression),
        old(reader)@ == file@,
        call_ensures(crate::format::read_header, (reader,), header),
        region@ == final(reader)@,
        header matches Ok(found) ==> call_ensures(
            compression::open_payload,
            (found.version, region, codecs),
            opened,
        ),
        call_ensures(PersistedIndex::<I>::load_snapshot, (config, codecs, file), snapshot),
        call_ensures(PersistedIndex::<I>::load_with_codecs, (config, codecs, file, log), index),
    ensures
        exists|read: Result<I>| #[trigger]
            goes_by_its_parts(header, region@, opened, read) && loaded_as_read(
                read,
                config,
                codecs,
                snapshot,
            ),
        !config.wal_enabled ==> exists|read: Result<I>| #[trigger]
            goes_by_its_parts(header, region@, opened, read) && match index {
                Ok(found) => loaded_as_read(read, config, codecs, Ok(found.index))
                    && found.actions@.len() == 0,
                Err(e) => read == Err::<I, PersistError>(e),
            },
        config.wal_enabled ==> exists|read: Result<I>| #[trigger]
            goes_by_its_parts(header, region@, opened, read) && match read {
                Ok(_) => index matches Ok(found) ==> found.index.settings() == config
                    && found.index.codecs_on() == codecs,
                Err(e) => index == Err::<Opened<I>, PersistError>(e),
            },
{
    let read = choose|read: Result<I>| #[trigger]
        snapshot::restores(file@, codecs, read) && match read {
            Err(e) => snapshot == Err::<PersistedIndex<I>, PersistError>(e),
            Ok(inner) => snapshot is Ok && snapshot->Ok_0.consists_of(inner, config, codecs),
        };
    lemma_reading(file@, codecs, reader, header, region, opened, read);
    let again = choose|again: Result<I>| #[trigger]
        snapshot::restores(file@, codecs, again) && persisted::load_outcome(
            config,
            codecs,
            again,
            log,
            index,
        );
    lemma_reading(file@, codecs, reader, header, region, opened, again);
    if let Ok(found) = index {
        assert(persisted::action_views(found.actions@).len() == found.actions@.len());
    }
}

/// With the default codecs, loading without a log is reading too.
pub proof fn plain_loading_without_a_log_is_reading<I: Persistable>(
    file: &[u8],
    config: PersistConfig,
    reader: &mut &[u8],
    header: Result<crate::format::FileHeader>,
    region: &[u8],
    opened: Result<Vec<u8>>,
    log: Option<&[u8]>,
    index: Result<Opened<I>>,
)
    requires
        !config.wal_enabled,
        config.compression is Off,
        old(reader)@ == file@,
        call_ensures(crate::format::read_header, (reader,), header),
        region@ == final(reader)@,
        header matches Ok(found) ==> call_ensures(
            compression::open_payload,
            (found.version, region, Codecs { zstd: false, lz4: false }),
            opened,
        ),
        call_ensures(PersistedIndex::<I>::load, (config, file, log), index),
    ensures
        exists|read: Result<I>| #[trigger]
            goes_by_its_parts(header, region@, opened, read) && match index {
                Ok(found) => loaded_as_read(
                    read,
                    config,
                    Codecs { zstd: false, lz4: false },
                    Ok(found.index),
                ) && found.actions@.len() == 0,
                Err(e) => read == Err::<I, PersistError>(e),
            },
{
    let codecs = Codecs { zstd: false, lz4: false };
    let again = choose|again: Result<I>| #[trigger]
        snapshot::restores(file@, codecs, again) && persisted::load_outcome(
            config,
            codecs,
            again,
            log,
            index,
        );
    lemma_reading(file@, codecs, reader, header, region, opened, again);
    if let Ok(found) = index {
        assert(persisted::action_views(found.actions@).len() == found.actions@.len());
    }
}

} // verus!
