//! What holds of a persisted index as a whole: what a crash can do to it.

use iqdb_types::IqdbError;
use vstd::prelude::*;

use crate::checksum;
use crate::compression::Codecs;
use crate::config::PersistConfig;
use crate::error;
use crate::error::{PersistError, Result};
use crate::persistable::Persistable;
use crate::persisted;
use crate::persisted::{DiskActionView, LogOutcome, Opened, Rollback};
use crate::recovery;
use crate::recovery::Replayed;
use crate::snapshot;
use crate::snapshot_laws;
use crate::wal;
use crate::wal::WalRecordView;
use crate::wal_laws;

verus! {

/// The two files of a persisted index.
#[verifier::ext_equal]
pub struct DiskView {
    /// The snapshot file, if it exists.
    pub snapshot: Option<Seq<u8>>,
    /// The log, if it exists.
    pub log: Option<Seq<u8>>,
}

/// The files after one action.
pub open spec fn performed(disk: DiskView, action: DiskActionView) -> DiskView {
    let log = match disk.log {
        Some(log) => log,
        None => Seq::empty(),
    };
    match action {
        DiskActionView::WriteSnapshot { bytes } => DiskView { snapshot: Some(bytes), ..disk },
        DiskActionView::WriteLog { bytes } => DiskView { log: Some(bytes), ..disk },
        DiskActionView::AppendLog { bytes } => DiskView { log: Some(log + bytes), ..disk },
        DiskActionView::TruncateLog { len } => DiskView { log: Some(log.take(len as int)), ..disk },
    }
}

/// The files after several actions.
pub open spec fn all_performed(disk: DiskView, actions: Seq<DiskActionView>) -> DiskView
    decreases actions.len(),
{
    if actions.len() == 0 {
        disk
    } else {
        performed(all_performed(disk, actions.drop_last()), actions.last())
    }
}

/// Whether every record is at most `u32::MAX` bytes long.
pub open spec fn all_fit(records: Seq<WalRecordView>) -> bool {
    forall|i: int|
        0 <= i < records.len() ==> wal::record_bytes(#[trigger] records[i]).len() <= 0xFFFF_FFFF
}

/// Whether the vector of a mutation, if it has one, has as many components as
/// the index has dimensions.
pub open spec fn has_dim<I: Persistable>(index: I, mutation: WalRecordView) -> bool {
    mutation matches WalRecordView::Insert { vector, .. } ==> vector.len() == index.profile().dim
}

/// Whether the index may take all of `records`, one after the other, and get
/// from `before` to `after`: every vector has its dimensionality, and it accepts
/// every mutation.
pub open spec fn accepts<I: Persistable>(
    before: I,
    records: Seq<WalRecordView>,
    after: I,
) -> bool
    decreases records.len(),
{
    if records.len() == 0 {
        after == before
    } else {
        exists|mid: I|
            {
                &&& accepts(before, records.drop_last(), mid)
                &&& has_dim(mid, records.last())
                &&& #[trigger] I::applies(mid, records.last(), None, after)
            }
    }
}

/// What an index accepts is replayed onto it, and what is replayed is accepted.
pub proof fn replay_applies_what_is_accepted<I: Persistable>(
    before: I,
    records: Seq<WalRecordView>,
    after: I,
)
    ensures
        recovery::reaches(before, records, after) <==> accepts(before, records, after),
    decreases records.len(),
{
    if records.len() > 0 {
        let front = records.drop_last();
        let last = records.last();
        if accepts(before, records, after) {
            let mid = choose|mid: I|
                {
                    &&& accepts(before, front, mid)
                    &&& has_dim(mid, last)
                    &&& #[trigger] I::applies(mid, last, None, after)
                };
            replay_applies_what_is_accepted(before, front, mid);
            assert(recovery::reaches(before, front, mid) && I::applies(mid, last, None, after));
        }
        if recovery::reaches(before, records, after) {
            let mid = choose|mid: I|
                {
                    &&& recovery::reaches(before, front, mid)
                    &&& recovery::dim_agrees(mid, last)
                    &&& #[trigger] I::applies(mid, last, None, after)
                };
            replay_applies_what_is_accepted(before, front, mid);
            assert(accepts(before, front, mid) && I::applies(mid, last, None, after));
        }
    }
}

/// Whether the snapshot file is one of `base`, the log holds exactly
/// `records`, and applying them takes `base` to `model`.
pub open spec fn logged_from<I: Persistable>(
    disk: DiskView,
    config: PersistConfig,
    base: I,
    file: Vec<u8>,
    records: Seq<WalRecordView>,
    model: I,
) -> bool {
    &&& snapshot::snapshots(base, config.compression, Ok(file))
    &&& disk.snapshot == Some(file@)
    &&& disk.log == Some(wal::log_bytes(records))
    &&& all_fit(records)
    &&& accepts(base, records, model)
}

/// Whether the files are in step with an in-memory index of the given state:
/// the snapshot and the log together account for all of it.
pub open spec fn in_step<I: Persistable, S>(
    disk: DiskView,
    config: PersistConfig,
    state: spec_fn(I) -> S,
    current: S,
) -> bool {
    exists|base: I, file: Vec<u8>, records: Seq<WalRecordView>, model: I| #[trigger]
        logged_from(disk, config, base, file, records, model) && state(model) == current
}

/// Whether a mutation of the index has some outcome.
pub open spec fn answers<I: Persistable>(before: I, mutation: WalRecordView) -> bool {
    exists|rejection: Option<IqdbError>, after: I| #[trigger]
        I::applies(before, mutation, rejection, after)
}

/// Whether `state` is all that matters of an index: what can be observed of it,
/// whether it accepts a mutation and what state that leads to depend on its
/// state alone.
pub open spec fn governs<I: Persistable, S>(state: spec_fn(I) -> S) -> bool {
    &&& forall|a: I, b: I|
        #![trigger state(a), state(b)]
        state(a) == state(b) ==> a.profile() == b.profile()
    &&& forall|
        b1: I,
        b2: I,
        mutation: WalRecordView,
        r1: Option<IqdbError>,
        a1: I,
        r2: Option<IqdbError>,
        a2: I,
    |
        #![trigger I::applies(b1, mutation, r1, a1), I::applies(b2, mutation, r2, a2)]
        state(b1) == state(b2) && I::applies(b1, mutation, r1, a1) && I::applies(
            b2,
            mutation,
            r2,
            a2,
        ) ==> (r1 is None) == (r2 is None) && (r1 is None ==> state(a1) == state(a2))
    &&& forall|before: I, mutation: WalRecordView| #[trigger] answers(before, mutation)
}

/// One more record.
proof fn lemma_reaches_push<I: Persistable>(
    before: I,
    records: Seq<WalRecordView>,
    mid: I,
    record: WalRecordView,
    after: I,
)
    requires
        accepts(before, records, mid),
        has_dim(mid, record),
        I::applies(mid, record, None, after),
    ensures
        accepts(before, records.push(record), after),
{
    assert(records.push(record).drop_last() =~= records);
    assert(records.push(record).last() == record);
}

/// From one state, the same records lead to one state.
proof fn lemma_reaches_one_state<I: Persistable, S>(
    state: spec_fn(I) -> S,
    b1: I,
    b2: I,
    records: Seq<WalRecordView>,
    a1: I,
    a2: I,
)
    requires
        governs(state),
        state(b1) == state(b2),
        accepts(b1, records, a1),
        accepts(b2, records, a2),
    ensures
        state(a1) == state(a2),
    decreases records.len(),
{
    if records.len() > 0 {
        let front = records.drop_last();
        let last = records.last();
        let m1 = choose|mid: I|
            {
                &&& accepts(b1, front, mid)
                &&& has_dim(mid, last)
                &&& #[trigger] I::applies(mid, last, None, a1)
            };
        let m2 = choose|mid: I|
            {
                &&& accepts(b2, front, mid)
                &&& has_dim(mid, last)
                &&& #[trigger] I::applies(mid, last, None, a2)
            };
        lemma_reaches_one_state(state, b1, b2, front, m1, m2);
    }
}

/// What is reached passes through an index before each record, which accepts
/// the record.
proof fn lemma_reaches_through<I: Persistable>(
    before: I,
    records: Seq<WalRecordView>,
    after: I,
    k: int,
) -> (step: (I, I))
    requires
        accepts(before, records, after),
        0 <= k < records.len(),
    ensures
        accepts(before, records.take(k), step.0),
        has_dim(step.0, records[k]),
        I::applies(step.0, records[k], None, step.1),
    decreases records.len(),
{
    let front = records.drop_last();
    let last = records.last();
    let mid = choose|mid: I|
        {
            &&& accepts(before, front, mid)
            &&& has_dim(mid, last)
            &&& #[trigger] I::applies(mid, last, None, after)
        };
    if k == records.len() - 1 {
        assert(records.take(k) =~= front);
        (mid, after)
    } else {
        let step = lemma_reaches_through(before, front, mid, k);
        assert(front.take(k) =~= records.take(k));
        step
    }
}

/// Replaying the records that led from one state to another leads there again,
/// and does not stop on the way.
#[verifier::rlimit(80)]
#[verifier::spinoff_prover]
proof fn lemma_replay<I: Persistable, S>(
    state: spec_fn(I) -> S,
    base: I,
    records: Seq<WalRecordView>,
    model: I,
    before: I,
    log: Seq<u8>,
    committed: nat,
    out: Result<Replayed>,
    after: I,
)
    requires
        governs(state),
        accepts(base, records, model),
        state(before) == state(base),
        wal::parse_log(log) == Ok::<(Seq<WalRecordView>, nat), error::PersistErrorView>(
            (records, committed),
        ),
        recovery::replays(before, log, out, after),
    ensures
        out is Ok,
        out->Ok_0.committed == committed,
        state(after) == state(model),
{
    match out {
        Ok(_) => {
            replay_applies_what_is_accepted(before, records, after);
            lemma_reaches_one_state(state, base, before, records, model, after);
        },
        Err(e) => {
            assert(recovery::stops(before, records, e@, after));
            let (k, mid) = choose|k: int, mid: I|
                0 <= k < records.len() && #[trigger] recovery::reaches(
                    before,
                    records.take(k),
                    mid,
                ) && recovery::fails_at(mid, records[k], e@, after);
            replay_applies_what_is_accepted(before, records.take(k), mid);
            let (there, next) = lemma_reaches_through(base, records, model, k);
            lemma_reaches_one_state(state, base, before, records.take(k), there, mid);
            assert(state(there) == state(mid));
            assert(there.profile() == mid.profile());
            assert(I::applies(there, records[k], None, next));
        },
    }
}

/// Opening an index in WAL mode, and doing what that asks for, puts the files
/// in step with it, whatever they held before.
pub proof fn opening_puts_files_in_step<I: Persistable, S>(
    state: spec_fn(I) -> S,
    disk: DiskView,
    inner: I,
    config: PersistConfig,
    codecs: Codecs,
    opened: Opened<I>,
)
    requires
        config.wal_enabled,
        persisted::opens(inner, config, codecs, Ok(opened)),
    ensures
        opened.index.consists_of(inner, config, codecs),
        in_step(
            all_performed(disk, persisted::action_views(opened.actions@)),
            config,
            state,
            state(inner),
        ),
{
    let base = choose|base: Result<Vec<u8>>| #[trigger]
        snapshot::snapshots(inner, config.compression, base) && persisted::opening_outcome(
            inner,
            config,
            codecs,
            base,
            Ok(opened),
        );
    let file = base->Ok_0;
    assert(base == Ok::<Vec<u8>, PersistError>(file));
    let actions = persisted::action_views(opened.actions@);
    lemma_base_and_empty_log(state, disk, config, inner, file, actions);
}

/// A snapshot followed by an empty log accounts for the snapshot's index.
proof fn lemma_base_and_empty_log<I: Persistable, S>(
    state: spec_fn(I) -> S,
    disk: DiskView,
    config: PersistConfig,
    inner: I,
    file: Vec<u8>,
    actions: Seq<DiskActionView>,
)
    requires
        snapshot::snapshots(inner, config.compression, Ok(file)),
        actions == seq![
            DiskActionView::WriteSnapshot { bytes: file@ },
            DiskActionView::WriteLog { bytes: wal::log_bytes(Seq::empty()) },
        ],
    ensures
        in_step(all_performed(disk, actions), config, state, state(inner)),
{
    reveal_with_fuel(all_performed, 3);
    let after = all_performed(disk, actions);
    let none = Seq::<WalRecordView>::empty();
    assert(actions.drop_last() =~= seq![DiskActionView::WriteSnapshot { bytes: file@ }]);
    assert(actions.drop_last().drop_last() =~= Seq::<DiskActionView>::empty());
    assert(logged_from(after, config, inner, file, none, inner));
}

/// An acknowledged mutation is on disk: once its frame has been appended and
/// the index has accepted it, the files are in step with the mutated index.
pub proof fn acknowledged_mutation_is_on_disk<I: Persistable, S>(
    state: spec_fn(I) -> S,
    disk: DiskView,
    config: PersistConfig,
    before: I,
    mutation: WalRecordView,
    mark: u64,
    out: core::result::Result<(), Rollback>,
    after: I,
)
    requires
        governs(state),
        in_step(disk, config, state, state(before)),
        wal::record_bytes(mutation).len() <= 0xFFFF_FFFF,
        has_dim(before, mutation),
        persisted::commits(before, mutation, LogOutcome::Appended { mark }, out, after),
        out is Ok,
    ensures
        in_step(
            performed(disk, DiskActionView::AppendLog { bytes: wal::frame_bytes(mutation) }),
            config,
            state,
            state(after),
        ),
{
    let (base, file, records, model) = choose|
        base: I,
        file: Vec<u8>,
        records: Seq<WalRecordView>,
        model: I,
    | #[trigger]
        logged_from(disk, config, base, file, records, model) && state(model) == state(before);
    let appended = performed(
        disk,
        DiskActionView::AppendLog { bytes: wal::frame_bytes(mutation) },
    );
    assert(model.profile() == before.profile());
    assert(answers(model, mutation));
    let (rejection, next) = choose|rejection: Option<IqdbError>, next: I| #[trigger]
        I::applies(model, mutation, rejection, next);
    assert(I::applies(before, mutation, None, after));
    wal_laws::appending_a_frame_adds_a_record(records, mutation);
    lemma_reaches_push(base, records, model, mutation, next);
    assert(logged_from(appended, config, base, file, records.push(mutation), next));
}

/// A mutation that is not made leaves no trace: whether the append failed part
/// way or the index rejected the mutation, doing what the rollback asks for
/// gives back the log as it was.
pub proof fn rollback_restores_the_log<I: Persistable>(
    disk: DiskView,
    log: Seq<u8>,
    before: I,
    mutation: WalRecordView,
    written: Seq<u8>,
    logged: LogOutcome,
    rollback: Rollback,
    after: I,
)
    requires
        disk.log == Some(log),
        match logged {
            LogOutcome::Appended { mark } => mark == log.len(),
            LogOutcome::Failed { mark, .. } => mark == log.len(),
        },
        persisted::commits(before, mutation, logged, Err(rollback), after),
    ensures
        performed(
            performed(disk, DiskActionView::AppendLog { bytes: written }),
            rollback.action@,
        ) == disk,
{
    assert((log + written).take(log.len() as int) =~= log);
}

/// Doing what a checkpoint asks for puts the files in step with the index, with
/// nothing left in the log to be applied a second time.
pub proof fn checkpoint_puts_files_in_step<I: Persistable, S>(
    state: spec_fn(I) -> S,
    disk: DiskView,
    inner: I,
    config: PersistConfig,
    actions: Vec<persisted::DiskAction>,
)
    requires
        config.wal_enabled,
        persisted::checkpoints_index(inner, config, Ok(actions)),
    ensures
        in_step(
            all_performed(disk, persisted::action_views(actions@)),
            config,
            state,
            state(inner),
        ),
        all_performed(disk, persisted::action_views(actions@)).log == Some(
            wal::log_bytes(Seq::empty()),
        ),
{
    let out = Ok::<Vec<persisted::DiskAction>, PersistError>(actions);
    let taken = choose|taken: Result<Vec<u8>>| #[trigger]
        snapshot::snapshots(inner, config.compression, taken) && persisted::checkpoint_outcome(
            config.wal_enabled,
            taken,
            out,
        );
    let file = taken->Ok_0;
    assert(taken == Ok::<Vec<u8>, PersistError>(file));
    let views = persisted::action_views(actions@);
    lemma_base_and_empty_log(state, disk, config, inner, file, views);
    reveal_with_fuel(all_performed, 3);
    assert(views.last() == DiskActionView::WriteLog { bytes: wal::log_bytes(Seq::empty()) });
}

/// What loading from a snapshot of `base` and a log of `records` comes to.
#[verifier::rlimit(80)]
#[verifier::spinoff_prover]
proof fn lemma_load<I: Persistable, S>(
    state: spec_fn(I) -> S,
    base: I,
    file: Vec<u8>,
    config: PersistConfig,
    codecs: Codecs,
    log: &[u8],
    records: Seq<WalRecordView>,
    committed: nat,
    model: I,
    out: Result<Opened<I>>,
)
    requires
        governs(state),
        snapshot_laws::faithful(state),
        snapshot_laws::tag_fits::<I>(),
        config.wal_enabled,
        codecs.handles(config.compression),
        snapshot::snapshots(base, config.compression, Ok(file)),
        wal::parse_log(log@) == Ok::<(Seq<WalRecordView>, nat), error::PersistErrorView>(
            (records, committed),
        ),
        accepts(base, records, model),
        persisted::loads_index(config, codecs, file@, Some(log), out),
    ensures
        out is Ok,
        state(out->Ok_0.index.held()) == state(model),
        out->Ok_0.index.consists_of(out->Ok_0.index.held(), config, codecs),
        persisted::action_views(out->Ok_0.actions@) == persisted::log_repair(
            committed,
            log@.len(),
        ),
{
    let restored = choose|restored: Result<I>| #[trigger]
        snapshot::restores(file@, codecs, restored) && persisted::load_outcome(
            config,
            codecs,
            restored,
            Some(log),
            out,
        );
    snapshot_laws::faithful_index_round_trips(
        state,
        base,
        config.compression,
        file,
        codecs,
        restored,
    );
    let before = restored->Ok_0;
    let (recovered, after) = choose|recovered: Result<Vec<persisted::DiskAction>>, after: I|
        #[trigger] persisted::recovers(before, config.wal_enabled, Some(log), recovered, after)
            && match recovered {
            Err(e) => out == Err::<Opened<I>, PersistError>(e),
            Ok(actions) => {
                &&& out is Ok
                &&& out->Ok_0.index.consists_of(after, config, codecs)
                &&& out->Ok_0.actions == actions
            },
        };
    let replayed = choose|replayed: Result<Replayed>| #[trigger]
        recovery::replays(before, log@, replayed, after) && persisted::recovery_outcome(
            log@.len(),
            replayed,
            recovered,
        );
    lemma_replay(state, base, records, model, before, log@, committed, replayed, after);
}

/// Recovery restores the state: loading from files that are in step with an
/// index gives back an index of the same state, even if a torn frame follows the
/// log. What loading then asks to be done to the files undoes the tear, so that
/// they are in step with the loaded index and later mutations are recovered too.
#[verifier::rlimit(80)]
#[verifier::spinoff_prover]
pub proof fn recovery_restores_the_state<I: Persistable, S>(
    state: spec_fn(I) -> S,
    disk: DiskView,
    config: PersistConfig,
    codecs: Codecs,
    current: S,
    torn: Seq<u8>,
    log: &[u8],
    out: Result<Opened<I>>,
)
    requires
        governs(state),
        snapshot_laws::faithful(state),
        snapshot_laws::tag_fits::<I>(),
        config.wal_enabled,
        codecs.handles(config.compression),
        in_step(disk, config, state, current),
        wal::next_frame(torn) is None,
        log@ == disk.log->0 + torn,
        persisted::loads_index(config, codecs, disk.snapshot->0, Some(log), out),
    ensures
        out is Ok,
        state(out->Ok_0.index.held()) == current,
        out->Ok_0.index.consists_of(out->Ok_0.index.held(), config, codecs),
        all_performed(
            performed(disk, DiskActionView::AppendLog { bytes: torn }),
            persisted::action_views(out->Ok_0.actions@),
        ) == disk,
{
    let (base, file, records, model) = choose|
        base: I,
        file: Vec<u8>,
        records: Seq<WalRecordView>,
        model: I,
    | #[trigger]
        logged_from(disk, config, base, file, records, model) && state(model) == current;
    wal_laws::torn_log_is_read(records, torn);
    let committed = wal::log_bytes(records).len();
    lemma_load(state, base, file, config, codecs, log, records, committed, model, out);
    let views = persisted::action_views(out->Ok_0.actions@);
    let torn_disk = performed(disk, DiskActionView::AppendLog { bytes: torn });
    reveal_with_fuel(all_performed, 2);
    if torn.len() == 0 {
        assert(torn =~= Seq::<u8>::empty());
        assert(disk.log->0 + torn =~= disk.log->0);
    } else {
        assert(views.drop_last() =~= Seq::<DiskActionView>::empty());
        assert((disk.log->0 + torn).take(committed as int) =~= disk.log->0);
    }
    assert(all_performed(torn_disk, views) =~= disk);
}

/// A crash in the middle of logging a mutation loses nothing but that
/// mutation: however much of its frame reached the disk, loading gives back
/// the state from before it, or the one after it if all of the frame did.
pub proof fn append_is_all_or_nothing<I: Persistable, S>(
    state: spec_fn(I) -> S,
    disk: DiskView,
    config: PersistConfig,
    codecs: Codecs,
    before: I,
    mutation: WalRecordView,
    after: I,
    cut: int,
    log: &[u8],
    out: Result<Opened<I>>,
)
    requires
        governs(state),
        snapshot_laws::faithful(state),
        snapshot_laws::tag_fits::<I>(),
        config.wal_enabled,
        codecs.handles(config.compression),
        in_step(disk, config, state, state(before)),
        wal::record_bytes(mutation).len() <= 0xFFFF_FFFF,
        has_dim(before, mutation),
        I::applies(before, mutation, None, after),
        0 <= cut <= wal::frame_bytes(mutation).len(),
        log@ == disk.log->0 + wal::frame_bytes(mutation).take(cut),
        persisted::loads_index(config, codecs, disk.snapshot->0, Some(log), out),
    ensures
        out is Ok,
        state(out->Ok_0.index.held()) == if cut == wal::frame_bytes(mutation).len() {
            state(after)
        } else {
            state(before)
        },
{
    let frame = wal::frame_bytes(mutation);
    if cut == frame.len() {
        assert(frame.take(cut) =~= frame);
        let appended = performed(disk, DiskActionView::AppendLog { bytes: frame });
        acknowledged_mutation_is_on_disk(state, disk, config, before, mutation, 0, Ok(()), after);
        let none = Seq::<u8>::empty();
        assert(appended.log->0 + none =~= log@);
        recovery_restores_the_state(
            state,
            appended,
            config,
            codecs,
            state(after),
            none,
            log,
            out,
        );
    } else {
        wal_laws::cut_frame_is_not_intact(mutation, cut);
        recovery_restores_the_state(
            state,
            disk,
            config,
            codecs,
            state(before),
            frame.take(cut),
            log,
            out,
        );
    }
}

/// Without a log, saving an index and loading what was saved gives back an index
/// of the same state, under every compression scheme, and asks for nothing else
/// on disk.
pub proof fn saving_then_loading_gives_the_index_back<I: Persistable, S>(
    state: spec_fn(I) -> S,
    inner: I,
    config: PersistConfig,
    codecs: Codecs,
    action: persisted::DiskAction,
    disk: DiskView,
    log: Option<&[u8]>,
    out: Result<Opened<I>>,
)
    requires
        snapshot_laws::faithful(state),
        snapshot_laws::tag_fits::<I>(),
        !config.wal_enabled,
        codecs.handles(config.compression),
        persisted::saves_index(inner, config, Ok(action)),
        persisted::loads_index(config, codecs, performed(disk, action@).snapshot->0, log, out),
    ensures
        out is Ok,
        state(out->Ok_0.index.held()) == state(inner),
        out->Ok_0.index.consists_of(out->Ok_0.index.held(), config, codecs),
        persisted::action_views(out->Ok_0.actions@) == Seq::<DiskActionView>::empty(),
{
    let saved = Ok::<persisted::DiskAction, PersistError>(action);
    let taken = choose|taken: Result<Vec<u8>>| #[trigger]
        snapshot::snapshots(inner, config.compression, taken) && persisted::save_outcome(
            taken,
            saved,
        );
    let file = taken->Ok_0;
    assert(taken == Ok::<Vec<u8>, PersistError>(file));
    let restored = choose|restored: Result<I>| #[trigger]
        snapshot::restores(file@, codecs, restored) && persisted::load_outcome(
            config,
            codecs,
            restored,
            log,
            out,
        );
    snapshot_laws::faithful_index_round_trips(
        state,
        inner,
        config.compression,
        file,
        codecs,
        restored,
    );
}

/// Without a log, a checkpoint asks for exactly what a save asks for.
pub proof fn checkpoint_without_a_log_is_a_save<I: Persistable>(
    inner: I,
    config: PersistConfig,
    actions: Vec<persisted::DiskAction>,
)
    requires
        !config.wal_enabled,
        persisted::checkpoints_index(inner, config, Ok(actions)),
    ensures
        actions@.len() == 1,
        persisted::saves_index(inner, config, Ok(actions@[0])),
{
    let out = Ok::<Vec<persisted::DiskAction>, PersistError>(actions);
    let taken = choose|taken: Result<Vec<u8>>| #[trigger]
        snapshot::snapshots(inner, config.compression, taken) && persisted::checkpoint_outcome(
            config.wal_enabled,
            taken,
            out,
        );
    let views = persisted::action_views(actions@);
    assert(views.len() == actions@.len());
    assert(views[0] == actions@[0]@);
    assert(persisted::save_outcome(taken, Ok(actions@[0])));
}

/// A log that is missing, or was cut off within its header when it was created,
/// holds nothing: loading gives back the state of the snapshot, and the log is
/// to be started afresh.
pub proof fn unstarted_log_recovers_the_snapshot<I: Persistable, S>(
    state: spec_fn(I) -> S,
    base: I,
    config: PersistConfig,
    codecs: Codecs,
    file: Vec<u8>,
    log: Option<&[u8]>,
    out: Result<Opened<I>>,
)
    requires
        governs(state),
        snapshot_laws::faithful(state),
        snapshot_laws::tag_fits::<I>(),
        config.wal_enabled,
        codecs.handles(config.compression),
        snapshot::snapshots(base, config.compression, Ok(file)),
        log matches Some(bytes) ==> bytes@.len() < wal::WAL_HEADER_LEN,
        persisted::loads_index(config, codecs, file@, log, out),
    ensures
        out is Ok,
        state(out->Ok_0.index.held()) == state(base),
        out->Ok_0.index.consists_of(out->Ok_0.index.held(), config, codecs),
        persisted::action_views(out->Ok_0.actions@) == seq![
            DiskActionView::WriteLog { bytes: wal::log_bytes(Seq::empty()) },
        ],
{
    let restored = choose|restored: Result<I>| #[trigger]
        snapshot::restores(file@, codecs, restored) && persisted::load_outcome(
            config,
            codecs,
            restored,
            log,
            out,
        );
    snapshot_laws::faithful_index_round_trips(
        state,
        base,
        config.compression,
        file,
        codecs,
        restored,
    );
    let before = restored->Ok_0;
    let (recovered, after) = choose|recovered: Result<Vec<persisted::DiskAction>>, after: I|
        #[trigger] persisted::recovers(before, config.wal_enabled, log, recovered, after)
            && match recovered {
            Err(e) => out == Err::<Opened<I>, PersistError>(e),
            Ok(actions) => {
                &&& out is Ok
                &&& out->Ok_0.index.consists_of(after, config, codecs)
                &&& out->Ok_0.actions == actions
            },
        };
    if let Some(bytes) = log {
        let replayed = choose|replayed: Result<Replayed>| #[trigger]
            recovery::replays(before, bytes@, replayed, after) && persisted::recovery_outcome(
                bytes@.len(),
                replayed,
                recovered,
            );
        lemma_replay(state, base, Seq::empty(), base, before, bytes@, 0, replayed, after);
    }
}

/// One thing that happens to a persisted index in WAL mode.
pub enum EventView {
    /// A mutation is logged and accepted.
    Logged {
        /// The mutation that was asked for.
        record: WalRecordView,
        /// The frame that was handed out for it and appended.
        frame: Seq<u8>,
    },
    /// A checkpoint is taken.
    Checkpoint {
        /// What it asks for on disk.
        actions: Vec<persisted::DiskAction>,
    },
}

/// Whether `event` may take the files and the index from one pair to the other,
/// with everything done that it asks for on disk.
pub open spec fn happens<I: Persistable>(
    config: PersistConfig,
    event: EventView,
    disk: DiskView,
    index: I,
    next_disk: DiskView,
    next: I,
) -> bool {
    match event {
        EventView::Logged { record, frame } => {
            &&& wal_laws::carries(frame, record)
            &&& has_dim(index, record)
            &&& I::applies(index, record, None, next)
            &&& next_disk == performed(disk, DiskActionView::AppendLog { bytes: frame })
        },
        EventView::Checkpoint { actions } => {
            &&& persisted::checkpoints_index(index, config, Ok(actions))
            &&& next_disk == all_performed(disk, persisted::action_views(actions@))
            &&& next == index
        },
    }
}

/// Whether `events` may take the files and the index from one pair to the
/// other.
pub open spec fn leads_to<I: Persistable>(
    config: PersistConfig,
    disk: DiskView,
    index: I,
    events: Seq<EventView>,
    last_disk: DiskView,
    last: I,
) -> bool
    decreases events.len(),
{
    if events.len() == 0 {
        last_disk == disk && last == index
    } else {
        exists|mid_disk: DiskView, mid: I|
            leads_to(config, disk, index, events.drop_last(), mid_disk, mid)
                && #[trigger] happens(config, events.last(), mid_disk, mid, last_disk, last)
    }
}

/// The mutations among `events`, in order.
pub open spec fn mutations_of(events: Seq<EventView>) -> Seq<WalRecordView>
    decreases events.len(),
{
    if events.len() == 0 {
        Seq::empty()
    } else {
        let front = mutations_of(events.drop_last());
        match events.last() {
            EventView::Logged { record, .. } => front.push(record),
            EventView::Checkpoint { .. } => front,
        }
    }
}

/// Whatever happens, the files stay in step with the index, and the index is
/// what its mutations alone lead to.
pub proof fn history_keeps_files_in_step<I: Persistable, S>(
    state: spec_fn(I) -> S,
    config: PersistConfig,
    disk: DiskView,
    index: I,
    events: Seq<EventView>,
    last_disk: DiskView,
    last: I,
)
    requires
        governs(state),
        config.wal_enabled,
        in_step(disk, config, state, state(index)),
        leads_to(config, disk, index, events, last_disk, last),
    ensures
        in_step(last_disk, config, state, state(last)),
        accepts(index, mutations_of(events), last),
    decreases events.len(),
{
    if events.len() > 0 {
        let (mid_disk, mid) = choose|mid_disk: DiskView, mid: I|
            leads_to(config, disk, index, events.drop_last(), mid_disk, mid)
                && #[trigger] happens(config, events.last(), mid_disk, mid, last_disk, last);
        history_keeps_files_in_step(state, config, disk, index, events.drop_last(), mid_disk, mid);
        match events.last() {
            EventView::Logged { record, frame } => {
                wal_laws::frame_of_a_record_is_unique(frame, record);
                acknowledged_mutation_is_on_disk(
                    state,
                    mid_disk,
                    config,
                    mid,
                    record,
                    0,
                    Ok(()),
                    last,
                );
                lemma_reaches_push(index, mutations_of(events.drop_last()), mid, record, last);
            },
            EventView::Checkpoint { actions } => {
                checkpoint_puts_files_in_step(state, mid_disk, mid, config, actions);
            },
        }
    }
}

/// Recovery matches the in-memory model: open an index in WAL mode, make any
/// history of mutations and checkpoints, and crash; loading gives back exactly
/// the state that the mutations alone lead an in-memory index to. None is lost
/// and none is made twice.
pub proof fn history_is_recovered<I: Persistable, S>(
    state: spec_fn(I) -> S,
    disk: DiskView,
    inner: I,
    config: PersistConfig,
    codecs: Codecs,
    opened: Opened<I>,
    events: Seq<EventView>,
    crashed: DiskView,
    last: I,
    model: I,
    log: &[u8],
    out: Result<Opened<I>>,
)
    requires
        governs(state),
        snapshot_laws::faithful(state),
        snapshot_laws::tag_fits::<I>(),
        config.wal_enabled,
        codecs.handles(config.compression),
        persisted::opens(inner, config, codecs, Ok(opened)),
        leads_to(
            config,
            all_performed(disk, persisted::action_views(opened.actions@)),
            inner,
            events,
            crashed,
            last,
        ),
        accepts(inner, mutations_of(events), model),
        log@ == crashed.log->0,
        persisted::loads_index(config, codecs, crashed.snapshot->0, Some(log), out),
    ensures
        out is Ok,
        state(out->Ok_0.index.held()) == state(model),
        state(out->Ok_0.index.held()) == state(last),
{
    let started = all_performed(disk, persisted::action_views(opened.actions@));
    opening_puts_files_in_step(state, disk, inner, config, codecs, opened);
    history_keeps_files_in_step(state, config, started, inner, events, crashed, last);
    lemma_reaches_one_state(state, inner, inner, mutations_of(events), model, last);
    let none = Seq::<u8>::empty();
    assert(crashed.log->0 + none =~= log@);
    recovery_restores_the_state(state, crashed, config, codecs, state(last), none, log, out);
}

/// Whether a mutation adds at most one vector.
pub open spec fn grows_by_one_at_most<I: Persistable>() -> bool {
    forall|before: I, mutation: WalRecordView, after: I| #[trigger]
        I::applies(before, mutation, None, after) ==> after.profile().count
            <= before.profile().count + 1
}

/// What is reached passes through an index after the first `k` records.
proof fn lemma_reaches_prefix<I: Persistable>(
    before: I,
    records: Seq<WalRecordView>,
    after: I,
    k: int,
) -> (there: I)
    requires
        accepts(before, records, after),
        0 <= k <= records.len(),
    ensures
        accepts(before, records.take(k), there),
{
    if k == records.len() {
        assert(records.take(k) =~= records);
        after
    } else {
        lemma_reaches_through(before, records, after, k).0
    }
}

/// Records add at most one vector each.
proof fn lemma_reaches_count<I: Persistable>(before: I, records: Seq<WalRecordView>, after: I)
    requires
        grows_by_one_at_most::<I>(),
        accepts(before, records, after),
    ensures
        after.profile().count <= before.profile().count + records.len(),
    decreases records.len(),
{
    if records.len() > 0 {
        let mid = choose|mid: I|
            {
                &&& accepts(before, records.drop_last(), mid)
                &&& has_dim(mid, records.last())
                &&& #[trigger] I::applies(mid, records.last(), None, after)
            };
        lemma_reaches_count(before, records.drop_last(), mid);
    }
}

/// How much of a log that was cut off at `cut` holds whole records.
spec fn committed_at(records: Seq<WalRecordView>, cut: int) -> nat {
    let k = wal_laws::whole_frames(records, cut - wal::WAL_HEADER_LEN);
    if cut < wal::WAL_HEADER_LEN {
        0
    } else {
        wal::log_bytes(records.take(k as int)).len()
    }
}

/// Repairing a log that was cut off leaves the log of the whole records.
proof fn lemma_cut_log_is_repaired(disk: DiskView, log: Seq<u8>, kept: Seq<u8>, cut: int)
    requires
        0 <= cut <= log.len(),
        cut < wal::WAL_HEADER_LEN ==> kept == wal::log_bytes(Seq::empty()),
        cut >= wal::WAL_HEADER_LEN ==> wal::WAL_HEADER_LEN <= kept.len() <= cut && kept
            == log.take(kept.len() as int),
    ensures
        ({
            let committed = if cut < wal::WAL_HEADER_LEN {
                0
            } else {
                kept.len()
            };
            all_performed(
                DiskView { log: Some(log.take(cut)), ..disk },
                persisted::log_repair(committed, cut as nat),
            ) == (DiskView { log: Some(kept), ..disk })
        }),
{
    reveal_with_fuel(all_performed, 2);
    if cut < wal::WAL_HEADER_LEN {
        let repair = persisted::log_repair(0, cut as nat);
        assert(repair.drop_last() =~= Seq::<DiskActionView>::empty());
    } else {
        let repair = persisted::log_repair(kept.len(), cut as nat);
        assert(log.take(cut).take(kept.len() as int) =~= log.take(kept.len() as int));
        if kept.len() < cut {
            assert(repair.drop_last() =~= Seq::<DiskActionView>::empty());
        } else {
            assert(log.take(cut) =~= kept);
        }
    }
}

/// A log that was cut off anywhere, even within its header, is recovered from
/// without an error: loading gives back the snapshot with exactly those
/// mutations made whose frames are whole. What loading then asks to be done to
/// the log leaves the files in step with the loaded index.
#[verifier::rlimit(80)]
#[verifier::spinoff_prover]
pub proof fn truncated_log_recovers_whole_frames<I: Persistable, S>(
    state: spec_fn(I) -> S,
    disk: DiskView,
    config: PersistConfig,
    codecs: Codecs,
    base: I,
    file: Vec<u8>,
    records: Seq<WalRecordView>,
    model: I,
    cut: int,
    log: &[u8],
    out: Result<Opened<I>>,
)
    requires
        governs(state),
        snapshot_laws::faithful(state),
        snapshot_laws::tag_fits::<I>(),
        config.wal_enabled,
        codecs.handles(config.compression),
        logged_from(disk, config, base, file, records, model),
        0 <= cut <= wal::log_bytes(records).len(),
        log@ == wal::log_bytes(records).take(cut),
        persisted::loads_index(config, codecs, file@, Some(log), out),
    ensures
        out is Ok,
        ({
            let k = wal_laws::whole_frames(records, cut - wal::WAL_HEADER_LEN);
            let loaded = out->Ok_0.index.held();
            let repaired = all_performed(
                DiskView { log: Some(log@), ..disk },
                persisted::action_views(out->Ok_0.actions@),
            );
            &&& k <= records.len()
            &&& exists|there: I| #[trigger]
                accepts(base, records.take(k as int), there) && state(loaded) == state(
                    there,
                )
            &&& in_step(repaired, config, state, state(loaded))
            &&& grows_by_one_at_most::<I>() ==> loaded.profile().count <= base.profile().count
                + records.len()
        }),
{
    let k = wal_laws::whole_frames(records, cut - wal::WAL_HEADER_LEN) as int;
    let kept = records.take(k);
    wal_laws::truncated_log_keeps_whole_records(records, cut);
    wal_laws::log_starts_with_its_first_records(records, k);
    if cut < wal::WAL_HEADER_LEN {
        assert(k == 0 && kept =~= Seq::<WalRecordView>::empty());
    }
    lemma_cut_log_is_repaired(disk, wal::log_bytes(records), wal::log_bytes(kept), cut);
    let there = lemma_reaches_prefix(base, records, model, k);
    lemma_load(
        state,
        base,
        file,
        config,
        codecs,
        log,
        kept,
        committed_at(records, cut),
        there,
        out,
    );
    let loaded = out->Ok_0.index.held();
    let repaired = DiskView { log: Some(wal::log_bytes(kept)), ..disk };
    assert(all_fit(kept)) by {
        assert forall|i: int| 0 <= i < kept.len() implies wal::fits_frame(#[trigger] kept[i]) by {
            assert(kept[i] == records[i]);
        }
    }
    assert(logged_from(repaired, config, base, file, kept, there));
    if grows_by_one_at_most::<I>() {
        lemma_reaches_count(base, kept, there);
        assert(loaded.profile() == there.profile());
    }
}

/// What loading comes to where the snapshot does not load.
proof fn lemma_load_fails<I: Persistable>(
    config: PersistConfig,
    codecs: Codecs,
    file: Seq<u8>,
    log: Option<&[u8]>,
    out: Result<Opened<I>>,
) -> (restored: Result<I>)
    requires
        codecs.handles(config.compression),
        persisted::loads_index(config, codecs, file, log, out),
    ensures
        snapshot::restores(file, codecs, restored),
        restored matches Err(e) ==> out == Err::<Opened<I>, PersistError>(e),
        out is Ok ==> restored is Ok,
{
    choose|restored: Result<I>| #[trigger]
        snapshot::restores(file, codecs, restored) && persisted::load_outcome(
            config,
            codecs,
            restored,
            log,
            out,
        )
}

/// Where loading succeeded, it does not any more once one byte of the snapshot
/// file was changed, whatever the byte and the change and whatever the log
/// holds. The one change left out turns the format version into another
/// supported one.
pub proof fn damaged_snapshot_does_not_load<I: Persistable>(
    config: PersistConfig,
    codecs: Codecs,
    file: Seq<u8>,
    log: Option<&[u8]>,
    first: Opened<I>,
    damaged: Seq<u8>,
    at: int,
    later_log: Option<&[u8]>,
    out: Result<Opened<I>>,
)
    requires
        snapshot_laws::repeatable::<I>(),
        persisted::loads_index(config, codecs, file, log, Ok(first)),
        checksum::differ_at(file, damaged, at),
        !snapshot_laws::swaps_version(damaged, at),
        persisted::loads_index(config, codecs, damaged, later_log, out),
    ensures
        out is Err,
{
    let restored = lemma_load_fails(config, codecs, file, log, Ok(first));
    let again = lemma_load_fails(config, codecs, damaged, later_log, out);
    snapshot_laws::damaged_file_is_rejected(file, codecs, restored->Ok_0, damaged, at, again);
}

/// What was saved does not load once it was cut off anywhere, and is reported
/// for what it is, whatever the log holds. What is left out is a compressed
/// snapshot whose payload region has the same CRC32 when cut off.
pub proof fn truncated_snapshot_does_not_load<I: Persistable>(
    inner: I,
    config: PersistConfig,
    codecs: Codecs,
    action: persisted::DiskAction,
    file: Seq<u8>,
    cut: int,
    log: Option<&[u8]>,
    out: Result<Opened<I>>,
)
    requires
        snapshot_laws::tag_fits::<I>(),
        codecs.handles(config.compression),
        persisted::saves_index(inner, config, Ok(action)),
        action@ == (DiskActionView::WriteSnapshot { bytes: file }),
        0 <= cut < file.len(),
        snapshot_laws::shows_truncation(
            config.compression,
            file,
            snapshot_laws::header_len::<I>(),
            cut,
        ),
        persisted::loads_index(config, codecs, file.take(cut), log, out),
    ensures
        out is Err,
        snapshot_laws::reports_truncation(
            file,
            snapshot_laws::header_len::<I>(),
            cut,
            out->Err_0@,
        ),
{
    let saved = Ok::<persisted::DiskAction, PersistError>(action);
    let taken = choose|taken: Result<Vec<u8>>| #[trigger]
        snapshot::snapshots(inner, config.compression, taken) && persisted::save_outcome(
            taken,
            saved,
        );
    assert(taken == Ok::<Vec<u8>, PersistError>(taken->Ok_0));
    let restored = lemma_load_fails(config, codecs, file.take(cut), log, out);
    snapshot_laws::truncated_snapshot_is_rejected(
        inner,
        config.compression,
        taken->Ok_0,
        cut,
        codecs,
        restored,
    );
}

} // verus!
