//! What a caller of [`PersistedIndex`](crate::PersistedIndex) can rely on, call
//! by call and from one call to the next.

use iqdb_types::IqdbError;
use vstd::prelude::*;

use crate::bytes;
use crate::checksum;
use crate::compression;
use crate::compression::Codecs;
use crate::config::{Compression, PersistConfig};
use crate::error;
use crate::error::{PersistError, Result};
use crate::persistable::{Persistable, Profile};
use crate::persisted::{
    DiskAction, LogOutcome, Mutation, Opened, Pending, PersistedIndex, Rollback,
};
use crate::persisted_laws;
use crate::persisted_laws::DiskView;
use crate::snapshot;
use crate::snapshot_laws;
use crate::types::{DistanceMetric, Metadata, VectorId};
use crate::wal;
use crate::wal::WalRecordView;
use crate::wal_laws;

verus! {

// ----------------------------------------------------------------------
// What the laws speak of
// ----------------------------------------------------------------------

/// Whether a scheme needs no codec, or its codec is switched on.
pub open spec fn switched_on(codecs: Codecs, scheme: Compression) -> bool {
    match scheme {
        Compression::Off => true,
        Compression::Zstd { .. } => codecs.zstd,
        Compression::Lz4 => codecs.lz4,
    }
}

/// Whether `e` says that compression is not available.
pub open spec fn says_unsupported(e: PersistError) -> bool {
    e matches PersistError::Unsupported { feature, available_in } && feature@ == "compression"@
        && available_in@ == "v0.4"@
}

/// Whether serializing the index always succeeds.
pub open spec fn always_saves<I: Persistable>(index: I) -> bool {
    forall|outcome: core::result::Result<Seq<u8>, PersistError>| #[trigger]
        index.saves(outcome) ==> outcome is Ok
}

/// The number that stands for a metric on disk.
pub open spec fn metric_number(metric: DistanceMetric) -> int {
    match metric {
        DistanceMetric::Cosine => 0,
        DistanceMetric::DotProduct => 1,
        DistanceMetric::Euclidean => 2,
        DistanceMetric::Manhattan => 3,
        DistanceMetric::Hamming => 4,
        DistanceMetric::Other => -1,
    }
}

/// The number that stands for a compression scheme on disk.
pub open spec fn scheme_number(scheme: Compression) -> int {
    match scheme {
        Compression::Off => 0,
        Compression::Zstd { .. } => 1,
        Compression::Lz4 => 2,
    }
}

/// Whether `file` starts with a header for an index with this tag and profile,
/// over what follows the header.
pub open spec fn is_headed(file: Seq<u8>, version: nat, tag: Seq<char>, profile: Profile) -> bool {
    let name = vstd::utf8::encode_utf8(tag);
    let n = name.len() as int;
    &&& file.len() >= 41 + n
    &&& file.subrange(0, 8) == seq![0x49u8, 0x51, 0x44, 0x42, 0x50, 0x52, 0x53, 0x54]
    &&& bytes::le_value(file.subrange(8, 12)) == version
    &&& bytes::le_value(file.subrange(12, 20)) == n
    &&& file.subrange(20, 20 + n) == name
    &&& bytes::le_value(file.subrange(20 + n, 28 + n)) == profile.dim
    &&& file[28 + n] == metric_number(profile.metric)
    &&& bytes::le_value(file.subrange(29 + n, 37 + n)) == profile.count
    &&& bytes::le_value(file.subrange(37 + n, 41 + n)) == checksum::crc32(file.skip(41 + n))
}

/// Whether `file` is a snapshot of an index with this tag and profile, whose
/// payload of `len` bytes is stored as `stored` under the given scheme.
pub open spec fn is_snapshot(
    file: Seq<u8>,
    tag: Seq<char>,
    profile: Profile,
    scheme: Compression,
    len: nat,
    stored: Seq<u8>,
) -> bool {
    let n = vstd::utf8::encode_utf8(tag).len() as int;
    &&& is_headed(file, 2, tag, profile)
    &&& file.len() >= 50 + n
    &&& file[41 + n] == scheme_number(scheme)
    &&& bytes::le_value(file.subrange(42 + n, 50 + n)) == len
    &&& file.skip(50 + n) == stored
}

/// What storing a payload under a scheme may come to: the stored form, or
/// nothing if it is refused. Without compression the form is the payload. Under
/// Zstd, a level outside 1 to 22 is refused and so is a payload that no buffer
/// could be had for; otherwise the encoder is asked at that level. Under LZ4 the
/// encoder is asked unless no buffer could be had. What an encoder returns is
/// refused if the payload is more than 65,536 times as long or, under LZ4, if it
/// holds a run of `0xFF` bytes that is beyond the decoder.
pub open spec fn may_store(scheme: Compression, raw: Seq<u8>, form: Option<Seq<u8>>) -> bool {
    match scheme {
        Compression::Off => form == Some(raw),
        Compression::Zstd { level } => if !(1 <= level <= 22) || raw.len() + raw.len() / 256 + 64
            > isize::MAX {
            form is None
        } else {
            exists|run: &[u8], found: Option<Vec<u8>>|
                {
                    &&& run@ == raw
                    &&& #[trigger] call_ensures(compression::zstd_compress, (run, level), found)
                    &&& form == match found {
                        Some(frame) => if raw.len() <= 65_536 * frame@.len() {
                            Some(frame@)
                        } else {
                            None
                        },
                        None => None,
                    }
                }
        },
        Compression::Lz4 => if 110 * raw.len() > usize::MAX {
            form is None
        } else {
            exists|run: &[u8], block: Vec<u8>|
                {
                    &&& run@ == raw
                    &&& #[trigger] call_ensures(compression::lz4_compress, (run,), block)
                    &&& form == if raw.len() <= 65_536 * block@.len() && raw.len() <= isize::MAX
                        && compression::longest_ff(block@) <= 16_843_008 && raw.len() + 255
                        * compression::longest_ff(block@) + 273 <= usize::MAX {
                        Some(block@)
                    } else {
                        None
                    }
                }
        },
    }
}

/// What sealing a payload comes to is what storing it may come to.
#[verifier::rlimit(80)]
#[verifier::spinoff_prover]
pub(crate) proof fn lemma_sealing(
    scheme: Compression,
    raw: Seq<u8>,
    outcome: core::result::Result<Seq<u8>, error::PersistErrorView>,
) -> (form: Option<Seq<u8>>)
    requires
        compression::seals_to(scheme, raw, outcome),
    ensures
        may_store(scheme, raw, form),
        match form {
            Some(stored) => outcome == Ok::<Seq<u8>, error::PersistErrorView>(
                seq![scheme_number(scheme) as u8] + bytes::le_bytes(raw.len(), 8) + stored,
            ),
            None => outcome is Err && outcome->Err_0 is Compression,
        },
{
    let form = match outcome {
        Ok(region) => Some(region.skip(9)),
        Err(_) => None,
    };
    if compression::refusal(scheme, raw.len()) is None {
        let found = choose|found: Option<Seq<u8>>| #[trigger]
            compression::encodes(scheme, raw, found) && outcome == match compression::checked_form(
                scheme,
                raw.len(),
                found,
            ) {
                Ok(stored) => Ok(
                    compression::preamble(compression::scheme_tag(scheme), raw.len()) + stored,
                ),
                Err(e) => Err(e),
            };
        bytes::lemma_le_bytes_len(raw.len(), 8);
        if let Some(stored) = found {
            let head = compression::preamble(compression::scheme_tag(scheme), raw.len());
            assert((head + stored).skip(9) =~= stored);
        }
        match scheme {
            Compression::Off => {},
            Compression::Zstd { level } => {
                let (run, answer) = choose|run: &[u8], answer: Option<Vec<u8>>|
                    run@ == raw && compression::codec_view(answer) == found
                        && #[trigger] call_ensures(
                        compression::zstd_compress,
                        (run, level),
                        answer,
                    );
                assert(call_ensures(compression::zstd_compress, (run, level), answer));
            },
            Compression::Lz4 => {
                let (run, block) = choose|run: &[u8], block: Vec<u8>|
                    run@ == raw && block@ == found->0 && #[trigger] call_ensures(
                        compression::lz4_compress,
                        (run,),
                        block,
                    );
                assert(call_ensures(compression::lz4_compress, (run,), block));
            },
        }
    }
    form
}

/// Whether `log` is that of an index without mutations since its snapshot: the
/// magic bytes and version 1.
pub open spec fn is_empty_log(log: Seq<u8>) -> bool {
    log == seq![0x49u8, 0x51, 0x44, 0x42, 0x57, 0x41, 0x4C, 0x00, 1, 0, 0, 0]
}

/// What inserting a vector asks for.
pub open spec fn insertion(id: VectorId, vector: Vec<u32>, meta: Option<Metadata>) -> WalRecordView {
    WalRecordView::Insert {
        id: id@,
        vector: vector@,
        meta: match meta {
            Some(metadata) => Some(metadata@),
            None => None,
        },
    }
}

/// What deleting a vector asks for.
pub open spec fn deletion(id: VectorId) -> WalRecordView {
    WalRecordView::Delete { id: id@ }
}

/// Whether a mutation that was made at once came to this: it was accepted, or
/// it was rejected and the index's own error is reported.
pub open spec fn was_made<I: Persistable>(
    before: I,
    mutation: WalRecordView,
    out: Result<Mutation>,
    after: I,
) -> bool {
    ||| out == Ok::<Mutation, PersistError>(Mutation::Applied) && I::applies(
        before,
        mutation,
        None,
        after,
    )
    ||| exists|cause: IqdbError| #[trigger]
        I::applies(before, mutation, Some(cause), after) && out == Err::<Mutation, PersistError>(
            PersistError::IndexBuild(cause),
        )
}

// ----------------------------------------------------------------------
// Opening
// ----------------------------------------------------------------------

/// Opening without a log performs nothing on disk: it succeeds, holds the index
/// given, and leaves both files as they were, whatever they hold.
pub proof fn opening_without_a_log_leaves_the_disk_alone<I: Persistable>(
    inner: I,
    config: PersistConfig,
    codecs: Codecs,
    disk: DiskView,
    out: Result<Opened<I>>,
)
    requires
        !config.wal_enabled,
        switched_on(codecs, config.compression),
        call_ensures(PersistedIndex::<I>::open_with_codecs, (inner, config, codecs), out),
    ensures
        out is Ok,
        out->Ok_0.index.held() == inner,
        out->Ok_0.index.settings() == config,
        out->Ok_0.index.codecs_on() == codecs,
        out->Ok_0.actions@.len() == 0,
        persisted_laws::all_performed(
            disk,
            crate::persisted::action_views(out->Ok_0.actions@),
        ) == disk,
{
    let views = crate::persisted::action_views(out->Ok_0.actions@);
    assert(views.len() == out->Ok_0.actions@.len());
}

/// Opening with the default codecs is opening with none.
pub proof fn plain_opening_leaves_the_disk_alone<I: Persistable>(
    inner: I,
    config: PersistConfig,
    out: Result<Opened<I>>,
)
    requires
        !config.wal_enabled,
        call_ensures(PersistedIndex::<I>::open_with, (inner, config), out),
    ensures
        config.compression is Off <==> out is Ok,
        out matches Ok(opened) ==> opened.index.held() == inner && opened.index.settings() == config
            && opened.index.codecs_on() == (Codecs { zstd: false, lz4: false })
            && opened.actions@.len() == 0,
        out matches Err(e) ==> says_unsupported(e),
{
    if let Ok(opened) = out {
        assert(crate::persisted::action_views(opened.actions@).len() == opened.actions@.len());
    }
}

/// What opening with a log asks for: first a snapshot of the index given, then
/// an empty log.
pub open spec fn starts_a_log<I: Persistable>(
    inner: I,
    config: PersistConfig,
    codecs: Codecs,
    opened: Opened<I>,
) -> bool {
    &&& opened.index.held() == inner
    &&& opened.index.settings() == config
    &&& opened.index.codecs_on() == codecs
    &&& resets_the_files(inner, config.compression, opened.actions@)
}

/// Whether `actions` replace the snapshot by one of `index` and then empty the
/// log.
pub open spec fn resets_the_files<I: Persistable>(
    index: I,
    scheme: Compression,
    actions: Seq<DiskAction>,
) -> bool {
    &&& actions.len() == 2
    &&& snapshots_alone(index, scheme, actions.take(1))
    &&& actions[1] matches DiskAction::WriteLog { bytes } && is_empty_log(bytes@)
}

/// Whether `actions` replace the snapshot by one of `index`, and do nothing
/// else.
pub open spec fn snapshots_alone<I: Persistable>(
    index: I,
    scheme: Compression,
    actions: Seq<DiskAction>,
) -> bool {
    &&& actions.len() == 1
    &&& actions[0] matches DiskAction::WriteSnapshot { bytes } && is_snapshot_of(
        index,
        scheme,
        bytes@,
    )
}

/// Whether `file` is a snapshot of `index`: it has its tag and profile, and what
/// is stored in it is a form of a payload that the index serializes to.
pub open spec fn is_snapshot_of<I: Persistable>(index: I, scheme: Compression, file: Seq<u8>) -> bool {
    exists|payload: Seq<u8>, stored: Seq<u8>|
        {
            &&& #[trigger] index.saves(Ok(payload))
            &&& #[trigger] may_store(scheme, payload, Some(stored))
            &&& is_snapshot(
                file,
                I::INDEX_TYPE@,
                index.profile(),
                scheme,
                payload.len(),
                stored,
            )
        }
}

/// Why taking a snapshot may fail: the index does not serialize and that is
/// reported, its metric has no number, or a payload that it serializes to is
/// refused.
pub open spec fn cannot_be_taken<I: Persistable>(
    index: I,
    scheme: Compression,
    e: PersistError,
) -> bool {
    ||| index.saves(Err(e))
    ||| e == PersistError::UnsupportedMetric { metric: index.profile().metric } && metric_number(
        index.profile().metric,
    ) < 0
    ||| e is Compression && exists|payload: Seq<u8>|
        #![trigger index.saves(Ok(payload))]
        index.saves(Ok(payload)) && may_store(scheme, payload, None)
}

/// The bytes of an empty log.
pub(crate) proof fn lemma_empty_log()
    ensures
        is_empty_log(wal::log_bytes(Seq::empty())),
{
    reveal_with_fuel(bytes::le_bytes, 5);
    assert(wal::log_bytes(Seq::empty()) =~= seq![
        0x49u8,
        0x51,
        0x44,
        0x42,
        0x57,
        0x41,
        0x4C,
        0x00,
        1,
        0,
        0,
        0,
    ]);
}

/// The pieces that a snapshot outcome is made of.
#[verifier::rlimit(80)]
#[verifier::spinoff_prover]
proof fn lemma_snapshot_pieces<I: Persistable>(
    index: I,
    scheme: Compression,
    out: Result<Vec<u8>>,
) -> (pieces: (core::result::Result<Seq<u8>, PersistError>, Option<Seq<u8>>, Seq<u8>))
    requires
        snapshot::snapshots(index, scheme, out),
    ensures
        ({
            let (saved, form, region) = pieces;
            &&& index.saves(saved)
            &&& match saved {
                Err(e) => out == Err::<Vec<u8>, PersistError>(e),
                Ok(payload) => {
                    &&& may_store(scheme, payload, form)
                    &&& match form {
                        None => out is Err && out->Err_0 is Compression,
                        Some(stored) => if metric_number(index.profile().metric) < 0 {
                            out == Err::<Vec<u8>, PersistError>(
                                PersistError::UnsupportedMetric { metric: index.profile().metric },
                            )
                        } else {
                            &&& region == seq![scheme_number(scheme) as u8] + bytes::le_bytes(
                                payload.len(),
                                8,
                            ) + stored
                            &&& compression::seals(scheme, region, payload)
                            &&& out is Ok
                            &&& out->Ok_0@ == snapshot::shape_of(index).file(region)
                        },
                    }
                },
            }
        }),
{
    let saved = choose|saved: core::result::Result<Seq<u8>, PersistError>| #[trigger]
        index.saves(saved) && snapshot::snapshot_outcome(index, scheme, saved, out);
    match saved {
        Err(_) => (saved, None, Seq::empty()),
        Ok(payload) => {
            let shape = snapshot::shape_of(index);
            let outcome = match out {
                Ok(file) => Ok::<Seq<u8>, error::PersistErrorView>(file@),
                Err(e) => Err(e@),
            };
            let sealed = choose|
                sealed: core::result::Result<Seq<u8>, error::PersistErrorView>,
            | #[trigger]
                compression::seals_to(scheme, payload, sealed) && shape.frame_outcome(
                    scheme,
                    payload,
                    sealed,
                    outcome,
                );
            let form = lemma_sealing(scheme, payload, sealed);
            (
                saved,
                form,
                match sealed {
                    Ok(region) => region,
                    Err(_) => Seq::empty(),
                },
            )
        },
    }
}

/// What a snapshot that was taken looks like.
#[verifier::rlimit(80)]
#[verifier::spinoff_prover]
proof fn lemma_snapshot_layout<I: Persistable>(index: I, scheme: Compression, file: Vec<u8>)
    requires
        snapshot_laws::tag_fits::<I>(),
        snapshot::snapshots(index, scheme, Ok(file)),
    ensures
        is_snapshot_of(index, scheme, file@),
{
    let (saved, form, region) = lemma_snapshot_pieces(index, scheme, Ok(file));
    let payload = saved->Ok_0;
    let stored = form->0;
    assert(saved == Ok::<Seq<u8>, PersistError>(payload));
    let header = snapshot::shape_of(index).header(region);
    let name = vstd::utf8::encode_utf8(I::INDEX_TYPE@);
    let n = name.len() as int;
    snapshot_laws::lemma_field_offsets(header, region);
    bytes::lemma_pow256_widths();
    bytes::lemma_le_value_of_bytes(2, 4);
    bytes::lemma_le_value_of_bytes(name.len(), 8);
    bytes::lemma_le_value_of_bytes(header.dim, 8);
    bytes::lemma_le_value_of_bytes(header.n_vectors, 8);
    bytes::lemma_le_value_of_bytes(header.crc32 as nat, 4);
    bytes::lemma_le_bytes_len(payload.len(), 8);
    bytes::lemma_le_value_of_bytes(payload.len(), 8);
    assert(crate::format::MAGIC@ =~= seq![0x49u8, 0x51, 0x44, 0x42, 0x50, 0x52, 0x53, 0x54]);
    assert(file@[41 + n] == region[0]);
    assert(file@.subrange(42 + n, 50 + n) =~= bytes::le_bytes(payload.len(), 8));
    assert(file@.skip(50 + n) =~= stored);
    assert(is_snapshot(
        file@,
        I::INDEX_TYPE@,
        index.profile(),
        scheme,
        payload.len(),
        stored,
    ));
    assert(index.saves(Ok(payload)) && may_store(scheme, payload, Some(stored)));
}

/// Whether and why taking a snapshot fails.
proof fn lemma_snapshot_faults<I: Persistable>(
    index: I,
    scheme: Compression,
    out: Result<Vec<u8>>,
)
    requires
        snapshot::snapshots(index, scheme, out),
    ensures
        out matches Err(e) ==> cannot_be_taken(index, scheme, e),
        out is Ok ==> metric_number(index.profile().metric) >= 0,
        scheme is Off && always_saves(index) && metric_number(index.profile().metric) >= 0
            ==> out is Ok,
{
    let (saved, form, _) = lemma_snapshot_pieces(index, scheme, out);
    if let Ok(payload) = saved {
        assert(index.saves(Ok(payload)));
    }
}

/// What opening with a log comes to, given what the base snapshot came to.
#[verifier::rlimit(80)]
#[verifier::spinoff_prover]
proof fn lemma_opening<I: Persistable>(
    inner: I,
    config: PersistConfig,
    codecs: Codecs,
    base: Result<Vec<u8>>,
    out: Result<Opened<I>>,
)
    requires
        snapshot_laws::tag_fits::<I>(),
        snapshot::snapshots(inner, config.compression, base),
        crate::persisted::opening_outcome(inner, config, codecs, base, out),
    ensures
        match out {
            Ok(opened) => starts_a_log(inner, config, codecs, opened),
            Err(e) => base == Err::<Vec<u8>, PersistError>(e),
        },
        base is Ok <==> out is Ok,
{
    if let Ok(file) = base {
        let actions = out->Ok_0.actions@;
        let views = crate::persisted::action_views(actions);
        lemma_snapshot_layout(inner, config.compression, file);
        lemma_empty_log();
        assert(views.len() == actions.len());
        assert(views[0] == actions[0]@ && views[1] == actions[1]@);
    }
}

/// Opening with a log asks for a snapshot of the index given and for an empty
/// log, in that order. It fails only if the snapshot cannot be taken, and never
/// for an uncompressed index that serializes and has a metric with a number,
/// however long its payload is.
#[verifier::rlimit(80)]
#[verifier::spinoff_prover]
pub proof fn opening_with_a_log_starts_it<I: Persistable>(
    inner: I,
    config: PersistConfig,
    codecs: Codecs,
    out: Result<Opened<I>>,
)
    requires
        config.wal_enabled,
        switched_on(codecs, config.compression),
        snapshot_laws::tag_fits::<I>(),
        call_ensures(PersistedIndex::<I>::open_with_codecs, (inner, config, codecs), out),
    ensures
        match out {
            Ok(opened) => starts_a_log(inner, config, codecs, opened),
            Err(e) => cannot_be_taken(inner, config.compression, e),
        },
        config.compression is Off && always_saves(inner) && metric_number(inner.profile().metric)
            >= 0 ==> out is Ok,
{
    let base = choose|base: Result<Vec<u8>>| #[trigger]
        snapshot::snapshots(inner, config.compression, base)
            && crate::persisted::opening_outcome(inner, config, codecs, base, out);
    lemma_snapshot_faults(inner, config.compression, base);
    lemma_opening(inner, config, codecs, base, out);
}

/// With the default codecs, a WAL-mode index that asks for no compression opens
/// just so.
#[verifier::rlimit(80)]
#[verifier::spinoff_prover]
pub proof fn plain_opening_with_a_log_starts_it<I: Persistable>(
    inner: I,
    config: PersistConfig,
    out: Result<Opened<I>>,
)
    requires
        config.wal_enabled,
        config.compression is Off,
        snapshot_laws::tag_fits::<I>(),
        call_ensures(PersistedIndex::<I>::open_with, (inner, config), out),
    ensures
        match out {
            Ok(opened) => starts_a_log(inner, config, Codecs { zstd: false, lz4: false }, opened),
            Err(e) => cannot_be_taken(inner, config.compression, e),
        },
        always_saves(inner) && metric_number(inner.profile().metric) >= 0 ==> out is Ok,
{
    let codecs = Codecs { zstd: false, lz4: false };
    let base = choose|base: Result<Vec<u8>>| #[trigger]
        snapshot::snapshots(inner, config.compression, base)
            && crate::persisted::opening_outcome(inner, config, codecs, base, out);
    lemma_snapshot_faults(inner, config.compression, base);
    lemma_opening(inner, config, codecs, base, out);
}

/// A codec that is switched off is refused before anything else is looked at,
/// on opening and on loading.
pub proof fn switched_off_codec_is_refused<I: Persistable>(
    inner: I,
    config: PersistConfig,
    codecs: Codecs,
    file: &[u8],
    log: Option<&[u8]>,
    opened: Result<Opened<I>>,
    loaded: Result<Opened<I>>,
    restored: Result<PersistedIndex<I>>,
    valid: Result<()>,
)
    requires
        call_ensures(PersistedIndex::<I>::open_with_codecs, (inner, config, codecs), opened),
        call_ensures(PersistedIndex::<I>::load_with_codecs, (config, codecs, file, log), loaded),
        call_ensures(PersistedIndex::<I>::load_snapshot, (config, codecs, file), restored),
        call_ensures(crate::persisted::validate_config, (&config, codecs), valid),
    ensures
        valid is Ok <==> switched_on(codecs, config.compression),
        !switched_on(codecs, config.compression) ==> {
            &&& valid is Err && says_unsupported(valid->Err_0)
            &&& opened is Err && says_unsupported(opened->Err_0)
            &&& loaded is Err && says_unsupported(loaded->Err_0)
            &&& restored is Err && says_unsupported(restored->Err_0)
        },
{
}

// ----------------------------------------------------------------------
// Saving
// ----------------------------------------------------------------------

/// Saving asks for one thing, to replace the snapshot by one of the current
/// index. It fails only if the snapshot cannot be taken, and never for an
/// uncompressed index that serializes and has a metric with a number, however
/// long its payload is.
pub proof fn saving_writes_a_snapshot<I: Persistable>(
    db: &PersistedIndex<I>,
    out: Result<DiskAction>,
)
    requires
        snapshot_laws::tag_fits::<I>(),
        call_ensures(PersistedIndex::<I>::save, (db,), out),
    ensures
        match out {
            Ok(action) => snapshots_alone(db.held(), db.settings().compression, seq![action]),
            Err(e) => cannot_be_taken(db.held(), db.settings().compression, e),
        },
        db.settings().compression is Off && always_saves(db.held()) && metric_number(
            db.held().profile().metric,
        ) >= 0 ==> out is Ok,
{
    let scheme = db.settings().compression;
    let taken = choose|taken: Result<Vec<u8>>| #[trigger]
        snapshot::snapshots(db.held(), scheme, taken) && crate::persisted::save_outcome(taken, out);
    lemma_snapshot_faults(db.held(), scheme, taken);
    if let Ok(file) = taken {
        lemma_snapshot_layout(db.held(), scheme, file);
    }
}

/// A checkpoint asks for what a save asks for and then, with a log, for the log
/// to be emptied. It fails and succeeds as a save does.
#[verifier::rlimit(80)]
#[verifier::spinoff_prover]
pub proof fn checkpoint_writes_a_snapshot_and_empties_the_log<I: Persistable>(
    db: &PersistedIndex<I>,
    out: Result<Vec<DiskAction>>,
)
    requires
        snapshot_laws::tag_fits::<I>(),
        call_ensures(PersistedIndex::<I>::checkpoint, (db,), out),
    ensures
        match out {
            Ok(actions) => if db.settings().wal_enabled {
                resets_the_files(db.held(), db.settings().compression, actions@)
            } else {
                snapshots_alone(db.held(), db.settings().compression, actions@)
            },
            Err(e) => cannot_be_taken(db.held(), db.settings().compression, e),
        },
        db.settings().compression is Off && always_saves(db.held()) && metric_number(
            db.held().profile().metric,
        ) >= 0 ==> out is Ok,
{
    let scheme = db.settings().compression;
    let taken = choose|taken: Result<Vec<u8>>| #[trigger]
        snapshot::snapshots(db.held(), scheme, taken) && crate::persisted::checkpoint_outcome(
            db.settings().wal_enabled,
            taken,
            out,
        );
    lemma_snapshot_faults(db.held(), scheme, taken);
    if let Ok(file) = taken {
        let actions = out->Ok_0@;
        let views = crate::persisted::action_views(actions);
        lemma_snapshot_layout(db.held(), scheme, file);
        lemma_empty_log();
        assert(views.len() == actions.len());
        assert(views[0] == actions[0]@);
        if db.settings().wal_enabled {
            assert(views[1] == actions[1]@);
        }
    }
}

/// Taking a snapshot of an index, as a save does, gives a snapshot of it.
pub proof fn snapshot_that_is_taken_is_one_of_the_index<I: Persistable>(
    index: &I,
    scheme: Compression,
    out: Result<Vec<u8>>,
)
    requires
        snapshot_laws::tag_fits::<I>(),
        call_ensures(snapshot::write_snapshot::<I>, (index, scheme), out),
    ensures
        match out {
            Ok(file) => is_snapshot_of(*index, scheme, file@),
            Err(e) => cannot_be_taken(*index, scheme, e),
        },
        scheme is Off && always_saves(*index) && metric_number(index.profile().metric) >= 0
            ==> out is Ok,
{
    lemma_snapshot_faults(*index, scheme, out);
    if let Ok(file) = out {
        lemma_snapshot_layout(*index, scheme, file);
    }
}

// ----------------------------------------------------------------------
// What is held
// ----------------------------------------------------------------------

/// The index, the config and the codecs that were given are those that are
/// handed out.
pub proof fn what_is_held_is_handed_out<I: Persistable>(
    db: &PersistedIndex<I>,
    index: &I,
    config: &PersistConfig,
    codecs: Codecs,
)
    requires
        call_ensures(PersistedIndex::<I>::index, (db,), index),
        call_ensures(PersistedIndex::<I>::config, (db,), config),
        call_ensures(PersistedIndex::<I>::codecs, (db,), codecs),
    ensures
        *index == db.held(),
        *config == db.settings(),
        codecs == db.codecs_on(),
{
}

/// What is done to the index through a mutable borrow is done to the index that
/// is held, and to nothing else.
pub proof fn mutable_borrow_reaches_the_index<I: Persistable>(
    db: &mut PersistedIndex<I>,
    index: &mut I,
)
    requires
        call_ensures(PersistedIndex::<I>::index_mut, (db,), index),
    ensures
        *old(index) == old(db).held(),
        final(db).held() == *final(index),
        final(db).settings() == old(db).settings(),
        final(db).codecs_on() == old(db).codecs_on(),
{
}

// ----------------------------------------------------------------------
// Mutations without a log
// ----------------------------------------------------------------------

/// Without a log, an insertion is handed to the index at once, with the
/// identifier, the vector and the metadata given, and succeeds exactly if the
/// index accepts it.
pub proof fn unlogged_insert_reaches_the_index<I: Persistable>(
    db: &mut PersistedIndex<I>,
    id: VectorId,
    vector: Vec<u32>,
    meta: Option<Metadata>,
    out: Result<Mutation>,
)
    requires
        !old(db).settings().wal_enabled,
        call_ensures(PersistedIndex::<I>::insert, (db, id, vector, meta), out),
    ensures
        was_made(old(db).held(), insertion(id, vector, meta), out, final(db).held()),
        final(db).settings() == old(db).settings(),
        final(db).codecs_on() == old(db).codecs_on(),
{
}

/// Without a log, a deletion is handed to the index at once, with the
/// identifier given, and succeeds exactly if the index accepts it.
pub proof fn unlogged_delete_reaches_the_index<I: Persistable>(
    db: &mut PersistedIndex<I>,
    id: &VectorId,
    out: Result<Mutation>,
)
    requires
        !old(db).settings().wal_enabled,
        call_ensures(PersistedIndex::<I>::delete, (db, id), out),
    ensures
        was_made(old(db).held(), deletion(*id), out, final(db).held()),
        final(db).settings() == old(db).settings(),
        final(db).codecs_on() == old(db).codecs_on(),
{
}

// ----------------------------------------------------------------------
// Logged mutations
// ----------------------------------------------------------------------

/// What asking for a logged mutation comes to. Nothing has happened to the index
/// yet. If the record is at most `u32::MAX` bytes long, a frame is handed out
/// that carries exactly the mutation asked for; appending it to a log adds
/// exactly that mutation. Otherwise the mutation is refused.
pub open spec fn is_to_be_logged(
    mutation: WalRecordView,
    out: Result<Mutation>,
    frame: Seq<u8>,
) -> bool {
    if wal::record_bytes(mutation).len() <= 0xFFFF_FFFF {
        &&& out matches Ok(Mutation::Logging(pending)) && pending.mutation() == mutation
        &&& wal_laws::carries(frame, mutation)
        &&& forall|records: Seq<WalRecordView>|
            #[trigger] wal::log_bytes(records) + frame == wal::log_bytes(records.push(mutation))
    } else {
        out matches Err(PersistError::InvalidPayload { reason }) && reason@ == if mutation matches
            WalRecordView::Insert { vector, .. } && vector.len() > 0xFFFF_FFFF {
            "WAL insert vector length does not fit in u32"@
        } else {
            "WAL record length does not fit in u32"@
        }
    }
}

/// The frame of a mutation carries it.
#[verifier::rlimit(80)]
#[verifier::spinoff_prover]
proof fn lemma_handed_out(mutation: WalRecordView, out: Result<Mutation>, frame: Seq<u8>)
    requires
        crate::persisted::starts_logging(mutation, out),
        out matches Ok(Mutation::Logging(pending)) ==> frame == pending.frame_spec(),
    ensures
        is_to_be_logged(mutation, out, frame),
{
    if out is Ok {
        wal_laws::frame_of_a_record_is_unique(frame, mutation);
        assert forall|records: Seq<WalRecordView>| #[trigger]
            wal::log_bytes(records) + frame == wal::log_bytes(records.push(mutation)) by {
            wal_laws::appending_a_frame_adds_a_record(records, mutation);
        }
    }
}

/// With a log, an insertion hands out the frame that carries it, with the
/// identifier, the vector and the metadata given, and leaves the index alone.
pub proof fn logged_insert_hands_out_its_frame<I: Persistable>(
    db: &mut PersistedIndex<I>,
    id: VectorId,
    vector: Vec<u32>,
    meta: Option<Metadata>,
    out: Result<Mutation>,
    frame: &[u8],
)
    requires
        old(db).settings().wal_enabled,
        call_ensures(PersistedIndex::<I>::insert, (db, id, vector, meta), out),
        out matches Ok(Mutation::Logging(pending)) ==> call_ensures(
            Pending::frame,
            (&pending,),
            frame,
        ),
    ensures
        is_to_be_logged(insertion(id, vector, meta), out, frame@),
        *final(db) == *old(db),
{
    lemma_handed_out(insertion(id, vector, meta), out, frame@);
}

/// With a log, a deletion hands out the frame that carries it, with the
/// identifier given, and leaves the index alone.
pub proof fn logged_delete_hands_out_its_frame<I: Persistable>(
    db: &mut PersistedIndex<I>,
    id: &VectorId,
    out: Result<Mutation>,
    frame: &[u8],
)
    requires
        old(db).settings().wal_enabled,
        call_ensures(PersistedIndex::<I>::delete, (db, id), out),
        out matches Ok(Mutation::Logging(pending)) ==> call_ensures(
            Pending::frame,
            (&pending,),
            frame,
        ),
    ensures
        is_to_be_logged(deletion(*id), out, frame@),
        *final(db) == *old(db),
{
    lemma_handed_out(deletion(*id), out, frame@);
}

/// The action that a pending mutation asks for is to append its frame.
pub proof fn pending_action_appends_its_frame(pending: Pending, frame: &[u8], action: DiskAction)
    requires
        call_ensures(Pending::frame, (&pending,), frame),
        call_ensures(Pending::action, (&pending,), action),
    ensures
        action matches DiskAction::AppendLog { bytes } && bytes@ == frame@,
{
}

/// Committing a mutation whose frame is in the log hands it to the index. If the
/// index rejects it, its error is reported and the log is to be cut back to
/// where it was.
pub proof fn committing_makes_the_mutation<I: Persistable>(
    db: &mut PersistedIndex<I>,
    pending: Pending,
    mark: u64,
    out: core::result::Result<(), Rollback>,
)
    requires
        call_ensures(
            PersistedIndex::<I>::commit,
            (db, pending, LogOutcome::Appended { mark }),
            out,
        ),
    ensures
        match out {
            Ok(_) => I::applies(old(db).held(), pending.mutation(), None, final(db).held()),
            Err(rollback) => {
                &&& rollback.action matches DiskAction::TruncateLog { len } && len == mark
                &&& rollback.error matches PersistError::IndexBuild(cause) && I::applies(
                    old(db).held(),
                    pending.mutation(),
                    Some(cause),
                    final(db).held(),
                )
            },
        },
        final(db).settings() == old(db).settings(),
        final(db).codecs_on() == old(db).codecs_on(),
{
}

/// Committing a mutation whose append failed leaves the index alone, reports the
/// failure, and asks for the log to be cut back to where it was.
pub proof fn failed_append_leaves_the_index_alone<I: Persistable>(
    db: &mut PersistedIndex<I>,
    pending: Pending,
    mark: u64,
    error: PersistError,
    out: core::result::Result<(), Rollback>,
)
    requires
        call_ensures(
            PersistedIndex::<I>::commit,
            (db, pending, LogOutcome::Failed { mark, error }),
            out,
        ),
    ensures
        final(db).held() == old(db).held(),
        final(db).settings() == old(db).settings(),
        final(db).codecs_on() == old(db).codecs_on(),
        out is Err,
        out->Err_0.error == error,
        out->Err_0.action matches DiskAction::TruncateLog { len } && len == mark,
{
}

} // verus!
