//! Atomic replacement of a file, as a sequence of file-system operations.
//!
//! The target is never written in place: a temporary file beside it is
//! written and flushed, and then renamed over it. Where the directory is to be
//! flushed after that, the former target is held open, so that its contents can
//! be put back should the flush fail. The caller performs the operations; which
//! one comes next is decided here.

use vstd::prelude::*;

use crate::config::FsyncPolicy;
use crate::text;

verus! {

/// The next thing to do in an atomic write.
#[derive(Debug, Clone, Copy, PartialEq, Eq, Structural)]
pub enum WriteStep {
    /// Create the temporary file, which must not exist yet.
    CreateTemp,
    /// Write the payload to the temporary file.
    WriteTemp,
    /// Flush the temporary file to disk.
    SyncTemp,
    /// Open the target for reading and hold it open, if there is one. The write
    /// goes on whether or not that succeeds.
    HoldFormer,
    /// Close the temporary file and rename it over the target.
    Rename,
    /// Flush the directory, so that the rename survives a crash.
    SyncDir,
    /// Write what the former target held to a new temporary file, and flush it.
    WriteFormer,
    /// Rename the temporary file with the former contents over the target.
    PutBack,
    /// Remove the target, where there was none before.
    RemoveTarget,
    /// Remove the temporary file, whether or not that succeeds. The target is
    /// as it was.
    RemoveTemp,
    /// Remove the temporary file, whether or not that succeeds. The target
    /// holds the payload.
    DropTemp,
    /// Nothing: the target holds the payload.
    Done,
    /// Nothing: report the first failure. The target is as it was.
    Failed,
    /// Nothing: report the first failure. The target holds the payload, and its
    /// former contents could not be put back.
    Unrestored,
}

/// What is known of the former target when it is to be put back.
#[derive(Debug, Clone, Copy, PartialEq, Eq, Structural)]
pub enum Former {
    /// Nothing: it has not been, or could not be, opened.
    Unknown,
    /// There was none.
    Absent,
    /// It is held open.
    Held,
}

/// The step that an atomic write starts with.
pub fn first_step() -> (step: WriteStep)
    ensures
        step == WriteStep::CreateTemp,
{
    WriteStep::CreateTemp
}

/// Whether the directory is flushed after the rename, given whether the
/// platform can do so.
pub open spec fn flushes_dir(policy: FsyncPolicy, dir_sync: bool) -> bool {
    dir_sync && policy.syncs_snapshot()
}

/// The step that follows `step`, given whether it succeeded, what is known of
/// the former target, the flush policy and whether the platform can flush a
/// directory.
pub open spec fn step_after(
    step: WriteStep,
    succeeded: bool,
    former: Former,
    policy: FsyncPolicy,
    dir_sync: bool,
) -> WriteStep {
    match step {
        WriteStep::CreateTemp => if succeeded {
            WriteStep::WriteTemp
        } else {
            WriteStep::Failed
        },
        WriteStep::WriteTemp => if !succeeded {
            WriteStep::RemoveTemp
        } else if policy.syncs_snapshot() {
            WriteStep::SyncTemp
        } else {
            WriteStep::Rename
        },
        WriteStep::SyncTemp => if !succeeded {
            WriteStep::RemoveTemp
        } else if flushes_dir(policy, dir_sync) {
            WriteStep::HoldFormer
        } else {
            WriteStep::Rename
        },
        WriteStep::HoldFormer => WriteStep::Rename,
        WriteStep::Rename => if !succeeded {
            WriteStep::RemoveTemp
        } else if flushes_dir(policy, dir_sync) {
            WriteStep::SyncDir
        } else {
            WriteStep::Done
        },
        WriteStep::SyncDir => if succeeded {
            WriteStep::Done
        } else {
            match former {
                Former::Unknown => WriteStep::Unrestored,
                Former::Absent => WriteStep::RemoveTarget,
                Former::Held => WriteStep::WriteFormer,
            }
        },
        WriteStep::WriteFormer => if succeeded {
            WriteStep::PutBack
        } else {
            WriteStep::DropTemp
        },
        WriteStep::PutBack => if succeeded {
            WriteStep::Failed
        } else {
            WriteStep::DropTemp
        },
        WriteStep::RemoveTarget => if succeeded {
            WriteStep::Failed
        } else {
            WriteStep::Unrestored
        },
        WriteStep::RemoveTemp => WriteStep::Failed,
        WriteStep::DropTemp => WriteStep::Unrestored,
        WriteStep::Done => WriteStep::Done,
        WriteStep::Failed => WriteStep::Failed,
        WriteStep::Unrestored => WriteStep::Unrestored,
    }
}

/// The step that follows `step`, given whether it succeeded, what is known of
/// the former target, the flush policy and whether the platform can flush a
/// directory.
pub fn next_step(
    step: WriteStep,
    succeeded: bool,
    former: Former,
    policy: FsyncPolicy,
    dir_sync: bool,
) -> (next: WriteStep)
    ensures
        next == step_after(step, succeeded, former, policy, dir_sync),
{
    let flush_dir: bool = dir_sync && policy.sync_snapshot();
    match step {
        WriteStep::CreateTemp => if succeeded {
            WriteStep::WriteTemp
        } else {
            WriteStep::Failed
        },
        WriteStep::WriteTemp => if !succeeded {
            WriteStep::RemoveTemp
        } else if policy.sync_snapshot() {
            WriteStep::SyncTemp
        } else {
            WriteStep::Rename
        },
        WriteStep::SyncTemp => if !succeeded {
            WriteStep::RemoveTemp
        } else if flush_dir {
            WriteStep::HoldFormer
        } else {
            WriteStep::Rename
        },
        WriteStep::HoldFormer => WriteStep::Rename,
        WriteStep::Rename => if !succeeded {
            WriteStep::RemoveTemp
        } else if flush_dir {
            WriteStep::SyncDir
        } else {
            WriteStep::Done
        },
        WriteStep::SyncDir => if succeeded {
            WriteStep::Done
        } else {
            match former {
                Former::Unknown => WriteStep::Unrestored,
                Former::Absent => WriteStep::RemoveTarget,
                Former::Held => WriteStep::WriteFormer,
            }
        },
        WriteStep::WriteFormer => if succeeded {
            WriteStep::PutBack
        } else {
            WriteStep::DropTemp
        },
        WriteStep::PutBack => if succeeded {
            WriteStep::Failed
        } else {
            WriteStep::DropTemp
        },
        WriteStep::RemoveTarget => if succeeded {
            WriteStep::Failed
        } else {
            WriteStep::Unrestored
        },
        WriteStep::RemoveTemp => WriteStep::Failed,
        WriteStep::DropTemp => WriteStep::Unrestored,
        WriteStep::Done => WriteStep::Done,
        WriteStep::Failed => WriteStep::Failed,
        WriteStep::Unrestored => WriteStep::Unrestored,
    }
}

/// The name of a temporary file for `file_name`.
pub open spec fn temp_name(file_name: Seq<char>, pid: u32, nanos: u128) -> Seq<char> {
    file_name + ".tmp."@ + text::decimal(pid as nat) + "."@ + text::decimal(nanos as nat)
}

/// The name of a temporary file for `file_name`, unique enough across
/// concurrent saves that creating it anew detects the rest.
pub fn temp_file_name(file_name: &str, pid: u32, nanos: u128) -> (name: String)
    ensures
        name@ == temp_name(file_name@, pid, nanos),
{
    let mut name = String::from_str(file_name);
    name.append(".tmp.");
    text::push_decimal(&mut name, pid as u128);
    name.append(".");
    text::push_decimal(&mut name, nanos);
    assert(name@ =~= temp_name(file_name@, pid, nanos));
    name
}

/// What is held of the former target, and with which contents.
pub enum HeldView {
    /// Nothing.
    Nothing,
    /// That there was none.
    Absence,
    /// A target with these contents.
    Contents(Seq<u8>),
}

impl HeldView {
    /// What is known of the former target.
    pub open spec fn known(self) -> Former {
        match self {
            HeldView::Nothing => Former::Unknown,
            HeldView::Absence => Former::Absent,
            HeldView::Contents(_) => Former::Held,
        }
    }
}

/// The files of a directory by name, and how an atomic write stands to them.
#[verifier::ext_equal]
pub struct FilesView {
    /// What each file holds.
    pub store: Map<Seq<char>, Seq<u8>>,
    /// Whether the temporary file has been flushed since it was written.
    pub temp_synced: bool,
    /// What is held of the former target.
    pub held: HeldView,
}

/// What an atomic write is to do.
pub struct JobView {
    /// The name of the target.
    pub target: Seq<char>,
    /// The name of the temporary file.
    pub temp: Seq<char>,
    /// What the target is to hold.
    pub payload: Seq<u8>,
    /// The flush policy.
    pub policy: FsyncPolicy,
    /// Whether the platform can flush a directory.
    pub dir_sync: bool,
}

impl JobView {
    /// The step that follows `step`, with the files as they then are.
    pub open spec fn after(self, step: WriteStep, succeeded: bool, files: FilesView) -> WriteStep {
        step_after(step, succeeded, files.held.known(), self.policy, self.dir_sync)
    }

    /// What is held once the target has been opened, or found missing.
    pub open spec fn hold(self, store: Map<Seq<char>, Seq<u8>>) -> HeldView {
        if store.contains_key(self.target) {
            HeldView::Contents(store[self.target])
        } else {
            HeldView::Absence
        }
    }

    /// The files once the temporary file has been renamed over the target.
    pub open spec fn renamed(self, store: Map<Seq<char>, Seq<u8>>) -> Map<Seq<char>, Seq<u8>> {
        store.remove(self.temp).insert(self.target, store[self.temp])
    }

    /// Whether the files differ at most in the temporary file.
    pub open spec fn same_but_temp(
        self,
        a: Map<Seq<char>, Seq<u8>>,
        b: Map<Seq<char>, Seq<u8>>,
    ) -> bool {
        a.remove(self.temp) == b.remove(self.temp)
    }

    /// Whether performing `step` may take the files from `before` to `after`. A
    /// write that fails may leave anything in the temporary file.
    pub open spec fn performs(
        self,
        step: WriteStep,
        succeeded: bool,
        before: FilesView,
        after: FilesView,
    ) -> bool {
        match step {
            WriteStep::CreateTemp => if succeeded {
                &&& !before.store.contains_key(self.temp)
                &&& after == (FilesView {
                    store: before.store.insert(self.temp, Seq::empty()),
                    temp_synced: false,
                    ..before
                })
            } else {
                after == before
            },
            WriteStep::WriteTemp => {
                &&& self.same_but_temp(after.store, before.store)
                &&& !after.temp_synced
                &&& after.held == before.held
                &&& succeeded ==> after.store == before.store.insert(self.temp, self.payload)
            },
            WriteStep::SyncTemp => after == (FilesView {
                temp_synced: before.temp_synced || succeeded,
                ..before
            }),
            WriteStep::HoldFormer => after == (FilesView {
                held: if succeeded {
                    self.hold(before.store)
                } else {
                    HeldView::Nothing
                },
                ..before
            }),
            WriteStep::Rename => if succeeded {
                after == (FilesView {
                    store: self.renamed(before.store),
                    temp_synced: false,
                    ..before
                })
            } else {
                after == before
            },
            WriteStep::SyncDir => after == before,
            WriteStep::WriteFormer => {
                &&& self.same_but_temp(after.store, before.store)
                &&& after.held == before.held
                &&& succeeded ==> after.store == before.store.insert(
                    self.temp,
                    before.held->Contents_0,
                )
            },
            WriteStep::PutBack => if succeeded {
                after == (FilesView {
                    store: self.renamed(before.store),
                    temp_synced: false,
                    ..before
                })
            } else {
                after == before
            },
            WriteStep::RemoveTarget => if succeeded {
                after == (FilesView { store: before.store.remove(self.target), ..before })
            } else {
                after == before
            },
            WriteStep::RemoveTemp => if succeeded {
                after == (FilesView {
                    store: before.store.remove(self.temp),
                    temp_synced: false,
                    ..before
                })
            } else {
                after == before
            },
            WriteStep::DropTemp => if succeeded {
                after == (FilesView {
                    store: before.store.remove(self.temp),
                    temp_synced: false,
                    ..before
                })
            } else {
                after == before
            },
            WriteStep::Done => after == before,
            WriteStep::Failed => after == before,
            WriteStep::Unrestored => after == before,
        }
    }

    /// What holds of the files when an atomic write, begun with the files as
    /// `start`, is about to perform `step`.
    pub open spec fn stands_at(
        self,
        step: WriteStep,
        start: Map<Seq<char>, Seq<u8>>,
        files: FilesView,
    ) -> bool {
        let fresh = !start.contains_key(self.temp);
        let replaced = start.insert(self.target, self.payload);
        match step {
            WriteStep::CreateTemp => files.store == start,
            WriteStep::WriteTemp => fresh && files.store.remove(self.temp) == start,
            WriteStep::SyncTemp => fresh && files.store == start.insert(self.temp, self.payload),
            WriteStep::HoldFormer => {
                &&& fresh
                &&& files.store == start.insert(self.temp, self.payload)
                &&& files.temp_synced
            },
            WriteStep::Rename => {
                &&& fresh
                &&& files.store == start.insert(self.temp, self.payload)
                &&& self.policy.syncs_snapshot() ==> files.temp_synced
                &&& flushes_dir(self.policy, self.dir_sync) ==> files.held is Nothing || files.held
                    == self.hold(start)
            },
            WriteStep::SyncDir => {
                &&& fresh
                &&& files.store == replaced
                &&& files.held is Nothing || files.held == self.hold(start)
            },
            WriteStep::WriteFormer => {
                &&& fresh
                &&& files.store == replaced
                &&& files.held is Contents
                &&& files.held == self.hold(start)
            },
            WriteStep::PutBack => {
                &&& fresh
                &&& files.store == replaced.insert(self.temp, files.held->Contents_0)
                &&& files.held is Contents
                &&& files.held == self.hold(start)
            },
            WriteStep::RemoveTarget => {
                &&& fresh
                &&& files.store == replaced
                &&& files.held is Absence
                &&& files.held == self.hold(start)
            },
            WriteStep::RemoveTemp => fresh && files.store.remove(self.temp) == start,
            WriteStep::DropTemp => fresh && files.store.remove(self.temp) == replaced,
            WriteStep::Done => fresh && files.store == replaced,
            WriteStep::Failed => self.same_but_temp(files.store, start),
            WriteStep::Unrestored => fresh && files.store.remove(self.temp) == replaced,
        }
    }

    /// Whether an atomic write that is about to perform `step` may end as
    /// `end`, taking the files from `before` to `after`.
    pub open spec fn may_end(
        self,
        step: WriteStep,
        before: FilesView,
        end: WriteStep,
        after: FilesView,
    ) -> bool
        decreases steps_left(step),
    {
        if steps_left(step) == 0 {
            end == step && after == before
        } else {
            exists|succeeded: bool, mid: FilesView| #[trigger]
                self.performs(step, succeeded, before, mid) && self.may_end(
                    self.after(step, succeeded, mid),
                    mid,
                    end,
                    after,
                )
        }
    }
}

/// How many steps an atomic write takes at most from `step` on.
pub open spec fn steps_left(step: WriteStep) -> nat {
    match step {
        WriteStep::CreateTemp => 9,
        WriteStep::WriteTemp => 8,
        WriteStep::SyncTemp => 7,
        WriteStep::HoldFormer => 6,
        WriteStep::Rename => 5,
        WriteStep::SyncDir => 4,
        WriteStep::WriteFormer => 3,
        WriteStep::PutBack => 2,
        WriteStep::RemoveTarget => 1,
        WriteStep::RemoveTemp => 1,
        WriteStep::DropTemp => 1,
        WriteStep::Done => 0,
        WriteStep::Failed => 0,
        WriteStep::Unrestored => 0,
    }
}

/// An atomic write makes progress: whatever succeeds or fails, it comes to an
/// end after finitely many steps.
pub proof fn atomic_write_terminates(
    step: WriteStep,
    succeeded: bool,
    former: Former,
    policy: FsyncPolicy,
    dir_sync: bool,
)
    ensures
        steps_left(step) == 0 <==> step is Done || step is Failed || step is Unrestored,
        steps_left(step) > 0 ==> steps_left(step_after(step, succeeded, former, policy, dir_sync))
            < steps_left(step),
{
}

/// Whether a step is on the way to the end of a write that succeeds.
pub open spec fn goes_well(step: WriteStep) -> bool {
    ||| step is CreateTemp
    ||| step is WriteTemp
    ||| step is SyncTemp
    ||| step is HoldFormer
    ||| step is Rename
    ||| step is SyncDir
    ||| step is Done
}

/// An atomic write ends well exactly if the temporary file is created, written
/// and flushed, renamed, and the directory flushed, as far as the policy and the
/// platform ask for that. Holding the former target open does not decide.
pub proof fn write_ends_well_if_its_steps_succeed(
    step: WriteStep,
    succeeded: bool,
    former: Former,
    policy: FsyncPolicy,
    dir_sync: bool,
)
    ensures
        goes_well(step_after(step, succeeded, former, policy, dir_sync)) <==> goes_well(step) && (
        succeeded || step is HoldFormer || step is Done),
{
}

/// The temporary file is another file than the target.
pub proof fn temp_is_not_the_target(file_name: Seq<char>, pid: u32, nanos: u128)
    ensures
        temp_name(file_name, pid, nanos) != file_name,
{
    reveal_strlit(".tmp.");
    assert(temp_name(file_name, pid, nanos).len() > file_name.len());
}

/// Every step of an atomic write, whether it succeeds or fails, keeps what
/// holds of the files. In particular the payload is flushed, unless the policy
/// forbids it, before the target is touched.
pub proof fn atomic_write_keeps_its_invariant(
    job: JobView,
    start: Map<Seq<char>, Seq<u8>>,
    step: WriteStep,
    succeeded: bool,
    before: FilesView,
    after: FilesView,
)
    requires
        job.target != job.temp,
        job.stands_at(step, start, before),
        job.performs(step, succeeded, before, after),
    ensures
        job.stands_at(job.after(step, succeeded, after), start, after),
{
    let replaced = start.insert(job.target, job.payload);
    match step {
        WriteStep::CreateTemp => {
            assert(succeeded ==> after.store.remove(job.temp) =~= start);
        },
        WriteStep::WriteTemp => {
            assert(start.remove(job.temp) =~= start);
            assert(after.store.remove(job.temp) =~= start);
            assert(succeeded ==> after.store =~= start.insert(job.temp, job.payload));
        },
        WriteStep::SyncTemp => {
            assert(after.store.remove(job.temp) =~= start);
        },
        WriteStep::HoldFormer => {
            assert(job.hold(after.store) == job.hold(start));
        },
        WriteStep::Rename => {
            if succeeded {
                assert(after.store =~= replaced);
            } else {
                assert(after.store.remove(job.temp) =~= start);
            }
        },
        WriteStep::SyncDir => {
            assert(replaced.remove(job.temp) =~= replaced);
        },
        WriteStep::WriteFormer => {
            assert(replaced.remove(job.temp) =~= replaced);
        },
        WriteStep::PutBack => {
            if succeeded {
                assert(after.store =~= start);
            } else {
                assert(after.store.remove(job.temp) =~= replaced);
            }
        },
        WriteStep::RemoveTarget => {
            assert(replaced.remove(job.temp) =~= replaced);
            assert(succeeded ==> after.store =~= start);
        },
        WriteStep::RemoveTemp => {
            assert(start.remove(job.temp) =~= start);
            assert(succeeded ==> after.store.remove(job.temp) =~= after.store);
        },
        WriteStep::DropTemp => {
            assert(succeeded ==> after.store.remove(job.temp) =~= after.store);
        },
        WriteStep::Done => {},
        WriteStep::Failed => {},
        WriteStep::Unrestored => {},
    }
}

/// At no point of an atomic write, wherever it is interrupted, is any file but
/// the temporary one other than it was, except that the target may hold the
/// whole payload.
pub proof fn target_is_never_torn(
    job: JobView,
    start: Map<Seq<char>, Seq<u8>>,
    step: WriteStep,
    files: FilesView,
)
    requires
        job.target != job.temp,
        job.stands_at(step, start, files),
    ensures
        job.same_but_temp(files.store, start) || job.same_but_temp(
            files.store,
            start.insert(job.target, job.payload),
        ),
{
    let replaced = start.insert(job.target, job.payload);
    assert(!start.contains_key(job.temp) ==> start.remove(job.temp) =~= start);
    assert(!start.contains_key(job.temp) ==> replaced.remove(job.temp) =~= replaced);
    assert(start.insert(job.temp, job.payload).remove(job.temp) =~= start.remove(job.temp));
    if step is PutBack {
        assert(files.store.remove(job.temp) =~= replaced.remove(job.temp));
    }
}

/// An atomic write that fails before or at the rename leaves every file byte
/// for byte intact, and no temporary file if it could be removed.
pub proof fn failed_write_leaves_the_target_intact(
    job: JobView,
    start: Map<Seq<char>, Seq<u8>>,
    step: WriteStep,
    before: FilesView,
    failed: FilesView,
    removed: bool,
    after: FilesView,
)
    requires
        job.target != job.temp,
        step is WriteTemp || step is SyncTemp || step is Rename,
        job.stands_at(step, start, before),
        job.performs(step, false, before, failed),
        job.performs(job.after(step, false, failed), removed, failed, after),
    ensures
        job.after(job.after(step, false, failed), removed, after) is Failed,
        job.same_but_temp(after.store, start),
        removed ==> after.store == start,
{
    atomic_write_keeps_its_invariant(job, start, step, false, before, failed);
    atomic_write_keeps_its_invariant(job, start, WriteStep::RemoveTemp, removed, failed, after);
}

/// An atomic write of which the flush of the directory fails leaves every file
/// byte for byte intact too: the target gets back what it held, or is removed
/// if there was none. That takes a former target that could be opened, and the
/// steps that put it back to succeed.
pub proof fn failed_flush_leaves_the_target_intact(
    job: JobView,
    start: Map<Seq<char>, Seq<u8>>,
    before: FilesView,
    failed: FilesView,
    written: FilesView,
    after: FilesView,
)
    requires
        job.target != job.temp,
        job.stands_at(WriteStep::SyncDir, start, before),
        before.held !is Nothing,
        job.performs(WriteStep::SyncDir, false, before, failed),
        if before.held is Contents {
            &&& job.performs(WriteStep::WriteFormer, true, failed, written)
            &&& job.performs(WriteStep::PutBack, true, written, after)
        } else {
            job.performs(WriteStep::RemoveTarget, true, failed, after)
        },
    ensures
        if before.held is Contents {
            &&& job.after(WriteStep::SyncDir, false, failed) is WriteFormer
            &&& job.after(WriteStep::WriteFormer, true, written) is PutBack
            &&& job.after(WriteStep::PutBack, true, after) is Failed
        } else {
            &&& job.after(WriteStep::SyncDir, false, failed) is RemoveTarget
            &&& job.after(WriteStep::RemoveTarget, true, after) is Failed
        },
        after.store == start,
{
    assert(after.store =~= start);
}

/// What an atomic write comes to as a whole. Ending well, it has changed nothing
/// but the target, which holds exactly the payload. Ending in failure, it has
/// changed nothing, but for a temporary file that could not be removed. If the
/// directory could not be flushed and the former target not be put back, the
/// target holds exactly the payload.
pub proof fn atomic_write_succeeds_or_changes_nothing(
    job: JobView,
    before: FilesView,
    end: WriteStep,
    after: FilesView,
)
    requires
        job.target != job.temp,
        job.may_end(WriteStep::CreateTemp, before, end, after),
    ensures
        end is Done || end is Failed || end is Unrestored,
        end is Done ==> after.store == before.store.insert(job.target, job.payload)
            && !after.store.contains_key(job.temp),
        end is Failed ==> job.same_but_temp(after.store, before.store),
        end is Unrestored ==> job.same_but_temp(
            after.store,
            before.store.insert(job.target, job.payload),
        ),
{
    lemma_ends_in_invariant(job, before.store, WriteStep::CreateTemp, before, end, after);
    let replaced = before.store.insert(job.target, job.payload);
    assert(!before.store.contains_key(job.temp) ==> replaced.remove(job.temp) =~= replaced);
}

/// What holds at a step leads to what holds at the end.
proof fn lemma_ends_in_invariant(
    job: JobView,
    start: Map<Seq<char>, Seq<u8>>,
    step: WriteStep,
    before: FilesView,
    end: WriteStep,
    after: FilesView,
)
    requires
        job.target != job.temp,
        job.stands_at(step, start, before),
        job.may_end(step, before, end, after),
    ensures
        job.stands_at(end, start, after),
        end is Done || end is Failed || end is Unrestored,
    decreases steps_left(step),
{
    if steps_left(step) > 0 {
        let (succeeded, mid) = choose|succeeded: bool, mid: FilesView| #[trigger]
            job.performs(step, succeeded, before, mid) && job.may_end(
                job.after(step, succeeded, mid),
                mid,
                end,
                after,
            );
        atomic_write_keeps_its_invariant(job, start, step, succeeded, before, mid);
        lemma_ends_in_invariant(job, start, job.after(step, succeeded, mid), mid, end, after);
    }
}

} // verus!
