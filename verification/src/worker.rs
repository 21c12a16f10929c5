//! The snapshot worker for one backup range, as a step machine.
//!
//! The worker's outside work — opening the engine snapshot, pulling entry
//! batches, feeding the file builder, uploading to the sink — happens
//! between steps; `step` takes the current phase and the outcome of the
//! last call and decides the next action. Every failure after planning is
//! scoped to the unit: the machine always ends by emitting the unit's
//! result, never by aborting the task.

use vstd::prelude::*;

use crate::dispatch::ErrorKind;
use crate::dispatch::File;
use crate::endpoint::BackupRange;
use crate::region::Peer;
use crate::region::Region;

verus! {

/// Capacity of one entry batch pulled from the scanner.
pub const ENTRY_BATCH_CAPACITY: usize = 1024;

/// What the engine needs to open a consistent snapshot for one unit; the
/// epoch and leader let it reject stale reads.
#[derive(Clone, Copy, Debug, PartialEq, Eq, Structural)]
pub struct ReadContext {
    pub region_id: u64,
    pub epoch_version: u64,
    pub peer: Peer,
}

/// The read context of one planned unit.
pub fn read_context(brange: &BackupRange) -> (c: ReadContext)
    ensures
        c.region_id == brange.region@.id,
        c.epoch_version == brange.region@.epoch_version,
        c.peer == brange.leader,
{
    ReadContext {
        region_id: brange.region.id,
        epoch_version: brange.region.epoch_version,
        peer: brange.leader,
    }
}

/// The decimal digits of `n`, most significant first.
pub open spec fn dec_digits(n: nat) -> Seq<u8>
    decreases n,
{
    if n < 10 {
        seq![(48 + n) as u8]
    } else {
        dec_digits(n / 10) + seq![(48 + n % 10) as u8]
    }
}

/// The stem every file of one unit is named with:
/// `{store_id}_{region_id}_{epoch_version}` in ASCII. Distinct regions of
/// one node, and distinct epochs of one region, give distinct stems.
pub open spec fn file_stem(store_id: u64, region_id: u64, epoch_version: u64) -> Seq<u8> {
    dec_digits(store_id as nat) + seq![95u8] + dec_digits(region_id as nat) + seq![
        95u8,
    ] + dec_digits(epoch_version as nat)
}

/// Appends the decimal digits of `n`.
fn push_dec(n: u64, out: &mut Vec<u8>)
    ensures
        final(out)@ == old(out)@ + dec_digits(n as nat),
    decreases n,
{
    if n < 10 {
        out.push(48 + n as u8);
        proof {
            assert(out@ =~= old(out)@ + dec_digits(n as nat));
        }
    } else {
        push_dec(n / 10, out);
        out.push(48 + (n % 10) as u8);
        proof {
            assert(out@ =~= old(out)@ + dec_digits(n as nat));
        }
    }
}

/// Derives the name stem of the files backing up one region:
/// store id, region id and epoch version, joined by underscores.
pub fn backup_file_name(store_id: u64, region: &Region) -> (r: Vec<u8>)
    ensures
        r@ == file_stem(store_id, region@.id, region@.epoch_version),
{
    let mut out: Vec<u8> = Vec::new();
    push_dec(store_id, &mut out);
    out.push(95);
    push_dec(region.id, &mut out);
    out.push(95);
    push_dec(region.epoch_version, &mut out);
    proof {
        assert(out@ =~= file_stem(store_id, region@.id, region@.epoch_version));
    }
    out
}

/// Where the worker stands in its protocol for one unit.
#[derive(Clone, Copy, Debug, PartialEq, Eq, Structural)]
pub enum WorkerPhase {
    /// Waiting for the engine snapshot at the backup timestamp.
    Snapshotting,
    /// Waiting for the file builder bound to the unit's name stem.
    Building,
    /// Waiting for the next bounded batch of committed entries.
    Scanning,
    /// Waiting for the builder to take the current batch.
    Writing,
    /// Waiting for the builder to finalize and upload to the sink.
    Saving,
    /// The unit's result has been emitted.
    Done,
}

/// The outcome of the worker's last outside call.
pub enum WorkerEvent {
    /// The engine snapshot was opened, or refused with a unit-scoped
    /// error: a stale epoch or lost leadership, or a transient failure.
    SnapshotDone { error: Option<ErrorKind> },
    /// The file builder was created, or could not be.
    BuilderDone { ok: bool },
    /// A batch was pulled with this many entries, or the scan failed.
    BatchDone { entries: Option<u64> },
    /// The builder took the batch, or failed.
    WriteDone { ok: bool },
    /// The builder finalized and uploaded these files, or failed.
    SaveDone { files: Option<Vec<File>> },
}

/// What the worker asks its caller to do next.
pub enum WorkerAction {
    /// Create the file builder bound to the unit's name stem.
    OpenBuilder,
    /// Pull the next bounded batch of committed entries.
    PullBatch,
    /// Feed the pulled batch to the builder.
    WriteBatch,
    /// Finalize the builder and upload its files to the sink.
    Save,
    /// Report the unit's outcome; the machine is done.
    Emit(Result<Vec<File>, ErrorKind>),
}

/// The event that each phase awaits.
pub open spec fn event_fits(phase: WorkerPhase, event: &WorkerEvent) -> bool {
    match phase {
        WorkerPhase::Snapshotting => event is SnapshotDone,
        WorkerPhase::Building => event is BuilderDone,
        WorkerPhase::Scanning => event is BatchDone,
        WorkerPhase::Writing => event is WriteDone,
        WorkerPhase::Saving => event is SaveDone,
        WorkerPhase::Done => false,
    }
}

/// The phase the worker moves to on an event.
pub open spec fn next_phase(phase: WorkerPhase, event: &WorkerEvent) -> WorkerPhase {
    match (phase, event) {
        (WorkerPhase::Snapshotting, WorkerEvent::SnapshotDone { error: None }) => WorkerPhase::Building,
        (WorkerPhase::Building, WorkerEvent::BuilderDone { ok: true }) => WorkerPhase::Scanning,
        (WorkerPhase::Scanning, WorkerEvent::BatchDone { entries: Some(n) }) => if *n == 0 {
            WorkerPhase::Saving
        } else {
            WorkerPhase::Writing
        },
        (WorkerPhase::Writing, WorkerEvent::WriteDone { ok: true }) => WorkerPhase::Scanning,
        _ => WorkerPhase::Done,
    }
}

/// Advances the worker by one step: on success the protocol moves from
/// snapshot to builder, then alternates batch pulls and writes until a pull
/// returns no entries, finalizes, and emits the uploaded files; any failure
/// emits the unit-scoped error of the failing call instead.
pub fn step(phase: WorkerPhase, event: WorkerEvent) -> (r: (WorkerPhase, WorkerAction))
    requires
        event_fits(phase, &event),
    ensures
        r.0 == next_phase(phase, &event),
        match event {
            WorkerEvent::SnapshotDone { error } => match error {
                None => r.1 is OpenBuilder,
                Some(kind) => r.1 matches WorkerAction::Emit(Err(k)) && k == kind,
            },
            WorkerEvent::BuilderDone { ok } => if ok {
                r.1 is PullBatch
            } else {
                r.1 matches WorkerAction::Emit(Err(ErrorKind::SinkFailure))
            },
            WorkerEvent::BatchDone { entries } => match entries {
                Some(n) => if n == 0 {
                    r.1 is Save
                } else {
                    r.1 is WriteBatch
                },
                None => r.1 matches WorkerAction::Emit(Err(ErrorKind::ScanFailure)),
            },
            WorkerEvent::WriteDone { ok } => if ok {
                r.1 is PullBatch
            } else {
                r.1 matches WorkerAction::Emit(Err(ErrorKind::SinkFailure))
            },
            WorkerEvent::SaveDone { ref files } => match files {
                Some(f) => r.1 matches WorkerAction::Emit(Ok(saved)) && saved == *f,
                None => r.1 matches WorkerAction::Emit(Err(ErrorKind::SinkFailure)),
            },
        },
{
    match event {
        WorkerEvent::SnapshotDone { error } => {
            match error {
                None => (WorkerPhase::Building, WorkerAction::OpenBuilder),
                Some(kind) => (WorkerPhase::Done, WorkerAction::Emit(Err(kind))),
            }
        },
        WorkerEvent::BuilderDone { ok } => {
            if ok {
                (WorkerPhase::Scanning, WorkerAction::PullBatch)
            } else {
                (WorkerPhase::Done, WorkerAction::Emit(Err(ErrorKind::SinkFailure)))
            }
        },
        WorkerEvent::BatchDone { entries } => {
            match entries {
                Some(n) => {
                    if n == 0 {
                        (WorkerPhase::Saving, WorkerAction::Save)
                    } else {
                        (WorkerPhase::Writing, WorkerAction::WriteBatch)
                    }
                },
                None => (WorkerPhase::Done, WorkerAction::Emit(Err(ErrorKind::ScanFailure))),
            }
        },
        WorkerEvent::WriteDone { ok } => {
            if ok {
                (WorkerPhase::Scanning, WorkerAction::PullBatch)
            } else {
                (WorkerPhase::Done, WorkerAction::Emit(Err(ErrorKind::SinkFailure)))
            }
        },
        WorkerEvent::SaveDone { files } => {
            match files {
                Some(f) => (WorkerPhase::Done, WorkerAction::Emit(Ok(f))),
                None => (WorkerPhase::Done, WorkerAction::Emit(Err(ErrorKind::SinkFailure))),
            }
        },
    }
}

} // verus!
