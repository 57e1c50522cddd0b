//! How a scan takes in directories and queues their covers.
//!
//! Each step is done by the store; what follows from its result is decided
//! here.

use vstd::prelude::*;
use vstd::string::*;

use crate::remote_scan::job::{RemoteScanMode, RemoteScanState, RemoteScanStatus};
use crate::remote_scan::model::{canonical, normalize_path, RemoteScanError};

verus! {

/// The reason under which a scan queues covers.
pub const SCAN_REASON: &'static str = "background";

/// The priority under which a scan queues covers.
pub const SCAN_PRIORITY: i64 = 10;

/// A step of taking in a directory.
#[derive(Clone, Copy, PartialEq, Eq, Structural, Debug)]
pub enum StageStep {
    /// See whether the scan is still the one that runs.
    Prove,
    /// Keep the listing for when the scan is published.
    Stage,
    /// Show the listing at once.
    Preview,
    /// Remember how far the scan has come.
    Checkpoint,
}

/// A step of queueing a cover.
#[derive(Clone, Copy, PartialEq, Eq, Structural, Debug)]
pub enum CoverStep {
    /// Read the type of the source.
    SourceType,
    /// See whether the scan is still the one that runs.
    Prove,
    /// Keep the task for when the scan is published.
    Stage,
    /// Read the fingerprint of the source.
    Fingerprint,
    /// Queue the job.
    Queue,
}

/// What the store makes of a step: whether what it was asked holds, or
/// nothing where it failed.
pub type StoreAnswer = Option<bool>;

/// What comes after a step of taking in a directory.
pub enum StageNext {
    Go(StageStep),
    Done,
    Stop(RemoteScanError),
}

/// What comes after a step of queueing a cover.
pub enum CoverNext {
    Go(CoverStep),
    /// The worker of the source is to be woken.
    Wake,
    Stop(RemoteScanError),
}

/// Whether `e` is a failure of the store under a fixed word.
pub open spec fn is_store_error(e: RemoteScanError, code: Seq<char>) -> bool {
    e matches RemoteScanError::Io(text) && text@ == code
}

/// The word under which a failed step is reported.
pub open spec fn stage_code(step: StageStep) -> Seq<char> {
    match step {
        StageStep::Prove => "source_proof_lookup_failed"@,
        StageStep::Stage => "manifest_commit_failed"@,
        StageStep::Preview => "preview_commit_failed"@,
        StageStep::Checkpoint => "checkpoint_commit_failed"@,
    }
}

/// Whether `next` comes after a step of taking in a directory.
pub open spec fn stage_follows(step: StageStep, answer: StoreAnswer, next: StageNext) -> bool {
    match answer {
        None => next matches StageNext::Stop(e) && is_store_error(e, stage_code(step)),
        Some(holds) => match step {
            StageStep::Prove => if holds {
                next == StageNext::Go(StageStep::Stage)
            } else {
                next matches StageNext::Stop(e) && e is Cancelled
            },
            StageStep::Stage => next == StageNext::Go(StageStep::Preview),
            StageStep::Preview => next == StageNext::Go(StageStep::Checkpoint),
            StageStep::Checkpoint => next is Done,
        },
    }
}

/// What comes after a step of taking in a directory.
pub fn stage_directory(step: StageStep, answer: StoreAnswer) -> (r: StageNext)
    ensures
        stage_follows(step, answer, r),
{
    let holds = match answer {
        Some(holds) => holds,
        None => {
            let code = match step {
                StageStep::Prove => "source_proof_lookup_failed",
                StageStep::Stage => "manifest_commit_failed",
                StageStep::Preview => "preview_commit_failed",
                StageStep::Checkpoint => "checkpoint_commit_failed",
            };
            return StageNext::Stop(RemoteScanError::Io(code.to_owned()));
        },
    };
    match step {
        StageStep::Prove => if holds {
            StageNext::Go(StageStep::Stage)
        } else {
            StageNext::Stop(RemoteScanError::Cancelled)
        },
        StageStep::Stage => StageNext::Go(StageStep::Preview),
        StageStep::Preview => StageNext::Go(StageStep::Checkpoint),
        StageStep::Checkpoint => StageNext::Done,
    }
}

/// What is stored of the progress of a scan when it has taken in a
/// directory.
pub fn directory_checkpoint(
    source_id: String,
    generation: i64,
    logical_path: &str,
    incremental: bool,
) -> (r: RemoteScanState)
    ensures
        r.source_id == source_id,
        r.status == RemoteScanStatus::Running,
        r.mode == (if incremental {
            RemoteScanMode::Incremental
        } else {
            RemoteScanMode::Snapshot
        }),
        r.generation == generation,
        r.checkpoint matches Some(path) && path@ == canonical(logical_path@),
        r.last_success_at is None,
        r.error_code is None,
{
    let mode = if incremental {
        RemoteScanMode::Incremental
    } else {
        RemoteScanMode::Snapshot
    };
    RemoteScanState {
        source_id,
        status: RemoteScanStatus::Running,
        mode,
        generation,
        checkpoint: Some(normalize_path(logical_path)),
        last_success_at: None,
        error_code: None,
    }
}

/// The word under which a failed step is reported.
pub open spec fn cover_code(step: CoverStep) -> Seq<char> {
    match step {
        CoverStep::SourceType => "source_lookup_failed"@,
        CoverStep::Prove => "source_proof_lookup_failed"@,
        CoverStep::Stage => "cover_dependency_stage_failed"@,
        CoverStep::Fingerprint => "source_identity_lookup_failed"@,
        CoverStep::Queue => "cover_queue_commit_failed"@,
    }
}

/// Whether `next` comes after a step of queueing a cover.
pub open spec fn cover_follows(step: CoverStep, answer: StoreAnswer, next: CoverNext) -> bool {
    match answer {
        None => next matches CoverNext::Stop(e) && is_store_error(e, cover_code(step)),
        Some(holds) => match step {
            CoverStep::SourceType => next == CoverNext::Go(CoverStep::Prove),
            CoverStep::Prove => if holds {
                next == CoverNext::Go(CoverStep::Stage)
            } else {
                next matches CoverNext::Stop(e) && e is Cancelled
            },
            CoverStep::Stage => next == CoverNext::Go(CoverStep::Fingerprint),
            CoverStep::Fingerprint => next == CoverNext::Go(CoverStep::Queue),
            CoverStep::Queue => next is Wake,
        },
    }
}

/// What comes after a step of queueing a cover.
pub fn enqueue_cover(step: CoverStep, answer: StoreAnswer) -> (r: CoverNext)
    ensures
        cover_follows(step, answer, r),
{
    let holds = match answer {
        Some(holds) => holds,
        None => {
            let code = match step {
                CoverStep::SourceType => "source_lookup_failed",
                CoverStep::Prove => "source_proof_lookup_failed",
                CoverStep::Stage => "cover_dependency_stage_failed",
                CoverStep::Fingerprint => "source_identity_lookup_failed",
                CoverStep::Queue => "cover_queue_commit_failed",
            };
            return CoverNext::Stop(RemoteScanError::Io(code.to_owned()));
        },
    };
    match step {
        CoverStep::SourceType => CoverNext::Go(CoverStep::Prove),
        CoverStep::Prove => if holds {
            CoverNext::Go(CoverStep::Stage)
        } else {
            CoverNext::Stop(RemoteScanError::Cancelled)
        },
        CoverStep::Stage => CoverNext::Go(CoverStep::Fingerprint),
        CoverStep::Fingerprint => CoverNext::Go(CoverStep::Queue),
        CoverStep::Queue => CoverNext::Wake,
    }
}

/// A scan that has been replaced writes nothing more: only a proof that it
/// is the one that runs leads to a step that writes.
pub proof fn law_replaced_scans_write_nothing(
    answer: StoreAnswer,
    directory: StageNext,
    cover: CoverNext,
)
    requires
        answer != Some(true),
        stage_follows(StageStep::Prove, answer, directory),
        cover_follows(CoverStep::Prove, answer, cover),
    ensures
        directory is Stop,
        cover is Stop,
{
}

/// A directory is taken in by proving that the scan still runs, keeping the
/// listing, showing it and remembering it, in this order and no other; each
/// step needs the one before, and only the first can end the scan without a
/// failure of the store.
pub proof fn law_directories_are_taken_in_order(
    step: StageStep,
    answer: StoreAnswer,
    next: StageNext,
)
    requires
        stage_follows(step, answer, next),
    ensures
        next == StageNext::Go(StageStep::Stage) <==> step is Prove && answer == Some(true),
        next == StageNext::Go(StageStep::Preview) <==> step is Stage && answer is Some,
        next == StageNext::Go(StageStep::Checkpoint) <==> step is Preview && answer is Some,
        next is Done <==> step is Checkpoint && answer is Some,
        next != StageNext::Go(StageStep::Prove),
        (next matches StageNext::Stop(e) && e is Cancelled) <==> step is Prove && answer == Some(
            false,
        ),
        (next matches StageNext::Stop(e) && e is Io) <==> answer is None,
        step is Prove && answer is None ==> (next matches StageNext::Stop(e) && is_store_error(
            e,
            "source_proof_lookup_failed"@,
        )),
        step is Stage && answer is None ==> (next matches StageNext::Stop(e) && is_store_error(
            e,
            "manifest_commit_failed"@,
        )),
        step is Preview && answer is None ==> (next matches StageNext::Stop(e) && is_store_error(
            e,
            "preview_commit_failed"@,
        )),
        step is Checkpoint && answer is None ==> (next matches StageNext::Stop(e)
            && is_store_error(e, "checkpoint_commit_failed"@)),
{
}

/// A cover is queued by reading the type of its source, proving that the scan
/// still runs, keeping the task, reading the fingerprint and queueing the
/// job, in this order and no other; the worker is woken for a queued job
/// alone.
pub proof fn law_covers_are_queued_in_order(step: CoverStep, answer: StoreAnswer, next: CoverNext)
    requires
        cover_follows(step, answer, next),
    ensures
        next == CoverNext::Go(CoverStep::Prove) <==> step is SourceType && answer is Some,
        next == CoverNext::Go(CoverStep::Stage) <==> step is Prove && answer == Some(true),
        next == CoverNext::Go(CoverStep::Fingerprint) <==> step is Stage && answer is Some,
        next == CoverNext::Go(CoverStep::Queue) <==> step is Fingerprint && answer is Some,
        next is Wake <==> step is Queue && answer is Some,
        next != CoverNext::Go(CoverStep::SourceType),
        (next matches CoverNext::Stop(e) && e is Cancelled) <==> step is Prove && answer == Some(
            false,
        ),
        (next matches CoverNext::Stop(e) && e is Io) <==> answer is None,
        step is SourceType && answer is None ==> (next matches CoverNext::Stop(e)
            && is_store_error(e, "source_lookup_failed"@)),
        step is Prove && answer is None ==> (next matches CoverNext::Stop(e) && is_store_error(
            e,
            "source_proof_lookup_failed"@,
        )),
        step is Stage && answer is None ==> (next matches CoverNext::Stop(e) && is_store_error(
            e,
            "cover_dependency_stage_failed"@,
        )),
        step is Fingerprint && answer is None ==> (next matches CoverNext::Stop(e)
            && is_store_error(e, "source_identity_lookup_failed"@)),
        step is Queue && answer is None ==> (next matches CoverNext::Stop(e) && is_store_error(
            e,
            "cover_queue_commit_failed"@,
        )),
{
}

} // verus!
