//! Update orchestrator: the fixed stage sequence of one package, with a
//! terminal failure state reachable from any stage.
//!
//! The unverified shell drives the loop: it performs the work of the current
//! stage, reports success or failure, and asks `next_stage` where to go.

use vstd::prelude::*;

verus! {

/// The stages of one package update, in their fixed order, plus the two
/// terminal states.
#[derive(Clone, Copy, PartialEq, Eq, Structural, Debug)]
pub enum Stage {
    Downloading,
    Extracting,
    Patching,
    Deleting,
    Merging,
    CleaningUp,
    Done,
    Failed,
}

/// The transition table: success advances one stage, any stage failure moves
/// directly to `Failed`, and the terminal states stay put.
pub open spec fn spec_next_stage(s: Stage, ok: bool) -> Stage {
    match s {
        Stage::Done => Stage::Done,
        Stage::Failed => Stage::Failed,
        _ => {
            if !ok {
                Stage::Failed
            } else {
                match s {
                    Stage::Downloading => Stage::Extracting,
                    Stage::Extracting => Stage::Patching,
                    Stage::Patching => Stage::Deleting,
                    Stage::Deleting => Stage::Merging,
                    Stage::Merging => Stage::CleaningUp,
                    Stage::CleaningUp => Stage::Done,
                    _ => s,
                }
            }
        },
    }
}

/// Advances the orchestrator by the outcome of the stage just run.
pub fn next_stage(s: Stage, ok: bool) -> (n: Stage)
    ensures
        n == spec_next_stage(s, ok),
{
    match s {
        Stage::Done => Stage::Done,
        Stage::Failed => Stage::Failed,
        Stage::Downloading => if ok {
            Stage::Extracting
        } else {
            Stage::Failed
        },
        Stage::Extracting => if ok {
            Stage::Patching
        } else {
            Stage::Failed
        },
        Stage::Patching => if ok {
            Stage::Deleting
        } else {
            Stage::Failed
        },
        Stage::Deleting => if ok {
            Stage::Merging
        } else {
            Stage::Failed
        },
        Stage::Merging => if ok {
            Stage::CleaningUp
        } else {
            Stage::Failed
        },
        Stage::CleaningUp => if ok {
            Stage::Done
        } else {
            Stage::Failed
        },
    }
}

/// Where a package starts: a file of at least the declared size already on
/// disk makes the transfer redundant, so the run skips straight to
/// extraction.
pub open spec fn spec_initial_stage(existing_len: u64, declared_size: u64) -> Stage {
    if existing_len >= declared_size {
        Stage::Extracting
    } else {
        Stage::Downloading
    }
}

/// Chooses the first stage from the length already on disk (zero when no
/// file exists) and the declared package size.
pub fn initial_stage(existing_len: u64, declared_size: u64) -> (s: Stage)
    ensures
        s == spec_initial_stage(existing_len, declared_size),
{
    if existing_len >= declared_size {
        Stage::Extracting
    } else {
        Stage::Downloading
    }
}

/// A failure in any running stage moves directly to `Failed`, and both
/// terminal states are absorbing.
pub proof fn lemma_failure_is_terminal(s: Stage, ok: bool)
    ensures
        s != Stage::Done && s != Stage::Failed && !ok ==> spec_next_stage(s, ok) == Stage::Failed,
        spec_next_stage(Stage::Failed, ok) == Stage::Failed,
        spec_next_stage(Stage::Done, ok) == Stage::Done,
{
}

/// Six successful stages take a fresh download to `Done`.
pub proof fn lemma_success_path()
    ensures
        spec_next_stage(
            spec_next_stage(
                spec_next_stage(
                    spec_next_stage(
                        spec_next_stage(spec_next_stage(Stage::Downloading, true), true),
                        true,
                    ),
                    true,
                ),
                true,
            ),
            true,
        ) == Stage::Done,
{
}

} // verus!
