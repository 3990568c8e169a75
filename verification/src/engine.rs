//! The pipeline engine: a stage runs only while its checkpoint is absent,
//! and is stamped once its body has returned.

use vstd::prelude::*;
use crate::clock::Timestamp;
use crate::state::{ScraperState, Stage, StageDecision};

verus! {

/// How the engine dealt with a stage.
#[derive(Clone, Copy, Debug, PartialEq, Eq, Structural)]
pub enum StageRun {
    /// The stage had completed at the given time; its body did not run.
    Skipped(Timestamp),
    /// The body ran and returned; the stage was stamped with the given time.
    Completed(Timestamp),
}

/// Runs one stage of the pipeline on `context`, the data that the stages
/// hand on to each other.
///
/// Where the checkpoint of `stage` is present, the body is not run: the
/// context comes back as it went in and the checkpoint record is not
/// touched. Otherwise the body runs once. When it returns a context, the
/// stage is stamped with the current time, whatever happened to single
/// items inside the body. When it returns an error, the error is handed
/// on and no checkpoint is written, so that the next run starts the stage
/// over.
pub fn run_stage<C, E, F: FnOnce(C) -> Result<C, E>>(
    state: &mut ScraperState,
    stage: Stage,
    context: C,
    body: F,
) -> (run: Result<(C, StageRun), E>)
    requires
        old(state).spec_checkpoint(stage) is None ==> call_requires(body, (context,)),
    ensures
        old(state).spec_checkpoint(stage) matches Some(at) ==> {
            &&& run == Ok::<(C, StageRun), E>((context, StageRun::Skipped(at)))
            &&& *final(state) == *old(state)
        },
        old(state).spec_checkpoint(stage) is None ==> match run {
            Ok((after, how)) => {
                &&& call_ensures(body, (context,), Ok::<C, E>(after))
                &&& how matches StageRun::Completed(at)
                &&& *final(state) == old(state).with_checkpoint(stage, at)
            },
            Err(error) => {
                &&& call_ensures(body, (context,), Err::<C, E>(error))
                &&& *final(state) == *old(state)
            },
        },
{
    match state.decide(stage) {
        StageDecision::Skip(at) => Ok((context, StageRun::Skipped(at))),
        StageDecision::Run => {
            match body(context) {
                Ok(after) => {
                    let at = state.complete_stage(stage);
                    Ok((after, StageRun::Completed(at)))
                },
                Err(error) => Err(error),
            }
        },
    }
}

} // verus!
