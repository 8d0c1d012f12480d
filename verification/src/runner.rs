//! The run boundary of a pipeline.

use vstd::prelude::*;

use crate::control::PipelineResult;
use crate::trace::RunOutcome;

verus! {

/// The outcome of a run of which only the result is known: `Err` carries the error's
/// message. A failure names no step, since a bare result cannot attribute it to one.
pub fn unattributed_outcome(result: Result<PipelineResult, String>) -> (r: RunOutcome)
    ensures
        match result {
            Ok(PipelineResult::Completed) => r is Completed,
            Ok(PipelineResult::Stopped) => r is Stopped,
            Ok(PipelineResult::Cancelled) => r is Cancelled,
            Err(text) => r matches RunOutcome::Errored { step, message } && step@.len() == 0
                && message@ == text@,
        },
{
    match result {
        Ok(PipelineResult::Completed) => RunOutcome::Completed,
        Ok(PipelineResult::Stopped) => RunOutcome::Stopped,
        Ok(PipelineResult::Cancelled) => RunOutcome::Cancelled,
        Err(message) => RunOutcome::Errored { step: String::new(), message },
    }
}

/// A bare result says how the run ended, and blames no step where it failed.
pub proof fn law_a_bare_result_blames_no_step(
    result: Result<PipelineResult, String>,
    r: RunOutcome,
)
    requires
        call_ensures(unattributed_outcome, (result,), r),
    ensures
        r is Completed <==> result == Ok::<PipelineResult, String>(PipelineResult::Completed),
        r is Stopped <==> result == Ok::<PipelineResult, String>(PipelineResult::Stopped),
        r is Cancelled <==> result == Ok::<PipelineResult, String>(PipelineResult::Cancelled),
        r matches RunOutcome::Errored { step, message } ==> step@.len() == 0 && (result matches Err(
            text,
        ) && text@ == message@),
{
}

} // verus!
