//! Signals for controlling pipeline flow, and the outcome of a pipeline run.

use vstd::prelude::*;

verus! {

/// Signal from a handler indicating whether the pipeline should continue or stop.
#[derive(Debug, Clone, Copy, PartialEq, Eq, Structural)]
pub enum PipelineControl {
    /// Continue processing the current step and subsequent steps.
    Continue,
    /// Stop processing the current step immediately and halt the pipeline. No further
    /// handlers in the current step or subsequent steps are executed.
    Stop,
}

/// Outcome of a full pipeline execution.
#[derive(Debug, Clone, Copy, PartialEq, Eq, Structural)]
pub enum PipelineResult {
    /// The pipeline executed all its non-skipped steps to completion.
    Completed,
    /// The pipeline was explicitly stopped by a handler returning
    /// [`PipelineControl::Stop`].
    Stopped,
    /// The pipeline reached a step boundary with its cancellation token set and wound down
    /// without starting that step.
    ///
    /// A handler returning `Stop` while the token is set reports as this too, since the
    /// token's verdict outranks the handler's.
    Cancelled,
}

} // verus!
