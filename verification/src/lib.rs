//! Orka: a type-safe workflow engine, with its logic verified.
//!
//! A workflow is a [`Pipeline`]: an ordered list of named steps, each with handlers for a
//! `before`, an `on` and an `after` phase, run against a shared [`ContextData`]. What a
//! pipeline *is* stands in [`pipeline::definition`], what makes one sound in
//! [`pipeline::validate`], and what a run of one does in [`pipeline::run`].
//!
//! Handlers are awaited by whoever drives a run. The engine itself never waits: a run, a
//! conditional step, a sub-context handler and a bounded join of fan-out branches are state
//! machines that ask for one piece of outside work at a time and are told the result. Each
//! comes with a statement of everything it will do, as a function of the answers it gets.
//!
//! What relates several calls, or holds of a whole run, is stated and proved in the functions
//! named `law_..`, beside the code or in a module of laws next to it.

pub mod cancel;
pub mod cancel_laws;
pub mod conditional;
pub mod context_data;
pub mod control;
pub mod error;
pub mod fanout;
pub mod lock;
pub mod observer;
pub mod pipeline;
pub mod prelude;
pub mod registry;
pub mod resources;
pub mod runner;
pub mod seqs;
pub mod subcontext;
pub mod test_util;
pub mod text;
pub mod text_laws;
pub mod time;
pub mod trace;
pub mod trace_laws;

pub use crate::cancel::CancelToken;
pub use crate::conditional::ConditionalScopeBuilder;
pub use crate::context_data::ContextData;
pub use crate::control::{PipelineControl, PipelineResult};
pub use crate::error::{OrkaError, OrkaResult};
pub use crate::fanout::{FanOut, FanOutItem, FanOutItemOutcome, FanOutPolicy, FanOutResults};
pub use crate::observer::{CompositeObserver, PipelineObserver, TraceCollector};
pub use crate::pipeline::definition::{Callbacks, Pipeline, StepDef};
pub use crate::pipeline::plan::{PlannedAction, StepPlan};
pub use crate::registry::Orka;
pub use crate::resources::RunResources;
pub use crate::trace::{
    HandlerOutcome, RunOutcome, RunTrace, SkipReason, StepPhase, TraceEvent, TraceEventKind,
};
