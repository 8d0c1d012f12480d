//! The common imports for building and running a pipeline.

pub use crate::context_data::ContextData;
pub use crate::control::{PipelineControl, PipelineResult};
pub use crate::error::{OrkaError, OrkaResult};
pub use crate::pipeline::definition::{Callbacks, Pipeline, StepDef};
pub use crate::pipeline::plan::{PlannedAction, StepPlan};
pub use crate::registry::Orka;
pub use crate::trace::{RunOutcome, SkipReason, StepPhase};
