//! The decisions of a run: which handler is invoked next, what is reported, how the run
//! ends.
//!
//! A [`Run`] is a state machine. It asks for one piece of outside work at a time
//! ([`Run::action`]), is told the result ([`Run::advance`]), and hands back the events to
//! report. Whoever drives it performs the work: awaits a handler, reads the cancellation
//! token, drops the run's resources.
//!
//! What a run reports and how it ends is fixed by the pipeline and the answers the run
//! receives; [`run_trace`] and [`run_result`] say how, as a function of all answers at once.

use vstd::prelude::*;

use crate::control::{PipelineControl, PipelineResult};
use crate::error::OrkaError;
use crate::pipeline::definition::{Callbacks, Pipeline, StepEntry};
use crate::pipeline::validate;
use crate::trace::{HandlerOutcome, RunOutcome, SkipReason, StepPhase, TraceEventKind};

verus! {

/// An error together with its message.
pub struct Failure<E> {
    pub error: E,
    pub message: String,
}

/// A failure and the step it is attributed to.
pub struct StepFailure<E> {
    pub step: String,
    pub failure: Failure<E>,
}

/// How a run's step loop, or the run as a whole, ends.
pub type RunEnd<E> = Result<PipelineResult, StepFailure<E>>;

/// What a run asks its driver to do next.
pub enum Action {
    /// Read the run's cancellation token.
    ReadToken,
    /// Evaluate the skip predicate of the step at this position.
    EvalSkip { step: usize },
    /// Invoke a handler of the step at this position and await its result.
    Invoke { step: usize, phase: StepPhase, handler: usize },
    /// Turn this framework error into the pipeline's own error type.
    Convert(OrkaError),
    /// Invoke a finish handler with this outcome and await its result.
    Finish { handler: usize, outcome: RunOutcome },
    /// Drop the run's resources.
    Release,
    /// The run is over.
    Done,
}

/// The result of an [`Action`].
pub enum Reply<E> {
    /// Whether the token is set.
    Token(bool),
    /// Whether the predicate holds.
    Skip(bool),
    /// What the handler returned.
    Handler(Result<PipelineControl, Failure<E>>),
    /// The framework error in the pipeline's own error type.
    Converted(Failure<E>),
    /// What the finish handler returned.
    Finished(Result<(), Failure<E>>),
    /// How many resources were dropped.
    Released(usize),
}

/// Where a run stands.
pub enum Stage {
    /// Before a step: the token has to be read.
    Boundary,
    /// The step's skip predicate has to be evaluated.
    SkipCheck,
    /// A handler has to be invoked.
    Call { phase: StepPhase, handler: usize },
    /// A handler asked to stop: the token decides what that means.
    StopCheck { phase: StepPhase, handler: usize },
    /// The step is required and has no handlers.
    Missing,
    /// A finish handler has to be invoked.
    Finishing { next: usize },
    /// The resources have to be released.
    Releasing,
    /// The run is over.
    Done,
}

/// The changing part of a run.
pub struct RunState<E> {
    /// The position of the step in progress.
    pub at: usize,
    pub stage: Stage,
    /// How the step loop ended, once it has.
    pub end: Option<RunEnd<E>>,
    /// The first finish-handler failure, once there is one.
    pub finish_error: Option<Failure<E>>,
}

/// The fixed part of a run: the pipeline, and which of its steps run.
pub struct RunPlan<'p, K: Callbacks> {
    pub pipeline: &'p Pipeline<K>,
    /// The position after the last step to run.
    pub until: usize,
    /// Whether this is a full run, with its finish handlers and the release of resources.
    pub full: bool,
    /// The step name that failures of finish handlers are attributed to.
    pub finish_step: String,
}

/// A run in progress.
pub struct Run<'p, K: Callbacks, E> {
    pub plan: RunPlan<'p, K>,
    pub state: RunState<E>,
}

/// How many handlers a step has, over its three phases.
pub open spec fn calls<K: Callbacks>(step: StepEntry<K>) -> nat {
    step.before@.len() + step.on@.len() + step.after@.len()
}

/// The phase of a step's `call`-th handler: first the `before` handlers, then the `on`
/// handlers, then the `after` handlers.
pub open spec fn call_phase<K: Callbacks>(step: StepEntry<K>, call: int) -> StepPhase {
    if call < step.before@.len() {
        StepPhase::Before
    } else if call < step.before@.len() + step.on@.len() {
        StepPhase::On
    } else {
        StepPhase::After
    }
}

/// The position of a step's `call`-th handler within its phase.
pub open spec fn call_index<K: Callbacks>(step: StepEntry<K>, call: int) -> int {
    if call < step.before@.len() {
        call
    } else if call < step.before@.len() + step.on@.len() {
        call - step.before@.len()
    } else {
        call - step.before@.len() - step.on@.len()
    }
}

/// The handlers of a step in a phase.
pub open spec fn phase_len<K: Callbacks>(step: StepEntry<K>, phase: StepPhase) -> nat {
    match phase {
        StepPhase::Before => step.before@.len(),
        StepPhase::On => step.on@.len(),
        StepPhase::After => step.after@.len(),
    }
}

/// The number of a handler, counted over the step's phases.
pub open spec fn call_number<K: Callbacks>(
    step: StepEntry<K>,
    phase: StepPhase,
    handler: int,
) -> int {
    match phase {
        StepPhase::Before => handler,
        StepPhase::On => step.before@.len() + handler,
        StepPhase::After => step.before@.len() + step.on@.len() + handler,
    }
}

/// The stage in which a step's `call`-th handler has to be invoked.
pub open spec fn call_stage<K: Callbacks>(step: StepEntry<K>, call: int) -> Stage {
    Stage::Call { phase: call_phase(step, call), handler: call_index(step, call) as usize }
}

/// The outcome that a way of ending is reported as.
pub open spec fn outcome_of<E>(end: RunEnd<E>) -> RunOutcome {
    match end {
        Ok(PipelineResult::Completed) => RunOutcome::Completed,
        Ok(PipelineResult::Stopped) => RunOutcome::Stopped,
        Ok(PipelineResult::Cancelled) => RunOutcome::Cancelled,
        Err(f) => RunOutcome::Errored { step: f.step, message: f.failure.message },
    }
}

/// How a full run ends, given how its step loop ended and the first failure of its finish
/// handlers: a failed step loop stays as it is, and a finish failure turns any other ending
/// into an error.
pub open spec fn conclude<E>(
    end: RunEnd<E>,
    finish_error: Option<Failure<E>>,
    finish_step: String,
) -> RunEnd<E> {
    match (end, finish_error) {
        (Err(f), _) => Err(f),
        (Ok(_), Some(f)) => Err(StepFailure { step: finish_step, failure: f }),
        (Ok(r), None) => Ok(r),
    }
}

/// Every answer a run could receive: one for each question it may ask.
pub struct Answers<E> {
    /// Whether the token is set at the boundary of a step.
    pub token: spec_fn(int) -> bool,
    /// Whether a step's skip predicate holds.
    pub skip: spec_fn(int) -> bool,
    /// What a handler of a step returns.
    pub call: spec_fn(int, int) -> Result<PipelineControl, Failure<E>>,
    /// Whether the token is set after a handler of a step asked to stop.
    pub token_on_stop: spec_fn(int, int) -> bool,
    /// The error of the pipeline's own type for a step without handlers.
    pub missing: spec_fn(int) -> Failure<E>,
    /// What a finish handler returns.
    pub finish: spec_fn(int) -> Result<(), Failure<E>>,
    /// How many resources the run's bag held at its release.
    pub released: usize,
}

/// How a handler's result reads in the trace.
pub open spec fn handler_outcome<E>(
    result: Result<PipelineControl, Failure<E>>,
) -> HandlerOutcome {
    match result {
        Ok(PipelineControl::Continue) => HandlerOutcome::Continue,
        Ok(PipelineControl::Stop) => HandlerOutcome::Stop,
        Err(f) => HandlerOutcome::Error(f.message),
    }
}

/// How a finish handler's result reads in the trace.
pub open spec fn finish_outcome<E>(result: Result<(), Failure<E>>) -> HandlerOutcome {
    match result {
        Ok(()) => HandlerOutcome::Continue,
        Err(f) => HandlerOutcome::Error(f.message),
    }
}

impl<'p, K: Callbacks> RunPlan<'p, K> {
    /// The pipeline is valid, the last step exists, and the label is in place.
    pub open spec fn wf(self) -> bool {
        &&& self.pipeline.wf()
        &&& self.until <= self.pipeline.steps@.len()
        &&& self.finish_step@ == "on_finish"@
    }

    /// The step at a position.
    pub open spec fn step(self, i: int) -> StepEntry<K> {
        self.pipeline.steps@[i]
    }

    /// The name of the step at a position.
    pub open spec fn name(self, i: int) -> String {
        self.step(i).def.name
    }

    /// The event of a handler having finished.
    pub open spec fn handler_finished(
        self,
        i: int,
        call: int,
        outcome: HandlerOutcome,
    ) -> TraceEventKind {
        TraceEventKind::HandlerFinished {
            step: self.name(i),
            phase: call_phase(self.step(i), call),
            handler_index: call_index(self.step(i), call) as usize,
            outcome,
        }
    }
}

/// What the handlers of step `i` report from the `call`-th on, and how they end the run,
/// `None` where the run goes on to the next step.
pub open spec fn calls_from<K: Callbacks, E>(
    plan: RunPlan<'_, K>,
    answers: Answers<E>,
    i: int,
    call: int,
) -> (Seq<TraceEventKind>, Option<RunEnd<E>>)
    decreases calls(plan.step(i)) - call,
{
    if call >= calls(plan.step(i)) {
        (seq![TraceEventKind::StepCompleted { step: plan.name(i), index: i as usize }], None)
    } else {
        let result = (answers.call)(i, call);
        let finished = plan.handler_finished(i, call, handler_outcome(result));
        match result {
            Ok(PipelineControl::Continue) => {
                let rest = calls_from(plan, answers, i, call + 1);
                (seq![finished] + rest.0, rest.1)
            },
            Ok(PipelineControl::Stop) => {
                let result = if (answers.token_on_stop)(i, call) {
                    PipelineResult::Cancelled
                } else {
                    PipelineResult::Stopped
                };
                (seq![finished], Some(Ok(result)))
            },
            Err(f) => (seq![finished], Some(Err(StepFailure { step: plan.name(i), failure: f }))),
        }
    }
}

/// What step `i` reports once its skip predicate did not hold, and how it ends the run.
pub open spec fn enter_step<K: Callbacks, E>(
    plan: RunPlan<'_, K>,
    answers: Answers<E>,
    i: int,
) -> (Seq<TraceEventKind>, Option<RunEnd<E>>) {
    if calls(plan.step(i)) > 0 {
        let rest = calls_from(plan, answers, i, 0);
        (
            seq![TraceEventKind::StepStarted { step: plan.name(i), index: i as usize }] + rest.0,
            rest.1,
        )
    } else if plan.step(i).def.optional {
        (
            seq![
                TraceEventKind::StepSkipped {
                    step: plan.name(i),
                    index: i as usize,
                    reason: SkipReason::OptionalWithoutHandlers,
                },
            ],
            None,
        )
    } else {
        (
            Seq::empty(),
            Some(Err(StepFailure { step: plan.name(i), failure: (answers.missing)(i) })),
        )
    }
}

/// What step `i` reports once the token was found unset, and how it ends the run.
pub open spec fn check_skip<K: Callbacks, E>(
    plan: RunPlan<'_, K>,
    answers: Answers<E>,
    i: int,
) -> (Seq<TraceEventKind>, Option<RunEnd<E>>) {
    if plan.step(i).def.skip_if is Some && (answers.skip)(i) {
        (
            seq![
                TraceEventKind::StepSkipped {
                    step: plan.name(i),
                    index: i as usize,
                    reason: SkipReason::SkipCondition { label: plan.step(i).def.skip_label },
                },
            ],
            None,
        )
    } else {
        enter_step(plan, answers, i)
    }
}

/// What step `i` reports, and how it ends the run.
pub open spec fn run_step<K: Callbacks, E>(
    plan: RunPlan<'_, K>,
    answers: Answers<E>,
    i: int,
) -> (Seq<TraceEventKind>, Option<RunEnd<E>>) {
    if (answers.token)(i) {
        (
            seq![TraceEventKind::RunCancelled { step: plan.name(i), index: i as usize }],
            Some(Ok(PipelineResult::Cancelled)),
        )
    } else {
        check_skip(plan, answers, i)
    }
}

/// What the step loop reports from step `i` on, and how it ends.
pub open spec fn steps_from<K: Callbacks, E>(
    plan: RunPlan<'_, K>,
    answers: Answers<E>,
    i: int,
) -> (Seq<TraceEventKind>, RunEnd<E>)
    decreases plan.until - i,
{
    if i >= plan.until {
        (Seq::empty(), Ok(PipelineResult::Completed))
    } else {
        let (events, end) = run_step(plan, answers, i);
        match end {
            Some(end) => (events, end),
            None => {
                let rest = steps_from(plan, answers, i + 1);
                (events + rest.0, rest.1)
            },
        }
    }
}

/// What the finish handlers report from the `j`-th on.
pub open spec fn finish_events<K: Callbacks, E>(
    plan: RunPlan<'_, K>,
    answers: Answers<E>,
    j: int,
) -> Seq<TraceEventKind>
    decreases plan.pipeline.finish_handlers@.len() - j,
{
    if j >= plan.pipeline.finish_handlers@.len() {
        Seq::empty()
    } else {
        seq![
            TraceEventKind::FinalizerFinished {
                handler_index: j as usize,
                outcome: finish_outcome((answers.finish)(j)),
            },
        ] + finish_events(plan, answers, j + 1)
    }
}

/// The first failure of the finish handlers from the `j`-th on.
pub open spec fn first_finish_error<K: Callbacks, E>(
    plan: RunPlan<'_, K>,
    answers: Answers<E>,
    j: int,
) -> Option<Failure<E>>
    decreases plan.pipeline.finish_handlers@.len() - j,
{
    if j >= plan.pipeline.finish_handlers@.len() {
        None
    } else {
        match (answers.finish)(j) {
            Err(f) => Some(f),
            Ok(()) => first_finish_error(plan, answers, j + 1),
        }
    }
}

/// What a full run reports last: the release, where something was held, and the outcome.
pub open spec fn closing_events<E>(released: usize, end: RunEnd<E>) -> Seq<TraceEventKind> {
    let finished = seq![TraceEventKind::RunFinished { outcome: outcome_of(end) }];
    if released > 0 {
        seq![TraceEventKind::ResourcesReleased { count: released }] + finished
    } else {
        finished
    }
}

/// How a run whose steps begin at `from` ends.
pub open spec fn run_result<K: Callbacks, E>(
    plan: RunPlan<'_, K>,
    answers: Answers<E>,
    from: int,
) -> RunEnd<E> {
    let end = steps_from(plan, answers, from).1;
    if plan.full {
        conclude(end, first_finish_error(plan, answers, 0), plan.finish_step)
    } else {
        end
    }
}

/// Everything that a run whose steps begin at `from` reports, in order. A partial run
/// reports its steps and nothing else.
pub open spec fn run_trace<K: Callbacks, E>(
    plan: RunPlan<'_, K>,
    answers: Answers<E>,
    from: int,
) -> Seq<TraceEventKind> {
    let steps = steps_from(plan, answers, from).0;
    if plan.full {
        seq![TraceEventKind::RunStarted] + steps + finish_events(plan, answers, 0)
            + closing_events(answers.released, run_result(plan, answers, from))
    } else {
        steps
    }
}

/// Whether a state is one a run of the plan can be in.
pub open spec fn state_wf<K: Callbacks, E>(plan: RunPlan<'_, K>, s: RunState<E>) -> bool {
    let running = s.at < plan.until && s.end is None && s.finish_error is None;
    match s.stage {
        Stage::Boundary => running,
        Stage::SkipCheck => running && plan.step(s.at as int).def.skip_if is Some,
        Stage::Call { phase, handler } => running && handler < phase_len(
            plan.step(s.at as int),
            phase,
        ),
        Stage::StopCheck { phase, handler } => running && handler < phase_len(
            plan.step(s.at as int),
            phase,
        ),
        Stage::Missing => running && calls(plan.step(s.at as int)) == 0 && !plan.step(
            s.at as int,
        ).def.optional,
        Stage::Finishing { next } => plan.full && s.end is Some && next
            < plan.pipeline.finish_handlers@.len(),
        Stage::Releasing => plan.full && s.end is Some,
        Stage::Done => s.end is Some && (!plan.full ==> s.finish_error is None),
    }
}

/// Whether a reply answers what a run in this stage asks.
pub open spec fn accepts<E>(stage: Stage, reply: Reply<E>) -> bool {
    match stage {
        Stage::Boundary => reply is Token,
        Stage::SkipCheck => reply is Skip,
        Stage::Call { .. } => reply is Handler,
        Stage::StopCheck { .. } => reply is Token,
        Stage::Missing => reply is Converted,
        Stage::Finishing { .. } => reply is Finished,
        Stage::Releasing => reply is Released,
        Stage::Done => false,
    }
}

/// The stage in which the `next`-th finish handler, if there is one, has to be invoked.
pub open spec fn finish_stage<K: Callbacks>(plan: RunPlan<'_, K>, next: int) -> Stage {
    if next < plan.pipeline.finish_handlers@.len() {
        Stage::Finishing { next: next as usize }
    } else {
        Stage::Releasing
    }
}

/// The state after the step loop ended.
pub open spec fn settled<K: Callbacks, E>(
    plan: RunPlan<'_, K>,
    at: usize,
    end: RunEnd<E>,
) -> RunState<E> {
    RunState {
        at,
        stage: if plan.full {
            finish_stage(plan, 0)
        } else {
            Stage::Done
        },
        end: Some(end),
        finish_error: None,
    }
}

/// The state of a run with the step at this position in progress.
pub open spec fn running<E>(at: usize, stage: Stage) -> RunState<E> {
    RunState { at, stage, end: None, finish_error: None }
}

/// The state before the step at this position, or after the loop where that was the last.
pub open spec fn before_step<K: Callbacks, E>(plan: RunPlan<'_, K>, at: int) -> RunState<E> {
    if at < plan.until {
        running(at as usize, Stage::Boundary)
    } else {
        settled(plan, at as usize, Ok(PipelineResult::Completed))
    }
}

/// The state and the events once the skip predicate of a step did not hold.
pub open spec fn entered<K: Callbacks, E>(plan: RunPlan<'_, K>, at: usize) -> (
    RunState<E>,
    Seq<TraceEventKind>,
) {
    let step = plan.step(at as int);
    if calls(step) > 0 {
        (
            running(at, call_stage(step, 0)),
            seq![TraceEventKind::StepStarted { step: step.def.name, index: at }],
        )
    } else if step.def.optional {
        (
            before_step(plan, at + 1),
            seq![
                TraceEventKind::StepSkipped {
                    step: step.def.name,
                    index: at,
                    reason: SkipReason::OptionalWithoutHandlers,
                },
            ],
        )
    } else {
        (running(at, Stage::Missing), Seq::empty())
    }
}

/// The state and the events after a reply.
pub open spec fn next<K: Callbacks, E>(
    plan: RunPlan<'_, K>,
    s: RunState<E>,
    reply: Reply<E>,
) -> (RunState<E>, Seq<TraceEventKind>) {
    let step = plan.step(s.at as int);
    let name = step.def.name;
    match (s.stage, reply) {
        (Stage::Boundary, Reply::Token(cancelled)) => if cancelled {
            (
                settled(plan, s.at, Ok(PipelineResult::Cancelled)),
                seq![TraceEventKind::RunCancelled { step: name, index: s.at }],
            )
        } else if step.def.skip_if is Some {
            (running(s.at, Stage::SkipCheck), Seq::empty())
        } else {
            entered(plan, s.at)
        },
        (Stage::SkipCheck, Reply::Skip(holds)) => if holds {
            (
                before_step(plan, s.at + 1),
                seq![
                    TraceEventKind::StepSkipped {
                        step: name,
                        index: s.at,
                        reason: SkipReason::SkipCondition { label: step.def.skip_label },
                    },
                ],
            )
        } else {
            entered(plan, s.at)
        },
        (Stage::Call { phase, handler }, Reply::Handler(result)) => {
            let call = call_number(step, phase, handler as int);
            let finished = plan.handler_finished(s.at as int, call, handler_outcome(result));
            match result {
                Ok(PipelineControl::Continue) => if call + 1 < calls(step) {
                    (running(s.at, call_stage(step, call + 1)), seq![finished])
                } else {
                    (
                        before_step(plan, s.at + 1),
                        seq![
                            finished,
                            TraceEventKind::StepCompleted { step: name, index: s.at },
                        ],
                    )
                },
                Ok(PipelineControl::Stop) => (
                    running(s.at, Stage::StopCheck { phase, handler }),
                    seq![finished],
                ),
                Err(failure) => (
                    settled(plan, s.at, Err(StepFailure { step: name, failure })),
                    seq![finished],
                ),
            }
        },
        (Stage::StopCheck { .. }, Reply::Token(cancelled)) => {
            let result = if cancelled {
                PipelineResult::Cancelled
            } else {
                PipelineResult::Stopped
            };
            (settled(plan, s.at, Ok(result)), Seq::empty())
        },
        (Stage::Missing, Reply::Converted(failure)) => (
            settled(plan, s.at, Err(StepFailure { step: name, failure })),
            Seq::empty(),
        ),
        (Stage::Finishing { next }, Reply::Finished(result)) => (
            RunState {
                at: s.at,
                stage: finish_stage(plan, next + 1),
                end: s.end,
                finish_error: match (s.finish_error, result) {
                    (Some(first), _) => Some(first),
                    (None, Err(failure)) => Some(failure),
                    (None, Ok(())) => None,
                },
            },
            seq![
                TraceEventKind::FinalizerFinished {
                    handler_index: next,
                    outcome: finish_outcome(result),
                },
            ],
        ),
        (Stage::Releasing, Reply::Released(count)) => (
            RunState { at: s.at, stage: Stage::Done, end: s.end, finish_error: s.finish_error },
            closing_events(count, conclude(s.end->Some_0, s.finish_error, plan.finish_step)),
        ),
        _ => (s, Seq::empty()),
    }
}

/// What an observer is told of a handler's failure.
pub struct HandlerError<'r, E> {
    pub step: &'r str,
    pub phase: StepPhase,
    pub failure: &'r Failure<E>,
}

/// Whether `r` is what an observer is told before a run in this state takes a reply: exactly
/// where a handler returned an error, its step, its phase and that error.
pub open spec fn is_told<K: Callbacks, E>(
    plan: RunPlan<'_, K>,
    s: RunState<E>,
    reply: Reply<E>,
    r: Option<HandlerError<'_, E>>,
) -> bool {
    match (s.stage, reply) {
        (Stage::Call { phase, .. }, Reply::Handler(Err(failure))) => r matches Some(told)
            && told.step@ == plan.name(s.at as int)@ && told.phase == phase && *told.failure
            == failure,
        _ => r is None,
    }
}

/// What a run in this state asks for.
pub open spec fn asked<K: Callbacks, E>(plan: RunPlan<'_, K>, s: RunState<E>) -> Action {
    match s.stage {
        Stage::Boundary => Action::ReadToken,
        Stage::SkipCheck => Action::EvalSkip { step: s.at },
        Stage::Call { phase, handler } => Action::Invoke { step: s.at, phase, handler },
        Stage::StopCheck { .. } => Action::ReadToken,
        Stage::Missing => Action::Convert(
            OrkaError::HandlerMissing { step_name: plan.name(s.at as int) },
        ),
        Stage::Finishing { next } => Action::Finish {
            handler: next,
            outcome: outcome_of(s.end->Some_0),
        },
        Stage::Releasing => Action::Release,
        Stage::Done => Action::Done,
    }
}

impl<'p, K: Callbacks> RunPlan<'p, K> {
    fn finish_stage(&self, next: usize) -> (r: Stage)
        ensures
            r == finish_stage(*self, next as int),
    {
        if next < self.pipeline.finish_handlers.len() {
            Stage::Finishing { next }
        } else {
            Stage::Releasing
        }
    }

    fn settled<E>(&self, at: usize, end: RunEnd<E>) -> (r: RunState<E>)
        ensures
            r == settled(*self, at, end),
    {
        let stage = if self.full {
            self.finish_stage(0)
        } else {
            Stage::Done
        };
        RunState { at, stage, end: Some(end), finish_error: None }
    }

    fn before_step<E>(&self, at: usize) -> (r: RunState<E>)
        ensures
            r == before_step::<K, E>(*self, at as int),
    {
        if at < self.until {
            RunState { at, stage: Stage::Boundary, end: None, finish_error: None }
        } else {
            self.settled(at, Ok(PipelineResult::Completed))
        }
    }

    fn entered<E>(&self, at: usize, events: &mut Vec<TraceEventKind>) -> (r: RunState<E>)
        requires
            self.wf(),
            at < self.until,
            old(events)@.len() == 0,
        ensures
            (r, final(events)@) == entered::<K, E>(*self, at),
    {
        let step = &self.pipeline.steps[at];
        if validate::has_any_handlers(step) {
            events.push(TraceEventKind::StepStarted { step: step.def.name.clone(), index: at });
            RunState { at, stage: self.first_call(at), end: None, finish_error: None }
        } else if step.def.optional {
            events.push(
                TraceEventKind::StepSkipped {
                    step: step.def.name.clone(),
                    index: at,
                    reason: SkipReason::OptionalWithoutHandlers,
                },
            );
            self.before_step(at + 1)
        } else {
            RunState { at, stage: Stage::Missing, end: None, finish_error: None }
        }
    }

    /// The stage of the first handler of a step that has one.
    fn first_call(&self, at: usize) -> (r: Stage)
        requires
            self.wf(),
            at < self.until,
            calls(self.step(at as int)) > 0,
        ensures
            r == call_stage(self.step(at as int), 0),
    {
        let step = &self.pipeline.steps[at];
        if step.before.len() > 0 {
            Stage::Call { phase: StepPhase::Before, handler: 0 }
        } else if step.on.len() > 0 {
            Stage::Call { phase: StepPhase::On, handler: 0 }
        } else {
            Stage::Call { phase: StepPhase::After, handler: 0 }
        }
    }

    /// The stage of the handler that follows a handler of a step, if there is one.
    fn following_call(&self, at: usize, phase: StepPhase, handler: usize) -> (r: Option<Stage>)
        requires
            self.wf(),
            at < self.until,
            handler < phase_len(self.step(at as int), phase),
        ensures
            ({
                let step = self.step(at as int);
                let following = call_number(step, phase, handler as int) + 1;
                match r {
                    Some(stage) => following < calls(step) && stage == call_stage(step, following),
                    None => following >= calls(step),
                }
            }),
    {
        let step = &self.pipeline.steps[at];
        let before = step.before.len();
        let on = step.on.len();
        let after = step.after.len();
        match phase {
            StepPhase::Before => {
                if handler + 1 < before {
                    return Some(Stage::Call { phase: StepPhase::Before, handler: handler + 1 });
                }
                if on > 0 {
                    return Some(Stage::Call { phase: StepPhase::On, handler: 0 });
                }
            },
            StepPhase::On => {
                if handler + 1 < on {
                    return Some(Stage::Call { phase: StepPhase::On, handler: handler + 1 });
                }
            },
            StepPhase::After => {
                if handler + 1 < after {
                    return Some(Stage::Call { phase: StepPhase::After, handler: handler + 1 });
                }
                return None;
            },
        }
        if after > 0 {
            Some(Stage::Call { phase: StepPhase::After, handler: 0 })
        } else {
            None
        }
    }
}

/// The outcome a way of ending is reported as.
pub fn outcome_of_end<E>(end: &RunEnd<E>) -> (r: RunOutcome)
    ensures
        r == outcome_of(*end),
{
    match end {
        Ok(PipelineResult::Completed) => RunOutcome::Completed,
        Ok(PipelineResult::Stopped) => RunOutcome::Stopped,
        Ok(PipelineResult::Cancelled) => RunOutcome::Cancelled,
        Err(f) => RunOutcome::Errored {
            step: f.step.clone(),
            message: f.failure.message.clone(),
        },
    }
}

impl<'p, K: Callbacks, E> Run<'p, K, E> {
    /// Whether the run is in a state that its plan can be in.
    pub open spec fn wf(self) -> bool {
        self.plan.wf() && state_wf(self.plan, self.state)
    }

    /// What has to be done next.
    pub fn action(&self) -> (r: Action)
        requires
            self.wf(),
        ensures
            r == asked(self.plan, self.state),
    {
        let at = self.state.at;
        match &self.state.stage {
            Stage::Boundary => Action::ReadToken,
            Stage::SkipCheck => Action::EvalSkip { step: at },
            Stage::Call { phase, handler } => Action::Invoke {
                step: at,
                phase: *phase,
                handler: *handler,
            },
            Stage::StopCheck { .. } => Action::ReadToken,
            Stage::Missing => Action::Convert(
                OrkaError::HandlerMissing {
                    step_name: self.plan.pipeline.steps[at].def.name.clone(),
                },
            ),
            Stage::Finishing { next } => {
                let end = self.state.end.as_ref().unwrap();
                Action::Finish { handler: *next, outcome: outcome_of_end(end) }
            },
            Stage::Releasing => Action::Release,
            Stage::Done => Action::Done,
        }
    }

    /// The outcome of the run, once its step loop ended and its finish handlers ran.
    fn concluded_outcome(&self) -> (r: RunOutcome)
        requires
            self.state.end is Some,
        ensures
            r == outcome_of(
                conclude(self.state.end->Some_0, self.state.finish_error, self.plan.finish_step),
            ),
    {
        let end = self.state.end.as_ref().unwrap();
        match (end, &self.state.finish_error) {
            (Ok(_), Some(f)) => RunOutcome::Errored {
                step: self.plan.finish_step.clone(),
                message: f.message.clone(),
            },
            _ => outcome_of_end(end),
        }
    }

    /// What an observer is to be told of the result of the last action, before the run takes
    /// it and the events that follow are reported.
    pub fn handler_error<'r>(&'r self, reply: &'r Reply<E>) -> (r: Option<HandlerError<'r, E>>)
        requires
            self.wf(),
        ensures
            is_told(self.plan, self.state, *reply, r),
    {
        match (&self.state.stage, reply) {
            (Stage::Call { phase, .. }, Reply::Handler(Err(failure))) => {
                let step = self.plan.pipeline.steps[self.state.at].def.name.as_str();
                Some(HandlerError { step, phase: *phase, failure })
            },
            _ => None,
        }
    }

    /// Takes the result of the last action, moves on, and returns the events to report, in
    /// order. They are to be reported before the next action is performed, and after what
    /// [`handler_error`](Self::handler_error) gives for the same result.
    pub fn advance(&mut self, reply: Reply<E>) -> (events: Vec<TraceEventKind>)
        requires
            old(self).wf(),
            accepts(old(self).state.stage, reply),
        ensures
            final(self).wf(),
            final(self).plan == old(self).plan,
            (final(self).state, events@) == next(old(self).plan, old(self).state, reply),
    {
        let mut events: Vec<TraceEventKind> = Vec::new();
        let at = self.state.at;
        match &self.state.stage {
            Stage::Boundary => {
                let step = &self.plan.pipeline.steps[at];
                if let Reply::Token(cancelled) = reply {
                    if cancelled {
                        events.push(
                            TraceEventKind::RunCancelled {
                                step: step.def.name.clone(),
                                index: at,
                            },
                        );
                        self.state = self.plan.settled(at, Ok(PipelineResult::Cancelled));
                    } else if step.def.skip_if.is_some() {
                        self.state.stage = Stage::SkipCheck;
                    } else {
                        self.state = self.plan.entered(at, &mut events);
                    }
                }
            },
            Stage::SkipCheck => {
                let step = &self.plan.pipeline.steps[at];
                if let Reply::Skip(holds) = reply {
                    if holds {
                        events.push(
                            TraceEventKind::StepSkipped {
                                step: step.def.name.clone(),
                                index: at,
                                reason: SkipReason::SkipCondition {
                                    label: step.def.skip_label.clone(),
                                },
                            },
                        );
                        self.state = self.plan.before_step(at + 1);
                    } else {
                        self.state = self.plan.entered(at, &mut events);
                    }
                }
            },
            Stage::Call { phase, handler } => {
                let phase = *phase;
                let handler = *handler;
                if let Reply::Handler(result) = reply {
                    self.handler_returned(at, phase, handler, result, &mut events);
                }
            },
            Stage::StopCheck { .. } => {
                if let Reply::Token(cancelled) = reply {
                    let result = if cancelled {
                        PipelineResult::Cancelled
                    } else {
                        PipelineResult::Stopped
                    };
                    self.state = self.plan.settled(at, Ok(result));
                }
            },
            Stage::Missing => {
                let step = &self.plan.pipeline.steps[at];
                if let Reply::Converted(failure) = reply {
                    self.state = self.plan.settled(
                        at,
                        Err(StepFailure { step: step.def.name.clone(), failure }),
                    );
                }
            },
            Stage::Finishing { next } => {
                let next = *next;
                if let Reply::Finished(result) = reply {
                    self.finish_handler_returned(next, result, &mut events);
                }
            },
            Stage::Releasing => {
                if let Reply::Released(count) = reply {
                    if count > 0 {
                        events.push(TraceEventKind::ResourcesReleased { count });
                    }
                    events.push(TraceEventKind::RunFinished { outcome: self.concluded_outcome() });
                    self.state.stage = Stage::Done;
                }
            },
            Stage::Done => {},
        }
        events
    }

    fn handler_returned(
        &mut self,
        at: usize,
        phase: StepPhase,
        handler: usize,
        result: Result<PipelineControl, Failure<E>>,
        events: &mut Vec<TraceEventKind>,
    )
        requires
            old(self).wf(),
            old(self).state.at == at,
            old(self).state.stage == (Stage::Call { phase, handler }),
            old(events)@.len() == 0,
        ensures
            final(self).wf(),
            final(self).plan == old(self).plan,
            (final(self).state, final(events)@) == next(
                old(self).plan,
                old(self).state,
                Reply::Handler(result),
            ),
    {
        let name = self.plan.pipeline.steps[at].def.name.clone();
        let outcome = match &result {
            Ok(PipelineControl::Continue) => HandlerOutcome::Continue,
            Ok(PipelineControl::Stop) => HandlerOutcome::Stop,
            Err(f) => HandlerOutcome::Error(f.message.clone()),
        };
        events.push(
            TraceEventKind::HandlerFinished {
                step: name.clone(),
                phase,
                handler_index: handler,
                outcome,
            },
        );
        match result {
            Ok(PipelineControl::Continue) => {
                match self.plan.following_call(at, phase, handler) {
                    Some(stage) => {
                        self.state.stage = stage;
                    },
                    None => {
                        events.push(TraceEventKind::StepCompleted { step: name, index: at });
                        self.state = self.plan.before_step(at + 1);
                    },
                }
            },
            Ok(PipelineControl::Stop) => {
                self.state.stage = Stage::StopCheck { phase, handler };
            },
            Err(failure) => {
                self.state = self.plan.settled(at, Err(StepFailure { step: name, failure }));
            },
        }
    }

    fn finish_handler_returned(
        &mut self,
        handler_index: usize,
        result: Result<(), Failure<E>>,
        events: &mut Vec<TraceEventKind>,
    )
        requires
            old(self).wf(),
            old(self).state.stage == (Stage::Finishing { next: handler_index }),
            old(events)@.len() == 0,
        ensures
            final(self).wf(),
            final(self).plan == old(self).plan,
            (final(self).state, final(events)@) == next(
                old(self).plan,
                old(self).state,
                Reply::Finished(result),
            ),
    {
        let outcome = match &result {
            Ok(()) => HandlerOutcome::Continue,
            Err(f) => HandlerOutcome::Error(f.message.clone()),
        };
        events.push(TraceEventKind::FinalizerFinished { handler_index, outcome });
        if let Err(failure) = result {
            if self.state.finish_error.is_none() {
                self.state.finish_error = Some(failure);
            }
        }
        assert(handler_index < self.plan.pipeline.finish_handlers.len());
        self.state.stage = self.plan.finish_stage(handler_index + 1);
    }

    /// How the run ended, and the outcome that goes with it.
    pub fn into_result(self) -> (r: (RunEnd<E>, RunOutcome))
        requires
            self.wf(),
            self.state.stage is Done,
        ensures
            r.0 == conclude(
                self.state.end->Some_0,
                self.state.finish_error,
                self.plan.finish_step,
            ),
            r.1 == outcome_of(r.0),
    {
        let outcome = self.concluded_outcome();
        let end = self.state.end.unwrap();
        let end = match (end, self.state.finish_error) {
            (Ok(_), Some(failure)) => Err(
                StepFailure { step: self.plan.finish_step, failure },
            ),
            (end, _) => end,
        };
        (end, outcome)
    }
}

impl<K: Callbacks> Pipeline<K> {
    /// The plan of a run over the steps before `until`.
    fn plan(&self, until: usize, full: bool) -> (r: RunPlan<'_, K>)
        requires
            self.wf(),
            until <= self.steps@.len(),
        ensures
            r.wf(),
            r.pipeline == self,
            r.until == until,
            r.full == full,
    {
        RunPlan { pipeline: self, until, full, finish_step: "on_finish".to_string() }
    }

    /// Begins a full run: every step, then the finish handlers, then the release of the
    /// run's resources. Returns the run and the events to report first.
    pub fn run<E>(&self) -> (r: (Run<'_, K, E>, Vec<TraceEventKind>))
        requires
            self.wf(),
        ensures
            r.0.wf(),
            r.0.plan.pipeline == self,
            r.0.plan.until == self.steps@.len(),
            r.0.plan.full,
            r.0.state == before_step::<K, E>(r.0.plan, 0),
            r.1@ == seq![TraceEventKind::RunStarted],
    {
        let plan = self.plan(self.steps.len(), true);
        let state = plan.before_step(0);
        let mut events: Vec<TraceEventKind> = Vec::new();
        events.push(TraceEventKind::RunStarted);
        (Run { plan, state }, events)
    }

    /// The position of the named step, or the error that reports it unknown.
    pub fn step_index(&self, step_name: &str) -> (r: Result<usize, OrkaError>)
        requires
            self.wf(),
        ensures
            match r {
                Ok(i) => self@.is_at(i as int, step_name@),
                Err(e) => !self@.has_step(step_name@) && (e matches OrkaError::StepNotFound {
                    step_name: n,
                } && n@ == step_name@),
            },
    {
        match self.position(step_name) {
            Some(i) => Ok(i),
            None => Err(OrkaError::StepNotFound { step_name: step_name.to_string() }),
        }
    }

    /// Begins a run of exactly one step, with its skip predicate still respected.
    ///
    /// This is a step-isolation tool: such a run reports step events only, and neither
    /// invokes finish handlers nor releases resources.
    pub fn run_step<E>(&self, step_name: &str) -> (r: Result<Run<'_, K, E>, OrkaError>)
        requires
            self.wf(),
        ensures
            match r {
                Ok(run) => {
                    &&& run.wf()
                    &&& run.plan.pipeline == self
                    &&& !run.plan.full
                    &&& self@.has_step(step_name@)
                    &&& run.plan.until == self@.index_of(step_name@) + 1
                    &&& run.state == before_step::<K, E>(
                        run.plan,
                        self@.index_of(step_name@),
                    )
                },
                Err(e) => !self@.has_step(step_name@) && (e matches OrkaError::StepNotFound {
                    step_name: n,
                } && n@ == step_name@),
            },
    {
        match self.step_index(step_name) {
            Ok(i) => {
                proof {
                    self@.lemma_index_unique(i as int, step_name@);
                }
                assert(i < self.steps.len());
                let plan = self.plan(i + 1, false);
                let state = plan.before_step(i);
                Ok(Run { plan, state })
            },
            Err(e) => Err(e),
        }
    }

    /// Begins a run from the named step through the end. An inspection tool, like
    /// [`run_step`](Self::run_step).
    pub fn run_from<E>(&self, step_name: &str) -> (r: Result<Run<'_, K, E>, OrkaError>)
        requires
            self.wf(),
        ensures
            match r {
                Ok(run) => {
                    &&& run.wf()
                    &&& run.plan.pipeline == self
                    &&& !run.plan.full
                    &&& self@.has_step(step_name@)
                    &&& run.plan.until == self.steps@.len()
                    &&& run.state == before_step::<K, E>(
                        run.plan,
                        self@.index_of(step_name@),
                    )
                },
                Err(e) => !self@.has_step(step_name@) && (e matches OrkaError::StepNotFound {
                    step_name: n,
                } && n@ == step_name@),
            },
    {
        match self.step_index(step_name) {
            Ok(i) => {
                proof {
                    self@.lemma_index_unique(i as int, step_name@);
                }
                let plan = self.plan(self.steps.len(), false);
                let state = plan.before_step(i);
                Ok(Run { plan, state })
            },
            Err(e) => Err(e),
        }
    }

    /// Begins a run from the start through the named step. An inspection tool, like
    /// [`run_step`](Self::run_step).
    pub fn run_until<E>(&self, step_name: &str) -> (r: Result<Run<'_, K, E>, OrkaError>)
        requires
            self.wf(),
        ensures
            match r {
                Ok(run) => {
                    &&& run.wf()
                    &&& run.plan.pipeline == self
                    &&& !run.plan.full
                    &&& self@.has_step(step_name@)
                    &&& run.plan.until == self@.index_of(step_name@) + 1
                    &&& run.state == before_step::<K, E>(run.plan, 0)
                },
                Err(e) => !self@.has_step(step_name@) && (e matches OrkaError::StepNotFound {
                    step_name: n,
                } && n@ == step_name@),
            },
    {
        match self.step_index(step_name) {
            Ok(i) => {
                proof {
                    self@.lemma_index_unique(i as int, step_name@);
                }
                assert(i < self.steps.len());
                let plan = self.plan(i + 1, false);
                let state = plan.before_step(0);
                Ok(Run { plan, state })
            },
            Err(e) => Err(e),
        }
    }
}

} // verus!
