//! What one turn of a run does: which action follows which, given the reply to it, and what
//! is reported in between.
//!
//! A turn is a call of [`Run::action`], the work it asks for, and a call of [`Run::advance`]
//! with the result. The laws here speak of the actions, the replies and the events alone.

use vstd::prelude::*;

use crate::control::{PipelineControl, PipelineResult};
use crate::error::OrkaError;
use crate::pipeline::definition::{Callbacks, Pipeline, StepEntry};
use crate::pipeline::run;
use crate::pipeline::run::{
    Action, Answers, Failure, HandlerError, Reply, Run, RunEnd, RunPlan, RunState, StepFailure,
};
use crate::trace::{HandlerOutcome, RunOutcome, SkipReason, StepPhase, TraceEventKind};

verus! {

/// How many handlers were registered for a phase of a step.
pub open spec fn registered<K: Callbacks>(step: StepEntry<K>, phase: StepPhase) -> nat {
    match phase {
        StepPhase::Before => step.before@.len(),
        StepPhase::On => step.on@.len(),
        StepPhase::After => step.after@.len(),
    }
}

/// Whether a phase of a step comes before another: `Before`, `On`, `After`.
pub open spec fn earlier(a: StepPhase, b: StepPhase) -> bool {
    match (a, b) {
        (StepPhase::Before, StepPhase::On) => true,
        (StepPhase::Before, StepPhase::After) => true,
        (StepPhase::On, StepPhase::After) => true,
        _ => false,
    }
}

/// Whether the handlers of a step are used up once this one has returned: it is the last of
/// its phase, and no later phase has any.
pub open spec fn is_last<K: Callbacks>(
    step: StepEntry<K>,
    phase: StepPhase,
    handler: int,
) -> bool {
    &&& handler + 1 == registered(step, phase)
    &&& forall|later: StepPhase| #[trigger] earlier(phase, later) ==> registered(step, later) == 0
}

/// Whether one handler of a step is the next after another: the following position of the
/// same phase, or the first of the next phase that has any, once its own phase is used up.
pub open spec fn is_next<K: Callbacks>(
    step: StepEntry<K>,
    phase: StepPhase,
    handler: int,
    next_phase: StepPhase,
    next_handler: int,
) -> bool {
    ||| next_phase == phase && next_handler == handler + 1
    ||| {
        &&& earlier(phase, next_phase)
        &&& next_handler == 0
        &&& handler + 1 == registered(step, phase)
        &&& forall|between: StepPhase|
            #![trigger earlier(phase, between)]
            #![trigger earlier(between, next_phase)]
            earlier(phase, between) && earlier(between, next_phase) ==> registered(step, between)
                == 0
    }
}

/// Whether a handler is the first of its step: at position zero, with no handler in any
/// earlier phase.
pub open spec fn is_first<K: Callbacks>(
    step: StepEntry<K>,
    phase: StepPhase,
    handler: int,
) -> bool {
    &&& handler == 0
    &&& forall|before: StepPhase| #[trigger] earlier(before, phase) ==> registered(step, before)
        == 0
}

/// Whether an outcome is how an ending reads: as completed, stopped, cancelled, or failed at
/// the step of the failure with its message.
pub open spec fn reads_as<E>(end: RunEnd<E>, outcome: RunOutcome) -> bool {
    match outcome {
        RunOutcome::Completed => end == Ok::<PipelineResult, StepFailure<E>>(
            PipelineResult::Completed,
        ),
        RunOutcome::Stopped => end == Ok::<PipelineResult, StepFailure<E>>(
            PipelineResult::Stopped,
        ),
        RunOutcome::Cancelled => end == Ok::<PipelineResult, StepFailure<E>>(
            PipelineResult::Cancelled,
        ),
        RunOutcome::Errored { step, message } => end matches Err(f) && f.step == step
            && f.failure.message == message,
    }
}

/// Whether the step loop ended here in this way: a full run turns to its first finish handler,
/// or to the release where it has none, and a partial run is done.
pub open spec fn loop_ended<K: Callbacks, E>(
    plan: RunPlan<'_, K>,
    after: RunState<E>,
    end: RunEnd<E>,
) -> bool {
    &&& after.end == Some(end)
    &&& after.finish_error is None
    &&& match run::asked(plan, after) {
        Action::Finish { handler, outcome } => {
            &&& plan.full
            &&& plan.pipeline.finish_handlers@.len() > 0
            &&& handler == 0
            &&& reads_as(end, outcome)
        },
        Action::Release => plan.full && plan.pipeline.finish_handlers@.len() == 0,
        Action::Done => !plan.full,
        _ => false,
    }
}

/// Whether the run left the step at this position behind: it reads the token for the next one,
/// or its step loop is over, as completed, where that was the last.
pub open spec fn moved_on<K: Callbacks, E>(
    plan: RunPlan<'_, K>,
    at: int,
    after: RunState<E>,
) -> bool {
    if at + 1 < plan.until {
        &&& after.at == at + 1
        &&& after.end is None
        &&& after.stage is Boundary
        &&& run::asked(plan, after) == Action::ReadToken
    } else {
        loop_ended(plan, after, Ok(PipelineResult::Completed))
    }
}

/// A call of [`Run::action`] tells what the run in its state asks for, and a call of
/// [`Run::advance`] with an answer to it moves the run on and reports the events of the turn,
/// keeping the plan. The laws on turns are about these calls.
pub proof fn law_the_calls_make_the_turns<'p, K: Callbacks, E>(
    before: Run<'p, K, E>,
    action: Action,
    reply: Reply<E>,
    events: Vec<TraceEventKind>,
    after: Run<'p, K, E>,
)
    requires
        call_ensures(Run::<'p, K, E>::action, (&before,), action),
        exists|run: &mut Run<'p, K, E>| #[trigger]
            call_ensures(Run::<'p, K, E>::advance, (run, reply), events) && *run == before
                && *final(run) == after,
    ensures
        action == run::asked(before.plan, before.state),
        (after.state, events@) == run::next(before.plan, before.state, reply),
        after.plan == before.plan,
        after.wf(),
{
}

/// Within a step, handlers are invoked in order of phase, and within a phase in order of
/// registration. A handler at position `k + 1` is invoked only after the one at position `k` of
/// the same phase, which continued. The first of a phase is the one at position zero: it comes
/// after the last of the phase before it that has any, which continued, or it is the first of
/// the step.
pub proof fn law_handlers_are_invoked_in_order<K: Callbacks, E>(
    plan: RunPlan<'_, K>,
    s: RunState<E>,
    reply: Reply<E>,
    at: usize,
    phase: StepPhase,
    handler: usize,
)
    requires
        plan.wf(),
        run::state_wf(plan, s),
        run::accepts(s.stage, reply),
        run::asked(plan, run::next(plan, s, reply).0) == (Action::Invoke {
            step: at,
            phase,
            handler,
        }),
    ensures
        at < plan.until,
        handler < registered(plan.step(at as int), phase),
        handler > 0 ==> run::asked(plan, s) == (Action::Invoke {
            step: at,
            phase,
            handler: (handler - 1) as usize,
        }),
        match run::asked(plan, s) {
            Action::Invoke { step, phase: last_phase, handler: last } => {
                &&& step == at
                &&& reply == Reply::<E>::Handler(Ok(PipelineControl::Continue))
                &&& is_next(
                    plan.step(at as int),
                    last_phase,
                    last as int,
                    phase,
                    handler as int,
                )
            },
            Action::ReadToken => {
                &&& s.stage is Boundary
                &&& s.at == at
                &&& reply == Reply::<E>::Token(false)
                &&& plan.step(at as int).def.skip_if is None
                &&& is_first(plan.step(at as int), phase, handler as int)
            },
            Action::EvalSkip { step } => {
                &&& step == at
                &&& reply == Reply::<E>::Skip(false)
                &&& is_first(plan.step(at as int), phase, handler as int)
            },
            _ => false,
        },
{
    reveal_phases();
    let step = plan.step(s.at as int);
    assert(step.before@.len() == step.before.len());
    assert(step.on@.len() == step.on.len());
    assert(step.after@.len() == step.after.len());
}

/// The phases, told apart.
proof fn reveal_phases()
    ensures
        earlier(StepPhase::Before, StepPhase::On),
        earlier(StepPhase::Before, StepPhase::After),
        earlier(StepPhase::On, StepPhase::After),
        forall|a: StepPhase| !(#[trigger] earlier(a, StepPhase::Before)),
        forall|a: StepPhase| !(#[trigger] earlier(StepPhase::After, a)),
{
}

/// No handler of a step that started is left out: after one that continued the next is
/// invoked, as long as there is one, and only then is the step reported completed and left
/// behind. Each is reported as it was invoked.
pub proof fn law_no_handler_is_left_out<K: Callbacks, E>(
    plan: RunPlan<'_, K>,
    s: RunState<E>,
    at: usize,
    phase: StepPhase,
    handler: usize,
)
    requires
        plan.wf(),
        run::state_wf(plan, s),
        run::asked(plan, s) == (Action::Invoke { step: at, phase, handler }),
    ensures
        ({
            let step = plan.step(at as int);
            let finished = TraceEventKind::HandlerFinished {
                step: step.def.name,
                phase,
                handler_index: handler,
                outcome: HandlerOutcome::Continue,
            };
            let (after, events) = run::next(
                plan,
                s,
                Reply::Handler(Ok(PipelineControl::Continue)),
            );
            if is_last(step, phase, handler as int) {
                &&& events == seq![
                    finished,
                    TraceEventKind::StepCompleted { step: step.def.name, index: at },
                ]
                &&& moved_on(plan, at as int, after)
            } else {
                &&& events == seq![finished]
                &&& run::asked(plan, after) matches Action::Invoke { step: same, .. }
                &&& same == at
            }
        }),
{
    reveal_phases();
    let step = plan.step(at as int);
    assert(step.before@.len() == step.before.len());
    assert(step.on@.len() == step.on.len());
    assert(step.after@.len() == step.after.len());
    let (after, events) = run::next(plan, s, Reply::Handler(Ok(PipelineControl::Continue)));
    let finished = TraceEventKind::HandlerFinished {
        step: step.def.name,
        phase,
        handler_index: handler,
        outcome: HandlerOutcome::Continue,
    };
    assert(at < plan.pipeline.steps.len());
    assert(events[0] == finished);
}

/// The token is read before a step is looked at. Where it is set, the run reports that it was
/// cancelled there and its step loop ends as cancelled, with no handler invoked; where it is
/// not, the step's skip predicate is asked for, if it has one.
pub proof fn law_the_token_is_read_before_each_step<K: Callbacks, E>(
    plan: RunPlan<'_, K>,
    s: RunState<E>,
)
    requires
        plan.wf(),
        run::state_wf(plan, s),
        s.stage is Boundary,
    ensures
        run::asked(plan, s) == Action::ReadToken,
        ({
            let (after, events) = run::next(plan, s, Reply::<E>::Token(true));
            &&& events == seq![
                TraceEventKind::RunCancelled {
                    step: plan.step(s.at as int).def.name,
                    index: s.at,
                },
            ]
            &&& loop_ended(plan, after, Ok(PipelineResult::Cancelled))
        }),
        plan.step(s.at as int).def.skip_if is Some ==> {
            let (after, events) = run::next(plan, s, Reply::<E>::Token(false));
            &&& events == Seq::<TraceEventKind>::empty()
            &&& run::asked(plan, after) == (Action::EvalSkip { step: s.at })
        },
{
}

/// A step whose skip predicate holds is reported as skipped, with the predicate's label, and
/// left behind, whatever handlers it has and whether or not it is optional.
pub proof fn law_a_holding_predicate_skips_the_step<K: Callbacks, E>(
    plan: RunPlan<'_, K>,
    s: RunState<E>,
    at: usize,
)
    requires
        plan.wf(),
        run::state_wf(plan, s),
        run::asked(plan, s) == (Action::EvalSkip { step: at }),
    ensures
        ({
            let (after, events) = run::next(plan, s, Reply::<E>::Skip(true));
            &&& events == seq![
                TraceEventKind::StepSkipped {
                    step: plan.step(at as int).def.name,
                    index: at,
                    reason: SkipReason::SkipCondition {
                        label: plan.step(at as int).def.skip_label,
                    },
                },
            ]
            &&& moved_on(plan, at as int, after)
        }),
{
    assert(at < plan.pipeline.steps.len());
}

/// A step that is not skipped and has a handler is reported as started, and its first handler
/// is invoked. One without any handler is reported as skipped and left behind where it is
/// optional, and asked to be reported as missing its handlers where it is required.
pub proof fn law_a_step_that_is_not_skipped_starts<K: Callbacks, E>(
    plan: RunPlan<'_, K>,
    s: RunState<E>,
    reply: Reply<E>,
)
    requires
        plan.wf(),
        run::state_wf(plan, s),
        ({
            ||| s.stage is Boundary && plan.step(s.at as int).def.skip_if is None && reply
                == Reply::<E>::Token(false)
            ||| s.stage is SkipCheck && reply == Reply::<E>::Skip(false)
        }),
    ensures
        ({
            let step = plan.step(s.at as int);
            let (after, events) = run::next(plan, s, reply);
            if exists|phase: StepPhase| registered(step, phase) > 0 {
                &&& events == seq![
                    TraceEventKind::StepStarted { step: step.def.name, index: s.at },
                ]
                &&& run::asked(plan, after) matches Action::Invoke { step: at, phase, handler }
                &&& at == s.at && is_first(step, phase, handler as int)
            } else if step.def.optional {
                &&& events == seq![
                    TraceEventKind::StepSkipped {
                        step: step.def.name,
                        index: s.at,
                        reason: SkipReason::OptionalWithoutHandlers,
                    },
                ]
                &&& moved_on(plan, s.at as int, after)
            } else {
                &&& events == Seq::<TraceEventKind>::empty()
                &&& run::asked(plan, after) == Action::Convert(
                    OrkaError::HandlerMissing { step_name: step.def.name },
                )
            }
        }),
{
    reveal_phases();
    let step = plan.step(s.at as int);
    assert(s.at < plan.pipeline.steps.len());
    assert(registered(step, StepPhase::Before) == step.before@.len());
    assert(registered(step, StepPhase::On) == step.on@.len());
    assert(registered(step, StepPhase::After) == step.after@.len());
    let (after, events) = run::next(plan, s, reply);
    if exists|phase: StepPhase| registered(step, phase) > 0 {
        let phase = choose|phase: StepPhase| registered(step, phase) > 0;
        assert(run::calls(step) > 0);
        assert(run::asked(plan, after) is Invoke);
    }
}

/// A required step without handlers ends the step loop with the error that its name was turned
/// into, attributed to it; nothing is reported of it.
pub proof fn law_missing_handlers_fail_the_step<K: Callbacks, E>(
    plan: RunPlan<'_, K>,
    s: RunState<E>,
    failure: Failure<E>,
)
    requires
        plan.wf(),
        run::state_wf(plan, s),
        run::asked(plan, s) is Convert,
    ensures
        ({
            let step = plan.step(s.at as int);
            let (after, events) = run::next(plan, s, Reply::Converted(failure));
            &&& !step.def.optional
            &&& forall|phase: StepPhase| #[trigger] registered(step, phase) == 0
            &&& events == Seq::<TraceEventKind>::empty()
            &&& loop_ended(plan, after, Err(StepFailure { step: step.def.name, failure }))
        }),
{
}

/// A handler that fails is reported with its message and ends the step loop with its error,
/// attributed to its step: whether the step is optional makes no difference, and no other
/// handler of it is invoked.
pub proof fn law_a_failing_handler_ends_the_steps<K: Callbacks, E>(
    plan: RunPlan<'_, K>,
    s: RunState<E>,
    at: usize,
    phase: StepPhase,
    handler: usize,
    failure: Failure<E>,
)
    requires
        plan.wf(),
        run::state_wf(plan, s),
        run::asked(plan, s) == (Action::Invoke { step: at, phase, handler }),
    ensures
        ({
            let step = plan.step(at as int);
            let (after, events) = run::next(plan, s, Reply::Handler(Err(failure)));
            &&& events == seq![
                TraceEventKind::HandlerFinished {
                    step: step.def.name,
                    phase,
                    handler_index: handler,
                    outcome: HandlerOutcome::Error(failure.message),
                },
            ]
            &&& loop_ended(plan, after, Err(StepFailure { step: step.def.name, failure }))
        }),
{
    let events = run::next(plan, s, Reply::Handler(Err(failure))).1;
    assert(events[0] == (TraceEventKind::HandlerFinished {
        step: plan.step(at as int).def.name,
        phase,
        handler_index: handler,
        outcome: HandlerOutcome::Error(failure.message),
    }));
}

/// A handler that stops is reported so, and the token is read once more: the step loop ends as
/// cancelled where it is set, and as stopped where it is not. Nothing else is reported, and no
/// other handler invoked.
pub proof fn law_a_stopping_handler_ends_the_steps<K: Callbacks, E>(
    plan: RunPlan<'_, K>,
    s: RunState<E>,
    at: usize,
    phase: StepPhase,
    handler: usize,
    cancelled: bool,
)
    requires
        plan.wf(),
        run::state_wf(plan, s),
        run::asked(plan, s) == (Action::Invoke { step: at, phase, handler }),
    ensures
        ({
            let step = plan.step(at as int);
            let (stopping, events) = run::next(
                plan,
                s,
                Reply::Handler(Ok(PipelineControl::Stop)),
            );
            let (after, silence) = run::next(plan, stopping, Reply::Token(cancelled));
            &&& events == seq![
                TraceEventKind::HandlerFinished {
                    step: step.def.name,
                    phase,
                    handler_index: handler,
                    outcome: HandlerOutcome::Stop,
                },
            ]
            &&& run::asked(plan, stopping) == Action::ReadToken
            &&& silence == Seq::<TraceEventKind>::empty()
            &&& cancelled ==> loop_ended(plan, after, Ok(PipelineResult::Cancelled))
            &&& !cancelled ==> loop_ended(plan, after, Ok(PipelineResult::Stopped))
        }),
{
    let events = run::next(plan, s, Reply::Handler(Ok(PipelineControl::Stop))).1;
    assert(events[0] == (TraceEventKind::HandlerFinished {
        step: plan.step(at as int).def.name,
        phase,
        handler_index: handler,
        outcome: HandlerOutcome::Stop,
    }));
}

/// Finish handlers are invoked in order of registration, all of them, with the outcome of the
/// steps, whatever the others returned. Each is reported with its own result. The first failure
/// is kept, and how the steps ended is left as it is.
pub proof fn law_every_finish_handler_is_invoked<K: Callbacks, E>(
    plan: RunPlan<'_, K>,
    s: RunState<E>,
    handler: usize,
    outcome: RunOutcome,
    result: Result<(), Failure<E>>,
)
    requires
        plan.wf(),
        run::state_wf(plan, s),
        run::asked(plan, s) == (Action::Finish { handler, outcome }),
    ensures
        s.end is Some,
        reads_as(s.end->Some_0, outcome),
        handler < plan.pipeline.finish_handlers@.len(),
        ({
            let (after, events) = run::next(plan, s, Reply::Finished(result));
            &&& events == seq![
                TraceEventKind::FinalizerFinished {
                    handler_index: handler,
                    outcome: match result {
                        Ok(()) => HandlerOutcome::Continue,
                        Err(failure) => HandlerOutcome::Error(failure.message),
                    },
                },
            ]
            &&& after.end == s.end
            &&& after.finish_error == match (s.finish_error, result) {
                (None, Err(failure)) => Some(failure),
                _ => s.finish_error,
            }
            &&& if handler + 1 < plan.pipeline.finish_handlers@.len() {
                run::asked(plan, after) == (Action::Finish {
                    handler: (handler + 1) as usize,
                    outcome,
                })
            } else {
                run::asked(plan, after) == Action::Release
            }
        }),
{
    assert(handler < plan.pipeline.finish_handlers.len());
}

/// Whether a run whose steps ended so and whose first finish failure is this one ends as `r`: a
/// failed step keeps its error; else a finish failure is the error, attributed to `on_finish`;
/// and otherwise the steps' ending stands.
pub open spec fn ends_as<E>(
    end: RunEnd<E>,
    finish_error: Option<Failure<E>>,
    r: RunEnd<E>,
) -> bool {
    match r {
        Ok(result) => end == r && finish_error is None,
        Err(f) => {
            ||| end == r
            ||| end is Ok && finish_error == Some(f.failure) && f.step@ == "on_finish"@
        },
    }
}

/// A full run releases its resources last, once, after every finish handler. It reports how
/// many there were, unless there were none, and then the outcome of the whole run, and is done.
pub proof fn law_the_release_comes_last<K: Callbacks, E>(
    plan: RunPlan<'_, K>,
    s: RunState<E>,
    count: usize,
)
    requires
        plan.wf(),
        run::state_wf(plan, s),
        run::asked(plan, s) == Action::Release,
    ensures
        plan.full,
        s.end is Some,
        ({
            let (after, events) = run::next(plan, s, Reply::<E>::Released(count));
            &&& run::asked(plan, after) == Action::Done
            &&& after.end == s.end
            &&& after.finish_error == s.finish_error
            &&& events.len() == if count > 0 { 2int } else { 1int }
            &&& count > 0 ==> events[0] == (TraceEventKind::ResourcesReleased { count })
            &&& events.last() matches TraceEventKind::RunFinished { outcome }
            &&& exists|end: RunEnd<E>| #[trigger]
                reads_as(end, outcome) && ends_as(s.end->Some_0, s.finish_error, end)
        }),
{
    let events = run::next(plan, s, Reply::<E>::Released(count)).1;
    let end = run::conclude(s.end->Some_0, s.finish_error, plan.finish_step);
    assert(reads_as(end, run::outcome_of(end)));
    assert(ends_as(s.end->Some_0, s.finish_error, end));
    assert(events.last() == (TraceEventKind::RunFinished { outcome: run::outcome_of(end) }));
}

/// What a run that is done hands back is how its steps and finish handlers ended it, with the
/// outcome that reads the same.
pub proof fn law_a_run_hands_back_its_ending<'p, K: Callbacks, E>(
    done: Run<'p, K, E>,
    r: (RunEnd<E>, RunOutcome),
)
    requires
        done.wf(),
        run::asked(done.plan, done.state) == Action::Done,
        call_ensures(Run::<'p, K, E>::into_result, (done,), r),
    ensures
        done.state.end is Some,
        ends_as(done.state.end->Some_0, done.state.finish_error, r.0),
        reads_as(r.0, r.1),
        !done.plan.full ==> r.0 == done.state.end->Some_0,
{
}

/// An observer is told of an error exactly where a handler was invoked and failed: of that
/// handler's step and phase, and of that error.
pub proof fn law_an_observer_is_told_of_failing_handlers<'p, 'r, K: Callbacks, E>(
    run: Run<'p, K, E>,
    reply: Reply<E>,
    told: Option<HandlerError<'r, E>>,
)
    requires
        run.wf(),
        run::accepts(run.state.stage, reply),
        call_ensures(Run::<'p, K, E>::handler_error, (&run, &reply), told),
    ensures
        told is Some <==> run::asked(run.plan, run.state) is Invoke && (reply matches
            Reply::Handler(Err(_))),
        told matches Some(error) ==> {
            &&& run::asked(run.plan, run.state) matches Action::Invoke { step, phase, .. }
            &&& error.step@ == run.plan.pipeline.steps@[step as int].def.name@
            &&& error.phase == phase
            &&& reply == Reply::Handler(Err::<PipelineControl, Failure<E>>(*error.failure))
        },
{
}

/// A full run reports that it started and comes to its first step, over every step of the
/// pipeline; one without steps comes to its end at once, as completed.
pub proof fn law_a_full_run_begins_with_the_first_step<'p, K: Callbacks, E>(
    pipeline: &'p Pipeline<K>,
    r: (Run<'p, K, E>, Vec<TraceEventKind>),
)
    requires
        call_ensures(Pipeline::<K>::run::<E>, (pipeline,), r),
    ensures
        r.0.wf(),
        r.0.plan.pipeline == pipeline,
        r.0.plan.full,
        r.1@ == seq![TraceEventKind::RunStarted],
        r.0.plan.until == pipeline.steps@.len(),
        moved_on(r.0.plan, -1, r.0.state),
{
}

/// The partial runs begin and end where they are told to: `run_step` is over exactly the named
/// step, `run_from` over it and every later one, `run_until` over it and every earlier one. A
/// name that the pipeline does not have is refused by that name, and no other.
pub proof fn law_partial_runs_cover_the_named_steps<'p, K: Callbacks, E>(
    pipeline: &'p Pipeline<K>,
    step_name: &str,
    only: Result<Run<'p, K, E>, OrkaError>,
    from: Result<Run<'p, K, E>, OrkaError>,
    until: Result<Run<'p, K, E>, OrkaError>,
)
    requires
        pipeline.wf(),
        call_ensures(Pipeline::<K>::run_step::<E>, (pipeline, step_name), only),
        call_ensures(Pipeline::<K>::run_from::<E>, (pipeline, step_name), from),
        call_ensures(Pipeline::<K>::run_until::<E>, (pipeline, step_name), until),
    ensures
        forall|i: int|
            0 <= i < pipeline.steps@.len() && (#[trigger] pipeline.steps@[i]).def.name@
                == step_name@ ==> {
                &&& only matches Ok(run)
                &&& covers(run, pipeline, i, i + 1)
            },
        forall|i: int|
            0 <= i < pipeline.steps@.len() && (#[trigger] pipeline.steps@[i]).def.name@
                == step_name@ ==> {
                &&& from matches Ok(run)
                &&& covers(run, pipeline, i, pipeline.steps@.len() as int)
            },
        forall|i: int|
            0 <= i < pipeline.steps@.len() && (#[trigger] pipeline.steps@[i]).def.name@
                == step_name@ ==> {
                &&& until matches Ok(run)
                &&& covers(run, pipeline, 0, i + 1)
            },
        (forall|i: int|
            0 <= i < pipeline.steps@.len() ==> (#[trigger] pipeline.steps@[i]).def.name@
                != step_name@) ==> {
            &&& refuses(only, step_name@)
            &&& refuses(from, step_name@)
            &&& refuses(until, step_name@)
        },
{
    assert forall|i: int|
        0 <= i < pipeline.steps@.len() && (#[trigger] pipeline.steps@[i]).def.name@
            == step_name@ implies pipeline@.has_step(step_name@) && pipeline@.index_of(step_name@)
        == i by {
        assert(pipeline@.is_at(i, step_name@));
        pipeline@.lemma_index_unique(i, step_name@);
    }
    if forall|i: int|
        0 <= i < pipeline.steps@.len() ==> (#[trigger] pipeline.steps@[i]).def.name@
            != step_name@ {
        assert forall|i: int| !pipeline@.is_at(i, step_name@) by {
            if 0 <= i < pipeline.steps@.len() {
                assert(pipeline@.steps[i] == pipeline.steps@[i]@);
            }
        }
    }
}

/// Whether a partial run of the pipeline stands before the step at `from` and ends before the
/// one at `until`.
pub open spec fn covers<'p, K: Callbacks, E>(
    run: Run<'p, K, E>,
    pipeline: &'p Pipeline<K>,
    from: int,
    until: int,
) -> bool {
    &&& run.wf()
    &&& run.plan.pipeline == pipeline
    &&& !run.plan.full
    &&& run.plan.until == until
    &&& run.state.at == from
    &&& run.state.stage is Boundary
}

/// Whether a run was refused because the pipeline has no step of that name.
pub open spec fn refuses<'p, K: Callbacks, E>(
    r: Result<Run<'p, K, E>, OrkaError>,
    step_name: Seq<char>,
) -> bool {
    r matches Err(OrkaError::StepNotFound { step_name: unknown }) && unknown@ == step_name
}

/// Whether what a step reports comes in order from one event to the next: the first handler
/// after the start, each next one after one that continued, and the completion after the last.
pub open spec fn in_order<K: Callbacks>(
    step: StepEntry<K>,
    first: TraceEventKind,
    second: TraceEventKind,
) -> bool {
    match (first, second) {
        (TraceEventKind::StepStarted { .. }, TraceEventKind::HandlerFinished {
            phase,
            handler_index,
            ..
        }) => is_first(step, phase, handler_index as int),
        (
            TraceEventKind::HandlerFinished { phase, handler_index, outcome, .. },
            TraceEventKind::HandlerFinished {
                phase: next_phase,
                handler_index: next_index,
                ..
            },
        ) => outcome is Continue && is_next(
            step,
            phase,
            handler_index as int,
            next_phase,
            next_index as int,
        ),
        (
            TraceEventKind::HandlerFinished { phase, handler_index, outcome, .. },
            TraceEventKind::StepCompleted { .. },
        ) => outcome is Continue && is_last(step, phase, handler_index as int),
        _ => false,
    }
}

/// What a step reports comes in order: any two events of it that follow each other are its
/// start and its first handler, a handler that continued and the next one, or the last handler,
/// which continued, and the completion.
pub proof fn law_a_step_reports_its_handlers_in_order<K: Callbacks, E>(
    plan: RunPlan<'_, K>,
    answers: Answers<E>,
    i: int,
    j: int,
)
    requires
        0 <= j,
        j + 1 < run::run_step(plan, answers, i).0.len(),
    ensures
        in_order(
            plan.step(i),
            run::run_step(plan, answers, i).0[j],
            run::run_step(plan, answers, i).0[j + 1],
        ),
{
    reveal_phases();
    let step = plan.step(i);
    assert(step.before@.len() == step.before.len());
    assert(step.on@.len() == step.on.len());
    assert(step.after@.len() == step.after.len());
    let calls = run::calls_from(plan, answers, i, 0).0;
    assert(run::calls(step) > 0);
    assert(run::run_step(plan, answers, i).0[j + 1] == calls[j]);
    if j > 0 {
        lemma_calls_in_order(plan, answers, i, 0, j - 1);
        assert(run::run_step(plan, answers, i).0[j] == calls[j - 1]);
    }
}

proof fn lemma_calls_in_order<K: Callbacks, E>(
    plan: RunPlan<'_, K>,
    answers: Answers<E>,
    i: int,
    call: int,
    j: int,
)
    requires
        0 <= call,
        0 <= j,
        j + 1 < run::calls_from(plan, answers, i, call).0.len(),
    ensures
        in_order(
            plan.step(i),
            run::calls_from(plan, answers, i, call).0[j],
            run::calls_from(plan, answers, i, call).0[j + 1],
        ),
    decreases j,
{
    reveal_phases();
    let step = plan.step(i);
    assert(step.before@.len() == step.before.len());
    assert(step.on@.len() == step.on.len());
    assert(step.after@.len() == step.after.len());
    let whole = run::calls_from(plan, answers, i, call).0;
    let rest = run::calls_from(plan, answers, i, call + 1).0;
    assert(call < run::calls(step));
    assert(whole[j + 1] == rest[j]);
    if j > 0 {
        lemma_calls_in_order(plan, answers, i, call + 1, j - 1);
        assert(whole[j] == rest[j - 1]);
    } else if call + 1 < run::calls(step) {
        assert(rest[0] == plan.handler_finished(
            i,
            call + 1,
            run::handler_outcome((answers.call)(i, call + 1)),
        ));
    }
}

/// A step is found where it stands, and is otherwise reported unknown by its name. The way a run
/// ended is reported as that: a failure with its step and its message.
pub proof fn law_steps_and_endings_are_reported_by_name<K: Callbacks, E>(
    p: Pipeline<K>,
    step_name: &str,
    r: Result<usize, OrkaError>,
    end: RunEnd<E>,
    outcome: RunOutcome,
)
    requires
        p.wf(),
        call_ensures(Pipeline::<K>::step_index, (&p, step_name), r),
        call_ensures(run::outcome_of_end::<E>, (&end,), outcome),
    ensures
        r matches Ok(i) ==> i < p.steps@.len() && p.steps@[i as int].def.name@ == step_name@,
        r matches Err(e) ==> {
            &&& forall|i: int|
                0 <= i < p.steps@.len() ==> (#[trigger] p.steps@[i]).def.name@ != step_name@
            &&& e matches OrkaError::StepNotFound { step_name: unknown }
            &&& unknown@ == step_name@
        },
        outcome is Completed <==> (end matches Ok(result) && result is Completed),
        outcome is Stopped <==> (end matches Ok(result) && result is Stopped),
        outcome is Cancelled <==> (end matches Ok(result) && result is Cancelled),
        outcome matches RunOutcome::Errored { step, message } ==> (end matches Err(failed)
            && failed.step == step && failed.failure.message == message),
{
    if let Ok(i) = r {
        assert(p@.steps[i as int] == p.steps@[i as int]@);
    } else {
        assert forall|i: int| 0 <= i < p.steps@.len() implies (#[trigger] p.steps@[i]).def.name@
            != step_name@ by {
            assert(p@.steps[i] == p.steps@[i]@);
            assert(!p@.is_at(i, step_name@));
        }
    }
}

} // verus!
