//! What holds of every run, proved of [`run_trace`] and [`run_result`], and the proof that a
//! [`Run`](crate::pipeline::run::Run) reports and ends exactly as they say.

use vstd::prelude::*;

use crate::control::{PipelineControl, PipelineResult};
use crate::pipeline::definition::Callbacks;
use crate::pipeline::run;
use crate::pipeline::run::{
    Answers, Failure, HandlerError, Reply, RunEnd, RunPlan, RunState, Stage, StepFailure,
};
use crate::trace::{HandlerOutcome, SkipReason, TraceEventKind};

verus! {

/// The reply that `answers` gives to what a run in this state asks.
pub open spec fn reply_to<K: Callbacks, E>(
    plan: RunPlan<'_, K>,
    s: RunState<E>,
    answers: Answers<E>,
) -> Reply<E> {
    let at = s.at as int;
    match s.stage {
        Stage::Boundary => Reply::Token((answers.token)(at)),
        Stage::SkipCheck => Reply::Skip((answers.skip)(at)),
        Stage::Call { phase, handler } => Reply::Handler(
            (answers.call)(at, run::call_number(plan.step(at), phase, handler as int)),
        ),
        Stage::StopCheck { phase, handler } => Reply::Token(
            (answers.token_on_stop)(at, run::call_number(plan.step(at), phase, handler as int)),
        ),
        Stage::Missing => Reply::Converted((answers.missing)(at)),
        Stage::Finishing { next } => Reply::Finished((answers.finish)(next as int)),
        Stage::Releasing => Reply::Released(answers.released),
        Stage::Done => Reply::Token(false),
    }
}

/// How the step loop ends from a point in step `i` whose own ending is given, and what it
/// reports.
pub open spec fn go_on<K: Callbacks, E>(
    plan: RunPlan<'_, K>,
    answers: Answers<E>,
    i: int,
    part: (Seq<TraceEventKind>, Option<RunEnd<E>>),
) -> (Seq<TraceEventKind>, RunEnd<E>) {
    match part.1 {
        Some(end) => (part.0, end),
        None => {
            let rest = run::steps_from(plan, answers, i + 1);
            (part.0 + rest.0, rest.1)
        },
    }
}

/// What the step loop still reports from this state on, and how it ends.
pub open spec fn remaining_steps<K: Callbacks, E>(
    plan: RunPlan<'_, K>,
    s: RunState<E>,
    answers: Answers<E>,
) -> (Seq<TraceEventKind>, RunEnd<E>) {
    let at = s.at as int;
    match s.stage {
        Stage::Boundary => run::steps_from(plan, answers, at),
        Stage::SkipCheck => go_on(plan, answers, at, run::check_skip(plan, answers, at)),
        Stage::Call { phase, handler } => go_on(
            plan,
            answers,
            at,
            run::calls_from(
                plan,
                answers,
                at,
                run::call_number(plan.step(at), phase, handler as int),
            ),
        ),
        Stage::StopCheck { phase, handler } => {
            let call = run::call_number(plan.step(at), phase, handler as int);
            let result = if (answers.token_on_stop)(at, call) {
                PipelineResult::Cancelled
            } else {
                PipelineResult::Stopped
            };
            (Seq::empty(), Ok(result))
        },
        Stage::Missing => (
            Seq::empty(),
            Err(StepFailure { step: plan.name(at), failure: (answers.missing)(at) }),
        ),
        _ => (Seq::empty(), s.end->Some_0),
    }
}

/// The first finish failure, given one seen already and the finish handlers still to run.
pub open spec fn remaining_finish_error<K: Callbacks, E>(
    plan: RunPlan<'_, K>,
    s: RunState<E>,
    answers: Answers<E>,
) -> Option<Failure<E>> {
    match (s.finish_error, s.stage) {
        (Some(first), _) => Some(first),
        (None, Stage::Finishing { next }) => run::first_finish_error(plan, answers, next as int),
        (None, Stage::Releasing) => None,
        (None, Stage::Done) => None,
        (None, _) => run::first_finish_error(plan, answers, 0),
    }
}

/// What the finish handlers still report from this state on.
pub open spec fn remaining_finish_events<K: Callbacks, E>(
    plan: RunPlan<'_, K>,
    s: RunState<E>,
    answers: Answers<E>,
) -> Seq<TraceEventKind> {
    match s.stage {
        Stage::Finishing { next } => run::finish_events(plan, answers, next as int),
        Stage::Releasing => Seq::empty(),
        Stage::Done => Seq::empty(),
        _ => run::finish_events(plan, answers, 0),
    }
}

/// How a run in this state ends.
pub open spec fn remaining_result<K: Callbacks, E>(
    plan: RunPlan<'_, K>,
    s: RunState<E>,
    answers: Answers<E>,
) -> RunEnd<E> {
    let end = remaining_steps(plan, s, answers).1;
    if plan.full {
        run::conclude(end, remaining_finish_error(plan, s, answers), plan.finish_step)
    } else {
        end
    }
}

/// Everything a run in this state still reports.
pub open spec fn remaining_trace<K: Callbacks, E>(
    plan: RunPlan<'_, K>,
    s: RunState<E>,
    answers: Answers<E>,
) -> Seq<TraceEventKind> {
    let steps = remaining_steps(plan, s, answers).0;
    if plan.full && !(s.stage is Done) {
        steps + remaining_finish_events(plan, s, answers) + run::closing_events(
            answers.released,
            remaining_result(plan, s, answers),
        )
    } else {
        steps
    }
}

/// How far a run is from its end: the part of the run, then the steps or finish handlers
/// left in it, then what is left of the step.
pub open spec fn distance<K: Callbacks, E>(plan: RunPlan<'_, K>, s: RunState<E>) -> (
    nat,
    nat,
    nat,
) {
    let step = plan.step(s.at as int);
    let steps_left = (plan.until - s.at) as nat;
    match s.stage {
        Stage::Boundary => (3, steps_left, run::calls(step) + 3),
        Stage::SkipCheck => (3, steps_left, run::calls(step) + 2),
        Stage::Call { phase, handler } => (
            3,
            steps_left,
            (run::calls(step) + 1 - run::call_number(step, phase, handler as int)) as nat,
        ),
        Stage::StopCheck { .. } => (3, steps_left, 0),
        Stage::Missing => (3, steps_left, 0),
        Stage::Finishing { next } => (
            2,
            (plan.pipeline.finish_handlers@.len() - next) as nat,
            0,
        ),
        Stage::Releasing => (1, 0, 0),
        Stage::Done => (0, 0, 0),
    }
}

/// Whether one distance is smaller than another.
pub open spec fn nearer(a: (nat, nat, nat), b: (nat, nat, nat)) -> bool {
    ||| a.0 < b.0
    ||| a.0 == b.0 && a.1 < b.1
    ||| a.0 == b.0 && a.1 == b.1 && a.2 < b.2
}

/// The calls of a step are numbered in the order of its phases.
proof fn lemma_call_numbers<K: Callbacks>(
    plan: RunPlan<'_, K>,
    i: int,
    phase: crate::trace::StepPhase,
    handler: int,
)
    requires
        0 <= handler < run::phase_len(plan.step(i), phase),
    ensures
        0 <= run::call_number(plan.step(i), phase, handler) < run::calls(plan.step(i)),
        run::call_phase(plan.step(i), run::call_number(plan.step(i), phase, handler)) == phase,
        run::call_index(plan.step(i), run::call_number(plan.step(i), phase, handler)) == handler,
{
}

/// Numbering a step's handlers and finding the handler of a number are inverse.
proof fn lemma_call_stage<K: Callbacks>(plan: RunPlan<'_, K>, i: int, call: int)
    requires
        0 <= call < run::calls(plan.step(i)),
    ensures
        run::call_stage(plan.step(i), call) matches Stage::Call { phase, handler } && {
            &&& handler < run::phase_len(plan.step(i), phase)
            &&& run::call_number(plan.step(i), phase, handler as int) == call
        },
{
    let step = plan.step(i);
    assert(run::call_index(step, call) <= usize::MAX) by {
        assert(step.before@.len() == step.before.len());
        assert(step.on@.len() == step.on.len());
        assert(step.after@.len() == step.after.len());
    }
}

/// A step loop that just ended leaves the finish handlers and the release to a full run.
proof fn lemma_settled<K: Callbacks, E>(
    plan: RunPlan<'_, K>,
    at: usize,
    end: RunEnd<E>,
    answers: Answers<E>,
)
    requires
        plan.wf(),
    ensures
        ({
            let s = run::settled(plan, at, end);
            &&& run::state_wf(plan, s)
            &&& remaining_steps(plan, s, answers) == (Seq::<TraceEventKind>::empty(), end)
            &&& plan.full ==> remaining_finish_error(plan, s, answers)
                == run::first_finish_error(plan, answers, 0)
            &&& plan.full ==> remaining_finish_events(plan, s, answers) == run::finish_events(
                plan,
                answers,
                0,
            )
            &&& plan.full ==> !(s.stage is Done)
            &&& distance(plan, s).0 <= 2
        }),
{
}

/// The state before a step leaves the rest of the loop.
proof fn lemma_before_step<K: Callbacks, E>(
    plan: RunPlan<'_, K>,
    at: int,
    answers: Answers<E>,
)
    requires
        plan.wf(),
        0 <= at <= plan.until,
    ensures
        ({
            let s = run::before_step::<K, E>(plan, at);
            &&& run::state_wf(plan, s)
            &&& remaining_steps(plan, s, answers) == run::steps_from(plan, answers, at)
            &&& plan.full ==> remaining_finish_error(plan, s, answers)
                == run::first_finish_error(plan, answers, 0)
            &&& plan.full ==> remaining_finish_events(plan, s, answers) == run::finish_events(
                plan,
                answers,
                0,
            )
            &&& plan.full ==> !(s.stage is Done)
            &&& distance(plan, s).0 <= 3
            &&& distance(plan, s).0 == 3 ==> distance(plan, s).1 == plan.until - at
        }),
{
    if at >= plan.until {
        lemma_settled(plan, at as usize, Ok(PipelineResult::Completed), answers);
    }
}

/// What one reply contributes to the step loop.
proof fn lemma_step_reply<K: Callbacks, E>(
    plan: RunPlan<'_, K>,
    s: RunState<E>,
    answers: Answers<E>,
)
    requires
        plan.wf(),
        run::state_wf(plan, s),
        s.end is None,
    ensures
        ({
            let (after, events) = run::next(plan, s, reply_to(plan, s, answers));
            let rest = remaining_steps(plan, after, answers);
            &&& run::state_wf(plan, after)
            &&& remaining_steps(plan, s, answers) == (events + rest.0, rest.1)
            &&& plan.full ==> remaining_finish_error(plan, after, answers)
                == run::first_finish_error(plan, answers, 0)
            &&& plan.full ==> remaining_finish_events(plan, after, answers) == run::finish_events(
                plan,
                answers,
                0,
            )
            &&& plan.full ==> !(after.stage is Done)
            &&& nearer(distance(plan, after), distance(plan, s))
        }),
{
    let at = s.at as int;
    let step = plan.step(at);
    let (after, events) = run::next(plan, s, reply_to(plan, s, answers));
    let rest = remaining_steps(plan, after, answers);
    let whole = remaining_steps(plan, s, answers);
    lemma_before_step(plan, at + 1, answers);
    match s.stage {
        Stage::Boundary => {
            if (answers.token)(at) {
                lemma_settled(plan, s.at, Ok(PipelineResult::Cancelled), answers);
                assert(whole.0 =~= events + rest.0);
            } else if step.def.skip_if is Some {
                assert(whole.0 =~= events + rest.0);
            } else {
                lemma_entered(plan, s.at, answers);
                assert(whole == go_on(plan, answers, at, run::enter_step(plan, answers, at)));
            }
        },
        Stage::SkipCheck => {
            if (answers.skip)(at) {
                assert(whole.0 =~= events + rest.0);
            } else {
                lemma_entered(plan, s.at, answers);
            }
        },
        Stage::Call { phase, handler } => {
            lemma_call_numbers(plan, at, phase, handler as int);
            let call = run::call_number(step, phase, handler as int);
            let result = (answers.call)(at, call);
            match result {
                Ok(PipelineControl::Continue) => {
                    let later = run::calls_from(plan, answers, at, call + 1);
                    if call + 1 < run::calls(step) {
                        lemma_call_stage(plan, at, call + 1);
                    } else {
                        assert(later.0 =~= seq![
                            TraceEventKind::StepCompleted {
                                step: plan.name(at),
                                index: at as usize,
                            },
                        ]);
                    }
                    assert(whole.0 =~= events + rest.0);
                },
                Ok(PipelineControl::Stop) => {
                    assert(whole.0 =~= events + rest.0);
                },
                Err(failure) => {
                    lemma_settled(
                        plan,
                        s.at,
                        Err(StepFailure { step: plan.name(at), failure }),
                        answers,
                    );
                    assert(whole.0 =~= events + rest.0);
                },
            }
        },
        Stage::StopCheck { phase, handler } => {
            let call = run::call_number(step, phase, handler as int);
            let result = if (answers.token_on_stop)(at, call) {
                PipelineResult::Cancelled
            } else {
                PipelineResult::Stopped
            };
            lemma_settled(plan, s.at, Ok(result), answers);
            assert(whole.0 =~= events + rest.0);
        },
        Stage::Missing => {
            lemma_settled(
                plan,
                s.at,
                Err(StepFailure { step: plan.name(at), failure: (answers.missing)(at) }),
                answers,
            );
            assert(whole.0 =~= events + rest.0);
        },
        _ => {},
    }
}

/// What entering a step contributes to the step loop.
proof fn lemma_entered<K: Callbacks, E>(plan: RunPlan<'_, K>, at: usize, answers: Answers<E>)
    requires
        plan.wf(),
        at < plan.until,
    ensures
        ({
            let (after, events) = run::entered::<K, E>(plan, at);
            let rest = remaining_steps(plan, after, answers);
            &&& run::state_wf(plan, after)
            &&& go_on(plan, answers, at as int, run::enter_step(plan, answers, at as int)) == (
                events + rest.0,
                rest.1,
            )
            &&& plan.full ==> remaining_finish_error(plan, after, answers)
                == run::first_finish_error(plan, answers, 0)
            &&& plan.full ==> remaining_finish_events(plan, after, answers) == run::finish_events(
                plan,
                answers,
                0,
            )
            &&& plan.full ==> !(after.stage is Done)
            &&& nearer(
                distance(plan, after),
                (3, (plan.until - at) as nat, run::calls(plan.step(at as int)) + 2),
            )
        }),
{
    let i = at as int;
    let step = plan.step(i);
    let (after, events) = run::entered::<K, E>(plan, at);
    let rest = remaining_steps(plan, after, answers);
    let whole = go_on(plan, answers, i, run::enter_step(plan, answers, i));
    lemma_before_step(plan, i + 1, answers);
    if run::calls(step) > 0 {
        lemma_call_stage(plan, i, 0);
        assert(whole.0 =~= events + rest.0);
    } else {
        assert(whole.0 =~= events + rest.0);
    }
}

/// Each reply adds to the trace exactly the events it yields, keeps the run on its way to
/// the same ending, and brings it nearer to it.
pub proof fn law_each_reply_follows_the_trace<K: Callbacks, E>(
    plan: RunPlan<'_, K>,
    s: RunState<E>,
    answers: Answers<E>,
)
    requires
        plan.wf(),
        run::state_wf(plan, s),
        !(s.stage is Done),
    ensures
        run::accepts(s.stage, reply_to(plan, s, answers)),
        ({
            let (after, events) = run::next(plan, s, reply_to(plan, s, answers));
            &&& run::state_wf(plan, after)
            &&& remaining_trace(plan, s, answers) == events + remaining_trace(plan, after, answers)
            &&& remaining_result(plan, s, answers) == remaining_result(plan, after, answers)
            &&& nearer(distance(plan, after), distance(plan, s))
        }),
{
    let (after, events) = run::next(plan, s, reply_to(plan, s, answers));
    if s.end is None {
        lemma_step_reply(plan, s, answers);
        assert(remaining_trace(plan, s, answers) =~= events + remaining_trace(
            plan,
            after,
            answers,
        ));
    } else {
        match s.stage {
            Stage::Finishing { next } => {
                let result = (answers.finish)(next as int);
                let following = run::finish_events(plan, answers, next + 1);
                assert(next < plan.pipeline.finish_handlers.len());
                assert(remaining_finish_events(plan, after, answers) =~= following);
                assert(remaining_finish_error(plan, after, answers) == match (
                    s.finish_error,
                    result,
                ) {
                    (Some(first), _) => Some(first),
                    (None, Err(failure)) => Some(failure),
                    (None, Ok(())) => run::first_finish_error(plan, answers, next + 1),
                });
                assert(remaining_trace(plan, s, answers) =~= events + remaining_trace(
                    plan,
                    after,
                    answers,
                ));
            },
            _ => {
                assert(remaining_trace(plan, s, answers) =~= events + remaining_trace(
                    plan,
                    after,
                    answers,
                ));
            },
        }
    }
}

/// The events and the final state of a run that is driven from this state with the given
/// answers until it is done.
pub open spec fn driven<K: Callbacks, E>(
    plan: RunPlan<'_, K>,
    s: RunState<E>,
    answers: Answers<E>,
) -> (Seq<TraceEventKind>, RunState<E>)
    decreases distance(plan, s).0, distance(plan, s).1, distance(plan, s).2,
    when plan.wf() && run::state_wf(plan, s)
    via driven_decreases::<K, E>
{
    if s.stage is Done {
        (Seq::empty(), s)
    } else {
        let (after, events) = run::next(plan, s, reply_to(plan, s, answers));
        let rest = driven(plan, after, answers);
        (events + rest.0, rest.1)
    }
}

#[via_fn]
proof fn driven_decreases<K: Callbacks, E>(
    plan: RunPlan<'_, K>,
    s: RunState<E>,
    answers: Answers<E>,
) {
    if !(s.stage is Done) {
        law_each_reply_follows_the_trace(plan, s, answers);
    }
}

/// A run driven to its end reports the remaining trace and ends as the remaining result
/// says.
pub proof fn law_driving_completes_the_trace<K: Callbacks, E>(
    plan: RunPlan<'_, K>,
    s: RunState<E>,
    answers: Answers<E>,
)
    requires
        plan.wf(),
        run::state_wf(plan, s),
    ensures
        ({
            let (events, end) = driven(plan, s, answers);
            &&& end.stage is Done
            &&& run::state_wf(plan, end)
            &&& events == remaining_trace(plan, s, answers)
            &&& run::conclude(end.end->Some_0, end.finish_error, plan.finish_step)
                == remaining_result(plan, s, answers)
        }),
    decreases distance(plan, s).0, distance(plan, s).1, distance(plan, s).2,
{
    if s.stage is Done {
        assert(remaining_trace(plan, s, answers) =~= Seq::empty());
    } else {
        law_each_reply_follows_the_trace(plan, s, answers);
        let (after, events) = run::next(plan, s, reply_to(plan, s, answers));
        law_driving_completes_the_trace(plan, after, answers);
    }
}

/// A run reports exactly its trace and ends exactly with its result: driven from its first
/// step with any answers, a full run's events after `RunStarted`, and a partial run's events,
/// are those of [`run_trace`](crate::pipeline::run::run_trace), and what it concludes is
/// [`run_result`](crate::pipeline::run::run_result).
pub proof fn law_a_run_reports_its_trace<K: Callbacks, E>(
    plan: RunPlan<'_, K>,
    from: int,
    answers: Answers<E>,
)
    requires
        plan.wf(),
        0 <= from <= plan.until,
    ensures
        ({
            let start = run::before_step::<K, E>(plan, from);
            let (events, end) = driven(plan, start, answers);
            let opening = if plan.full {
                seq![TraceEventKind::RunStarted]
            } else {
                Seq::empty()
            };
            &&& end.stage is Done
            &&& run::run_trace(plan, answers, from) == opening + events
            &&& run::run_result(plan, answers, from) == run::conclude(
                end.end->Some_0,
                end.finish_error,
                plan.finish_step,
            )
        }),
{
    let start = run::before_step::<K, E>(plan, from);
    lemma_before_step(plan, from, answers);
    law_driving_completes_the_trace(plan, start, answers);
    let (events, end) = driven(plan, start, answers);
    if plan.full {
        assert(run::run_trace(plan, answers, from) =~= seq![TraceEventKind::RunStarted] + events);
    } else {
        assert(run::run_trace(plan, answers, from) =~= Seq::<TraceEventKind>::empty() + events);
    }
}

/// Whether an event is about a step rather than about the run as a whole.
pub open spec fn is_step_event(kind: TraceEventKind) -> bool {
    ||| kind is StepStarted
    ||| kind is StepSkipped
    ||| kind is HandlerFinished
    ||| kind is StepCompleted
    ||| kind is RunCancelled
}

/// Whether every event of a trace is about a step.
pub open spec fn only_step_events(trace: Seq<TraceEventKind>) -> bool {
    forall|i: int| 0 <= i < trace.len() ==> is_step_event(#[trigger] trace[i])
}

proof fn lemma_only_step_events_in_calls<K: Callbacks, E>(
    plan: RunPlan<'_, K>,
    answers: Answers<E>,
    i: int,
    call: int,
)
    ensures
        only_step_events(run::calls_from(plan, answers, i, call).0),
    decreases run::calls(plan.step(i)) - call,
{
    if call < run::calls(plan.step(i)) {
        lemma_only_step_events_in_calls(plan, answers, i, call + 1);
    }
}

proof fn lemma_only_step_events<K: Callbacks, E>(
    plan: RunPlan<'_, K>,
    answers: Answers<E>,
    i: int,
)
    ensures
        only_step_events(run::steps_from(plan, answers, i).0),
    decreases plan.until - i,
{
    if i < plan.until {
        lemma_only_step_events_in_calls(plan, answers, i, 0);
        lemma_only_step_events(plan, answers, i + 1);
        assert(only_step_events(run::run_step(plan, answers, i).0));
    }
}

/// A partial run reports step events only: no `RunStarted`, no finish handler, no release,
/// no `RunFinished`.
pub proof fn law_partial_runs_report_steps_only<K: Callbacks, E>(
    plan: RunPlan<'_, K>,
    answers: Answers<E>,
    from: int,
)
    requires
        !plan.full,
    ensures
        only_step_events(run::run_trace(plan, answers, from)),
{
    lemma_only_step_events(plan, answers, from);
}

proof fn lemma_finish_events<K: Callbacks, E>(
    plan: RunPlan<'_, K>,
    answers: Answers<E>,
    j: int,
)
    requires
        0 <= j <= plan.pipeline.finish_handlers@.len(),
    ensures
        run::finish_events(plan, answers, j).len() == plan.pipeline.finish_handlers@.len() - j,
        forall|k: int|
            0 <= k < run::finish_events(plan, answers, j).len() ==> (
            #[trigger] run::finish_events(plan, answers, j)[k]) == (
            TraceEventKind::FinalizerFinished {
                handler_index: (j + k) as usize,
                outcome: run::finish_outcome((answers.finish)(j + k)),
            }),
    decreases plan.pipeline.finish_handlers@.len() - j,
{
    if j < plan.pipeline.finish_handlers@.len() {
        lemma_finish_events(plan, answers, j + 1);
    }
}

/// A full run reports `RunStarted`, its steps, one `FinalizerFinished` for every finish
/// handler in registration order, the release where something was held, and `RunFinished`
/// with the run's final outcome. That holds whichever way the steps end, and however many
/// finish handlers fail.
pub proof fn law_full_runs_report_every_part_in_order<K: Callbacks, E>(
    plan: RunPlan<'_, K>,
    answers: Answers<E>,
    from: int,
)
    requires
        plan.full,
    ensures
        ({
            let trace = run::run_trace(plan, answers, from);
            let steps = run::steps_from(plan, answers, from).0;
            let finish = plan.pipeline.finish_handlers@.len();
            let release: int = if answers.released > 0 {
                1
            } else {
                0
            };
            &&& trace.len() == 1 + steps.len() + finish + release + 1
            &&& trace[0] == TraceEventKind::RunStarted
            &&& trace.subrange(1, 1 + steps.len() as int) == steps
            &&& only_step_events(steps)
            &&& forall|k: int|
                0 <= k < finish ==> #[trigger] trace[1 + steps.len() + k] == (
                TraceEventKind::FinalizerFinished {
                    handler_index: k as usize,
                    outcome: run::finish_outcome((answers.finish)(k)),
                })
            &&& answers.released > 0 ==> trace[(1 + steps.len() + finish) as int] == (
            TraceEventKind::ResourcesReleased { count: answers.released })
            &&& trace.last() == (TraceEventKind::RunFinished {
                outcome: run::outcome_of(run::run_result(plan, answers, from)),
            })
        }),
{
    let trace = run::run_trace(plan, answers, from);
    let steps = run::steps_from(plan, answers, from).0;
    let finish = run::finish_events(plan, answers, 0);
    lemma_only_step_events(plan, answers, from);
    lemma_finish_events(plan, answers, 0);
    assert(trace.subrange(1, 1 + steps.len() as int) =~= steps);
    assert forall|k: int| 0 <= k < finish.len() implies #[trigger] trace[1 + steps.len() + k] == (
    TraceEventKind::FinalizerFinished {
        handler_index: k as usize,
        outcome: run::finish_outcome((answers.finish)(k)),
    }) by {
        assert(trace[1 + steps.len() + k] == finish[k]);
    }
}

/// The failure of a step is never masked: whatever the finish handlers return, the run ends
/// with the error of the step.
pub proof fn law_finish_failures_never_mask_a_step_failure<K: Callbacks, E>(
    plan: RunPlan<'_, K>,
    answers: Answers<E>,
    from: int,
)
    requires
        run::steps_from(plan, answers, from).1 is Err,
    ensures
        run::run_result(plan, answers, from) == run::steps_from(plan, answers, from).1,
{
}

proof fn lemma_first_finish_error<K: Callbacks, E>(
    plan: RunPlan<'_, K>,
    answers: Answers<E>,
    j: int,
)
    requires
        0 <= j <= plan.pipeline.finish_handlers@.len(),
    ensures
        match run::first_finish_error(plan, answers, j) {
            Some(f) => exists|k: int|
                j <= k < plan.pipeline.finish_handlers@.len() && (#[trigger] (answers.finish)(k))
                    == Err::<(), Failure<E>>(f) && forall|l: int|
                    j <= l < k ==> (#[trigger] (answers.finish)(l)) is Ok,
            None => forall|k: int|
                j <= k < plan.pipeline.finish_handlers@.len() ==> (#[trigger] (answers.finish)(
                    k,
                )) is Ok,
        },
    decreases plan.pipeline.finish_handlers@.len() - j,
{
    if j < plan.pipeline.finish_handlers@.len() {
        lemma_first_finish_error(plan, answers, j + 1);
        if (answers.finish)(j) is Ok {
            if let Some(f) = run::first_finish_error(plan, answers, j + 1) {
                let k = choose|k: int|
                    j + 1 <= k < plan.pipeline.finish_handlers@.len() && (
                    #[trigger] (answers.finish)(k)) == Err::<(), Failure<E>>(f) && forall|l: int|
                        j + 1 <= l < k ==> (#[trigger] (answers.finish)(l)) is Ok;
                assert((answers.finish)(k) == Err::<(), Failure<E>>(f));
            }
        }
    }
}

/// On a run whose steps did not fail, the first finish-handler failure becomes the run's
/// error, attributed to `on_finish`; where no finish handler fails, the run ends as its
/// steps did.
pub proof fn law_first_finish_failure_surfaces<K: Callbacks, E>(
    plan: RunPlan<'_, K>,
    answers: Answers<E>,
    from: int,
)
    requires
        plan.wf(),
        plan.full,
        run::steps_from(plan, answers, from).1 is Ok,
    ensures
        ({
            let finish = plan.pipeline.finish_handlers@.len();
            match run::run_result(plan, answers, from) {
                Ok(r) => {
                    &&& run::steps_from(plan, answers, from).1 == Ok::<
                        PipelineResult,
                        StepFailure<E>,
                    >(r)
                    &&& forall|k: int|
                        0 <= k < finish ==> (#[trigger] (answers.finish)(k)) is Ok
                },
                Err(f) => {
                    &&& f.step@ == "on_finish"@
                    &&& exists|k: int|
                        0 <= k < finish && (#[trigger] (answers.finish)(k)) == Err::<
                            (),
                            Failure<E>,
                        >(f.failure) && forall|l: int|
                            0 <= l < k ==> (#[trigger] (answers.finish)(l)) is Ok
                },
            }
        }),
{
    lemma_first_finish_error(plan, answers, 0);
}

/// Whether two sets of answers agree on everything that is asked for step `i`.
pub open spec fn agree_on_step<E>(a: Answers<E>, b: Answers<E>, i: int) -> bool {
    &&& (a.token)(i) == (b.token)(i)
    &&& (a.skip)(i) == (b.skip)(i)
    &&& (a.missing)(i) == (b.missing)(i)
    &&& forall|call: int| (#[trigger] (a.call)(i, call)) == (b.call)(i, call)
    &&& forall|call: int|
        (#[trigger] (a.token_on_stop)(i, call)) == (b.token_on_stop)(i, call)
}

proof fn lemma_agreeing_calls<K: Callbacks, E>(
    plan: RunPlan<'_, K>,
    a: Answers<E>,
    b: Answers<E>,
    i: int,
    call: int,
)
    requires
        agree_on_step(a, b, i),
    ensures
        run::calls_from(plan, a, i, call) == run::calls_from(plan, b, i, call),
    decreases run::calls(plan.step(i)) - call,
{
    if call < run::calls(plan.step(i)) {
        lemma_agreeing_calls(plan, a, b, i, call + 1);
        assert((a.call)(i, call) == (b.call)(i, call));
        assert((a.token_on_stop)(i, call) == (b.token_on_stop)(i, call));
    }
}

/// Nothing after the step that ends a run plays any part in it: where a step stops, fails or
/// finds the run cancelled, neither the trace of the steps nor their ending depends on what
/// any later step would have answered. Its handlers were not invoked.
pub proof fn law_nothing_runs_after_the_ending_step<K: Callbacks, E>(
    plan: RunPlan<'_, K>,
    a: Answers<E>,
    b: Answers<E>,
    from: int,
    last: int,
)
    requires
        0 <= from <= last < plan.until,
        run::run_step(plan, a, last).1 is Some,
        forall|i: int| from <= i <= last ==> #[trigger] agree_on_step(a, b, i),
    ensures
        run::steps_from(plan, a, from) == run::steps_from(plan, b, from),
    decreases last - from,
{
    assert(agree_on_step(a, b, from));
    lemma_agreeing_calls(plan, a, b, from, 0);
    assert(run::run_step(plan, a, from) == run::run_step(plan, b, from));
    if from < last {
        if run::run_step(plan, a, from).1 is None {
            law_nothing_runs_after_the_ending_step(plan, a, b, from + 1, last);
        }
    }
}

/// Within a step, nothing after the handler that does not continue plays any part: the later
/// handlers of the step, in this phase and the next, are not invoked.
pub proof fn law_no_handler_runs_after_one_that_does_not_continue<K: Callbacks, E>(
    plan: RunPlan<'_, K>,
    a: Answers<E>,
    b: Answers<E>,
    i: int,
    call: int,
    last: int,
)
    requires
        0 <= call <= last < run::calls(plan.step(i)),
        (a.call)(i, last) != Ok::<PipelineControl, Failure<E>>(PipelineControl::Continue),
        forall|k: int| call <= k <= last ==> (#[trigger] (a.call)(i, k)) == (b.call)(i, k),
        forall|k: int|
            call <= k <= last ==> (#[trigger] (a.token_on_stop)(i, k)) == (b.token_on_stop)(i, k),
    ensures
        run::calls_from(plan, a, i, call) == run::calls_from(plan, b, i, call),
    decreases last - call,
{
    assert((a.call)(i, call) == (b.call)(i, call));
    assert((a.token_on_stop)(i, call) == (b.token_on_stop)(i, call));
    if call < last && (a.call)(i, call) == Ok::<PipelineControl, Failure<E>>(
        PipelineControl::Continue,
    ) {
        law_no_handler_runs_after_one_that_does_not_continue(plan, a, b, i, call + 1, last);
    }
}

/// A step whose boundary finds the token set does not start: it reports that the run was
/// cancelled there and nothing else, and the run's steps end as cancelled.
pub proof fn law_a_cancelled_run_starts_no_step<K: Callbacks, E>(
    plan: RunPlan<'_, K>,
    answers: Answers<E>,
    i: int,
)
    requires
        0 <= i < plan.until,
        (answers.token)(i),
    ensures
        run::steps_from(plan, answers, i) == (
            seq![TraceEventKind::RunCancelled { step: plan.name(i), index: i as usize }],
            Ok::<PipelineResult, StepFailure<E>>(PipelineResult::Cancelled),
        ),
{
}

proof fn lemma_uncancelled_calls<K: Callbacks, E>(
    plan: RunPlan<'_, K>,
    answers: Answers<E>,
    i: int,
    call: int,
)
    requires
        forall|k: int| !(#[trigger] (answers.token_on_stop)(i, k)),
    ensures
        run::calls_from(plan, answers, i, call).1 != Some(
            Ok::<PipelineResult, StepFailure<E>>(PipelineResult::Cancelled),
        ),
    decreases run::calls(plan.step(i)) - call,
{
    if call < run::calls(plan.step(i)) {
        lemma_uncancelled_calls(plan, answers, i, call + 1);
    }
}

/// A run whose token is never found set does not end as cancelled.
pub proof fn law_an_uncancelled_run_is_never_cancelled<K: Callbacks, E>(
    plan: RunPlan<'_, K>,
    answers: Answers<E>,
    from: int,
)
    requires
        forall|i: int| !(#[trigger] (answers.token)(i)),
        forall|i: int, k: int| !(#[trigger] (answers.token_on_stop)(i, k)),
    ensures
        run::run_result(plan, answers, from) != Ok::<PipelineResult, StepFailure<E>>(
            PipelineResult::Cancelled,
        ),
    decreases plan.until - from,
{
    if from < plan.until {
        lemma_uncancelled_calls(plan, answers, from, 0);
        law_an_uncancelled_run_is_never_cancelled(plan, answers, from + 1);
    }
}

proof fn lemma_no_stop_in_calls<K: Callbacks, E>(
    plan: RunPlan<'_, K>,
    answers: Answers<E>,
    i: int,
    call: int,
)
    requires
        forall|k: int| #[trigger] (answers.token_on_stop)(i, k),
    ensures
        run::calls_from(plan, answers, i, call).1 != Some(
            Ok::<PipelineResult, StepFailure<E>>(PipelineResult::Stopped),
        ),
    decreases run::calls(plan.step(i)) - call,
{
    if call < run::calls(plan.step(i)) {
        lemma_no_stop_in_calls(plan, answers, i, call + 1);
    }
}

/// The token outranks a handler's stop: a run whose token is set whenever a handler stops
/// ends as cancelled, never as stopped.
pub proof fn law_the_token_outranks_a_stop<K: Callbacks, E>(
    plan: RunPlan<'_, K>,
    answers: Answers<E>,
    from: int,
)
    requires
        forall|i: int, k: int| #[trigger] (answers.token_on_stop)(i, k),
    ensures
        run::run_result(plan, answers, from) != Ok::<PipelineResult, StepFailure<E>>(
            PipelineResult::Stopped,
        ),
    decreases plan.until - from,
{
    if from < plan.until {
        lemma_no_stop_in_calls(plan, answers, from, 0);
        law_the_token_outranks_a_stop(plan, answers, from + 1);
    }
}

/// Whether step `i` lets the run go on: it is skipped, or all of its handlers continue.
pub open spec fn passes<K: Callbacks, E>(
    plan: RunPlan<'_, K>,
    answers: Answers<E>,
    i: int,
) -> bool {
    let step = plan.step(i);
    !(answers.token)(i) && {
        ||| step.def.skip_if is Some && (answers.skip)(i)
        ||| run::calls(step) == 0 && step.def.optional
        ||| run::calls(step) > 0 && forall|call: int|
            0 <= call < run::calls(step) ==> (#[trigger] (answers.call)(i, call)) == Ok::<
                PipelineControl,
                Failure<E>,
            >(PipelineControl::Continue)
    }
}

proof fn lemma_calls_pass<K: Callbacks, E>(
    plan: RunPlan<'_, K>,
    answers: Answers<E>,
    i: int,
    call: int,
)
    requires
        0 <= call,
    ensures
        run::calls_from(plan, answers, i, call).1 is None <==> forall|k: int|
            call <= k < run::calls(plan.step(i)) ==> (#[trigger] (answers.call)(i, k)) == Ok::<
                PipelineControl,
                Failure<E>,
            >(PipelineControl::Continue),
    decreases run::calls(plan.step(i)) - call,
{
    if call < run::calls(plan.step(i)) {
        lemma_calls_pass(plan, answers, i, call + 1);
        if run::calls_from(plan, answers, i, call).1 is None {
            assert forall|k: int| call <= k < run::calls(plan.step(i)) implies (
            #[trigger] (answers.call)(i, k)) == Ok::<PipelineControl, Failure<E>>(
                PipelineControl::Continue,
            ) by {}
        } else {
            assert((answers.call)(i, call) != Ok::<PipelineControl, Failure<E>>(
                PipelineControl::Continue,
            ) || run::calls_from(plan, answers, i, call + 1).1 is Some);
        }
    }
}

/// The steps of a run complete exactly where every one of them lets the run go on.
pub proof fn law_steps_complete_where_each_passes<K: Callbacks, E>(
    plan: RunPlan<'_, K>,
    answers: Answers<E>,
    from: int,
)
    requires
        0 <= from <= plan.until,
    ensures
        run::steps_from(plan, answers, from).1 == Ok::<PipelineResult, StepFailure<E>>(
            PipelineResult::Completed,
        ) <==> forall|i: int| from <= i < plan.until ==> #[trigger] passes(plan, answers, i),
    decreases plan.until - from,
{
    if from < plan.until {
        law_steps_complete_where_each_passes(plan, answers, from + 1);
        lemma_calls_pass(plan, answers, from, 0);
        lemma_calls_never_complete(plan, answers, from, 0);
        assert(passes(plan, answers, from) <==> run::run_step(plan, answers, from).1 is None);
    }
}

proof fn lemma_calls_never_complete<K: Callbacks, E>(
    plan: RunPlan<'_, K>,
    answers: Answers<E>,
    i: int,
    call: int,
)
    ensures
        run::calls_from(plan, answers, i, call).1 != Some(
            Ok::<PipelineResult, StepFailure<E>>(PipelineResult::Completed),
        ),
    decreases run::calls(plan.step(i)) - call,
{
    if call < run::calls(plan.step(i)) {
        lemma_calls_never_complete(plan, answers, i, call + 1);
    }
}

/// A skipped step invokes no handler: it contributes the one event that reports it skipped.
pub proof fn law_a_skipped_step_runs_nothing<K: Callbacks, E>(
    plan: RunPlan<'_, K>,
    answers: Answers<E>,
    i: int,
)
    requires
        !(answers.token)(i),
        plan.step(i).def.skip_if is Some,
        (answers.skip)(i),
    ensures
        run::run_step(plan, answers, i).1 is None,
        run::run_step(plan, answers, i).0 == seq![
            TraceEventKind::StepSkipped {
                step: plan.name(i),
                index: i as usize,
                reason: SkipReason::SkipCondition { label: plan.step(i).def.skip_label },
            },
        ],
{
}

/// An observer is told of a handler's failure exactly where the very next event is the one that
/// reports that handler as failed, with the same step, phase and message.
pub proof fn law_a_failure_is_told_just_before_it_is_reported<K: Callbacks, E>(
    plan: RunPlan<'_, K>,
    s: RunState<E>,
    reply: Reply<E>,
    told: Option<HandlerError<'_, E>>,
)
    requires
        plan.wf(),
        run::state_wf(plan, s),
        run::accepts(s.stage, reply),
        run::is_told(plan, s, reply, told),
    ensures
        ({
            let events = run::next(plan, s, reply).1;
            match told {
                Some(error) => events.len() == 1 && (events[0] matches
                    TraceEventKind::HandlerFinished { step, phase, outcome, .. } && step@
                    == error.step@ && phase == error.phase && outcome == HandlerOutcome::Error(
                    error.failure.message,
                )),
                None => forall|i: int|
                    0 <= i < events.len() ==> !is_handler_failure(#[trigger] events[i]),
            }
        }),
{
    let step = plan.step(s.at as int);
    if let Stage::Call { phase, handler } = s.stage {
        let call = run::call_number(step, phase, handler as int);
        assert(run::call_phase(step, call) == phase);
    }
}

/// Whether an event reports a handler as failed.
pub open spec fn is_handler_failure(event: TraceEventKind) -> bool {
    event matches TraceEventKind::HandlerFinished { outcome, .. } && outcome is Error
}

} // verus!
