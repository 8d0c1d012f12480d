//! The dry run: what a run with a given context would do at each step.

use vstd::prelude::*;

use crate::pipeline::definition::{Callbacks, Pipeline, StepEntry};
use crate::pipeline::run;
use crate::pipeline::run::{Answers, RunPlan};
use crate::pipeline::validate;
use crate::trace;
use crate::trace::{SkipReason, TraceEventKind};

verus! {

/// What [`Pipeline::resolve_plan`] predicts for one step.
#[derive(Debug, PartialEq, Eq)]
pub enum PlannedAction {
    /// The step would execute its handlers.
    Run,
    /// The step would be skipped without executing anything.
    Skip(SkipReason),
    /// The step is required but has no handlers: a run would fail here.
    FailMissingHandlers,
    /// The context is already cancelled: the step would not start.
    Cancelled,
}

/// One entry of the dry run produced by [`Pipeline::resolve_plan`].
#[derive(Debug, PartialEq, Eq)]
pub struct StepPlan {
    pub name: String,
    pub action: PlannedAction,
}

impl Clone for PlannedAction {
    fn clone(&self) -> (r: Self)
        ensures
            r == *self,
    {
        match self {
            PlannedAction::Run => PlannedAction::Run,
            PlannedAction::Skip(reason) => PlannedAction::Skip(reason.clone()),
            PlannedAction::FailMissingHandlers => PlannedAction::FailMissingHandlers,
            PlannedAction::Cancelled => PlannedAction::Cancelled,
        }
    }
}

impl Clone for StepPlan {
    fn clone(&self) -> (r: Self)
        ensures
            r == *self,
    {
        StepPlan { name: self.name.clone(), action: self.action.clone() }
    }
}

/// How a planned action reads in a preview.
pub open spec fn action_text(action: PlannedAction) -> Seq<char> {
    match action {
        PlannedAction::Run => "run"@,
        PlannedAction::Skip(reason) => "skip ("@ + trace::skip_reason_text(reason) + ")"@,
        PlannedAction::FailMissingHandlers => "fail (required step has no handlers)"@,
        PlannedAction::Cancelled => "cancelled"@,
    }
}

impl PlannedAction {
    /// The action in words.
    pub fn to_string(&self) -> (r: String)
        ensures
            r@ == action_text(*self),
    {
        match self {
            PlannedAction::Run => "run".to_string(),
            PlannedAction::Skip(reason) => {
                let mut out = "skip (".to_string();
                out.append(reason.to_string().as_str());
                out.append(")");
                out
            },
            PlannedAction::FailMissingHandlers => {
                "fail (required step has no handlers)".to_string()
            },
            PlannedAction::Cancelled => "cancelled".to_string(),
        }
    }
}

impl StepPlan {
    /// Renders as `name: action`, so a whole plan prints as a readable preview.
    pub fn to_string(&self) -> (r: String)
        ensures
            r@ == self.name@ + ": "@ + action_text(self.action),
    {
        let mut out = self.name.clone();
        out.append(": ");
        out.append(self.action.to_string().as_str());
        out
    }
}

/// What is planned for a step, given whether its skip predicate holds.
pub open spec fn planned<K: Callbacks>(step: StepEntry<K>, skips: bool) -> PlannedAction {
    if skips {
        PlannedAction::Skip(SkipReason::SkipCondition { label: step.def.skip_label })
    } else if run::calls(step) > 0 {
        PlannedAction::Run
    } else if step.def.optional {
        PlannedAction::Skip(SkipReason::OptionalWithoutHandlers)
    } else {
        PlannedAction::FailMissingHandlers
    }
}

/// What is planned for a step, given its skip predicate's verdict.
pub fn plan_step<K: Callbacks>(step: &StepEntry<K>, skips: bool) -> (r: PlannedAction)
    ensures
        r == planned(*step, skips),
{
    if skips {
        PlannedAction::Skip(SkipReason::SkipCondition { label: step.def.skip_label.clone() })
    } else if validate::has_any_handlers(step) {
        PlannedAction::Run
    } else if step.def.optional {
        PlannedAction::Skip(SkipReason::OptionalWithoutHandlers)
    } else {
        PlannedAction::FailMissingHandlers
    }
}

/// Whether an action is what the dry run owes a step: `Cancelled` where the context is
/// cancelled, and otherwise what is planned under the verdict that `holds` gave on the
/// step's skip predicate, if it has one.
pub open spec fn is_owed<K: Callbacks, F: Fn(&K::SkipCondition) -> bool>(
    step: StepEntry<K>,
    cancelled: bool,
    holds: F,
    action: PlannedAction,
) -> bool {
    if cancelled {
        action == PlannedAction::Cancelled
    } else {
        match step.def.skip_if {
            Some(cond) => exists|skips: bool| #[trigger]
                holds.ensures((&cond,), skips) && action == planned(step, skips),
            None => action == planned(step, false),
        }
    }
}

impl<K: Callbacks> Pipeline<K> {
    /// Dry-runs the pipeline's skip logic against one context, executing nothing.
    ///
    /// `cancelled` is the state of the context's token, and `holds` evaluates a skip
    /// predicate against the context. All predicates see that one context: a run's
    /// step-to-step data flow is not simulated.
    pub fn resolve_plan<F: Fn(&K::SkipCondition) -> bool>(&self, cancelled: bool, holds: F) -> (r:
        Vec<StepPlan>)
        requires
            forall|cond: &K::SkipCondition| #[trigger] holds.requires((cond,)),
        ensures
            r@.len() == self.steps@.len(),
            forall|i: int|
                0 <= i < r@.len() ==> (#[trigger] r@[i]).name == self.steps@[i].def.name
                    && is_owed(self.steps@[i], cancelled, holds, r@[i].action),
    {
        let mut plan: Vec<StepPlan> = Vec::new();
        let mut i: usize = 0;
        while i < self.steps.len()
            invariant
                i <= self.steps.len(),
                plan@.len() == i,
                forall|cond: &K::SkipCondition| #[trigger] holds.requires((cond,)),
                forall|j: int|
                    0 <= j < i ==> (#[trigger] plan@[j]).name == self.steps@[j].def.name
                        && is_owed(self.steps@[j], cancelled, holds, plan@[j].action),
            decreases self.steps.len() - i,
        {
            let step = &self.steps[i];
            let action = if cancelled {
                PlannedAction::Cancelled
            } else {
                let skips = match &step.def.skip_if {
                    Some(cond) => holds(cond),
                    None => false,
                };
                plan_step(step, skips)
            };
            plan.push(StepPlan { name: step.def.name.clone(), action });
            i += 1;
        }
        plan
    }
}

/// The dry run predicts the run: at a step that is reached with the token unset and the
/// predicate's verdict the plan was made with, a run starts the step exactly where the plan
/// says `Run`, skips it for the planned reason where the plan says `Skip`, and fails for
/// want of handlers where the plan says so.
pub proof fn law_the_plan_predicts_the_run<K: Callbacks, E>(
    plan: RunPlan<'_, K>,
    answers: Answers<E>,
    i: int,
)
    requires
        !(answers.token)(i),
    ensures
        ({
            let step = plan.step(i);
            let skips = step.def.skip_if is Some && (answers.skip)(i);
            let (events, end) = run::run_step(plan, answers, i);
            match planned(step, skips) {
                PlannedAction::Run => events.len() > 0 && events[0] == (
                TraceEventKind::StepStarted { step: plan.name(i), index: i as usize }),
                PlannedAction::Skip(reason) => end is None && events == seq![
                    TraceEventKind::StepSkipped { step: plan.name(i), index: i as usize, reason },
                ],
                PlannedAction::FailMissingHandlers => events.len() == 0 && end == Some(
                    Err::<crate::control::PipelineResult, run::StepFailure<E>>(
                        run::StepFailure { step: plan.name(i), failure: (answers.missing)(i) },
                    ),
                ),
                PlannedAction::Cancelled => false,
            }
        }),
{
}

/// Whether `skips` is a verdict on the step's skip predicate: one that `holds` gave, or `false`
/// where the step has no predicate.
pub open spec fn is_verdict<K: Callbacks, F: Fn(&K::SkipCondition) -> bool>(
    step: StepEntry<K>,
    holds: F,
    skips: bool,
) -> bool {
    match step.def.skip_if {
        Some(cond) => holds.ensures((&cond,), skips),
        None => !skips,
    }
}

/// Whether a planned action is what a run did at the step at position `i`, given what it
/// reported there and how it ended there, if it did: `Run` exactly where it reported the step
/// as started, `Skip` exactly where all it did was to report the step as skipped for that
/// reason, and the failure exactly where it ended with an error and reported nothing.
pub open spec fn is_what_happened<K: Callbacks, E>(
    plan: RunPlan<'_, K>,
    i: int,
    action: PlannedAction,
    happened: (Seq<TraceEventKind>, Option<run::RunEnd<E>>),
) -> bool {
    let (events, end) = happened;
    let step = plan.pipeline.steps@[i].def.name;
    &&& action is Run <==> events.len() > 0 && events[0] == (TraceEventKind::StepStarted {
        step,
        index: i as usize,
    })
    &&& forall|reason: SkipReason| #[trigger]
        is_skip(action, reason) <==> end is None && events == seq![
            TraceEventKind::StepSkipped { step, index: i as usize, reason },
        ]
    &&& action is FailMissingHandlers <==> events.len() == 0 && (end matches Some(Err(_)))
    &&& !(action is Cancelled)
}

/// Whether an action is to skip the step for this reason.
pub open spec fn is_skip(action: PlannedAction, reason: SkipReason) -> bool {
    action == PlannedAction::Skip(reason)
}

/// What [`Pipeline::resolve_plan`] returns for a context that is not cancelled is what a run
/// does: there is one entry for each step, in order and by its name, and with the verdict that
/// was given on the step's predicate, any run that reaches the step with its token unset does
/// what the entry says.
pub proof fn law_the_dry_run_agrees_with_the_run<
    K: Callbacks,
    F: Fn(&K::SkipCondition) -> bool,
    E,
>(pipeline: &Pipeline<K>, holds: F, r: Vec<StepPlan>, plan: RunPlan<'_, K>, i: int)
    requires
        call_ensures(Pipeline::<K>::resolve_plan::<F>, (pipeline, false, holds), r),
        plan.pipeline == pipeline,
        0 <= i < pipeline.steps@.len(),
    ensures
        r@.len() == pipeline.steps@.len(),
        r@[i].name == pipeline.steps@[i].def.name,
        exists|skips: bool| #[trigger]
            is_verdict(pipeline.steps@[i], holds, skips) && forall|answers: Answers<E>|
                !(answers.token)(i) && (answers.skip)(i) == skips ==> #[trigger] is_what_happened(
                    plan,
                    i,
                    r@[i].action,
                    run::run_step(plan, answers, i),
                ),
{
    let step = pipeline.steps@[i];
    assert(r@[i].name == step.def.name);
    assert(is_owed(step, false, holds, r@[i].action));
    let skips = match step.def.skip_if {
        Some(cond) => choose|skips: bool| #[trigger]
            holds.ensures((&cond,), skips) && r@[i].action == planned(step, skips),
        None => false,
    };
    assert(is_verdict(step, holds, skips));
    assert forall|answers: Answers<E>|
        !(answers.token)(i) && (answers.skip)(i) == skips implies #[trigger] is_what_happened(
        plan,
        i,
        r@[i].action,
        run::run_step(plan, answers, i),
    ) by {
        law_the_plan_predicts_the_run(plan, answers, i);
        let (events, end) = run::run_step(plan, answers, i);
        lemma_calls_report(plan, answers, i, 0);
        assert forall|reason: SkipReason| #[trigger]
            is_skip(r@[i].action, reason) <==> end is None && events == seq![
                TraceEventKind::StepSkipped { step: step.def.name, index: i as usize, reason },
            ] by {
            let skipped = seq![
                TraceEventKind::StepSkipped { step: step.def.name, index: i as usize, reason },
            ];
            if events == skipped {
                assert(events[0] == skipped[0]);
            }
        }
    }
}

proof fn lemma_calls_report<K: Callbacks, E>(
    plan: RunPlan<'_, K>,
    answers: Answers<E>,
    i: int,
    call: int,
)
    ensures
        run::calls_from(plan, answers, i, call).0.len() > 0,
{
}

/// What is planned for a step comes from its predicate first: where the predicate can only
/// hold, the step is planned as skipped under its label, whatever handlers it has and whether
/// or not it is optional. Where it cannot hold, or there is none, the step is planned to run
/// exactly where it has a handler, and otherwise as skipped where it is optional and as failing
/// where it is required. For a cancelled context every step is planned as cancelled.
pub proof fn law_the_predicate_decides_first<K: Callbacks, F: Fn(&K::SkipCondition) -> bool>(
    pipeline: &Pipeline<K>,
    cancelled: bool,
    holds: F,
    r: Vec<StepPlan>,
    i: int,
)
    requires
        call_ensures(Pipeline::<K>::resolve_plan::<F>, (pipeline, cancelled, holds), r),
        0 <= i < pipeline.steps@.len(),
    ensures
        ({
            let step = pipeline.steps@[i];
            let handlers = step.before@.len() + step.on@.len() + step.after@.len();
            let action = r@[i].action;
            &&& cancelled ==> action is Cancelled
            &&& !cancelled && !is_verdict(step, holds, false) ==> action == PlannedAction::Skip(
                SkipReason::SkipCondition { label: step.def.skip_label },
            )
            &&& !cancelled && !is_verdict(step, holds, true) ==> {
                &&& action is Run <==> handlers > 0
                &&& action == PlannedAction::Skip(SkipReason::OptionalWithoutHandlers)
                    <==> handlers == 0 && step.def.optional
                &&& action is FailMissingHandlers <==> handlers == 0 && !step.def.optional
            }
        }),
{
    assert(r@[i].name == pipeline.steps@[i].def.name);
    assert(is_owed(pipeline.steps@[i], cancelled, holds, r@[i].action));
}

/// In a cancelled context the dry run evaluates nothing: every step is planned as cancelled, in
/// order and by its name.
pub proof fn law_a_cancelled_context_runs_no_step<
    K: Callbacks,
    F: Fn(&K::SkipCondition) -> bool,
>(pipeline: &Pipeline<K>, holds: F, r: Vec<StepPlan>, i: int)
    requires
        call_ensures(Pipeline::<K>::resolve_plan::<F>, (pipeline, true, holds), r),
        0 <= i < pipeline.steps@.len(),
    ensures
        r@.len() == pipeline.steps@.len(),
        r@[i].name == pipeline.steps@[i].def.name,
        r@[i].action is Cancelled,
{
    assert(r@[i].name == pipeline.steps@[i].def.name);
    assert(is_owed(pipeline.steps@[i], true, holds, r@[i].action));
}

/// A step is skipped where its predicate holds, under the predicate's label; otherwise it runs
/// where it has a handler in any phase, and where it has none it is skipped if it is optional and
/// fails if it is required.
pub proof fn law_a_step_is_planned_by_what_it_has<K: Callbacks>(
    step: StepEntry<K>,
    skips: bool,
    r: PlannedAction,
)
    requires
        call_ensures(plan_step::<K>, (&step, skips), r),
    ensures
        ({
            let handled = step.before@.len() > 0 || step.on@.len() > 0 || step.after@.len() > 0;
            &&& is_skip(r, SkipReason::SkipCondition { label: step.def.skip_label }) <==> skips
            &&& r is Run <==> !skips && handled
            &&& is_skip(r, SkipReason::OptionalWithoutHandlers) <==> !skips && !handled
                && step.def.optional
            &&& r is FailMissingHandlers <==> !skips && !handled && !step.def.optional
        }),
{
    assert(step.before@.len() == step.before.len());
    assert(step.on@.len() == step.on.len());
    assert(step.after@.len() == step.after.len());
}

} // verus!
