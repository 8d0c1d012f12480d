//! Conditional execution: a step that runs the first of several scoped pipelines whose
//! condition holds.
//!
//! [`ConditionalScopeBuilder`] configures such a step. At run time its master handler picks
//! a scope ([`MasterRun`]) and the scope obtains its pipeline, extracts its context, runs,
//! and folds its results back ([`ScopeRun`]).

use std::sync::Arc;
use vstd::prelude::*;

use crate::control::{PipelineControl, PipelineResult};
use crate::error;
use crate::error::{message_error, OrkaError};
use crate::pipeline::definition;
use crate::pipeline::definition::{
    Callbacks, MasterHandler, Pipeline, PipelineView, StepEntry, StepHandler, StepView,
};
use crate::pipeline::hooks;
use crate::subcontext;
use crate::subcontext::HandlerFailure;
use crate::text_laws;
use crate::trace::TraceEventKind;

verus! {

/// Builder for the conditional scopes of one step.
///
/// The chain must end in [`finalize_conditional_step`](Self::finalize_conditional_step);
/// otherwise the scopes are discarded, which `validate` reports.
#[must_use]
pub struct ConditionalScopeBuilder<'p, K: Callbacks> {
    pub pipeline: &'p mut Pipeline<K>,
    pub step_name: String,
    pub scopes: Vec<K::Scope>,
    pub on_no_match: PipelineControl,
}

/// The pipeline with conditional scopes begun for a step, which is created where the
/// pipeline does not have it.
pub open spec fn with_scopes_begun<K: Callbacks>(
    p: PipelineView<K>,
    name: Seq<char>,
) -> PipelineView<K> {
    let q = p.ensuring_step(name);
    q.with_step(name, (StepView { scopes_pending: true, ..q.step(name) }))
}

impl<K: Callbacks> Pipeline<K> {
    /// Prepares a step to host conditional scopes. The step is created if it does not exist.
    pub fn conditional_scopes_for_step(&mut self, step_name: &str) -> (r: ConditionalScopeBuilder<
        '_,
        K,
    >)
        requires
            old(self).wf(),
        ensures
            r.wf(),
            r.pipeline@ == with_scopes_begun(old(self)@, step_name@),
            r.step_name@ == step_name@,
            r.scopes@.len() == 0,
            r.on_no_match == PipelineControl::Continue,
            *final(self) == *final(r.pipeline),
    {
        let i = self.ensure_step(step_name);
        let ghost before = *self;
        self.steps[i].scopes_pending = true;
        proof {
            before@.lemma_index_unique(i as int, step_name@);
            definition::lemma_step_replaced(before, *self, i as int);
            assert(self@.is_at(i as int, step_name@));
        }
        ConditionalScopeBuilder {
            pipeline: self,
            step_name: step_name.to_string(),
            scopes: Vec::new(),
            on_no_match: PipelineControl::Continue,
        }
    }
}

impl<'p, K: Callbacks> ConditionalScopeBuilder<'p, K> {
    /// The pipeline is valid and has the step being configured.
    pub open spec fn wf(self) -> bool {
        self.pipeline.wf() && self.pipeline@.has_step(self.step_name@)
    }

    /// Adds a scope. Scopes are tried in the order in which they are added.
    pub fn add_scope(self, scope: K::Scope) -> (r: Self)
        requires
            self.wf(),
        ensures
            r.wf(),
            r.pipeline == self.pipeline,
            r.step_name == self.step_name,
            r.scopes@ == self.scopes@.push(scope),
            r.on_no_match == self.on_no_match,
    {
        let mut builder = self;
        builder.scopes.push(scope);
        builder
    }

    /// Sets what the step answers when no scope matches. The default is to continue.
    pub fn if_no_scope_matches(self, behavior: PipelineControl) -> (r: Self)
        requires
            self.wf(),
        ensures
            r.wf(),
            r.pipeline == self.pipeline,
            r.step_name == self.step_name,
            r.scopes == self.scopes,
            r.on_no_match == behavior,
    {
        let mut builder = self;
        builder.on_no_match = behavior;
        builder
    }

    /// Registers the scopes: the step becomes optional or required as given, which decides what
    /// becomes of a failing scope until the step is marked otherwise, is no longer reported as
    /// unfinalized, and gets the master handler behind the `on` handlers it already has. The
    /// handler reports to whatever observer the pipeline's slot holds when it runs.
    pub fn finalize_conditional_step(self, optional_for_main_step: bool)
        requires
            self.wf(),
        ensures
            final(self.pipeline).wf(),
            ({
                let before = old(self.pipeline)@;
                let after = final(self.pipeline)@;
                let step = before.step(self.step_name@);
                let on = after.step(self.step_name@).on;
                &&& after == before.with_step(
                    self.step_name@,
                    (StepView {
                        optional: optional_for_main_step,
                        scopes_pending: false,
                        on,
                        ..step
                    }),
                )
                &&& on.len() == step.on.len() + 1
                &&& on.drop_last() == step.on
                &&& on.last() matches StepHandler::Conditional(master)
                &&& master.step_name == self.step_name
                &&& master.scopes == self.scopes
                &&& master.on_no_match == self.on_no_match
                &&& master.observer == before.observer
            }),
    {
        let ConditionalScopeBuilder { pipeline, step_name, scopes, on_no_match } = self;
        let i = pipeline.position(step_name.as_str()).unwrap();
        let ghost before = *pipeline;
        let ghost name = step_name@;
        let observer = Arc::clone(&pipeline.observer);
        pipeline.steps[i].def.optional = optional_for_main_step;
        pipeline.steps[i].scopes_pending = false;
        pipeline.steps[i].on.push(
            StepHandler::Conditional(
                MasterHandler {
                    step_name,
                    scopes,
                    on_no_match,
                    observer,
                },
            ),
        );
        proof {
            definition::lemma_step_replaced(before, *pipeline, i as int);
            pipeline@.lemma_index_unique(i as int, name);
            assert(pipeline.steps@[i as int].on@.drop_last() =~= before.steps@[i as int].on@);
        }
    }
}

/// What a master handler asks for next.
pub enum MasterAction {
    /// Evaluate the condition of this scope.
    EvalCondition { scope: usize },
    /// Execute this scope.
    Execute { scope: usize },
    /// Done.
    Return,
}

/// The result of a [`MasterAction`].
pub enum MasterReply<E> {
    Condition(bool),
    Executed(Result<PipelineControl, E>),
}

/// How far a master handler has come.
pub enum MasterStage<E> {
    Checking { scope: usize },
    Executing { scope: usize },
    Done(Result<PipelineControl, E>),
}

/// A master handler being run.
pub struct MasterRun<'h, K: Callbacks, E> {
    pub master: &'h MasterHandler<K>,
    /// Whether the handler's step is optional, so that a failing scope is swallowed.
    pub optional: bool,
    pub stage: MasterStage<E>,
}

/// Everything that a master handler could be answered.
pub struct MasterAnswers<E> {
    /// Whether the condition of a scope holds.
    pub condition: spec_fn(int) -> bool,
    /// How executing a scope ends.
    pub executed: spec_fn(int) -> Result<PipelineControl, E>,
}

/// The first scope from `i` on whose condition holds.
pub open spec fn first_match<E>(a: MasterAnswers<E>, scopes: int, i: int) -> Option<int>
    decreases scopes - i,
{
    if i >= scopes {
        None
    } else if (a.condition)(i) {
        Some(i)
    } else {
        first_match(a, scopes, i + 1)
    }
}

/// What a scope's ending means for the step: an error is swallowed where the step is
/// optional.
pub open spec fn scope_verdict<E>(optional: bool, executed: Result<PipelineControl, E>) -> Result<
    PipelineControl,
    E,
> {
    match executed {
        Err(_) if optional => Ok(PipelineControl::Continue),
        _ => executed,
    }
}

/// What a master handler reports and returns, in an optional step or not: the first matching
/// scope is reported and decides; where none matches, that is reported and the configured
/// answer given.
pub open spec fn master_result<K: Callbacks, E>(
    master: MasterHandler<K>,
    optional: bool,
    a: MasterAnswers<E>,
    from: int,
) -> (Seq<TraceEventKind>, Result<PipelineControl, E>) {
    match first_match(a, master.scopes@.len() as int, from) {
        Some(i) => (
            seq![
                TraceEventKind::ScopeMatched { step: master.step_name, scope_index: i as usize },
            ],
            scope_verdict(optional, (a.executed)(i)),
        ),
        None => (
            seq![TraceEventKind::ScopeNotMatched { step: master.step_name }],
            Ok(master.on_no_match),
        ),
    }
}

/// Whether a reply answers what is asked in this stage.
pub open spec fn master_accepts<E>(stage: MasterStage<E>, reply: MasterReply<E>) -> bool {
    match stage {
        MasterStage::Checking { .. } => reply is Condition,
        MasterStage::Executing { .. } => reply is Executed,
        MasterStage::Done(_) => false,
    }
}

/// The stage of a master handler with the scopes before `scope` ruled out, and what it
/// reports on reaching it.
pub open spec fn master_checking<K: Callbacks, E>(master: MasterHandler<K>, scope: int) -> (
    MasterStage<E>,
    Seq<TraceEventKind>,
) {
    if scope < master.scopes@.len() {
        (MasterStage::Checking { scope: scope as usize }, Seq::empty())
    } else {
        (
            MasterStage::Done(Ok(master.on_no_match)),
            seq![TraceEventKind::ScopeNotMatched { step: master.step_name }],
        )
    }
}

/// The stage and the events after a reply.
pub open spec fn master_next<K: Callbacks, E>(
    master: MasterHandler<K>,
    optional: bool,
    stage: MasterStage<E>,
    reply: MasterReply<E>,
) -> (MasterStage<E>, Seq<TraceEventKind>) {
    match (stage, reply) {
        (MasterStage::Checking { scope }, MasterReply::Condition(holds)) => if holds {
            (
                MasterStage::Executing { scope },
                seq![
                    TraceEventKind::ScopeMatched { step: master.step_name, scope_index: scope },
                ],
            )
        } else {
            master_checking(master, scope + 1)
        },
        (MasterStage::Executing { .. }, MasterReply::Executed(result)) => (
            MasterStage::Done(scope_verdict(optional, result)),
            Seq::empty(),
        ),
        _ => (stage, Seq::empty()),
    }
}

impl<K: Callbacks> MasterHandler<K> {
    /// The observer attached to the pipeline now, if any: a clone of what its slot holds.
    pub fn attached_observer(&self) -> (r: Option<K::Observer>)
        ensures
            self.observer.was_read(definition::attached::<K::Observer>, r),
    {
        self.observer.read(definition::attached::<K::Observer>)
    }

    /// Begins running the master handler in a step that is optional or not. Returns the
    /// events to report first.
    pub fn run<E>(&self, optional: bool) -> (r: (MasterRun<'_, K, E>, Vec<TraceEventKind>))
        ensures
            r.0.wf(),
            r.0.master == self,
            r.0.optional == optional,
            (r.0.stage, r.1@) == master_checking::<K, E>(*self, 0),
    {
        let mut events: Vec<TraceEventKind> = Vec::new();
        let stage = self.checking(0, &mut events);
        (MasterRun { master: self, optional, stage }, events)
    }

    fn checking<E>(&self, scope: usize, events: &mut Vec<TraceEventKind>) -> (r: MasterStage<E>)
        requires
            old(events)@.len() == 0,
        ensures
            (r, final(events)@) == master_checking::<K, E>(*self, scope as int),
    {
        if scope < self.scopes.len() {
            MasterStage::Checking { scope }
        } else {
            events.push(TraceEventKind::ScopeNotMatched { step: self.step_name.clone() });
            MasterStage::Done(Ok(self.on_no_match))
        }
    }
}

impl<K: Callbacks> StepEntry<K> {
    /// Begins running a master handler of this step: whether the step is optional *now*
    /// decides what becomes of a failing scope. Returns the events to report first.
    pub fn run_master<'h, E>(&self, master: &'h MasterHandler<K>) -> (r: (
        MasterRun<'h, K, E>,
        Vec<TraceEventKind>,
    ))
        ensures
            r.0.wf(),
            r.0.master == master,
            r.0.optional == self@.optional,
            (r.0.stage, r.1@) == master_checking::<K, E>(*master, 0),
    {
        master.run(self.def.optional)
    }
}

impl<'h, K: Callbacks, E> MasterRun<'h, K, E> {
    /// The scope in question exists.
    pub open spec fn wf(self) -> bool {
        match self.stage {
            MasterStage::Checking { scope } => scope < self.master.scopes@.len(),
            MasterStage::Executing { scope } => scope < self.master.scopes@.len(),
            MasterStage::Done(_) => true,
        }
    }

    /// What has to be done next.
    pub fn action(&self) -> (r: MasterAction)
        ensures
            r == match self.stage {
                MasterStage::Checking { scope } => MasterAction::EvalCondition { scope },
                MasterStage::Executing { scope } => MasterAction::Execute { scope },
                MasterStage::Done(_) => MasterAction::Return,
            },
    {
        match &self.stage {
            MasterStage::Checking { scope } => MasterAction::EvalCondition { scope: *scope },
            MasterStage::Executing { scope } => MasterAction::Execute { scope: *scope },
            MasterStage::Done(_) => MasterAction::Return,
        }
    }

    /// Takes the result of the last action, moves on, and returns the events to report.
    pub fn advance(self, reply: MasterReply<E>) -> (r: (Self, Vec<TraceEventKind>))
        requires
            self.wf(),
            master_accepts(self.stage, reply),
        ensures
            r.0.wf(),
            r.0.master == self.master,
            r.0.optional == self.optional,
            (r.0.stage, r.1@) == master_next(*self.master, self.optional, self.stage, reply),
    {
        let MasterRun { master, optional, stage } = self;
        let mut events: Vec<TraceEventKind> = Vec::new();
        let stage = match (stage, reply) {
            (MasterStage::Checking { scope }, MasterReply::Condition(holds)) => {
                if holds {
                    events.push(
                        TraceEventKind::ScopeMatched {
                            step: master.step_name.clone(),
                            scope_index: scope,
                        },
                    );
                    MasterStage::Executing { scope }
                } else {
                    assert(scope < master.scopes.len());
                    master.checking(scope + 1, &mut events)
                }
            },
            (MasterStage::Executing { .. }, MasterReply::Executed(result)) => {
                MasterStage::Done(
                    match result {
                        Ok(control) => Ok(control),
                        Err(e) => if optional {
                            Ok(PipelineControl::Continue)
                        } else {
                            Err(e)
                        },
                    },
                )
            },
            (stage, _) => stage,
        };
        (MasterRun { master, optional, stage }, events)
    }
}

/// The reply that `a` gives to what is asked in this stage.
pub open spec fn master_reply_to<E>(stage: MasterStage<E>, a: MasterAnswers<E>) -> MasterReply<E> {
    match stage {
        MasterStage::Checking { scope } => MasterReply::Condition((a.condition)(scope as int)),
        MasterStage::Executing { scope } => MasterReply::Executed((a.executed)(scope as int)),
        MasterStage::Done(r) => MasterReply::Executed(r),
    }
}

/// The events and the result of a master handler driven from this stage to its end.
pub open spec fn master_driven<K: Callbacks, E>(
    master: MasterHandler<K>,
    optional: bool,
    stage: MasterStage<E>,
    a: MasterAnswers<E>,
    fuel: nat,
) -> (Seq<TraceEventKind>, MasterStage<E>)
    decreases fuel,
{
    if fuel == 0 || stage is Done {
        (Seq::empty(), stage)
    } else {
        let (after, events) = master_next(master, optional, stage, master_reply_to(stage, a));
        let rest = master_driven(master, optional, after, a, (fuel - 1) as nat);
        (events + rest.0, rest.1)
    }
}

proof fn lemma_master_from<K: Callbacks, E>(
    master: MasterHandler<K>,
    optional: bool,
    a: MasterAnswers<E>,
    scope: int,
)
    requires
        0 <= scope <= master.scopes@.len(),
    ensures
        ({
            let (stage, opening) = master_checking::<K, E>(master, scope);
            let fuel = (master.scopes@.len() - scope + 1) as nat;
            let (events, end) = master_driven(master, optional, stage, a, fuel);
            let (reported, result) = master_result(master, optional, a, scope);
            end == MasterStage::Done(result) && opening + events == reported
        }),
    decreases master.scopes@.len() - scope,
{
    let scopes = master.scopes@.len() as int;
    let (stage, opening) = master_checking::<K, E>(master, scope);
    let fuel = (scopes - scope + 1) as nat;
    let (events, end) = master_driven(master, optional, stage, a, fuel);
    if scope < scopes {
        assert(scope < master.scopes.len());
        if (a.condition)(scope) {
            reveal_with_fuel(master_driven, 3);
            assert(opening + events =~= master_result(master, optional, a, scope).0);
        } else {
            lemma_master_from(master, optional, a, scope + 1);
            assert(opening + events =~= master_result(master, optional, a, scope).0);
        }
    } else {
        assert(opening + events =~= master_result(master, optional, a, scope).0);
    }
}

/// A master handler tries its scopes in order and runs the first whose condition holds, and
/// no other: driven to its end, it reports and returns what [`master_result`] says.
pub proof fn law_the_first_matching_scope_decides<K: Callbacks, E>(
    master: MasterHandler<K>,
    optional: bool,
    a: MasterAnswers<E>,
)
    ensures
        ({
            let (stage, opening) = master_checking::<K, E>(master, 0);
            let (events, end) = master_driven(master, optional, stage, a, master.scopes@.len() + 1);
            let (reported, result) = master_result(master, optional, a, 0);
            end == MasterStage::Done(result) && opening + events == reported
        }),
        match first_match(a, master.scopes@.len() as int, 0) {
            Some(i) => {
                &&& 0 <= i < master.scopes@.len()
                &&& (a.condition)(i)
                &&& forall|j: int| 0 <= j < i ==> !(#[trigger] (a.condition)(j))
            },
            None => forall|j: int|
                0 <= j < master.scopes@.len() ==> !(#[trigger] (a.condition)(j)),
        },
{
    lemma_master_from(master, optional, a, 0);
    lemma_first_match(a, master.scopes@.len() as int, 0);
}

proof fn lemma_first_match<E>(a: MasterAnswers<E>, scopes: int, i: int)
    ensures
        match first_match(a, scopes, i) {
            Some(m) => {
                &&& i <= m < scopes
                &&& (a.condition)(m)
                &&& forall|j: int| i <= j < m ==> !(#[trigger] (a.condition)(j))
            },
            None => forall|j: int| i <= j < scopes ==> !(#[trigger] (a.condition)(j)),
        },
    decreases scopes - i,
{
    if i < scopes && !(a.condition)(i) {
        lemma_first_match(a, scopes, i + 1);
    }
}

/// The error of a scope never surfaces from a step that is marked optional, whatever the step
/// was when its scopes were finalized; marked required again, it does.
pub proof fn law_optional_steps_swallow_scope_errors<K: Callbacks, E>(
    p: PipelineView<K>,
    name: Seq<char>,
    master: MasterHandler<K>,
    a: MasterAnswers<E>,
)
    requires
        p.wf(),
        p.has_step(name),
    ensures
        ({
            let optional = p.with_step(name, (StepView { optional: true, ..p.step(name) }));
            master_result(master, optional.step(name).optional, a, 0).1 is Ok
        }),
        ({
            let required = p.with_step(name, (StepView { optional: false, ..p.step(name) }));
            first_match(a, master.scopes@.len() as int, 0) matches Some(i) ==> master_result(
                master,
                required.step(name).optional,
                a,
                0,
            ).1 == (a.executed)(i)
        }),
{
    let i = p.index_of(name);
    assert(p.is_at(i, name));
    let optional = p.with_step(name, (StepView { optional: true, ..p.step(name) }));
    let required = p.with_step(name, (StepView { optional: false, ..p.step(name) }));
    optional.lemma_index_unique(i, name);
    required.lemma_index_unique(i, name);
}

/// `error`, attributed to a scope's pipeline provider where it has a cause.
pub open spec fn provider_failure(step_name: String, error: OrkaError) -> OrkaError {
    match error {
        OrkaError::HandlerError { source } => OrkaError::PipelineProviderFailure {
            step_name,
            source,
        },
        OrkaError::PipelineProviderFailure { source, .. } => OrkaError::PipelineProviderFailure {
            step_name,
            source,
        },
        other => other,
    }
}

/// Attributes a provider's error to `step_name`.
pub fn as_provider_failure(step_name: String, error: OrkaError) -> (r: OrkaError)
    ensures
        r == provider_failure(step_name, error),
{
    match error {
        OrkaError::HandlerError { source } => OrkaError::PipelineProviderFailure {
            step_name,
            source,
        },
        OrkaError::PipelineProviderFailure { source, .. } => OrkaError::PipelineProviderFailure {
            step_name,
            source,
        },
        other => other,
    }
}

/// Whether `source` is the message that a factory for `data_type` failed with an error that
/// reads as `text`.
pub open spec fn is_factory_failure(
    source: anyhow::Error,
    data_type: Seq<char>,
    text: Seq<char>,
) -> bool {
    error::message_text(source) == Some(
        "Factory for SData='"@ + data_type + "' failed: "@ + text,
    )
}

/// Whether `source` is the message that a factory for `data_type` failed with `error`.
pub open spec fn names_factory_failure(
    source: anyhow::Error,
    data_type: Seq<char>,
    error: OrkaError,
) -> bool {
    exists|text: Seq<char>| #[trigger]
        is_factory_failure(source, data_type, text) && error::is_message(error, text)
}

/// The failure of a factory to make the pipeline of a scope over `data_type`. The factory's
/// own error is kept as text, in the cause.
pub fn factory_failure(data_type: &str, error: &OrkaError) -> (r: OrkaError)
    ensures
        r matches OrkaError::PipelineProviderFailure { step_name, source } && step_name@
            == "functional_provider_for_"@ + data_type@ && names_factory_failure(
            source,
            data_type@,
            *error,
        ),
{
    let mut step_name = "functional_provider_for_".to_string();
    step_name.append(data_type);
    let mut message = "Factory for SData='".to_string();
    message.append(data_type);
    message.append("' failed: ");
    let text = error.to_string();
    message.append(text.as_str());
    let source = message_error(message);
    assert(is_factory_failure(source, data_type@, text@));
    OrkaError::PipelineProviderFailure { step_name, source }
}

/// What executing a scope asks for next.
pub enum ScopeAction {
    /// Obtain the scoped pipeline from its provider.
    Provide,
    /// Extract the scope's context from the main context.
    Extract,
    /// Install the main run's cancellation token in the scope's context, so that the scoped
    /// run winds down with the main one.
    HandToken,
    /// Run the scoped pipeline on it.
    Run,
    /// Fold the scope's context back into the main context.
    Merge,
    /// Done.
    Return,
}

/// The result of a [`ScopeAction`].
pub enum ScopeReply<E> {
    Provided(Result<(), OrkaError>),
    Extracted(Result<(), OrkaError>),
    TokenHanded,
    Ran(Result<PipelineResult, E>),
    Merged,
}

/// How far executing a scope has come.
pub enum ScopeStage<E> {
    Providing,
    Extracting,
    HandingToken,
    Running,
    Merging,
    Done(Result<PipelineControl, HandlerFailure<E>>),
}

/// A scope being executed.
pub struct ScopeRun<E> {
    /// Whether the scope has a merge function.
    pub folds_back: bool,
    /// The step name that provider failures are attributed to.
    pub provider_label: String,
    /// The step name that extractor failures are attributed to.
    pub extractor_label: String,
    pub stage: ScopeStage<E>,
}

/// Everything that executing a scope could be answered.
pub struct ScopeAnswers<E> {
    pub provided: Result<(), OrkaError>,
    pub extracted: Result<(), OrkaError>,
    pub ran: Result<PipelineResult, E>,
}

/// How executing a scope ends: with the provider's failure; else with the extractor's; else
/// with the scoped run's own error; and otherwise the main pipeline continues where the
/// scoped one completed, and stops where it stopped or was cancelled.
pub open spec fn scope_result<E>(
    provider_label: String,
    extractor_label: String,
    a: ScopeAnswers<E>,
) -> Result<PipelineControl, HandlerFailure<E>> {
    match (a.provided, a.extracted, a.ran) {
        (Err(e), _, _) => Err(HandlerFailure::Framework(provider_failure(provider_label, e))),
        (Ok(()), Err(e), _) => Err(
            HandlerFailure::Framework(subcontext::extractor_failure(extractor_label, e)),
        ),
        (Ok(()), Ok(()), Err(e)) => Err(HandlerFailure::Own(e)),
        (Ok(()), Ok(()), Ok(PipelineResult::Completed)) => Ok(PipelineControl::Continue),
        (Ok(()), Ok(()), Ok(_)) => Ok(PipelineControl::Stop),
    }
}

/// Whether a reply answers what is asked in this stage.
pub open spec fn scope_accepts<E>(stage: ScopeStage<E>, reply: ScopeReply<E>) -> bool {
    match stage {
        ScopeStage::Providing => reply is Provided,
        ScopeStage::Extracting => reply is Extracted,
        ScopeStage::HandingToken => reply is TokenHanded,
        ScopeStage::Running => reply is Ran,
        ScopeStage::Merging => reply is Merged,
        ScopeStage::Done(_) => false,
    }
}

impl<E> ScopeRun<E> {
    /// The labels are in place.
    pub open spec fn wf(self) -> bool {
        &&& self.provider_label@ == "conditional_scope_provider"@
        &&& self.extractor_label@ == "conditional_scope_extractor"@
    }

    /// The stage after a reply.
    pub open spec fn next(self, reply: ScopeReply<E>) -> ScopeStage<E> {
        match (self.stage, reply) {
            (ScopeStage::Providing, ScopeReply::Provided(Ok(()))) => ScopeStage::Extracting,
            (ScopeStage::Providing, ScopeReply::Provided(Err(e))) => ScopeStage::Done(
                Err(HandlerFailure::Framework(provider_failure(self.provider_label, e))),
            ),
            (ScopeStage::Extracting, ScopeReply::Extracted(Ok(()))) => ScopeStage::HandingToken,
            (ScopeStage::HandingToken, ScopeReply::TokenHanded) => ScopeStage::Running,
            (ScopeStage::Extracting, ScopeReply::Extracted(Err(e))) => ScopeStage::Done(
                Err(
                    HandlerFailure::Framework(
                        subcontext::extractor_failure(self.extractor_label, e),
                    ),
                ),
            ),
            (ScopeStage::Running, ScopeReply::Ran(Ok(PipelineResult::Completed))) =>
                if self.folds_back {
                    ScopeStage::Merging
                } else {
                    ScopeStage::Done(Ok(PipelineControl::Continue))
                },
            (ScopeStage::Running, ScopeReply::Ran(Ok(_))) => ScopeStage::Done(
                Ok(PipelineControl::Stop),
            ),
            (ScopeStage::Running, ScopeReply::Ran(Err(e))) => ScopeStage::Done(
                Err(HandlerFailure::Own(e)),
            ),
            (ScopeStage::Merging, ScopeReply::Merged) => ScopeStage::Done(
                Ok(PipelineControl::Continue),
            ),
            (stage, _) => stage,
        }
    }

    /// Begins executing a scope.
    pub fn new(folds_back: bool) -> (r: Self)
        ensures
            r.wf(),
            r.folds_back == folds_back,
            r.stage is Providing,
    {
        ScopeRun {
            folds_back,
            provider_label: "conditional_scope_provider".to_string(),
            extractor_label: "conditional_scope_extractor".to_string(),
            stage: ScopeStage::Providing,
        }
    }

    /// What has to be done next.
    pub fn action(&self) -> (r: ScopeAction)
        ensures
            r == match self.stage {
                ScopeStage::Providing => ScopeAction::Provide,
                ScopeStage::Extracting => ScopeAction::Extract,
                ScopeStage::HandingToken => ScopeAction::HandToken,
                ScopeStage::Running => ScopeAction::Run,
                ScopeStage::Merging => ScopeAction::Merge,
                ScopeStage::Done(_) => ScopeAction::Return,
            },
    {
        match &self.stage {
            ScopeStage::Providing => ScopeAction::Provide,
            ScopeStage::Extracting => ScopeAction::Extract,
            ScopeStage::HandingToken => ScopeAction::HandToken,
            ScopeStage::Running => ScopeAction::Run,
            ScopeStage::Merging => ScopeAction::Merge,
            ScopeStage::Done(_) => ScopeAction::Return,
        }
    }

    /// Takes the result of the last action and moves on.
    pub fn advance(self, reply: ScopeReply<E>) -> (r: Self)
        requires
            self.wf(),
            scope_accepts(self.stage, reply),
        ensures
            r.wf(),
            r.folds_back == self.folds_back,
            r.provider_label == self.provider_label,
            r.extractor_label == self.extractor_label,
            r.stage == self.next(reply),
    {
        let ScopeRun { folds_back, provider_label, extractor_label, stage } = self;
        let stage = match (stage, reply) {
            (ScopeStage::Providing, ScopeReply::Provided(result)) => match result {
                Ok(()) => ScopeStage::Extracting,
                Err(e) => ScopeStage::Done(
                    Err(
                        HandlerFailure::Framework(as_provider_failure(provider_label.clone(), e)),
                    ),
                ),
            },
            (ScopeStage::Extracting, ScopeReply::Extracted(result)) => match result {
                Ok(()) => ScopeStage::HandingToken,
                Err(e) => ScopeStage::Done(
                    Err(
                        HandlerFailure::Framework(
                            subcontext::as_extractor_failure(extractor_label.clone(), e),
                        ),
                    ),
                ),
            },
            (ScopeStage::HandingToken, ScopeReply::TokenHanded) => ScopeStage::Running,
            (ScopeStage::Running, ScopeReply::Ran(result)) => match result {
                Ok(PipelineResult::Completed) => if folds_back {
                    ScopeStage::Merging
                } else {
                    ScopeStage::Done(Ok(PipelineControl::Continue))
                },
                Ok(PipelineResult::Stopped) => ScopeStage::Done(Ok(PipelineControl::Stop)),
                Ok(PipelineResult::Cancelled) => ScopeStage::Done(Ok(PipelineControl::Stop)),
                Err(e) => ScopeStage::Done(Err(HandlerFailure::Own(e))),
            },
            (ScopeStage::Merging, ScopeReply::Merged) => ScopeStage::Done(
                Ok(PipelineControl::Continue),
            ),
            (stage, _) => stage,
        };
        ScopeRun { folds_back, provider_label, extractor_label, stage }
    }

    /// The reply that `a` gives to what is asked now.
    pub open spec fn reply_to(self, a: ScopeAnswers<E>) -> ScopeReply<E> {
        match self.stage {
            ScopeStage::Providing => ScopeReply::Provided(a.provided),
            ScopeStage::Extracting => ScopeReply::Extracted(a.extracted),
            ScopeStage::HandingToken => ScopeReply::TokenHanded,
            ScopeStage::Running => ScopeReply::Ran(a.ran),
            _ => ScopeReply::Merged,
        }
    }

    /// The scope after at most `n` replies.
    pub open spec fn driven(self, a: ScopeAnswers<E>, n: nat) -> Self
        decreases n,
    {
        if n == 0 || self.stage is Done {
            self
        } else {
            (ScopeRun { stage: self.next(self.reply_to(a)), ..self }).driven(a, (n - 1) as nat)
        }
    }
}

/// Executing a scope takes at most five replies and ends as [`scope_result`] says.
pub proof fn law_a_scope_ends_with_its_result<E>(scope: ScopeRun<E>, a: ScopeAnswers<E>)
    requires
        scope.stage is Providing,
    ensures
        scope.driven(a, 5).stage == ScopeStage::Done(
            scope_result(scope.provider_label, scope.extractor_label, a),
        ),
{
    reveal_with_fuel(ScopeRun::driven, 6);
}

/// The scoped pipeline runs under the main run's token: where a scope asks for its pipeline to
/// be run, the step just before asked for the token to be handed over.
pub proof fn law_a_scope_runs_under_the_main_token<E>(
    scope: ScopeRun<E>,
    a: ScopeAnswers<E>,
    n: nat,
)
    requires
        scope.stage is Providing,
        scope.driven(a, n).stage is Running,
    ensures
        n > 0,
        scope.driven(a, (n - 1) as nat).stage is HandingToken,
{
    reveal_with_fuel(ScopeRun::driven, 7);
}

/// A scope is folded back only after its pipeline completed: where it failed, stopped or was
/// cancelled, and where it never ran, the main context is left alone.
pub proof fn law_only_completed_scopes_are_merged<E>(
    scope: ScopeRun<E>,
    a: ScopeAnswers<E>,
    n: nat,
)
    requires
        scope.stage is Providing,
        scope.driven(a, n).stage is Merging,
    ensures
        scope.folds_back,
        a.provided is Ok,
        a.extracted is Ok,
        a.ran == Ok::<PipelineResult, E>(PipelineResult::Completed),
{
    reveal_with_fuel(ScopeRun::driven, 7);
}

/// A scope is folded back wherever its pipeline completed and it has a merge function: after
/// its pipeline, its context and the token, and the scoped run, the fold is what is asked for
/// next, and then the main pipeline goes on. Without a merge function it goes on at once.
pub proof fn law_every_completed_scope_is_merged<E>(scope: ScopeRun<E>, a: ScopeAnswers<E>)
    requires
        scope.stage is Providing,
        a.provided is Ok,
        a.extracted is Ok,
        a.ran == Ok::<PipelineResult, E>(PipelineResult::Completed),
    ensures
        scope.driven(a, 1).stage is Extracting,
        scope.driven(a, 2).stage is HandingToken,
        scope.driven(a, 3).stage is Running,
        scope.folds_back ==> scope.driven(a, 4).stage is Merging,
        scope.folds_back ==> scope.driven(a, 5).stage == ScopeStage::Done(
            Ok::<PipelineControl, HandlerFailure<E>>(PipelineControl::Continue),
        ),
        !scope.folds_back ==> scope.driven(a, 4).stage == ScopeStage::Done(
            Ok::<PipelineControl, HandlerFailure<E>>(PipelineControl::Continue),
        ),
{
    reveal_with_fuel(ScopeRun::driven, 6);
}

/// How the scoped run ends decides for the main pipeline: it goes on exactly where the scoped
/// one completed, stops exactly where that stopped or was cancelled, and fails with its error
/// exactly where it failed, given that it ran at all. It runs exactly where the provider and
/// the extractor succeeded, and the failure of the first of them that fails is the answer.
pub proof fn law_the_scoped_run_decides<E>(scope: ScopeRun<E>, a: ScopeAnswers<E>)
    requires
        scope.stage is Providing,
    ensures
        ({
            let ran = a.provided is Ok && a.extracted is Ok;
            &&& scope.driven(a, 5).stage matches ScopeStage::Done(r)
            &&& r == Ok::<PipelineControl, HandlerFailure<E>>(PipelineControl::Continue) <==> ran
                && a.ran == Ok::<PipelineResult, E>(PipelineResult::Completed)
            &&& r == Ok::<PipelineControl, HandlerFailure<E>>(PipelineControl::Stop) <==> ran && (
            a.ran == Ok::<PipelineResult, E>(PipelineResult::Stopped) || a.ran == Ok::<
                PipelineResult,
                E,
            >(PipelineResult::Cancelled))
            &&& ran && a.ran is Err ==> r == Err::<PipelineControl, HandlerFailure<E>>(
                HandlerFailure::Own(a.ran->Err_0),
            )
            &&& a.provided is Err ==> {
                &&& r matches Err(HandlerFailure::Framework(e))
                &&& is_provider_failure(scope.provider_label, a.provided->Err_0, e)
            }
            &&& a.provided is Ok && a.extracted is Err ==> {
                &&& r matches Err(HandlerFailure::Framework(e))
                &&& subcontext::is_attributed(scope.extractor_label, a.extracted->Err_0, e)
            }
        }),
{
    reveal_with_fuel(ScopeRun::driven, 6);
}

/// Whether `r` is a provider's `error` as it is reported under a label: an error that carries a
/// cause, as the provider's own or as a plain one, becomes a failure of the provider with the
/// same cause; any other stays as it is.
pub open spec fn is_provider_failure(label: String, error: OrkaError, r: OrkaError) -> bool {
    if error is PipelineProviderFailure || error is HandlerError {
        &&& r matches OrkaError::PipelineProviderFailure { step_name, source }
        &&& step_name == label
        &&& error.source() == Some(source)
    } else {
        r == error
    }
}

/// Attributing a provider's error keeps its cause, carries the label, and touches no other
/// error.
pub proof fn law_provider_failures_keep_their_cause(
    label: String,
    error: OrkaError,
    r: OrkaError,
)
    requires
        call_ensures(as_provider_failure, (label, error), r),
    ensures
        is_provider_failure(label, error, r),
        r.source() == error.source(),
{
}

/// What is asked for after each answer while a scope is executed: its context after its
/// pipeline, the token after its context, the run after the token, the fold after a run that
/// completed, exactly where the scope folds back, and nothing more after any failure, nor after
/// a run that stopped or was cancelled.
pub proof fn law_each_scope_answer_asks_for_the_next<E>(
    before: ScopeRun<E>,
    asked: ScopeAction,
    reply: ScopeReply<E>,
    after: ScopeRun<E>,
    next: ScopeAction,
)
    requires
        scope_accepts(before.stage, reply),
        call_ensures(ScopeRun::<E>::action, (&before,), asked),
        call_ensures(ScopeRun::<E>::advance, (before, reply), after),
        call_ensures(ScopeRun::<E>::action, (&after,), next),
    ensures
        after.folds_back == before.folds_back,
        after.provider_label == before.provider_label,
        after.extractor_label == before.extractor_label,
        match reply {
            ScopeReply::Provided(Ok(())) => asked is Provide && next is Extract,
            ScopeReply::Extracted(Ok(())) => asked is Extract && next is HandToken,
            ScopeReply::TokenHanded => asked is HandToken && next is Run,
            ScopeReply::Ran(Ok(PipelineResult::Completed)) => asked is Run
                && if before.folds_back {
                next is Merge
            } else {
                next is Return && after.stage == ScopeStage::Done(
                    Ok::<PipelineControl, HandlerFailure<E>>(PipelineControl::Continue),
                )
            },
            ScopeReply::Merged => asked is Merge && next is Return && after.stage
                == ScopeStage::Done(
                Ok::<PipelineControl, HandlerFailure<E>>(PipelineControl::Continue),
            ),
            ScopeReply::Ran(Ok(_)) => asked is Run && next is Return && after.stage
                == ScopeStage::Done(
                Ok::<PipelineControl, HandlerFailure<E>>(PipelineControl::Stop),
            ),
            ScopeReply::Ran(Err(e)) => asked is Run && next is Return && after.stage
                == ScopeStage::Done(
                Err::<PipelineControl, HandlerFailure<E>>(HandlerFailure::Own(e)),
            ),
            ScopeReply::Provided(Err(e)) => {
                &&& asked is Provide
                &&& next is Return
                &&& after.stage matches ScopeStage::Done(Err(HandlerFailure::Framework(r)))
                &&& is_provider_failure(before.provider_label, e, r)
            },
            ScopeReply::Extracted(Err(e)) => {
                &&& asked is Extract
                &&& next is Return
                &&& after.stage matches ScopeStage::Done(Err(HandlerFailure::Framework(r)))
                &&& subcontext::is_attributed(before.extractor_label, e, r)
            },
        },
{
}

/// Executing a scope begins with its pipeline, under the labels that its failures are
/// attributed to.
pub proof fn law_a_scope_begins_with_its_pipeline<E>(
    folds_back: bool,
    r: ScopeRun<E>,
    asked: ScopeAction,
)
    requires
        call_ensures(ScopeRun::<E>::new, (folds_back,), r),
        call_ensures(ScopeRun::<E>::action, (&r,), asked),
    ensures
        asked is Provide,
        r.folds_back == folds_back,
        r.provider_label@ == "conditional_scope_provider"@,
        r.extractor_label@ == "conditional_scope_extractor"@,
{
}

/// What the first matching scope answers is the step's answer, in an optional step as in a
/// required one. Only an error is replaced, in an optional step, and then by going on. The
/// scope is reported as matched, and nothing else is.
pub proof fn law_the_scope_answers_for_the_step<K: Callbacks, E>(
    master: MasterHandler<K>,
    optional: bool,
    a: MasterAnswers<E>,
    i: int,
)
    requires
        0 <= i < master.scopes@.len(),
        (a.condition)(i),
        forall|j: int| 0 <= j < i ==> !(#[trigger] (a.condition)(j)),
    ensures
        ({
            let (stage, opening) = master_checking::<K, E>(master, 0);
            let (events, end) = master_driven(master, optional, stage, a, master.scopes@.len() + 1);
            &&& opening + events == seq![
                TraceEventKind::ScopeMatched { step: master.step_name, scope_index: i as usize },
            ]
            &&& end matches MasterStage::Done(r)
            &&& match (a.executed)(i) {
                Ok(control) => r == Ok::<PipelineControl, E>(control),
                Err(e) => r == if optional {
                    Ok::<PipelineControl, E>(PipelineControl::Continue)
                } else {
                    Err::<PipelineControl, E>(e)
                },
            }
        }),
{
    law_the_first_matching_scope_decides(master, optional, a);
    lemma_first_match(a, master.scopes@.len() as int, 0);
}

/// Where no scope matches, that is reported, and the configured answer is the step's, whether
/// or not the step is optional.
pub proof fn law_no_match_gives_the_configured_answer<K: Callbacks, E>(
    master: MasterHandler<K>,
    optional: bool,
    a: MasterAnswers<E>,
)
    requires
        forall|j: int| 0 <= j < master.scopes@.len() ==> !(#[trigger] (a.condition)(j)),
    ensures
        ({
            let (stage, opening) = master_checking::<K, E>(master, 0);
            let (events, end) = master_driven(master, optional, stage, a, master.scopes@.len() + 1);
            &&& opening + events == seq![
                TraceEventKind::ScopeNotMatched { step: master.step_name },
            ]
            &&& end == MasterStage::Done(Ok::<PipelineControl, E>(master.on_no_match))
        }),
{
    law_the_first_matching_scope_decides(master, optional, a);
    lemma_first_match(a, master.scopes@.len() as int, 0);
}

/// What is asked for after each answer while a scope is picked: a scope whose condition holds is
/// reported and executed; after one whose condition does not hold comes the next, and after the
/// last of them the report that none matched and the configured answer. What executing a scope
/// came to is the answer, but for an error in an optional step, which becomes going on.
pub proof fn law_each_condition_decides_what_is_tried<'h, K: Callbacks, E>(
    before: MasterRun<'h, K, E>,
    asked: MasterAction,
    reply: MasterReply<E>,
    r: (MasterRun<'h, K, E>, Vec<TraceEventKind>),
    next: MasterAction,
)
    requires
        before.wf(),
        master_accepts(before.stage, reply),
        call_ensures(MasterRun::<'h, K, E>::action, (&before,), asked),
        call_ensures(MasterRun::<'h, K, E>::advance, (before, reply), r),
        call_ensures(MasterRun::<'h, K, E>::action, (&r.0,), next),
    ensures
        r.0.master == before.master,
        r.0.optional == before.optional,
        match asked {
            MasterAction::EvalCondition { scope } => {
                &&& reply matches MasterReply::Condition(holds)
                &&& holds ==> {
                    &&& next == (MasterAction::Execute { scope })
                    &&& r.1@ == seq![
                        TraceEventKind::ScopeMatched {
                            step: before.master.step_name,
                            scope_index: scope,
                        },
                    ]
                }
                &&& !holds && scope + 1 < before.master.scopes@.len() ==> {
                    &&& next == (MasterAction::EvalCondition { scope: (scope + 1) as usize })
                    &&& r.1@ == Seq::<TraceEventKind>::empty()
                }
                &&& !holds && scope + 1 >= before.master.scopes@.len() ==> {
                    &&& next is Return
                    &&& r.1@ == seq![
                        TraceEventKind::ScopeNotMatched { step: before.master.step_name },
                    ]
                    &&& r.0.stage == MasterStage::Done(
                        Ok::<PipelineControl, E>(before.master.on_no_match),
                    )
                }
            },
            MasterAction::Execute { .. } => {
                &&& next is Return
                &&& r.1@ == Seq::<TraceEventKind>::empty()
                &&& reply matches MasterReply::Executed(executed)
                &&& r.0.stage matches MasterStage::Done(answer)
                &&& executed is Ok || !before.optional ==> answer == executed
                &&& executed is Err && before.optional ==> answer == Ok::<PipelineControl, E>(
                    PipelineControl::Continue,
                )
            },
            MasterAction::Return => false,
        },
{
    if let MasterStage::Checking { scope } = before.stage {
        assert(scope < before.master.scopes.len());
    }
}

/// Picking a scope begins with the first, whose condition is asked for; without any scope it is
/// over at once, with the report that none matched and the configured answer. Whether the step
/// is optional is looked at when its handler is run, not when it was registered.
pub proof fn law_the_first_scope_is_tried_first<'h, K: Callbacks, E>(
    step: StepEntry<K>,
    master: &'h MasterHandler<K>,
    r: (MasterRun<'h, K, E>, Vec<TraceEventKind>),
    asked: MasterAction,
)
    requires
        call_ensures(StepEntry::<K>::run_master::<E>, (&step, master), r),
        call_ensures(MasterRun::<'h, K, E>::action, (&r.0,), asked),
    ensures
        r.0.wf(),
        r.0.master == master,
        r.0.optional == step.def.optional,
        master.scopes@.len() > 0 ==> {
            &&& asked == (MasterAction::EvalCondition { scope: 0 })
            &&& r.1@ == Seq::<TraceEventKind>::empty()
        },
        master.scopes@.len() == 0 ==> {
            &&& asked is Return
            &&& r.1@ == seq![TraceEventKind::ScopeNotMatched { step: master.step_name }]
            &&& r.0.stage == MasterStage::Done(Ok::<PipelineControl, E>(master.on_no_match))
        },
{
}

/// Scopes are kept in the order in which they were added, and the answer for no match is the
/// one set last, going on where none was set.
pub proof fn law_scopes_are_kept_in_order<'p, K: Callbacks>(
    before: ConditionalScopeBuilder<'p, K>,
    scope: K::Scope,
    added: ConditionalScopeBuilder<'p, K>,
    behavior: PipelineControl,
    answering: ConditionalScopeBuilder<'p, K>,
)
    requires
        call_ensures(ConditionalScopeBuilder::<'p, K>::add_scope, (before, scope), added),
        call_ensures(
            ConditionalScopeBuilder::<'p, K>::if_no_scope_matches,
            (added, behavior),
            answering,
        ),
    ensures
        answering.scopes@.len() == before.scopes@.len() + 1,
        forall|i: int|
            0 <= i < before.scopes@.len() ==> #[trigger] answering.scopes@[i]
                == before.scopes@[i],
        answering.scopes@.last() == scope,
        added.on_no_match == before.on_no_match,
        answering.on_no_match == behavior,
        answering.step_name == before.step_name,
        answering.pipeline == before.pipeline,
{
}

/// Finalizing a conditional step makes it optional or required as asked, puts one handler behind
/// those it had, with the scopes, the answer for no match and the pipeline's own slot for
/// observers, and leaves everything else of the step, and every other step, alone.
pub proof fn law_a_conditional_step_is_set_up<'p, K: Callbacks>(
    builder: ConditionalScopeBuilder<'p, K>,
    optional: bool,
    before: Pipeline<K>,
    after: Pipeline<K>,
    i: int,
)
    requires
        builder.wf(),
        *builder.pipeline == before,
        *final(builder.pipeline) == after,
        call_ensures(
            ConditionalScopeBuilder::<'p, K>::finalize_conditional_step,
            (builder, optional),
            (),
        ),
        0 <= i < before.steps@.len(),
    ensures
        after.wf(),
        after.steps@.len() == before.steps@.len(),
        after@.ordering_constraints == before@.ordering_constraints,
        after@.produced_resources == before@.produced_resources,
        after@.consumed_resources == before@.consumed_resources,
        after@.finish_handlers == before@.finish_handlers,
        after@.observer == before@.observer,
        before.steps@[i].def.name@ != builder.step_name@ ==> after.steps@[i]@
            == before.steps@[i]@,
        before.steps@[i].def.name@ == builder.step_name@ ==> {
            let was = before.steps@[i]@;
            let is = after.steps@[i]@;
            &&& is == (StepView { optional, scopes_pending: false, on: is.on, ..was })
            &&& is.on.len() == was.on.len() + 1
            &&& forall|k: int| 0 <= k < was.on.len() ==> #[trigger] is.on[k] == was.on[k]
            &&& is.on.last() matches StepHandler::Conditional(master)
            &&& master.step_name@ == builder.step_name@
            &&& master.scopes@ == builder.scopes@
            &&& master.on_no_match == builder.on_no_match
            &&& master.observer == before.observer
        },
{
    let name = builder.step_name@;
    let at = before@.index_of(name);
    assert(before@.is_at(at, name));
    assert(before@.steps[i] == before.steps@[i]@);
    assert(after@.steps.len() == after.steps@.len());
    assert(after@.steps[i] == after.steps@[i]@);
    let step = StepView {
        optional,
        scopes_pending: false,
        on: after@.step(name).on,
        ..before@.step(name)
    };
    assert(after@ == before@.with_step(name, step));
    if before.steps@[i].def.name@ == name {
        before@.lemma_index_unique(i, name);
        hooks::lemma_with_step(before@, name, step);
        let was = before.steps@[i]@.on;
        let is = after.steps@[i]@.on;
        assert forall|k: int| 0 <= k < was.len() implies #[trigger] is[k] == was[k] by {
            assert(is.drop_last()[k] == is[k]);
        }
    }
}

/// A factory that failed is reported under the data type, and its own error is kept as text in
/// the cause, alike but for the type and that text.
pub proof fn law_a_failed_factory_keeps_its_error(
    a: &str,
    b: &str,
    error: &OrkaError,
    a_failed: OrkaError,
    b_failed: OrkaError,
)
    requires
        call_ensures(factory_failure, (a, error), a_failed),
        call_ensures(factory_failure, (b, error), b_failed),
    ensures
        a_failed is PipelineProviderFailure,
        b_failed is PipelineProviderFailure,
        text_laws::read_alike(
            seq![a@],
            a_failed->PipelineProviderFailure_step_name@,
            seq![b@],
            b_failed->PipelineProviderFailure_step_name@,
        ),
        exists|a_text: Seq<char>, b_text: Seq<char>| #[trigger]
            error::is_message(*error, a_text) && #[trigger] error::is_message(*error, b_text)
                && message_of(a_failed) is Some && message_of(b_failed) is Some
                && text_laws::read_alike(
                seq![a@, a_text],
                message_of(a_failed)->Some_0,
                seq![b@, b_text],
                message_of(b_failed)->Some_0,
            ),
{
    let named = seq!["functional_provider_for_"@, Seq::empty()];
    let a_name = a_failed->PipelineProviderFailure_step_name@;
    let b_name = b_failed->PipelineProviderFailure_step_name@;
    assert(a_name =~= text_laws::filled(named, seq![a@]));
    assert(b_name =~= text_laws::filled(named, seq![b@]));
    assert(text_laws::reads_as(named, seq![a@], a_name));
    let a_source = a_failed->PipelineProviderFailure_source;
    let b_source = b_failed->PipelineProviderFailure_source;
    let a_text = choose|text: Seq<char>| #[trigger]
        is_factory_failure(a_source, a@, text) && error::is_message(*error, text);
    let b_text = choose|text: Seq<char>| #[trigger]
        is_factory_failure(b_source, b@, text) && error::is_message(*error, text);
    let frame = seq!["Factory for SData='"@, "' failed: "@, Seq::empty()];
    let a_message = "Factory for SData='"@ + a@ + "' failed: "@ + a_text;
    let b_message = "Factory for SData='"@ + b@ + "' failed: "@ + b_text;
    assert(a_message =~= text_laws::filled(frame, seq![a@, a_text]));
    assert(b_message =~= text_laws::filled(frame, seq![b@, b_text]));
    assert(text_laws::reads_as(frame, seq![a@, a_text], a_message));
    assert(error::is_message(*error, a_text) && error::is_message(*error, b_text));
}

/// The message that a provider failure has for a cause.
pub open spec fn message_of(failed: OrkaError) -> Option<Seq<char>> {
    error::message_text(failed->PipelineProviderFailure_source)
}

/// A master handler reports to whatever is attached to its pipeline when it is asked.
pub proof fn law_a_master_handler_sees_what_is_attached<K: Callbacks>(
    master: MasterHandler<K>,
    r: Option<K::Observer>,
)
    requires
        call_ensures(MasterHandler::<K>::attached_observer, (&master,), r),
    ensures
        master.observer.was_read(definition::attached::<K::Observer>, r),
{
}

} // verus!
