//! The [`TraceEvent`] stream a running pipeline emits: what the events are, how they read,
//! and the queries over a log of them.

use vstd::prelude::*;

use crate::seqs;
use crate::text;

verus! {

/// Which handler list within a step an event refers to.
#[derive(Debug, Clone, Copy, PartialEq, Eq, Hash, Structural)]
pub enum StepPhase {
    Before,
    On,
    After,
}

/// Why a step was skipped rather than executed.
#[derive(Debug, PartialEq, Eq, Hash)]
pub enum SkipReason {
    /// The step's skip predicate returned `true`. `label` carries the human-readable name
    /// the predicate was given, `None` for an unlabelled one.
    SkipCondition { label: Option<String> },
    /// The step is optional and has no handlers registered.
    OptionalWithoutHandlers,
}

/// How a single handler invocation ended.
#[derive(Debug, PartialEq, Eq)]
pub enum HandlerOutcome {
    Continue,
    Stop,
    Error(String),
}

/// The final outcome of a pipeline run, as reported to finish handlers and in
/// [`TraceEventKind::RunFinished`].
#[derive(Debug, PartialEq, Eq)]
pub enum RunOutcome {
    Completed,
    Stopped,
    Cancelled,
    Errored { step: String, message: String },
}

/// What happened, without the run id. See [`TraceEvent`].
#[derive(Debug, PartialEq, Eq)]
pub enum TraceEventKind {
    /// A full run started. Partial runs do not emit this.
    RunStarted,
    /// A step passed its skip checks and is about to execute its handlers.
    StepStarted { step: String, index: usize },
    /// A step was skipped without executing any handler.
    StepSkipped { step: String, index: usize, reason: SkipReason },
    /// A single handler invocation finished.
    HandlerFinished {
        step: String,
        phase: StepPhase,
        handler_index: usize,
        outcome: HandlerOutcome,
    },
    /// All of a step's handlers ran to completion with `Continue`.
    StepCompleted { step: String, index: usize },
    /// The run was found cancelled at a step boundary; the named step did not start.
    RunCancelled { step: String, index: usize },
    /// A conditional step's master handler matched a scope (in registration order).
    ScopeMatched { step: String, scope_index: usize },
    /// A conditional step's master handler matched no scope.
    ScopeNotMatched { step: String },
    /// A finish handler finished (only full runs fire these).
    FinalizerFinished { handler_index: usize, outcome: HandlerOutcome },
    /// Run-scoped resources were released, after the finish handlers. Emitted only when
    /// something was held.
    ResourcesReleased { count: usize },
    /// A full run finished, after any finish handlers.
    RunFinished { outcome: RunOutcome },
}

/// One observed event, tagged with the run that produced it.
#[derive(Debug, PartialEq, Eq)]
pub struct TraceEvent {
    pub run_id: u64,
    pub kind: TraceEventKind,
}

impl Clone for SkipReason {
    fn clone(&self) -> (r: Self)
        ensures
            r == *self,
    {
        match self {
            SkipReason::SkipCondition { label } => SkipReason::SkipCondition {
                label: label.clone(),
            },
            SkipReason::OptionalWithoutHandlers => SkipReason::OptionalWithoutHandlers,
        }
    }
}

impl Clone for HandlerOutcome {
    fn clone(&self) -> (r: Self)
        ensures
            r == *self,
    {
        match self {
            HandlerOutcome::Continue => HandlerOutcome::Continue,
            HandlerOutcome::Stop => HandlerOutcome::Stop,
            HandlerOutcome::Error(e) => HandlerOutcome::Error(e.clone()),
        }
    }
}

impl Clone for RunOutcome {
    fn clone(&self) -> (r: Self)
        ensures
            r == *self,
    {
        match self {
            RunOutcome::Completed => RunOutcome::Completed,
            RunOutcome::Stopped => RunOutcome::Stopped,
            RunOutcome::Cancelled => RunOutcome::Cancelled,
            RunOutcome::Errored { step, message } => RunOutcome::Errored {
                step: step.clone(),
                message: message.clone(),
            },
        }
    }
}

impl Clone for TraceEventKind {
    fn clone(&self) -> (r: Self)
        ensures
            r == *self,
    {
        match self {
            TraceEventKind::RunStarted => TraceEventKind::RunStarted,
            TraceEventKind::StepStarted { step, index } => TraceEventKind::StepStarted {
                step: step.clone(),
                index: *index,
            },
            TraceEventKind::StepSkipped { step, index, reason } => TraceEventKind::StepSkipped {
                step: step.clone(),
                index: *index,
                reason: reason.clone(),
            },
            TraceEventKind::HandlerFinished { step, phase, handler_index, outcome } =>
                TraceEventKind::HandlerFinished {
                    step: step.clone(),
                    phase: *phase,
                    handler_index: *handler_index,
                    outcome: outcome.clone(),
                },
            TraceEventKind::StepCompleted { step, index } => TraceEventKind::StepCompleted {
                step: step.clone(),
                index: *index,
            },
            TraceEventKind::RunCancelled { step, index } => TraceEventKind::RunCancelled {
                step: step.clone(),
                index: *index,
            },
            TraceEventKind::ScopeMatched { step, scope_index } => TraceEventKind::ScopeMatched {
                step: step.clone(),
                scope_index: *scope_index,
            },
            TraceEventKind::ScopeNotMatched { step } => TraceEventKind::ScopeNotMatched {
                step: step.clone(),
            },
            TraceEventKind::FinalizerFinished { handler_index, outcome } =>
                TraceEventKind::FinalizerFinished {
                    handler_index: *handler_index,
                    outcome: outcome.clone(),
                },
            TraceEventKind::ResourcesReleased { count } => TraceEventKind::ResourcesReleased {
                count: *count,
            },
            TraceEventKind::RunFinished { outcome } => TraceEventKind::RunFinished {
                outcome: outcome.clone(),
            },
        }
    }
}

impl Clone for RunTrace {
    fn clone(&self) -> (r: Self)
        ensures
            r.run_id == self.run_id,
            r.events@ == self.events@,
    {
        let events = self.events.clone();
        proof {
            assert(events@ =~= self.events@);
        }
        RunTrace { run_id: self.run_id, events }
    }
}

impl Clone for TraceEvent {
    fn clone(&self) -> (r: Self)
        ensures
            r == *self,
    {
        TraceEvent { run_id: self.run_id, kind: self.kind.clone() }
    }
}

/// How a phase reads in messages.
pub open spec fn phase_text(phase: StepPhase) -> Seq<char> {
    match phase {
        StepPhase::Before => "before"@,
        StepPhase::On => "on"@,
        StepPhase::After => "after"@,
    }
}

/// How a skip reason reads in messages: the label where there is one.
pub open spec fn skip_reason_text(reason: SkipReason) -> Seq<char> {
    match reason {
        SkipReason::SkipCondition { label: Some(label) } => label@,
        SkipReason::SkipCondition { label: None } => "skip_if condition"@,
        SkipReason::OptionalWithoutHandlers => "optional without handlers"@,
    }
}

/// How a handler outcome reads in messages.
pub open spec fn handler_outcome_text(outcome: HandlerOutcome) -> Seq<char> {
    match outcome {
        HandlerOutcome::Continue => "continue"@,
        HandlerOutcome::Stop => "stop"@,
        HandlerOutcome::Error(e) => "error: "@ + e@,
    }
}

/// How a run outcome reads in messages.
pub open spec fn run_outcome_text(outcome: RunOutcome) -> Seq<char> {
    match outcome {
        RunOutcome::Completed => "completed"@,
        RunOutcome::Stopped => "stopped"@,
        RunOutcome::Cancelled => "cancelled"@,
        RunOutcome::Errored { step, message } => "errored at "@ + text::quoted(step@) + ": "@
            + message@,
    }
}

/// How an event reads in messages, without its run id.
pub open spec fn event_kind_text(kind: TraceEventKind) -> Seq<char> {
    match kind {
        TraceEventKind::RunStarted => "run started"@,
        TraceEventKind::StepStarted { step, index } => "step "@ + text::quoted(step@)
            + " started (index "@ + text::decimal(index as nat) + ")"@,
        TraceEventKind::StepSkipped { step, index, reason } => "step "@ + text::quoted(step@)
            + " skipped (index "@ + text::decimal(index as nat) + "): "@ + skip_reason_text(
            reason,
        ),
        TraceEventKind::HandlerFinished { step, phase, handler_index, outcome } => "step "@
            + text::quoted(step@) + " "@ + phase_text(phase) + " handler #"@ + text::decimal(
            handler_index as nat,
        ) + ": "@ + handler_outcome_text(outcome),
        TraceEventKind::StepCompleted { step, index } => "step "@ + text::quoted(step@)
            + " completed (index "@ + text::decimal(index as nat) + ")"@,
        TraceEventKind::RunCancelled { step, index } => "run cancelled before step "@
            + text::quoted(step@) + " (index "@ + text::decimal(index as nat) + ")"@,
        TraceEventKind::ScopeMatched { step, scope_index } => "step "@ + text::quoted(step@)
            + " matched conditional scope #"@ + text::decimal(scope_index as nat),
        TraceEventKind::ScopeNotMatched { step } => "step "@ + text::quoted(step@)
            + " matched no conditional scope"@,
        TraceEventKind::FinalizerFinished { handler_index, outcome } => "finish handler #"@
            + text::decimal(handler_index as nat) + ": "@ + handler_outcome_text(outcome),
        TraceEventKind::ResourcesReleased { count } => "released "@ + text::decimal(count as nat)
            + " run-scoped resource(s)"@,
        TraceEventKind::RunFinished { outcome } => "run finished: "@ + run_outcome_text(outcome),
    }
}

impl StepPhase {
    /// The phase's name.
    pub fn to_string(&self) -> (r: String)
        ensures
            r@ == phase_text(*self),
    {
        match self {
            StepPhase::Before => "before".to_string(),
            StepPhase::On => "on".to_string(),
            StepPhase::After => "after".to_string(),
        }
    }
}

impl SkipReason {
    /// The reason in words.
    pub fn to_string(&self) -> (r: String)
        ensures
            r@ == skip_reason_text(*self),
    {
        match self {
            SkipReason::SkipCondition { label: Some(label) } => label.clone(),
            SkipReason::SkipCondition { label: None } => "skip_if condition".to_string(),
            SkipReason::OptionalWithoutHandlers => "optional without handlers".to_string(),
        }
    }
}

impl HandlerOutcome {
    /// The outcome in words.
    pub fn to_string(&self) -> (r: String)
        ensures
            r@ == handler_outcome_text(*self),
    {
        match self {
            HandlerOutcome::Continue => "continue".to_string(),
            HandlerOutcome::Stop => "stop".to_string(),
            HandlerOutcome::Error(e) => {
                let mut out = "error: ".to_string();
                out.append(e.as_str());
                out
            },
        }
    }
}

impl RunOutcome {
    /// The outcome in words.
    pub fn to_string(&self) -> (r: String)
        ensures
            r@ == run_outcome_text(*self),
    {
        match self {
            RunOutcome::Completed => "completed".to_string(),
            RunOutcome::Stopped => "stopped".to_string(),
            RunOutcome::Cancelled => "cancelled".to_string(),
            RunOutcome::Errored { step, message } => {
                let mut out = "errored at ".to_string();
                text::push_quoted(&mut out, step.as_str());
                out.append(": ");
                out.append(message.as_str());
                out
            },
        }
    }
}

impl TraceEventKind {
    /// The event in words.
    pub fn to_string(&self) -> (r: String)
        ensures
            r@ == event_kind_text(*self),
    {
        match self {
            TraceEventKind::RunStarted => "run started".to_string(),
            TraceEventKind::StepStarted { step, index } => {
                let mut out = "step ".to_string();
                text::push_quoted(&mut out, step.as_str());
                out.append(" started (index ");
                text::push_count(&mut out, *index);
                out.append(")");
                out
            },
            TraceEventKind::StepSkipped { step, index, reason } => {
                let mut out = "step ".to_string();
                text::push_quoted(&mut out, step.as_str());
                out.append(" skipped (index ");
                text::push_count(&mut out, *index);
                out.append("): ");
                out.append(reason.to_string().as_str());
                out
            },
            TraceEventKind::HandlerFinished { step, phase, handler_index, outcome } => {
                let mut out = "step ".to_string();
                text::push_quoted(&mut out, step.as_str());
                out.append(" ");
                out.append(phase.to_string().as_str());
                out.append(" handler #");
                text::push_count(&mut out, *handler_index);
                out.append(": ");
                out.append(outcome.to_string().as_str());
                out
            },
            TraceEventKind::StepCompleted { step, index } => {
                let mut out = "step ".to_string();
                text::push_quoted(&mut out, step.as_str());
                out.append(" completed (index ");
                text::push_count(&mut out, *index);
                out.append(")");
                out
            },
            TraceEventKind::RunCancelled { step, index } => {
                let mut out = "run cancelled before step ".to_string();
                text::push_quoted(&mut out, step.as_str());
                out.append(" (index ");
                text::push_count(&mut out, *index);
                out.append(")");
                out
            },
            TraceEventKind::ScopeMatched { step, scope_index } => {
                let mut out = "step ".to_string();
                text::push_quoted(&mut out, step.as_str());
                out.append(" matched conditional scope #");
                text::push_count(&mut out, *scope_index);
                out
            },
            TraceEventKind::ScopeNotMatched { step } => {
                let mut out = "step ".to_string();
                text::push_quoted(&mut out, step.as_str());
                out.append(" matched no conditional scope");
                out
            },
            TraceEventKind::FinalizerFinished { handler_index, outcome } => {
                let mut out = "finish handler #".to_string();
                text::push_count(&mut out, *handler_index);
                out.append(": ");
                out.append(outcome.to_string().as_str());
                out
            },
            TraceEventKind::ResourcesReleased { count } => {
                let mut out = "released ".to_string();
                text::push_count(&mut out, *count);
                out.append(" run-scoped resource(s)");
                out
            },
            TraceEventKind::RunFinished { outcome } => {
                let mut out = "run finished: ".to_string();
                out.append(outcome.to_string().as_str());
                out
            },
        }
    }
}

impl TraceEvent {
    /// The event in words, with the run it belongs to.
    pub fn to_string(&self) -> (r: String)
        ensures
            r@ == "[run "@ + text::decimal(self.run_id as nat) + "] "@ + event_kind_text(self.kind),
    {
        let mut out = "[run ".to_string();
        text::push_decimal(&mut out, self.run_id);
        out.append("] ");
        out.append(self.kind.to_string().as_str());
        out
    }
}

/// The step a completion event names.
pub open spec fn completed_step() -> spec_fn(TraceEvent) -> Option<String> {
    |event: TraceEvent|
        match event.kind {
            TraceEventKind::StepCompleted { step, .. } => Some(step),
            _ => None,
        }
}

/// The step a skip event names.
pub open spec fn skipped_step() -> spec_fn(TraceEvent) -> Option<String> {
    |event: TraceEvent|
        match event.kind {
            TraceEventKind::StepSkipped { step, .. } => Some(step),
            _ => None,
        }
}

/// The outcome of a handler invocation for a step and phase.
pub open spec fn finish_of(name: Seq<char>, wanted: StepPhase) -> spec_fn(TraceEvent) -> Option<
    HandlerOutcome,
> {
    |event: TraceEvent|
        match event.kind {
            TraceEventKind::HandlerFinished { step, phase, outcome, .. } => if step@ == name
                && phase == wanted {
                Some(outcome)
            } else {
                None
            },
            _ => None,
        }
}

/// The outcome a run finished with.
pub open spec fn finished_outcome() -> spec_fn(TraceEvent) -> Option<RunOutcome> {
    |event: TraceEvent|
        match event.kind {
            TraceEventKind::RunFinished { outcome } => Some(outcome),
            _ => None,
        }
}

/// The run an event belongs to.
pub open spec fn run_of() -> spec_fn(TraceEvent) -> u64 {
    |event: TraceEvent| event.run_id
}

/// Whether an event belongs to a run.
pub open spec fn of_run(run_id: u64) -> spec_fn(TraceEvent) -> bool {
    |event: TraceEvent| event.run_id == run_id
}

/// Whether an event starts a full run.
pub open spec fn starts_run() -> spec_fn(TraceEvent) -> bool {
    |event: TraceEvent| event.kind is RunStarted
}

/// The last element, if there is one.
pub open spec fn last_of<A>(s: Seq<A>) -> Option<A> {
    if s.len() == 0 {
        None
    } else {
        Some(s.last())
    }
}

/// Whether a name is among these strings.
pub open spec fn names(strings: Seq<String>, name: Seq<char>) -> bool {
    exists|i: int| 0 <= i < strings.len() && (#[trigger] strings[i])@ == name
}

/// Names of the steps that completed, in order.
pub fn completed_steps(events: &[TraceEvent]) -> (r: Vec<String>)
    ensures
        r@ == events@.filter_map(completed_step()),
{
    let ghost f = completed_step();
    let mut steps: Vec<String> = Vec::new();
    let mut i: usize = 0;
    proof {
        assert(steps@ =~= events@.take(0).filter_map(f));
    }
    while i < events.len()
        invariant
            i <= events.len(),
            f == completed_step(),
            steps@ == events@.take(i as int).filter_map(f),
        decreases events.len() - i,
    {
        proof {
            events@.lemma_filter_map_take_succ(f, i as int);
        }
        if let TraceEventKind::StepCompleted { step, .. } = &events[i].kind {
            steps.push(step.clone());
        }
        i += 1;
    }
    proof {
        assert(events@.take(i as int) =~= events@);
    }
    steps
}

/// Names of the steps that were skipped, in order.
pub fn skipped_steps(events: &[TraceEvent]) -> (r: Vec<String>)
    ensures
        r@ == events@.filter_map(skipped_step()),
{
    let ghost f = skipped_step();
    let mut steps: Vec<String> = Vec::new();
    let mut i: usize = 0;
    proof {
        assert(steps@ =~= events@.take(0).filter_map(f));
    }
    while i < events.len()
        invariant
            i <= events.len(),
            f == skipped_step(),
            steps@ == events@.take(i as int).filter_map(f),
        decreases events.len() - i,
    {
        proof {
            events@.lemma_filter_map_take_succ(f, i as int);
        }
        if let TraceEventKind::StepSkipped { step, .. } = &events[i].kind {
            steps.push(step.clone());
        }
        i += 1;
    }
    proof {
        assert(events@.take(i as int) =~= events@);
    }
    steps
}

/// Outcomes of every handler invocation for a step and phase, in order.
pub fn handler_finishes(events: &[TraceEvent], step: &str, phase: StepPhase) -> (r: Vec<
    HandlerOutcome,
>)
    ensures
        r@ == events@.filter_map(finish_of(step@, phase)),
{
    let ghost f = finish_of(step@, phase);
    let wanted = step.to_string();
    let mut outcomes: Vec<HandlerOutcome> = Vec::new();
    let mut i: usize = 0;
    proof {
        assert(outcomes@ =~= events@.take(0).filter_map(f));
    }
    while i < events.len()
        invariant
            i <= events.len(),
            wanted@ == step@,
            f == finish_of(step@, phase),
            outcomes@ == events@.take(i as int).filter_map(f),
        decreases events.len() - i,
    {
        proof {
            events@.lemma_filter_map_take_succ(f, i as int);
        }
        if let TraceEventKind::HandlerFinished { step: s, phase: p, outcome, .. } = &events[i].kind
        {
            if *s == wanted && *p == phase {
                outcomes.push(outcome.clone());
            }
        }
        i += 1;
    }
    proof {
        assert(events@.take(i as int) =~= events@);
    }
    outcomes
}

/// The outcome of the run that finished last, if any did.
pub fn last_outcome(events: &[TraceEvent]) -> (r: Option<RunOutcome>)
    ensures
        r == last_of(events@.filter_map(finished_outcome())),
{
    let ghost f = finished_outcome();
    let mut last: Option<RunOutcome> = None;
    let mut i: usize = 0;
    while i < events.len()
        invariant
            i <= events.len(),
            f == finished_outcome(),
            last == last_of(events@.take(i as int).filter_map(f)),
        decreases events.len() - i,
    {
        proof {
            events@.lemma_filter_map_take_succ(f, i as int);
        }
        if let TraceEventKind::RunFinished { outcome } = &events[i].kind {
            last = Some(outcome.clone());
        }
        i += 1;
    }
    proof {
        assert(events@.take(i as int) =~= events@);
    }
    last
}

/// Whether `id` is among `ids`.
fn contains_id(ids: &Vec<u64>, id: u64) -> (r: bool)
    ensures
        r == ids@.contains(id),
{
    let mut i: usize = 0;
    while i < ids.len()
        invariant
            i <= ids.len(),
            forall|j: int| 0 <= j < i ==> (#[trigger] ids@[j]) != id,
        decreases ids.len() - i,
    {
        if ids[i] == id {
            return true;
        }
        i += 1;
    }
    false
}

/// The distinct run ids seen, in order of first appearance.
pub fn run_ids(events: &[TraceEvent]) -> (r: Vec<u64>)
    ensures
        r@ == seqs::distinct(events@.map_values(run_of())),
{
    let ghost all = events@.map_values(run_of());
    let mut ids: Vec<u64> = Vec::new();
    let mut i: usize = 0;
    proof {
        assert(ids@ =~= seqs::distinct(all.take(0)));
    }
    while i < events.len()
        invariant
            i <= events.len(),
            all == events@.map_values(run_of()),
            ids@ == seqs::distinct(all.take(i as int)),
        decreases events.len() - i,
    {
        proof {
            seqs::lemma_distinct_take(all, i as int);
        }
        if !contains_id(&ids, events[i].run_id) {
            ids.push(events[i].run_id);
        }
        i += 1;
    }
    proof {
        assert(all.take(i as int) =~= all);
    }
    ids
}

/// The events of one run, in order.
pub fn for_run(events: &[TraceEvent], run_id: u64) -> (r: RunTrace)
    ensures
        r.run_id == run_id,
        r.events@ == events@.filter(of_run(run_id)),
{
    let ghost f = of_run(run_id);
    let mut kept: Vec<TraceEvent> = Vec::new();
    let mut i: usize = 0;
    proof {
        reveal(Seq::filter);
        assert(kept@ =~= events@.take(0).filter(f));
    }
    while i < events.len()
        invariant
            i <= events.len(),
            f == of_run(run_id),
            kept@ == events@.take(i as int).filter(f),
        decreases events.len() - i,
    {
        proof {
            seqs::lemma_filter_take(events@, f, i as int);
        }
        if events[i].run_id == run_id {
            kept.push(events[i].clone());
        }
        i += 1;
    }
    proof {
        assert(events@.take(i as int) =~= events@);
    }
    RunTrace { run_id, events: kept }
}

/// How many full runs were started.
pub fn run_count(events: &[TraceEvent]) -> (r: usize)
    ensures
        r == events@.filter(starts_run()).len(),
{
    let ghost f = starts_run();
    let mut n: usize = 0;
    let mut i: usize = 0;
    proof {
        reveal(Seq::filter);
    }
    while i < events.len()
        invariant
            n <= i <= events.len(),
            f == starts_run(),
            n == events@.take(i as int).filter(f).len(),
        decreases events.len() - i,
    {
        proof {
            seqs::lemma_filter_take(events@, f, i as int);
        }
        if matches!(events[i].kind, TraceEventKind::RunStarted) {
            n += 1;
        }
        i += 1;
    }
    proof {
        assert(events@.take(i as int) =~= events@);
    }
    n
}

/// Whether `name` is among `strings`.
fn contains_string(strings: &Vec<String>, name: &str) -> (r: bool)
    ensures
        r == names(strings@, name@),
{
    let wanted = name.to_string();
    let mut i: usize = 0;
    while i < strings.len()
        invariant
            i <= strings.len(),
            wanted@ == name@,
            forall|j: int| 0 <= j < i ==> (#[trigger] strings@[j])@ != name@,
        decreases strings.len() - i,
    {
        if strings[i] == wanted {
            return true;
        }
        i += 1;
    }
    false
}

/// Whether the named step completed.
pub fn step_completed(events: &[TraceEvent], step: &str) -> (r: bool)
    ensures
        r == names(events@.filter_map(completed_step()), step@),
{
    contains_string(&completed_steps(events), step)
}

/// Whether the named step was skipped.
pub fn step_skipped(events: &[TraceEvent], step: &str) -> (r: bool)
    ensures
        r == names(events@.filter_map(skipped_step()), step@),
{
    contains_string(&skipped_steps(events), step)
}

/// A snapshot of one run's events.
#[derive(Debug)]
pub struct RunTrace {
    pub run_id: u64,
    pub events: Vec<TraceEvent>,
}

impl RunTrace {
    /// The run the events belong to.
    pub fn run_id(&self) -> (r: u64)
        ensures
            r == self.run_id,
    {
        self.run_id
    }

    /// The run's events, in order.
    pub fn events(&self) -> (r: &[TraceEvent])
        ensures
            r@ == self.events@,
    {
        self.events.as_slice()
    }

    /// Names of the steps that completed, in order.
    pub fn completed_steps(&self) -> (r: Vec<String>)
        ensures
            r@ == self.events@.filter_map(completed_step()),
    {
        completed_steps(self.events.as_slice())
    }

    /// Names of the steps that were skipped, in order.
    pub fn skipped_steps(&self) -> (r: Vec<String>)
        ensures
            r@ == self.events@.filter_map(skipped_step()),
    {
        skipped_steps(self.events.as_slice())
    }

    /// Whether the named step completed.
    pub fn step_completed(&self, step: &str) -> (r: bool)
        ensures
            r == names(self.events@.filter_map(completed_step()), step@),
    {
        step_completed(self.events.as_slice(), step)
    }

    /// Whether the named step was skipped.
    pub fn step_skipped(&self, step: &str) -> (r: bool)
        ensures
            r == names(self.events@.filter_map(skipped_step()), step@),
    {
        step_skipped(self.events.as_slice(), step)
    }

    /// Outcomes of every handler invocation for a step and phase, in order.
    pub fn handler_finishes(&self, step: &str, phase: StepPhase) -> (r: Vec<HandlerOutcome>)
        ensures
            r@ == self.events@.filter_map(finish_of(step@, phase)),
    {
        handler_finishes(self.events.as_slice(), step, phase)
    }

    /// The outcome the run finished with, if it did.
    pub fn last_outcome(&self) -> (r: Option<RunOutcome>)
        ensures
            r == last_of(self.events@.filter_map(finished_outcome())),
    {
        last_outcome(self.events.as_slice())
    }
}

/// Each run's events are kept apart and in order: the snapshots of the runs seen together
/// hold every event, each in the snapshot of its own run.
pub proof fn law_runs_are_kept_apart(events: Seq<TraceEvent>, i: int)
    requires
        0 <= i < events.len(),
    ensures
        seqs::distinct(events.map_values(run_of())).contains(events[i].run_id),
        events.filter(of_run(events[i].run_id)).contains(events[i]),
        forall|id: u64|
            id != events[i].run_id ==> !(#[trigger] events.filter(of_run(id))).contains(
                events[i],
            ),
{
    let ids = events.map_values(run_of());
    seqs::lemma_distinct(ids);
    assert(ids[i] == events[i].run_id);
    assert(ids.contains(events[i].run_id));
    events.lemma_filter_contains(of_run(events[i].run_id), i);
    assert forall|id: u64| id != events[i].run_id implies !(
    #[trigger] events.filter(of_run(id))).contains(events[i]) by {
        if events.filter(of_run(id)).contains(events[i]) {
            let kept = events.filter(of_run(id));
            let j = choose|j: int| 0 <= j < kept.len() && kept[j] == events[i];
            events.lemma_filter_pred(of_run(id), j);
        }
    }
}

/// How many events a run has in a log.
pub open spec fn run_length() -> spec_fn(Seq<TraceEvent>, u64) -> nat {
    |events: Seq<TraceEvent>, id: u64| events.filter(of_run(id)).len()
}

/// The snapshots of the runs seen hold each event once between them: their lengths add up to
/// that of the log.
pub proof fn law_the_lengths_of_the_runs_add_up(events: Seq<TraceEvent>)
    ensures
        seqs::total(events, seqs::distinct(events.map_values(run_of())), run_length())
            == events.len(),
{
    let runs = events.map_values(run_of());
    let ids = seqs::distinct(runs);
    let key = |event: TraceEvent| Some(event.run_id);
    seqs::lemma_distinct(runs);
    assert forall|id: u64| #[trigger] run_length()(Seq::empty(), id) == 0 by {
        reveal(Seq::filter);
    }
    assert forall|s: Seq<TraceEvent>, id: u64| s.len() > 0 implies #[trigger] run_length()(s, id)
        == run_length()(s.drop_last(), id) + if key(s.last()) == Some(id) {
        1nat
    } else {
        0nat
    } by {
        reveal(Seq::filter);
    }
    assert forall|i: int| 0 <= i < events.len() implies (key(#[trigger] events[i]) matches Some(
        id,
    ) ==> ids.contains(id)) by {
        assert(runs[i] == events[i].run_id);
        assert(runs.contains(events[i].run_id));
    }
    seqs::lemma_parts_add_up(events, ids, key, run_length());
    lemma_filter_keeps_all(events, |event: TraceEvent| key(event) is Some);
}

proof fn lemma_filter_keeps_all(events: Seq<TraceEvent>, f: spec_fn(TraceEvent) -> bool)
    requires
        forall|event: TraceEvent| #[trigger] f(event),
    ensures
        events.filter(f).len() == events.len(),
    decreases events.len(),
{
    reveal(Seq::filter);
    if events.len() > 0 {
        lemma_filter_keeps_all(events.drop_last(), f);
    }
}

/// A step's name and a phase.
pub type StepAndPhase = (Seq<char>, StepPhase);

/// The step and phase of a finished handler.
pub open spec fn finished_in() -> spec_fn(TraceEvent) -> Option<StepAndPhase> {
    |event: TraceEvent|
        match event.kind {
            TraceEventKind::HandlerFinished { step, phase, .. } => Some((step@, phase)),
            _ => None,
        }
}

/// Whether an event reports a finished handler.
pub open spec fn finishes_handler() -> spec_fn(TraceEvent) -> bool {
    |event: TraceEvent| finished_in()(event) is Some
}

/// How many handlers finished for a step and phase.
pub open spec fn finish_count() -> spec_fn(Seq<TraceEvent>, StepAndPhase) -> nat {
    |events: Seq<TraceEvent>, at: StepAndPhase| events.filter_map(finish_of(at.0, at.1)).len()
}

/// The outcomes listed for all steps and phases, each pair taken once, are those of every
/// finished handler: their numbers add up to that of the events which report one.
pub proof fn law_the_handler_finishes_add_up(events: Seq<TraceEvent>, places: Seq<StepAndPhase>)
    requires
        places.no_duplicates(),
        forall|i: int|
            0 <= i < events.len() ==> (finished_in()(#[trigger] events[i]) matches Some(at)
                ==> places.contains(at)),
    ensures
        seqs::total(events, places, finish_count()) == events.filter(finishes_handler()).len(),
{
    assert forall|at: StepAndPhase| #[trigger] finish_count()(Seq::empty(), at) == 0 by {
        seqs::lemma_filter_map_empty(Seq::empty(), finish_of(at.0, at.1));
    }
    seqs::lemma_parts_add_up(events, places, finished_in(), finish_count());
    assert(finishes_handler() =~= (|event: TraceEvent| finished_in()(event) is Some));
}

} // verus!
