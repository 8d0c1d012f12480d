//! Utilities for testing code that builds on this crate.

use std::sync::Arc;
use vstd::prelude::*;

use crate::error;
use crate::error::OrkaError;
use crate::lock::Guarded;
use crate::pipeline::definition;
use crate::pipeline::definition::{Callbacks, Pipeline, StepHandler, StepView};
use crate::pipeline::edit_laws;
use crate::text;
use crate::trace;
use crate::trace::{RunOutcome, TraceEvent};

verus! {

/// A ready-made pipeline error for tests, which can be compared.
#[derive(Debug, PartialEq, Eq)]
pub enum TestError {
    /// A framework error, as text.
    Orka(String),
    Handler(String),
    Extractor(String),
    Provider(String),
    ScopedTask(String),
    Other(String),
}

/// The message of a test error.
pub open spec fn test_error_text(error: TestError) -> Seq<char> {
    match error {
        TestError::Orka(s) => "Orka framework error: "@ + error::debug_text(s@),
        TestError::Handler(s) => "Test handler failed: "@ + s@,
        TestError::Extractor(s) => "Test extractor failed: "@ + s@,
        TestError::Provider(s) => "Test pipeline provider failed: "@ + s@,
        TestError::ScopedTask(s) => "Test scoped task failed: "@ + s@,
        TestError::Other(s) => s@,
    }
}

impl TestError {
    /// The error's message.
    pub fn to_string(&self) -> (r: String)
        ensures
            r@ == test_error_text(*self),
    {
        match self {
            TestError::Orka(s) => {
                let mut out = "Orka framework error: ".to_string();
                out.append(error::debug_str(s.as_str()).as_str());
                out
            },
            TestError::Handler(s) => {
                let mut out = "Test handler failed: ".to_string();
                out.append(s.as_str());
                out
            },
            TestError::Extractor(s) => {
                let mut out = "Test extractor failed: ".to_string();
                out.append(s.as_str());
                out
            },
            TestError::Provider(s) => {
                let mut out = "Test pipeline provider failed: ".to_string();
                out.append(s.as_str());
                out
            },
            TestError::ScopedTask(s) => {
                let mut out = "Test scoped task failed: ".to_string();
                out.append(s.as_str());
                out
            },
            TestError::Other(s) => s.clone(),
        }
    }
}

impl Clone for TestError {
    fn clone(&self) -> (r: Self)
        ensures
            r == *self,
    {
        match self {
            TestError::Orka(s) => TestError::Orka(s.clone()),
            TestError::Handler(s) => TestError::Handler(s.clone()),
            TestError::Extractor(s) => TestError::Extractor(s.clone()),
            TestError::Provider(s) => TestError::Provider(s.clone()),
            TestError::ScopedTask(s) => TestError::ScopedTask(s.clone()),
            TestError::Other(s) => TestError::Other(s.clone()),
        }
    }
}

impl From<OrkaError> for TestError {
    fn from(error: OrkaError) -> (r: TestError)
        ensures
            r matches TestError::Orka(text) && error::is_debug_message(error, text@),
    {
        TestError::Orka(error.to_debug())
    }
}

impl vstd::std_specs::convert::FromSpecImpl<OrkaError> for TestError {
    open spec fn obeys_from_spec() -> bool {
        false
    }

    open spec fn from_spec(error: OrkaError) -> TestError {
        arbitrary()
    }
}

/// A cloneable, thread-safe call counter.
///
/// A counter is scoped to the test that made it: clone one into each closure whose
/// invocations are to be counted. What it reads depends on who else holds it.
pub struct ExecutionCounter {
    tally: Arc<Guarded<Tally>>,
}

/// What a counter can be asked, through any of its clones.
pub enum CounterOp {
    Increment,
    Get,
    Reset,
}

/// The count that one more call leaves: one more than before, wrapping around.
pub open spec fn incremented(before: int) -> int {
    if before < usize::MAX {
        before + 1
    } else {
        0
    }
}

/// The count that an operation leaves.
pub open spec fn left_by(op: CounterOp, before: int) -> int {
    match op {
        CounterOp::Increment => incremented(before),
        CounterOp::Get => before,
        CounterOp::Reset => 0,
    }
}

/// What an operation answers, where it answers anything.
pub open spec fn answer_of(op: CounterOp, before: int) -> Option<int> {
    match op {
        CounterOp::Increment => Some(incremented(before)),
        CounterOp::Get => Some(before),
        CounterOp::Reset => None,
    }
}

/// The count after operations that follow one another, on whichever clones.
pub open spec fn count_after(ops: Seq<CounterOp>, start: int) -> int
    decreases ops.len(),
{
    if ops.len() == 0 {
        start
    } else {
        left_by(ops.last(), count_after(ops.drop_last(), start))
    }
}

/// How many of the operations add one.
pub open spec fn increments(ops: Seq<CounterOp>) -> nat {
    ops.filter(|op: CounterOp| op is Increment).len()
}

/// Increments that follow one another count up, however they are spread over the clones of a
/// counter and whatever reads come between: each answers one more than the count before it, and
/// a read answers the number of increments so far.
pub proof fn law_increments_count_up(ops: Seq<CounterOp>, start: int)
    requires
        0 <= start,
        start + increments(ops) <= usize::MAX,
        forall|i: int| 0 <= i < ops.len() ==> (#[trigger] ops[i]) !is Reset,
    ensures
        count_after(ops, start) == start + increments(ops),
        ops.len() > 0 ==> answer_of(ops.last(), count_after(ops.drop_last(), start)) == Some(
            start + increments(ops),
        ),
    decreases ops.len(),
{
    reveal(Seq::filter);
    if ops.len() > 0 {
        let f = |op: CounterOp| op is Increment;
        let short = ops.drop_last();
        assert(forall|i: int| 0 <= i < short.len() ==> short[i] == #[trigger] ops[i]);
        assert(ops.last() == ops[ops.len() - 1]);
        law_increments_count_up(short, start);
    }
}

/// A reset starts over: whatever came before, the count is zero, the next increment answers
/// one, and another reset changes nothing.
pub proof fn law_a_reset_starts_over(ops: Seq<CounterOp>, start: int)
    ensures
        ({
            let reset = ops.push(CounterOp::Reset);
            &&& count_after(reset, start) == 0
            &&& answer_of(CounterOp::Get, count_after(reset, start)) == Some(0int)
            &&& answer_of(CounterOp::Increment, count_after(reset, start)) == Some(1int)
            &&& count_after(reset.push(CounterOp::Reset), start) == count_after(reset, start)
        }),
{
    let reset = ops.push(CounterOp::Reset);
    assert(reset.drop_last() =~= ops);
    assert(reset.push(CounterOp::Reset).drop_last() =~= reset);
}

/// The count of a counter.
pub struct Tally {
    pub count: usize,
}

/// Whether an operation leads from one count to the next with `r` as its answer.
pub open spec fn is_counted(op: CounterOp, before: Tally, after: Tally, r: Option<usize>) -> bool {
    &&& after.count == left_by(op, before.count as int)
    &&& match r {
        Some(n) => answer_of(op, before.count as int) == Some(n as int),
        None => answer_of(op, before.count as int) is None,
    }
}

impl Tally {
    /// Adds one, wrapping around, and returns the new count.
    pub fn increment(&mut self) -> (r: usize)
        ensures
            is_counted(CounterOp::Increment, *old(self), *final(self), Some(r)),
    {
        self.count = self.count.wrapping_add(1);
        self.count
    }

    /// The count.
    pub fn get(&self) -> (r: usize)
        ensures
            is_counted(CounterOp::Get, *self, *self, Some(r)),
    {
        self.count
    }

    /// Sets the count back to zero.
    pub fn reset(&mut self)
        ensures
            is_counted(CounterOp::Reset, *old(self), *final(self), None),
    {
        self.count = 0;
    }
}

impl ExecutionCounter {
    /// The value that the counter was made with.
    pub closed spec fn origin(self) -> usize {
        self.tally.origin().count
    }

    /// A counter at zero.
    pub fn new() -> (r: Self)
        ensures
            r.origin() == 0,
    {
        ExecutionCounter { tally: Arc::new(Guarded::new(Tally { count: 0 })) }
    }

    /// The count, behind its lock.
    pub closed spec fn tally(self) -> Guarded<Tally> {
        *self.tally
    }

    /// Adds one and returns the new value.
    pub fn increment(&self) -> (r: usize)
        ensures
            self.tally().ran(Tally::increment, r),
    {
        self.tally.with(Tally::increment)
    }

    /// The current value.
    pub fn get(&self) -> (r: usize)
        ensures
            self.tally().was_read(Tally::get, r),
    {
        self.tally.read(Tally::get)
    }

    /// Sets the counter back to zero.
    pub fn reset(&self)
        ensures
            self.tally().ran(Tally::reset, ()),
    {
        self.tally.with(Tally::reset);
    }
}

impl Clone for ExecutionCounter {
    fn clone(&self) -> (r: Self)
        ensures
            r == *self,
    {
        ExecutionCounter { tally: Arc::clone(&self.tally) }
    }
}

impl Default for ExecutionCounter {
    fn default() -> (r: Self)
        ensures
            r.origin() == 0,
    {
        Self::new()
    }
}

/// Test-oriented extension methods on [`Pipeline`].
pub trait PipelineTestExt<K: Callbacks>: Sized {
    /// What the extended value is, as a pipeline.
    spec fn extended(&self) -> Pipeline<K>;

    /// Makes the pipeline fail at the named step: leaves it with exactly one `on` handler,
    /// `failing`, which is to return the error.
    fn fail_at(&mut self, step_name: &str, failing: K::Handler) -> (r: &mut Self)
        requires
            old(self).extended().wf(),
            old(self).extended()@.has_step(step_name@),
        ensures
            r.extended().wf(),
            r.extended()@ == old(self).extended()@.with_step(
                step_name@,
                (StepView {
                    on: seq![StepHandler::Root(failing)],
                    sub_handled: false,
                    ..old(self).extended()@.step(step_name@)
                }),
            ),
            *final(self) == *final(r),
    ;
}

impl<K: Callbacks> PipelineTestExt<K> for Pipeline<K> {
    open spec fn extended(&self) -> Pipeline<K> {
        *self
    }

    fn fail_at(&mut self, step_name: &str, failing: K::Handler) -> (r: &mut Self) {
        self.replace_on_root(step_name, failing)
    }
}

/// Whether a step is required, unconditional, and carries one `on` handler that `make` made.
pub open spec fn is_noop_step<K: Callbacks, F: Fn() -> K::Handler>(
    step: StepView<K>,
    name: Seq<char>,
    make: F,
) -> bool {
    exists|handler: K::Handler| #[trigger]
        make.ensures((), handler) && step == (StepView {
            on: seq![StepHandler::Root(handler)],
            ..definition::fresh_step::<K>(name)
        })
}

/// A pipeline with the given steps, each carrying a single `on` handler from `make`, which is
/// to make handlers that continue: the shape for tests of structure and skip conditions.
pub fn noop_pipeline<K: Callbacks, F: Fn() -> K::Handler>(step_names: &[&str], make: F) -> (r:
    Pipeline<K>)
    requires
        definition::distinct_names(step_names@),
        make.requires(()),
    ensures
        r.wf(),
        r@.steps.len() == step_names@.len(),
        forall|i: int|
            0 <= i < step_names@.len() ==> is_noop_step::<K, F>(
                #[trigger] r@.steps[i],
                step_names@[i]@,
                make,
            ),
        r@.ordering_constraints.len() == 0,
        r@.produced_resources.len() == 0,
        r@.consumed_resources.len() == 0,
        r@.finish_handlers.len() == 0,
        r@.observer.origin() == None::<K::Observer>,
{
    let mut pipeline: Pipeline<K> = Pipeline::new(step_names);
    let mut i: usize = 0;
    while i < step_names.len()
        invariant
            i <= step_names.len(),
            definition::distinct_names(step_names@),
            make.requires(()),
            pipeline.wf(),
            pipeline@.steps.len() == step_names@.len(),
            forall|j: int|
                0 <= j < i ==> is_noop_step::<K, F>(
                    #[trigger] pipeline@.steps[j],
                    step_names@[j]@,
                    make,
                ),
            forall|j: int|
                i <= j < step_names@.len() ==> #[trigger] pipeline@.steps[j]
                    == definition::fresh_step::<K>(step_names@[j]@),
            pipeline@.ordering_constraints.len() == 0,
            pipeline@.produced_resources.len() == 0,
            pipeline@.consumed_resources.len() == 0,
            pipeline@.finish_handlers.len() == 0,
            pipeline@.observer.origin() == None::<K::Observer>,
        decreases step_names.len() - i,
    {
        let ghost before = pipeline@;
        let handler = make();
        proof {
            assert(before.is_at(i as int, step_names@[i as int]@));
            before.lemma_index_unique(i as int, step_names@[i as int]@);
        }
        pipeline.on_root(step_names[i], handler);
        proof {
            assert(Seq::empty().push(StepHandler::<K>::Root(handler)) =~= seq![
                StepHandler::<K>::Root(handler),
            ]);
            assert(is_noop_step::<K, F>(
                pipeline@.steps[i as int],
                step_names@[i as int]@,
                make,
            ));
        }
        i += 1;
    }
    pipeline
}

/// A canned answer of a [`MockPipeline`]; `X` makes the error of a failing run.
pub enum CannedResponse<X> {
    Completed,
    Stopped,
    Error(X),
}

/// The one-shot answers of a mock, in the order in which they were queued.
pub struct CannedResponses<X> {
    pub queued: Vec<CannedResponse<X>>,
}

impl<X> CannedResponses<X> {
    /// Nothing queued.
    pub fn new() -> (r: Self)
        ensures
            r.queued@.len() == 0,
    {
        CannedResponses { queued: Vec::new() }
    }

    /// Queues an answer after those queued before.
    pub fn push(&mut self, response: CannedResponse<X>)
        ensures
            final(self).queued@ == old(self).queued@.push(response),
    {
        self.queued.push(response);
    }

    /// The answer that follows the first `taken` ones, if there is one.
    pub fn after(&self, taken: usize) -> (r: Option<&CannedResponse<X>>)
        ensures
            is_answer(self.queued@, taken as int, r),
    {
        if taken < self.queued.len() {
            Some(&self.queued[taken])
        } else {
            None
        }
    }
}

/// Whether `r` is the answer that follows the first `taken` ones, `None` where they were all.
pub open spec fn is_answer<X>(
    queued: Seq<CannedResponse<X>>,
    taken: int,
    r: Option<&CannedResponse<X>>,
) -> bool {
    match r {
        Some(response) => 0 <= taken < queued.len() && *response == queued[taken],
        None => taken >= queued.len(),
    }
}

/// How many of a mock's answers have been taken.
pub struct Taken {
    pub count: usize,
}

impl Taken {
    /// Takes the next of `queued` answers, if one is left, and returns how many were taken
    /// before.
    pub fn advance(&mut self, queued: usize) -> (r: usize)
        ensures
            r == old(self).count,
            final(self).count == if old(self).count < queued {
                old(self).count + 1
            } else {
                old(self).count as int
            },
    {
        let before = self.count;
        if before < queued {
            self.count = before + 1;
        }
        before
    }
}

/// Whether `copies` are clones of `held`, one by one.
pub open spec fn are_copies<C: Clone>(held: Seq<C>, copies: Seq<C>) -> bool {
    &&& copies.len() == held.len()
    &&& forall|i: int| 0 <= i < held.len() ==> cloned(#[trigger] held[i], copies[i])
}

/// Records the context of a run.
pub fn record_context<C>(seen: &mut Vec<C>, context: C)
    ensures
        final(seen)@ == old(seen)@.push(context),
{
    seen.push(context);
}

/// How many contexts were recorded.
pub fn count_of<C>(seen: &Vec<C>) -> (r: usize)
    ensures
        r == seen@.len(),
{
    seen.len()
}

/// Clones of the contexts that were recorded, in order.
pub fn copies_of<C: Clone>(seen: &Vec<C>) -> (r: Vec<C>)
    ensures
        are_copies(seen@, r@),
{
    seen.clone()
}

/// A canned run boundary: a fake of a whole pipeline.
///
/// Queued one-shot answers are consumed first in, first out; once none is left, the mock's
/// base behaviour `base` answers. Every run records the context it was given.
#[verifier::reject_recursive_types(C)]
#[verifier::reject_recursive_types(X)]
pub struct MockPipeline<C, X, B> {
    base: B,
    script: CannedResponses<X>,
    taken: Guarded<Taken>,
    seen_contexts: Guarded<Vec<C>>,
}

impl<C: Clone, X, B> MockPipeline<C, X, B> {
    /// What answers once nothing is queued.
    pub closed spec fn behaviour(self) -> B {
        self.base
    }

    /// Every one-shot answer queued so far, in order.
    pub closed spec fn script(self) -> Seq<CannedResponse<X>> {
        self.script.queued@
    }

    /// How many answers had been taken when the mock was made.
    pub closed spec fn taken_at_origin(self) -> nat {
        self.taken.origin().count as nat
    }

    /// The contexts seen when the mock was made.
    pub closed spec fn contexts_at_origin(self) -> Seq<C> {
        self.seen_contexts.origin()@
    }

    /// How many answers have been taken, behind its lock.
    pub closed spec fn taken(self) -> Guarded<Taken> {
        self.taken
    }

    /// The contexts seen so far, behind their lock.
    pub closed spec fn seen(self) -> Guarded<Vec<C>> {
        self.seen_contexts
    }

    /// Whether both are one mock as far as its runs go: which answers they took and which
    /// contexts they saw.
    pub open spec fn same_runs(self, other: Self) -> bool {
        self.taken() == other.taken() && self.seen() == other.seen()
    }

    /// A mock with the given base behaviour and nothing queued.
    pub fn new(base: B) -> (r: Self)
        ensures
            r.behaviour() == base,
            r.script() == Seq::<CannedResponse<X>>::empty(),
            r.taken_at_origin() == 0,
            r.contexts_at_origin() == Seq::<C>::empty(),
    {
        MockPipeline {
            base,
            script: CannedResponses::new(),
            taken: Guarded::new(Taken { count: 0 }),
            seen_contexts: Guarded::new(Vec::new()),
        }
    }

    /// What answers once nothing is queued.
    pub fn base(&self) -> (r: &B)
        ensures
            *r == self.behaviour(),
    {
        &self.base
    }

    fn queue(&mut self, response: CannedResponse<X>)
        ensures
            final(self).script() == old(self).script().push(response),
            final(self).behaviour() == old(self).behaviour(),
            final(self).same_runs(*old(self)),
    {
        self.script.push(response);
    }

    /// Queues a one-shot `Completed`.
    pub fn then_completed(&mut self) -> (r: &mut Self)
        ensures
            r.script() == old(self).script().push(CannedResponse::Completed),
            r.behaviour() == old(self).behaviour(),
            r.same_runs(*old(self)),
            *final(self) == *final(r),
    {
        self.queue(CannedResponse::Completed);
        self
    }

    /// Queues a one-shot `Stopped`.
    pub fn then_stopped(&mut self) -> (r: &mut Self)
        ensures
            r.script() == old(self).script().push(CannedResponse::Stopped),
            r.behaviour() == old(self).behaviour(),
            r.same_runs(*old(self)),
            *final(self) == *final(r),
    {
        self.queue(CannedResponse::Stopped);
        self
    }

    /// Queues a one-shot failure.
    pub fn then_error(&mut self, make_error: X) -> (r: &mut Self)
        ensures
            r.script() == old(self).script().push(CannedResponse::Error(make_error)),
            r.behaviour() == old(self).behaviour(),
            r.same_runs(*old(self)),
            *final(self) == *final(r),
    {
        self.queue(CannedResponse::Error(make_error));
        self
    }

    /// Records a run on `context` and takes the answer queued for it; `None` means that the
    /// base behaviour answers.
    pub fn begin_run(&self, context: C) -> (r: Option<&CannedResponse<X>>)
        ensures
            self.seen().ran_on(context, record_context::<C>, ()),
            exists|taken: usize| #[trigger]
                self.taken().ran_on(self.script().len() as usize, Taken::advance, taken)
                    && is_answer(self.script(), taken as int, r),
    {
        self.seen_contexts.with_arg(context, record_context::<C>);
        let queued = self.script.queued.len();
        let taken = self.taken.with_arg(queued, Taken::advance);
        assert(self.taken().ran_on(self.script().len() as usize, Taken::advance, taken));
        self.script.after(taken)
    }

    /// How many times the mock has been run.
    pub fn run_count(&self) -> (r: usize)
        ensures
            self.seen().was_read(count_of::<C>, r),
    {
        self.seen_contexts.read(count_of::<C>)
    }

    /// The context of each run, in order: clones of those that were recorded.
    pub fn contexts(&self) -> (r: Vec<C>)
        ensures
            self.seen().was_read(copies_of::<C>, r),
    {
        self.seen_contexts.read(copies_of::<C>)
    }
}

/// The answers that are left once the first `taken` ones were taken.
pub open spec fn remaining<X>(queued: Seq<CannedResponse<X>>, taken: int) -> Seq<
    CannedResponse<X>,
> {
    queued.skip(taken)
}

/// Answers come out first in, first out: the answer that follows the taken ones is the first
/// of those left, taking it leaves the others in order, and one that is queued now comes
/// behind all that are left.
pub proof fn law_answers_are_first_in_first_out<X>(
    queued: Seq<CannedResponse<X>>,
    taken: int,
    response: CannedResponse<X>,
)
    requires
        0 <= taken <= queued.len(),
    ensures
        remaining(queued.push(response), taken) == remaining(queued, taken).push(response),
        taken < queued.len() ==> {
            &&& is_answer(queued, taken, Some(&remaining(queued, taken).first()))
            &&& remaining(queued, taken + 1) == remaining(queued, taken).skip(1)
        },
        taken == queued.len() ==> {
            &&& is_answer(queued, taken, None)
            &&& is_answer(queued.push(response), taken, Some(&response))
        },
{
    assert(remaining(queued.push(response), taken) =~= remaining(queued, taken).push(response));
    if taken < queued.len() {
        assert(remaining(queued, taken + 1) =~= remaining(queued, taken).skip(1));
    }
}

/// Whether these are exactly the expected names, in order.
pub open spec fn are_exactly(actual: Seq<String>, expected: Seq<&str>) -> bool {
    actual.len() == expected.len() && forall|i: int|
        0 <= i < actual.len() ==> (#[trigger] actual[i])@ == expected[i]@
}

fn same(a: &String, b: &str) -> (r: bool)
    ensures
        r == (a@ == b@),
{
    *a == b.to_string()
}

/// Whether `actual` is exactly `expected`, in order.
pub fn steps_match(actual: &Vec<String>, expected: &[&str]) -> (r: bool)
    ensures
        r == are_exactly(actual@, expected@),
{
    if actual.len() != expected.len() {
        return false;
    }
    let mut i: usize = 0;
    while i < actual.len()
        invariant
            i <= actual.len(),
            actual.len() == expected.len(),
            forall|j: int| 0 <= j < i ==> (#[trigger] actual@[j])@ == expected@[j]@,
        decreases actual.len() - i,
    {
        if !same(&actual[i], expected[i]) {
            return false;
        }
        i += 1;
    }
    true
}

/// Whether two outcomes are the same.
pub open spec fn same_outcome(a: RunOutcome, b: RunOutcome) -> bool {
    match (a, b) {
        (RunOutcome::Completed, RunOutcome::Completed) => true,
        (RunOutcome::Stopped, RunOutcome::Stopped) => true,
        (RunOutcome::Cancelled, RunOutcome::Cancelled) => true,
        (
            RunOutcome::Errored { step, message },
            RunOutcome::Errored { step: other_step, message: other_message },
        ) => step@ == other_step@ && message@ == other_message@,
        _ => false,
    }
}

/// Whether the outcome is there and is the expected one.
pub fn outcome_matches(actual: &Option<RunOutcome>, expected: &RunOutcome) -> (r: bool)
    ensures
        r == match *actual {
            Some(outcome) => same_outcome(outcome, *expected),
            None => false,
        },
{
    match actual {
        None => false,
        Some(actual) => match (actual, expected) {
            (RunOutcome::Completed, RunOutcome::Completed) => true,
            (RunOutcome::Stopped, RunOutcome::Stopped) => true,
            (RunOutcome::Cancelled, RunOutcome::Cancelled) => true,
            (
                RunOutcome::Errored { step, message },
                RunOutcome::Errored { step: other_step, message: other_message },
            ) => *step == *other_step && *message == *other_message,
            _ => false,
        },
    }
}

/// Whether `expected` occurs in `actual` in order, with anything in between.
pub open spec fn occurs_in_order(expected: Seq<&str>, actual: Seq<String>) -> bool
    decreases expected.len(),
{
    expected.len() == 0 || exists|i: int|
        0 <= i < actual.len() && (#[trigger] actual[i])@ == expected[0]@ && occurs_in_order(
            expected.skip(1),
            actual.skip(i + 1),
        )
}

/// What occurs in a suffix occurs in the whole.
proof fn lemma_occurs_in_whole(expected: Seq<&str>, actual: Seq<String>, n: int)
    requires
        0 <= n <= actual.len(),
        occurs_in_order(expected, actual.skip(n)),
    ensures
        occurs_in_order(expected, actual),
{
    if expected.len() > 0 {
        let rest = actual.skip(n);
        let i = choose|i: int|
            0 <= i < rest.len() && (#[trigger] rest[i])@ == expected[0]@ && occurs_in_order(
                expected.skip(1),
                rest.skip(i + 1),
            );
        assert(rest[i] == actual[n + i]);
        assert(rest.skip(i + 1) =~= actual.skip(n + i + 1));
    }
}

/// The expected names that can be found in `actual` in order occur there exactly when the
/// first one does and the others occur after its first occurrence.
proof fn lemma_first_occurrence(expected: Seq<&str>, actual: Seq<String>, first: int)
    requires
        expected.len() > 0,
        0 <= first < actual.len(),
        actual[first]@ == expected[0]@,
        forall|j: int| 0 <= j < first ==> (#[trigger] actual[j])@ != expected[0]@,
    ensures
        occurs_in_order(expected, actual) == occurs_in_order(
            expected.skip(1),
            actual.skip(first + 1),
        ),
{
    if occurs_in_order(expected, actual) {
        let i = choose|i: int|
            0 <= i < actual.len() && (#[trigger] actual[i])@ == expected[0]@ && occurs_in_order(
                expected.skip(1),
                actual.skip(i + 1),
            );
        let after = actual.skip(first + 1);
        assert(after.skip(i - first) =~= actual.skip(i + 1));
        lemma_occurs_in_whole(expected.skip(1), after, i - first);
    }
}

/// The position of the first expected name that does not occur in order, `None` where all of
/// them do.
pub fn first_out_of_order(actual: &Vec<String>, expected: &[&str]) -> (r: Option<usize>)
    ensures
        match r {
            None => occurs_in_order(expected@, actual@),
            Some(k) => {
                &&& k < expected@.len()
                &&& occurs_in_order(expected@.take(k as int), actual@)
                &&& !occurs_in_order(expected@.take(k + 1), actual@)
            },
        },
{
    let mut next: usize = 0;
    let mut k: usize = 0;
    proof {
        assert(actual@.skip(0) =~= actual@);
        assert forall|n: int| 0 <= n <= expected@.len() implies #[trigger] expected@.take(n)
            == expected@.subrange(0, n) by {}
    }
    while k < expected.len()
        invariant
            k <= expected.len(),
            next <= actual.len(),
            forall|n: int|
                k <= n <= expected@.len() ==> (occurs_in_order(#[trigger] expected@.take(n), actual@)
                    == occurs_in_order(
                    expected@.subrange(k as int, n),
                    actual@.skip(next as int),
                )),
        decreases expected.len() - k,
    {
        let from = next;
        while next < actual.len() && !same(&actual[next], expected[k])
            invariant
                from <= next <= actual.len(),
                k < expected.len(),
                forall|j: int| from <= j < next ==> (#[trigger] actual@[j])@ != expected@[k as int]@,
            decreases actual.len() - next,
        {
            next += 1;
        }
        let ghost rest = actual@.skip(from as int);
        if next == actual.len() {
            proof {
                let wanted = expected@.subrange(k as int, k + 1);
                assert(wanted[0] == expected@[k as int]);
                assert forall|i: int| 0 <= i < rest.len() implies (#[trigger] rest[i])@
                    != wanted[0]@ by {
                    assert(rest[i] == actual@[from + i]);
                }
                assert(!occurs_in_order(wanted, rest));
                assert(expected@.subrange(k as int, k as int).len() == 0);
                assert(occurs_in_order(expected@.subrange(k as int, k as int), rest));
            }
            return Some(k);
        }
        proof {
            assert forall|n: int| k + 1 <= n <= expected@.len() implies occurs_in_order(
                #[trigger] expected@.take(n),
                actual@,
            ) == occurs_in_order(
                expected@.subrange(k + 1, n),
                actual@.skip(next + 1),
            ) by {
                let wanted = expected@.subrange(k as int, n);
                assert(wanted[0] == expected@[k as int]);
                assert forall|j: int| 0 <= j < next - from implies (#[trigger] rest[j])@
                    != wanted[0]@ by {
                    assert(rest[j] == actual@[from + j]);
                }
                assert(rest[next - from] == actual@[next as int]);
                lemma_first_occurrence(wanted, rest, next - from);
                assert(wanted.skip(1) =~= expected@.subrange(k + 1, n));
                assert(rest.skip(next - from + 1) =~= actual@.skip(next + 1));
            }
        }
        next += 1;
        k += 1;
    }
    proof {
        let n = expected@.len() as int;
        assert(expected@.take(n) =~= expected@);
        assert(expected@.subrange(n, n).len() == 0);
    }
    None
}

/// An event as a line of a report.
pub open spec fn event_line() -> spec_fn(TraceEvent) -> Seq<char> {
    |event: TraceEvent|
        "    "@ + ("[run "@ + text::decimal(event.run_id as nat) + "] "@ + trace::event_kind_text(
            event.kind,
        ))
}

/// The events as an indented report, one to a line.
pub fn format_events(events: &[TraceEvent]) -> (r: String)
    ensures
        r@ == text::joined(events@.map_values(event_line()), "\n"@),
{
    let mut lines: Vec<String> = Vec::new();
    let mut i: usize = 0;
    while i < events.len()
        invariant
            i <= events.len(),
            text::views(lines@) == events@.take(i as int).map_values(event_line()),
        decreases events.len() - i,
    {
        let mut line = "    ".to_string();
        line.append(events[i].to_string().as_str());
        let ghost before = lines@;
        lines.push(line);
        proof {
            assert(text::views(lines@) =~= text::views(before).push(line@));
            assert(events@.take(i + 1).map_values(event_line()) =~= events@.take(
                i as int,
            ).map_values(event_line()).push(event_line()(events@[i as int])));
        }
        i += 1;
    }
    proof {
        assert(events@.take(i as int) =~= events@);
    }
    text::join(&lines, "\n")
}

/// A tally counts up by one with each increment and answers the new count, answers the count when
/// it is read, and is zero after a reset.
pub proof fn law_a_tally_counts(
    before: Tally,
    incremented: Tally,
    answer: usize,
    read: usize,
    reset: Tally,
)
    requires
        exists|tally: &mut Tally| #[trigger]
            call_ensures(Tally::increment, (tally,), answer) && *tally == before && *final(tally)
                == incremented,
        call_ensures(Tally::get, (&before,), read),
        exists|tally: &mut Tally| #[trigger]
            call_ensures(Tally::reset, (tally,), ()) && *tally == before && *final(tally)
                == reset,
    ensures
        answer == incremented.count,
        before.count < usize::MAX ==> incremented.count == before.count + 1,
        before.count == usize::MAX ==> incremented.count == 0,
        read == before.count,
        reset.count == 0,
{
}

/// Every handle on a counter works on the one tally behind its lock, which starts at zero.
pub proof fn law_a_counter_works_on_its_tally(
    fresh: ExecutionCounter,
    counter: ExecutionCounter,
    handle: ExecutionCounter,
    incremented: usize,
    read: usize,
)
    requires
        call_ensures(ExecutionCounter::new, (), fresh),
        call_ensures(ExecutionCounter::clone, (&counter,), handle),
        call_ensures(ExecutionCounter::increment, (&counter,), incremented),
        call_ensures(ExecutionCounter::get, (&counter,), read),
        call_ensures(ExecutionCounter::reset, (&counter,), ()),
    ensures
        fresh.origin() == 0,
        handle.tally() == counter.tally(),
        counter.tally().ran(Tally::increment, incremented),
        counter.tally().was_read(Tally::get, read),
        counter.tally().ran(Tally::reset, ()),
{
}

/// A pipeline that is made to fail at a step has the failing handler as the only one in `on`
/// there; its other phases, and every other step, are left alone.
pub proof fn law_a_failing_step_has_one_handler<K: Callbacks>(
    before: Pipeline<K>,
    step_name: &str,
    failing: K::Handler,
    i: int,
    after: Pipeline<K>,
)
    requires
        before.wf(),
        edit_laws::stands_at(before, i, step_name@),
        exists|p: &mut Pipeline<K>, r: &mut Pipeline<K>| #[trigger]
            call_ensures(Pipeline::<K>::fail_at, (p, step_name, failing), r) && *p == before && *r
                == after,
    ensures
        edit_laws::touches_only(before, step_name@, after),
        after.steps@[i]@ == (StepView {
            on: seq![StepHandler::<K>::Root(failing)],
            sub_handled: false,
            ..before.steps@[i]@
        }),
{
    edit_laws::lemma_step_at(before, i, step_name@);
    edit_laws::lemma_touches_only(
        before,
        step_name@,
        i,
        (StepView {
            on: seq![StepHandler::<K>::Root(failing)],
            sub_handled: false,
            ..before.steps@[i]@
        }),
        after,
    );
}

/// A no-op pipeline has a required step for each name, in order, with one handler that `make`
/// made in `on` and nothing else, and declares nothing.
pub proof fn law_a_noop_pipeline_has_one_handler_per_step<K: Callbacks, F: Fn() -> K::Handler>(
    step_names: &[&str],
    make: F,
    r: Pipeline<K>,
    i: int,
)
    requires
        definition::distinct_names(step_names@),
        call_ensures(noop_pipeline::<K, F>, (step_names, make), r),
        0 <= i < step_names@.len(),
    ensures
        r.wf(),
        r.steps@.len() == step_names@.len(),
        r@.ordering_constraints.len() == 0 && r@.produced_resources.len() == 0
            && r@.consumed_resources.len() == 0 && r@.finish_handlers.len() == 0,
        ({
            let step = r.steps@[i]@;
            &&& step.name == step_names@[i]@
            &&& !step.optional && step.skip_if is None && step.extractor is None
            &&& !step.scopes_pending && !step.sub_handled
            &&& step.before.len() == 0 && step.after.len() == 0
            &&& step.on.len() == 1
            &&& step.on[0] matches StepHandler::Root(handler) && make.ensures((), handler)
        }),
{
    assert(r@.steps.len() == r.steps@.len());
    assert(r@.steps[i] == r.steps@[i]@);
    assert(is_noop_step::<K, F>(r@.steps[i], step_names@[i]@, make));
}

/// Answers are queued at the end, and the answer that follows some is the one at that place.
pub proof fn law_answers_are_queued_in_order<X>(
    fresh: CannedResponses<X>,
    before: CannedResponses<X>,
    response: CannedResponse<X>,
    after: CannedResponses<X>,
    taken: usize,
    r: Option<&CannedResponse<X>>,
)
    requires
        call_ensures(CannedResponses::<X>::new, (), fresh),
        exists|queue: &mut CannedResponses<X>| #[trigger]
            call_ensures(CannedResponses::<X>::push, (queue, response), ()) && *queue == before
                && *final(queue) == after,
        call_ensures(CannedResponses::<X>::after, (&before, taken), r),
    ensures
        fresh.queued@.len() == 0,
        after.queued@.len() == before.queued@.len() + 1,
        after.queued@.last() == response,
        forall|i: int|
            0 <= i < before.queued@.len() ==> #[trigger] after.queued@[i] == before.queued@[i],
        r is Some <==> taken < before.queued@.len(),
        r matches Some(answer) ==> *answer == before.queued@[taken as int],
{
}

/// Each run takes one answer while there are any, the one at the place that it is told, and none
/// is taken twice or passed over.
pub proof fn law_each_run_takes_one_answer(
    before: Taken,
    queued: usize,
    after: Taken,
    place: usize,
)
    requires
        exists|taken: &mut Taken| #[trigger]
            call_ensures(Taken::advance, (taken, queued), place) && *taken == before
                && *final(taken) == after,
    ensures
        place == before.count,
        before.count < queued ==> after.count == before.count + 1,
        before.count >= queued ==> after.count == before.count,
{
}

/// The contexts of the runs are recorded in order, counted, and handed out as clones in order.
pub proof fn law_contexts_are_recorded_in_order<C: Clone>(
    before: Vec<C>,
    context: C,
    after: Vec<C>,
    count: usize,
    copies: Vec<C>,
)
    requires
        exists|seen: &mut Vec<C>| #[trigger]
            call_ensures(record_context::<C>, (seen, context), ()) && *seen == before
                && *final(seen) == after,
        call_ensures(count_of::<C>, (&before,), count),
        call_ensures(copies_of::<C>, (&before,), copies),
    ensures
        after@.len() == before@.len() + 1,
        after@.last() == context,
        forall|i: int| 0 <= i < before@.len() ==> #[trigger] after@[i] == before@[i],
        count == before@.len(),
        copies@.len() == before@.len(),
        forall|i: int| 0 <= i < copies@.len() ==> cloned(before@[i], #[trigger] copies@[i]),
{
}

/// What is queued on a mock is queued behind all that was, and changes neither its base behaviour
/// nor its record.
pub proof fn law_a_mock_queues_in_order<C: Clone, X, B>(
    before: MockPipeline<C, X, B>,
    make_error: X,
    completed: MockPipeline<C, X, B>,
    stopped: MockPipeline<C, X, B>,
    failed: MockPipeline<C, X, B>,
)
    requires
        exists|m: &mut MockPipeline<C, X, B>, r: &mut MockPipeline<C, X, B>| #[trigger]
            call_ensures(MockPipeline::<C, X, B>::then_completed, (m,), r) && *m == before && *r
                == completed,
        exists|m: &mut MockPipeline<C, X, B>, r: &mut MockPipeline<C, X, B>| #[trigger]
            call_ensures(MockPipeline::<C, X, B>::then_stopped, (m,), r) && *m == before && *r
                == stopped,
        exists|m: &mut MockPipeline<C, X, B>, r: &mut MockPipeline<C, X, B>| #[trigger]
            call_ensures(MockPipeline::<C, X, B>::then_error, (m, make_error), r) && *m == before
                && *r == failed,
    ensures
        completed.script() == before.script().push(CannedResponse::Completed),
        stopped.script() == before.script().push(CannedResponse::Stopped),
        failed.script() == before.script().push(CannedResponse::Error(make_error)),
        completed.behaviour() == before.behaviour() && stopped.behaviour() == before.behaviour()
            && failed.behaviour() == before.behaviour(),
        completed.seen() == before.seen() && stopped.seen() == before.seen() && failed.seen()
            == before.seen(),
        completed.taken() == before.taken() && stopped.taken() == before.taken()
            && failed.taken() == before.taken(),
{
}

/// A mock starts with nothing queued, nothing taken and nothing seen. A run is recorded with its
/// context, and answered with the queued answer at the place that it took, or by the base
/// behaviour where none is left.
pub proof fn law_a_mock_answers_each_run<C: Clone, X, B>(
    base: B,
    fresh: MockPipeline<C, X, B>,
    mock: &MockPipeline<C, X, B>,
    context: C,
    answer: Option<&CannedResponse<X>>,
    behaviour: &B,
    count: usize,
    contexts: Vec<C>,
)
    requires
        call_ensures(MockPipeline::<C, X, B>::new, (base,), fresh),
        call_ensures(MockPipeline::<C, X, B>::begin_run, (mock, context), answer),
        call_ensures(MockPipeline::<C, X, B>::base, (mock,), behaviour),
        call_ensures(MockPipeline::<C, X, B>::run_count, (mock,), count),
        call_ensures(MockPipeline::<C, X, B>::contexts, (mock,), contexts),
    ensures
        fresh.behaviour() == base,
        fresh.script().len() == 0 && fresh.taken_at_origin() == 0
            && fresh.contexts_at_origin().len() == 0,
        mock.seen().ran_on(context, record_context::<C>, ()),
        exists|place: usize| #[trigger]
            mock.taken().ran_on(mock.script().len() as usize, Taken::advance, place) && (
            answer is Some <==> place < mock.script().len()) && (answer matches Some(response)
                ==> *response == mock.script()[place as int]),
        *behaviour == mock.behaviour(),
        mock.seen().was_read(count_of::<C>, count),
        mock.seen().was_read(copies_of::<C>, contexts),
{
    let place = choose|place: usize| #[trigger]
        mock.taken().ran_on(mock.script().len() as usize, Taken::advance, place) && is_answer(
            mock.script(),
            place as int,
            answer,
        );
    assert(mock.taken().ran_on(mock.script().len() as usize, Taken::advance, place));
}

/// A list of names matches another exactly where both are as long and have the same name at each
/// place.
pub proof fn law_names_match_place_by_place(actual: Vec<String>, expected: &[&str], r: bool)
    requires
        call_ensures(steps_match, (&actual, expected), r),
    ensures
        r ==> actual@.len() == expected@.len() && forall|i: int|
            0 <= i < actual@.len() ==> (#[trigger] actual@[i])@ == expected@[i]@,
        !r ==> actual@.len() != expected@.len() || exists|i: int|
            0 <= i < actual@.len() && (#[trigger] actual@[i])@ != expected@[i]@,
{
}

/// An outcome matches where it is there and is the expected one, in kind, step and message.
pub proof fn law_an_outcome_matches_only_itself(
    actual: Option<RunOutcome>,
    expected: RunOutcome,
    r: bool,
)
    requires
        call_ensures(outcome_matches, (&actual, &expected), r),
    ensures
        r ==> actual is Some,
        actual == Some(expected) ==> r,
        r ==> match (actual->Some_0, expected) {
            (RunOutcome::Completed, b) => b is Completed,
            (RunOutcome::Stopped, b) => b is Stopped,
            (RunOutcome::Cancelled, b) => b is Cancelled,
            (RunOutcome::Errored { step, message }, b) => {
                &&& b matches RunOutcome::Errored { step: other_step, message: other_message }
                &&& step@ == other_step@
                &&& message@ == other_message@
            },
        },
        ({
            &&& actual matches Some(RunOutcome::Errored { step, message })
            &&& expected matches RunOutcome::Errored { step: other_step, message: other_message }
            &&& step@ == other_step@
            &&& message@ == other_message@
        }) ==> r,
{
}

/// Whether each of the names can be found at its place, the places being in order.
pub open spec fn are_found_at(
    expected: Seq<&str>,
    actual: Seq<String>,
    places: Seq<int>,
) -> bool {
    &&& places.len() == expected.len()
    &&& forall|k: int|
        0 <= k < places.len() ==> 0 <= (#[trigger] places[k]) < actual.len() && actual[places[k]]@
            == expected[k]@
    &&& forall|k: int, l: int|
        0 <= k < l < places.len() ==> (#[trigger] places[k]) < (#[trigger] places[l])
}

/// Whether there are such places.
pub open spec fn can_be_found(expected: Seq<&str>, actual: Seq<String>) -> bool {
    exists|places: Seq<int>| are_found_at(expected, actual, places)
}

proof fn lemma_found_places(expected: Seq<&str>, actual: Seq<String>) -> (places: Seq<int>)
    requires
        occurs_in_order(expected, actual),
    ensures
        are_found_at(expected, actual, places),
    decreases expected.len(),
{
    if expected.len() == 0 {
        Seq::empty()
    } else {
        let i = choose|i: int|
            0 <= i < actual.len() && (#[trigger] actual[i])@ == expected[0]@ && occurs_in_order(
                expected.skip(1),
                actual.skip(i + 1),
            );
        let rest = lemma_found_places(expected.skip(1), actual.skip(i + 1));
        let places = seq![i] + Seq::new(rest.len(), |k: int| rest[k] + i + 1);
        assert forall|k: int| 0 <= k < places.len() implies 0 <= (#[trigger] places[k])
            < actual.len() && actual[places[k]]@ == expected[k]@ by {
            if k > 0 {
                assert(places[k] == rest[k - 1] + i + 1);
                assert(actual.skip(i + 1)[rest[k - 1]] == actual[places[k]]);
                assert(expected.skip(1)[k - 1] == expected[k]);
            }
        }
        assert forall|k: int, l: int| 0 <= k < l < places.len() implies (#[trigger] places[k]) < (
        #[trigger] places[l]) by {
            assert(places[l] == rest[l - 1] + i + 1);
            if k > 0 {
                assert(places[k] == rest[k - 1] + i + 1);
                assert(rest[k - 1] < rest[l - 1]);
            }
        }
        places
    }
}

proof fn lemma_places_found(expected: Seq<&str>, actual: Seq<String>, places: Seq<int>)
    requires
        are_found_at(expected, actual, places),
    ensures
        occurs_in_order(expected, actual),
    decreases expected.len(),
{
    if expected.len() > 0 {
        let i = places[0];
        let rest = Seq::new((places.len() - 1) as nat, |k: int| places[k + 1] - i - 1);
        assert forall|k: int| 0 <= k < rest.len() implies 0 <= (#[trigger] rest[k]) < actual.skip(
            i + 1,
        ).len() && actual.skip(i + 1)[rest[k]]@ == expected.skip(1)[k]@ by {
            assert(places[0] < places[k + 1]);
            assert(actual.skip(i + 1)[rest[k]] == actual[places[k + 1]]);
            assert(expected.skip(1)[k] == expected[k + 1]);
        }
        assert forall|k: int, l: int| 0 <= k < l < rest.len() implies (#[trigger] rest[k]) < (
        #[trigger] rest[l]) by {
            assert(places[k + 1] < places[l + 1]);
        }
        lemma_places_found(expected.skip(1), actual.skip(i + 1), rest);
        assert(actual[i]@ == expected[0]@);
    }
}

/// The names are found in order exactly where there are places for them in order. Otherwise the
/// first that is not found is the one up to which all can be found, and beyond which they cannot.
pub proof fn law_the_first_name_out_of_order_is_found(
    actual: Vec<String>,
    expected: &[&str],
    r: Option<usize>,
)
    requires
        call_ensures(first_out_of_order, (&actual, expected), r),
    ensures
        r is None <==> can_be_found(expected@, actual@),
        r matches Some(k) ==> {
            &&& k < expected@.len()
            &&& can_be_found(expected@.take(k as int), actual@)
            &&& !can_be_found(expected@.take(k + 1), actual@)
        },
{
    match r {
        None => {
            let places = lemma_found_places(expected@, actual@);
            assert(are_found_at(expected@, actual@, places));
        },
        Some(k) => {
            let places = lemma_found_places(expected@.take(k as int), actual@);
            assert(are_found_at(expected@.take(k as int), actual@, places));
            let longer = expected@.take(k + 1);
            if can_be_found(longer, actual@) {
                let places = choose|places: Seq<int>| are_found_at(longer, actual@, places);
                lemma_places_found(longer, actual@, places);
            }
            if can_be_found(expected@, actual@) {
                let places = choose|places: Seq<int>| are_found_at(expected@, actual@, places);
                let firsts = places.take(k + 1);
                assert(are_found_at(longer, actual@, firsts));
            }
        },
    }
}

/// A report of events has a line for each, in order: the event in words, indented by four spaces,
/// alike for every event.
pub proof fn law_a_report_has_a_line_per_event(
    events: &[TraceEvent],
    r: String,
    i: int,
    j: int,
    one: String,
    other: String,
)
    requires
        call_ensures(format_events, (events,), r),
        0 <= i < events@.len(),
        0 <= j < events@.len(),
        call_ensures(TraceEvent::to_string, (&events@[i],), one),
        call_ensures(TraceEvent::to_string, (&events@[j],), other),
    ensures
        exists|lines: Seq<Seq<char>>|
            r@ == #[trigger] text::joined(lines, "\n"@) && lines.len() == events@.len()
                && lines[i] == "    "@ + one@ && lines[j] == "    "@ + other@,
{
    let lines = events@.map_values(event_line());
    assert(r@ == text::joined(lines, "\n"@));
    assert(lines[i] == event_line()(events@[i]));
    assert(lines[j] == event_line()(events@[j]));
}

/// A default counter stands at zero, and a clone of a test error is equal to it.
pub proof fn law_default_counters_stand_at_zero(
    counter: ExecutionCounter,
    error: TestError,
    copy: TestError,
)
    requires
        call_ensures(ExecutionCounter::default, (), counter),
        call_ensures(TestError::clone, (&error,), copy),
    ensures
        counter.origin() == 0,
        copy == error,
{
}

} // verus!
