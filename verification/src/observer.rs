//! Observers of pipeline execution, and the collector that buffers what it is told.

use std::sync::Arc;
use vstd::prelude::*;

use crate::lock::Guarded;
use crate::seqs;
use crate::trace;
use crate::trace::{HandlerOutcome, RunOutcome, RunTrace, StepPhase, TraceEvent};

verus! {

/// An observer of pipeline execution.
///
/// The observer attached to a pipeline is taken once at the start of each run, so attaching
/// one while a run is in flight misses that run and catches the next.
pub trait PipelineObserver: Send + Sync {
    /// Called at each event, before execution proceeds. Must not block.
    fn on_event(&self, event: &TraceEvent);

    /// Called when a handler fails, before the event that reports it. Does nothing by
    /// default.
    fn on_handler_error(&self, run_id: u64, step: &str, phase: StepPhase, message: &str) {
    }
}

impl<T: PipelineObserver + ?Sized> PipelineObserver for Arc<T> {
    fn on_event(&self, event: &TraceEvent)
        ensures
            call_ensures(T::on_event, (&**self, event), ()),
    {
        (**self).on_event(event)
    }

    fn on_handler_error(&self, run_id: u64, step: &str, phase: StepPhase, message: &str)
        ensures
            call_ensures(T::on_handler_error, (&**self, run_id, step, phase, message), ()),
    {
        (**self).on_handler_error(run_id, step, phase, message)
    }
}

/// Fans out to several observers, in order.
pub struct CompositeObserver<O> {
    pub observers: Vec<O>,
}

impl<O> CompositeObserver<O> {
    /// A composite of no observers.
    pub fn new() -> (r: Self)
        ensures
            r.observers@.len() == 0,
    {
        CompositeObserver { observers: Vec::new() }
    }

    /// A composite of the given observers.
    pub fn with(observers: Vec<O>) -> (r: Self)
        ensures
            r.observers == observers,
    {
        CompositeObserver { observers }
    }

    /// Appends an observer; it receives events after those added before it.
    pub fn push(&mut self, observer: O) -> (r: &mut Self)
        ensures
            r.observers@ == old(self).observers@.push(observer),
            *final(self) == *final(r),
    {
        self.observers.push(observer);
        self
    }
}

impl<O> Default for CompositeObserver<O> {
    fn default() -> (r: Self)
        ensures
            r.observers@.len() == 0,
    {
        Self::new()
    }
}

/// Whether telling each of the observers once, in order, by `tell` can lead from the state
/// `from` to the state `to`.
pub open spec fn told_in_order<O, A, F: Fn(A, &O) -> A>(
    observers: Seq<O>,
    tell: F,
    from: A,
    to: A,
) -> bool
    decreases observers.len(),
{
    if observers.len() == 0 {
        to == from
    } else {
        exists|before: A|
            told_in_order(observers.drop_last(), tell, from, before) && #[trigger] tell.ensures(
                (before, &observers.last()),
                to,
            )
    }
}

impl<O> CompositeObserver<O> {
    /// Tells each observer once, in the order in which they were added, by `tell`, which is
    /// handed what the call before it left and returns what it leaves to the next.
    pub fn tell_each<A, F: Fn(A, &O) -> A>(&self, from: A, tell: F) -> (to: A)
        requires
            forall|state: A, observer: &O| #[trigger] tell.requires((state, observer)),
        ensures
            told_in_order(self.observers@, tell, from, to),
    {
        let ghost start = from;
        let mut state = from;
        let mut i: usize = 0;
        while i < self.observers.len()
            invariant
                i <= self.observers.len(),
                forall|state: A, observer: &O| #[trigger] tell.requires((state, observer)),
                told_in_order(self.observers@.take(i as int), tell, start, state),
            decreases self.observers.len() - i,
        {
            let ghost before = state;
            state = tell(state, &self.observers[i]);
            proof {
                let told = self.observers@.take(i as int + 1);
                assert(told.drop_last() =~= self.observers@.take(i as int));
                assert(tell.ensures((before, &told.last()), state));
            }
            i += 1;
        }
        proof {
            assert(self.observers@.take(i as int) =~= self.observers@);
        }
        state
    }
}

/// Tells one observer of an event, which is handed on to the next.
pub fn tell_event<'e, O: PipelineObserver>(event: &'e TraceEvent, observer: &O) -> (r:
    &'e TraceEvent)
    ensures
        r == event,
        call_ensures(O::on_event, (observer, event), ()),
{
    observer.on_event(event);
    event
}

/// The failure of a handler, as observers are told of it.
#[derive(Clone, Copy)]
pub struct ToldError<'e> {
    pub run_id: u64,
    pub step: &'e str,
    pub phase: StepPhase,
    pub message: &'e str,
}

/// Tells one observer of a failure, which is handed on to the next.
pub fn tell_error<'e, O: PipelineObserver>(error: ToldError<'e>, observer: &O) -> (r: ToldError<
    'e,
>)
    ensures
        r == error,
        call_ensures(
            O::on_handler_error,
            (observer, error.run_id, error.step, error.phase, error.message),
            (),
        ),
{
    observer.on_handler_error(error.run_id, error.step, error.phase, error.message);
    error
}

impl<O: PipelineObserver> PipelineObserver for CompositeObserver<O> {
    /// Tells every observer of the event: each once, in the order in which they were added.
    fn on_event(&self, event: &TraceEvent)
        ensures
            told_in_order(self.observers@, tell_event::<O>, event, event),
            forall|i: int|
                0 <= i < self.observers@.len() ==> call_ensures(
                    O::on_event,
                    (&#[trigger] self.observers@[i], event),
                    (),
                ),
    {
        let told = self.tell_each(event, tell_event::<O>);
        proof {
            lemma_handed_on(self.observers@, tell_event::<O>, event, told);
        }
    }

    /// Tells every observer of the failure: each once, in the order in which they were added.
    fn on_handler_error(&self, run_id: u64, step: &str, phase: StepPhase, message: &str)
        ensures
            ({
                let error = ToldError { run_id, step, phase, message };
                told_in_order(self.observers@, tell_error::<O>, error, error)
            }),
            forall|i: int|
                0 <= i < self.observers@.len() ==> call_ensures(
                    O::on_handler_error,
                    (&#[trigger] self.observers@[i], run_id, step, phase, message),
                    (),
                ),
    {
        let error = ToldError { run_id, step, phase, message };
        let told = self.tell_each(error, tell_error::<O>);
        proof {
            lemma_handed_on(self.observers@, tell_error::<O>, error, told);
        }
    }
}

/// Where `tell` hands on what it was handed, every observer is told of what came first, and that
/// is what is left in the end.
proof fn lemma_handed_on<O, A, F: Fn(A, &O) -> A>(observers: Seq<O>, tell: F, from: A, to: A)
    requires
        told_in_order(observers, tell, from, to),
        forall|before: A, observer: &O, after: A| #[trigger]
            tell.ensures((before, observer), after) ==> after == before,
    ensures
        to == from,
        forall|i: int|
            0 <= i < observers.len() ==> tell.ensures((from, &#[trigger] observers[i]), from),
    decreases observers.len(),
{
    if observers.len() > 0 {
        let before = choose|before: A|
            told_in_order(observers.drop_last(), tell, from, before) && #[trigger] tell.ensures(
                (before, &observers.last()),
                to,
            );
        lemma_handed_on(observers.drop_last(), tell, from, before);
        assert forall|i: int| 0 <= i < observers.len() implies tell.ensures(
            (from, &#[trigger] observers[i]),
            from,
        ) by {
            if i < observers.len() - 1 {
                assert(observers.drop_last()[i] == observers[i]);
            }
        }
    }
}

/// An observer that was pushed is told after all that were there before, which are told as
/// they were without it: each once, in order, and then the new one.
pub proof fn law_a_pushed_observer_is_told_last<O, A, F: Fn(A, &O) -> A>(
    observers: Seq<O>,
    pushed: O,
    tell: F,
    from: A,
    to: A,
)
    ensures
        told_in_order(observers.push(pushed), tell, from, to) <==> exists|before: A|
            told_in_order(observers, tell, from, before) && #[trigger] tell.ensures(
                (before, &pushed),
                to,
            ),
{
    let longer = observers.push(pushed);
    assert(longer.drop_last() =~= observers);
    assert(longer.last() == pushed);
    if told_in_order(longer, tell, from, to) {
        let before = choose|before: A|
            told_in_order(longer.drop_last(), tell, from, before) && #[trigger] tell.ensures(
                (before, &longer.last()),
                to,
            );
        assert(tell.ensures((before, &pushed), to));
    }
    if exists|before: A|
        told_in_order(observers, tell, from, before) && #[trigger] tell.ensures(
            (before, &pushed),
            to,
        ) {
        let before = choose|before: A|
            told_in_order(observers, tell, from, before) && #[trigger] tell.ensures(
                (before, &pushed),
                to,
            );
        assert(tell.ensures((before, &longer.last()), to));
    }
}

/// The observers that are there, the first before the second.
pub open spec fn present<O>(first: Option<O>, second: Option<O>) -> Seq<O> {
    match (first, second) {
        (None, None) => Seq::empty(),
        (Some(a), None) => seq![a],
        (None, Some(b)) => seq![b],
        (Some(a), Some(b)) => seq![a, b],
    }
}

/// Combines two optional observers, so that both see every event rather than one displacing
/// the other.
pub fn combine_observers<O>(first: Option<O>, second: Option<O>) -> (r: Option<
    CompositeObserver<O>,
>)
    ensures
        match r {
            Some(both) => both.observers@ == present(first, second) && both.observers@.len() > 0,
            None => present(first, second).len() == 0,
        },
{
    let mut observers: Vec<O> = Vec::new();
    let ghost expected = present(first, second);
    if let Some(observer) = first {
        observers.push(observer);
    }
    if let Some(observer) = second {
        observers.push(observer);
    }
    proof {
        assert(observers@ =~= expected);
    }
    if observers.len() == 0 {
        None
    } else {
        Some(CompositeObserver::with(observers))
    }
}

/// Appends an event to a log.
pub fn append(log: &mut Vec<TraceEvent>, event: TraceEvent)
    ensures
        final(log)@ == old(log)@.push(event),
{
    log.push(event);
}

/// A copy of a log.
pub fn copy_of(log: &Vec<TraceEvent>) -> (r: Vec<TraceEvent>)
    ensures
        r@ == log@,
{
    log.clone()
}

/// Empties a log.
pub fn discard(log: &mut Vec<TraceEvent>)
    ensures
        final(log)@ == Seq::<TraceEvent>::empty(),
{
    log.clear();
}

/// A cheaply cloneable, thread-safe buffer of events.
///
/// This is an accumulating log: it grows for as long as it stays attached. The queries read
/// the whole log; where several runs were recorded, [`for_run`](Self::for_run) scopes them to
/// one. Other handles may write the log at any time, so a contract says what was run on the log
/// behind this collector's lock, and a query is stated of the log that it found there.
pub struct TraceCollector {
    inner: Arc<Guarded<Vec<TraceEvent>>>,
}

impl TraceCollector {
    /// The log that the collector was made with.
    pub closed spec fn origin(self) -> Seq<TraceEvent> {
        self.inner.origin()@
    }

    /// An empty collector.
    pub fn new() -> (r: Self)
        ensures
            r.origin() == Seq::<TraceEvent>::empty(),
    {
        TraceCollector { inner: Arc::new(Guarded::new(Vec::new())) }
    }

    /// The log, behind its lock.
    pub closed spec fn log(self) -> Guarded<Vec<TraceEvent>> {
        *self.inner
    }

    /// Appends one event.
    pub fn record(&self, event: TraceEvent)
        ensures
            self.log().ran_on(event, append, ()),
    {
        self.inner.with_arg(event, append);
    }

    /// A snapshot of all recorded events, in order.
    pub fn events(&self) -> (r: Vec<TraceEvent>)
        ensures
            self.log().was_read(copy_of, r),
    {
        self.inner.read(copy_of)
    }

    /// Discards all recorded events.
    pub fn clear(&self)
        ensures
            self.log().ran(discard, ()),
    {
        self.inner.with(discard);
    }

    /// The distinct run ids seen, in order of first appearance.
    pub fn run_ids(&self) -> (r: Vec<u64>)
        ensures
            exists|log: Vec<TraceEvent>| #[trigger]
                self.log().was_read(copy_of, log)
                    && r@ == seqs::distinct(log@.map_values(trace::run_of())),
    {
        let log = self.events();
        assert(self.log().was_read(copy_of, log));
        trace::run_ids(log.as_slice())
    }

    /// A snapshot of a single run's events.
    pub fn for_run(&self, run_id: u64) -> (r: RunTrace)
        ensures
            r.run_id == run_id,
            exists|log: Vec<TraceEvent>| #[trigger]
                self.log().was_read(copy_of, log)
                    && r.events@ == log@.filter(trace::of_run(run_id)),
    {
        let log = self.events();
        assert(self.log().was_read(copy_of, log));
        trace::for_run(log.as_slice(), run_id)
    }

    /// Names of the steps that completed, in order.
    pub fn completed_steps(&self) -> (r: Vec<String>)
        ensures
            exists|log: Vec<TraceEvent>| #[trigger]
                self.log().was_read(copy_of, log) && r@ == log@.filter_map(trace::completed_step()),
    {
        let log = self.events();
        assert(self.log().was_read(copy_of, log));
        trace::completed_steps(log.as_slice())
    }

    /// Names of the steps that were skipped, in order.
    pub fn skipped_steps(&self) -> (r: Vec<String>)
        ensures
            exists|log: Vec<TraceEvent>| #[trigger]
                self.log().was_read(copy_of, log) && r@ == log@.filter_map(trace::skipped_step()),
    {
        let log = self.events();
        assert(self.log().was_read(copy_of, log));
        trace::skipped_steps(log.as_slice())
    }

    /// Whether the named step completed in any recorded run.
    pub fn step_completed(&self, step: &str) -> (r: bool)
        ensures
            exists|log: Vec<TraceEvent>| #[trigger]
                self.log().was_read(copy_of, log)
                    && r == trace::names(log@.filter_map(trace::completed_step()), step@),
    {
        let log = self.events();
        assert(self.log().was_read(copy_of, log));
        trace::step_completed(log.as_slice(), step)
    }

    /// Whether the named step was skipped in any recorded run.
    pub fn step_skipped(&self, step: &str) -> (r: bool)
        ensures
            exists|log: Vec<TraceEvent>| #[trigger]
                self.log().was_read(copy_of, log)
                    && r == trace::names(log@.filter_map(trace::skipped_step()), step@),
    {
        let log = self.events();
        assert(self.log().was_read(copy_of, log));
        trace::step_skipped(log.as_slice(), step)
    }

    /// Outcomes of every handler invocation for a step and phase, in order.
    pub fn handler_finishes(&self, step: &str, phase: StepPhase) -> (r: Vec<HandlerOutcome>)
        ensures
            exists|log: Vec<TraceEvent>| #[trigger]
                self.log().was_read(copy_of, log)
                    && r@ == log@.filter_map(trace::finish_of(step@, phase)),
    {
        let log = self.events();
        assert(self.log().was_read(copy_of, log));
        trace::handler_finishes(log.as_slice(), step, phase)
    }

    /// How many full runs were started.
    pub fn run_count(&self) -> (r: usize)
        ensures
            exists|log: Vec<TraceEvent>| #[trigger]
                self.log().was_read(copy_of, log) && r == log@.filter(trace::starts_run()).len(),
    {
        let log = self.events();
        assert(self.log().was_read(copy_of, log));
        trace::run_count(log.as_slice())
    }

    /// The outcome of the run that finished last, if any did.
    pub fn last_outcome(&self) -> (r: Option<RunOutcome>)
        ensures
            exists|log: Vec<TraceEvent>| #[trigger]
                self.log().was_read(copy_of, log)
                    && r == trace::last_of(log@.filter_map(trace::finished_outcome())),
    {
        let log = self.events();
        assert(self.log().was_read(copy_of, log));
        trace::last_outcome(log.as_slice())
    }
}

impl Clone for TraceCollector {
    fn clone(&self) -> (r: Self)
        ensures
            r == *self,
    {
        TraceCollector { inner: Arc::clone(&self.inner) }
    }
}

impl Default for TraceCollector {
    fn default() -> (r: Self)
        ensures
            r.origin() == Seq::<TraceEvent>::empty(),
    {
        Self::new()
    }
}

impl PipelineObserver for TraceCollector {
    /// Records the event.
    fn on_event(&self, event: &TraceEvent)
        ensures
            self.log().ran_on(*event, append, ()),
    {
        self.record(event.clone());
    }
}

/// A composite begins with no observers or with those given, and one that is pushed comes behind
/// all others.
pub proof fn law_observers_are_kept_in_order<O>(
    fresh: CompositeObserver<O>,
    given: Vec<O>,
    with: CompositeObserver<O>,
    before: CompositeObserver<O>,
    pushed: O,
    after: CompositeObserver<O>,
)
    requires
        call_ensures(CompositeObserver::<O>::new, (), fresh),
        call_ensures(CompositeObserver::<O>::with, (given,), with),
        exists|c: &mut CompositeObserver<O>, r: &mut CompositeObserver<O>| #[trigger]
            call_ensures(CompositeObserver::<O>::push, (c, pushed), r) && *c == before && *r
                == after,
    ensures
        fresh.observers@.len() == 0,
        with.observers@ == given@,
        after.observers@.len() == before.observers@.len() + 1,
        after.observers@.last() == pushed,
        forall|i: int|
            0 <= i < before.observers@.len() ==> #[trigger] after.observers@[i]
                == before.observers@[i],
{
}

/// Whether the states are those between the observers' turns: the first is what was handed in,
/// the last is what came out, and each observer was told in turn.
pub open spec fn are_told_in_turn<O, A, F: Fn(A, &O) -> A>(
    observers: Seq<O>,
    tell: F,
    from: A,
    to: A,
    states: Seq<A>,
) -> bool {
    &&& states.len() == observers.len() + 1
    &&& states[0] == from
    &&& states.last() == to
    &&& forall|i: int|
        0 <= i < observers.len() ==> tell.ensures(
            (states[i], &#[trigger] observers[i]),
            states[i + 1],
        )
}

proof fn lemma_told_in_turn<O, A, F: Fn(A, &O) -> A>(
    observers: Seq<O>,
    tell: F,
    from: A,
    to: A,
) -> (states: Seq<A>)
    requires
        told_in_order(observers, tell, from, to),
    ensures
        are_told_in_turn(observers, tell, from, to, states),
    decreases observers.len(),
{
    if observers.len() == 0 {
        seq![from]
    } else {
        let before = choose|before: A|
            told_in_order(observers.drop_last(), tell, from, before) && #[trigger] tell.ensures(
                (before, &observers.last()),
                to,
            );
        let rest = lemma_told_in_turn(observers.drop_last(), tell, from, before);
        let states = rest.push(to);
        assert forall|i: int| 0 <= i < observers.len() implies tell.ensures(
            (states[i], &#[trigger] observers[i]),
            states[i + 1],
        ) by {
            if i < observers.len() - 1 {
                assert(observers.drop_last()[i] == observers[i]);
            }
        }
        states
    }
}

/// Every observer of a composite is told once, in the order in which they were added: each is
/// handed what the one before it left.
pub proof fn law_each_observer_is_told_in_turn<O, A, F: Fn(A, &O) -> A>(
    composite: CompositeObserver<O>,
    from: A,
    tell: F,
    to: A,
)
    requires
        call_ensures(CompositeObserver::<O>::tell_each::<A, F>, (&composite, from, tell), to),
    ensures
        exists|states: Seq<A>| are_told_in_turn(composite.observers@, tell, from, to, states),
{
    let states = lemma_told_in_turn(composite.observers@, tell, from, to);
    assert(are_told_in_turn(composite.observers@, tell, from, to, states));
}

/// An observer is told of the event itself and of the failure as it happened, and both are handed
/// on unchanged.
pub proof fn law_what_is_told_is_handed_on<'e, O: PipelineObserver>(
    event: &'e TraceEvent,
    error: ToldError<'e>,
    observer: &O,
    told: &'e TraceEvent,
    told_error: ToldError<'e>,
)
    requires
        call_ensures(tell_event::<O>, (event, observer), told),
        call_ensures(tell_error::<O>, (error, observer), told_error),
    ensures
        told == event,
        told_error == error,
        call_ensures(O::on_event, (observer, event), ()),
        call_ensures(
            O::on_handler_error,
            (observer, error.run_id, error.step, error.phase, error.message),
            (),
        ),
{
}

/// A composite tells each of its observers of the event, and of a failure with its run, step,
/// phase and message; a collector records the event.
pub proof fn law_a_composite_tells_every_observer<O: PipelineObserver>(
    composite: &CompositeObserver<O>,
    event: &TraceEvent,
    run_id: u64,
    step: &str,
    phase: StepPhase,
    message: &str,
    collector: &TraceCollector,
)
    requires
        call_ensures(CompositeObserver::<O>::on_event, (composite, event), ()),
        call_ensures(
            CompositeObserver::<O>::on_handler_error,
            (composite, run_id, step, phase, message),
            (),
        ),
        call_ensures(TraceCollector::on_event, (collector, event), ()),
    ensures
        forall|i: int|
            0 <= i < composite.observers@.len() ==> call_ensures(
                O::on_event,
                (&#[trigger] composite.observers@[i], event),
                (),
            ),
        forall|i: int|
            0 <= i < composite.observers@.len() ==> call_ensures(
                O::on_handler_error,
                (&#[trigger] composite.observers@[i], run_id, step, phase, message),
                (),
            ),
        collector.log().ran_on(*event, append, ()),
{
}

/// A default composite has no observers, and a default collector an empty log.
pub proof fn law_default_observers_are_empty<O>(
    composite: CompositeObserver<O>,
    collector: TraceCollector,
)
    requires
        call_ensures(CompositeObserver::<O>::default, (), composite),
        call_ensures(TraceCollector::default, (), collector),
    ensures
        composite.observers@.len() == 0,
        collector.origin().len() == 0,
{
}

} // verus!
