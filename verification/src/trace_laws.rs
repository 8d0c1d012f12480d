//! What the queries over a log of events answer, event by event.

use vstd::prelude::*;

use crate::observer;
use crate::observer::TraceCollector;
use crate::seqs;
use crate::trace;
use crate::trace::{
    HandlerOutcome, RunOutcome, RunTrace, SkipReason, StepPhase, TraceEvent, TraceEventKind,
};

verus! {

/// Whether an event reports that a step completed.
pub open spec fn completes() -> spec_fn(TraceEvent) -> bool {
    |event: TraceEvent| event.kind is StepCompleted
}

/// Whether an event reports that a step was skipped.
pub open spec fn skips() -> spec_fn(TraceEvent) -> bool {
    |event: TraceEvent| event.kind is StepSkipped
}

/// Whether an event reports a finished handler of this step and phase.
pub open spec fn finishes(name: Seq<char>, wanted: StepPhase) -> spec_fn(TraceEvent) -> bool {
    |event: TraceEvent|
        event.kind matches TraceEventKind::HandlerFinished { step, phase, .. } && step@ == name
            && phase == wanted
}

/// Whether an event starts a full run.
pub open spec fn begins() -> spec_fn(TraceEvent) -> bool {
    |event: TraceEvent| event.kind == TraceEventKind::RunStarted
}

/// Whether an event belongs to this run.
pub open spec fn belongs(run_id: u64) -> spec_fn(TraceEvent) -> bool {
    |event: TraceEvent| event.run_id == run_id
}

/// Whether a list names the steps of all completion events, each as often as it occurs and in
/// the order of the log.
pub open spec fn lists_completed(log: Seq<TraceEvent>, r: Seq<String>) -> bool {
    exists|places: Seq<int>| #[trigger]
        seqs::picks(log, completes(), places) && places.len() == r.len() && forall|k: int|
            0 <= k < r.len() ==> log[places[k]].kind->StepCompleted_step == #[trigger] r[k]
}

/// Whether a list names the steps of all skip events, each as often as it occurs and in the
/// order of the log.
pub open spec fn lists_skipped(log: Seq<TraceEvent>, r: Seq<String>) -> bool {
    exists|places: Seq<int>| #[trigger]
        seqs::picks(log, skips(), places) && places.len() == r.len() && forall|k: int|
            0 <= k < r.len() ==> log[places[k]].kind->StepSkipped_step == #[trigger] r[k]
}

/// Whether a list holds the outcomes of all finished handlers of a step and phase, in the order
/// of the log.
pub open spec fn lists_finishes(
    log: Seq<TraceEvent>,
    name: Seq<char>,
    phase: StepPhase,
    r: Seq<HandlerOutcome>,
) -> bool {
    exists|places: Seq<int>| #[trigger]
        seqs::picks(log, finishes(name, phase), places) && places.len() == r.len() && forall|
            k: int,
        |
            0 <= k < r.len() ==> log[places[k]].kind->HandlerFinished_outcome == #[trigger] r[k]
}

/// Whether a list holds all events of a run, in the order of the log.
pub open spec fn lists_run(log: Seq<TraceEvent>, run_id: u64, r: Seq<TraceEvent>) -> bool {
    exists|places: Seq<int>| #[trigger]
        seqs::picks(log, belongs(run_id), places) && places.len() == r.len() && forall|k: int|
            0 <= k < r.len() ==> log[places[k]] == #[trigger] r[k]
}

/// Whether a number is that of the full runs that were started.
pub open spec fn counts_runs(log: Seq<TraceEvent>, n: int) -> bool {
    exists|places: Seq<int>| #[trigger] seqs::picks(log, begins(), places) && places.len() == n
}

/// Whether some completion event names the step.
pub open spec fn is_completed(log: Seq<TraceEvent>, name: Seq<char>) -> bool {
    exists|i: int|
        0 <= i < log.len() && ((#[trigger] log[i]).kind matches TraceEventKind::StepCompleted {
            step,
            ..
        } && step@ == name)
}

/// Whether some skip event names the step.
pub open spec fn is_skipped(log: Seq<TraceEvent>, name: Seq<char>) -> bool {
    exists|i: int|
        0 <= i < log.len() && ((#[trigger] log[i]).kind matches TraceEventKind::StepSkipped {
            step,
            ..
        } && step@ == name)
}

/// Whether an outcome is that of the last run that finished, `None` where none did.
pub open spec fn is_last_outcome(log: Seq<TraceEvent>, r: Option<RunOutcome>) -> bool {
    match r {
        Some(outcome) => exists|i: int|
            0 <= i < log.len() && (#[trigger] log[i]).kind == (TraceEventKind::RunFinished {
                outcome,
            }) && forall|j: int| i < j < log.len() ==> !((#[trigger] log[j]).kind is RunFinished),
        None => forall|j: int| 0 <= j < log.len() ==> !((#[trigger] log[j]).kind is RunFinished),
    }
}

/// Whether some event belongs to the run.
pub open spec fn occurs(log: Seq<TraceEvent>, id: u64) -> bool {
    exists|i: int| 0 <= i < log.len() && (#[trigger] log[i]).run_id == id
}

/// Whether one run occurs where the other has not occurred yet.
pub open spec fn occurs_before(log: Seq<TraceEvent>, earlier: u64, later: u64) -> bool {
    exists|i: int|
        0 <= i < log.len() && (#[trigger] log[i]).run_id == earlier && forall|j: int|
            0 <= j <= i ==> (#[trigger] log[j]).run_id != later
}

/// Whether the ids are those of the runs in the log, each once, in the order in which they first
/// occur.
pub open spec fn lists_run_ids(log: Seq<TraceEvent>, ids: Seq<u64>) -> bool {
    &&& forall|i: int| 0 <= i < log.len() ==> ids.contains((#[trigger] log[i]).run_id)
    &&& forall|a: int| 0 <= a < ids.len() ==> occurs(log, #[trigger] ids[a])
    &&& forall|a: int, b: int|
        0 <= a < b < ids.len() ==> occurs_before(log, #[trigger] ids[a], #[trigger] ids[b])
}

proof fn lemma_lists_completed(log: Seq<TraceEvent>)
    ensures
        lists_completed(log, log.filter_map(trace::completed_step())),
{
    let f = trace::completed_step();
    let places = seqs::lemma_filter_map_picks(log, f);
    assert((|event: TraceEvent| f(event) is Some) =~= completes());
    assert forall|k: int| 0 <= k < places.len() implies log[places[k]].kind->StepCompleted_step
        == #[trigger] log.filter_map(f)[k] by {
        assert(Some(log.filter_map(f)[k]) == f(log[places[k]]));
    }
}

proof fn lemma_lists_skipped(log: Seq<TraceEvent>)
    ensures
        lists_skipped(log, log.filter_map(trace::skipped_step())),
{
    let f = trace::skipped_step();
    let places = seqs::lemma_filter_map_picks(log, f);
    assert((|event: TraceEvent| f(event) is Some) =~= skips());
    assert forall|k: int| 0 <= k < places.len() implies log[places[k]].kind->StepSkipped_step
        == #[trigger] log.filter_map(f)[k] by {
        assert(Some(log.filter_map(f)[k]) == f(log[places[k]]));
    }
}

proof fn lemma_lists_finishes(log: Seq<TraceEvent>, name: Seq<char>, phase: StepPhase)
    ensures
        lists_finishes(log, name, phase, log.filter_map(trace::finish_of(name, phase))),
{
    let f = trace::finish_of(name, phase);
    let places = seqs::lemma_filter_map_picks(log, f);
    assert((|event: TraceEvent| f(event) is Some) =~= finishes(name, phase));
    assert forall|k: int|
        0 <= k < places.len() implies log[places[k]].kind->HandlerFinished_outcome
        == #[trigger] log.filter_map(f)[k] by {
        assert(Some(log.filter_map(f)[k]) == f(log[places[k]]));
    }
}

proof fn lemma_lists_run(log: Seq<TraceEvent>, run_id: u64)
    ensures
        lists_run(log, run_id, log.filter(trace::of_run(run_id))),
{
    let f = trace::of_run(run_id);
    let places = seqs::lemma_filter_picks(log, f);
    assert(f =~= belongs(run_id));
    assert forall|k: int| 0 <= k < places.len() implies log[places[k]]
        == #[trigger] log.filter(f)[k] by {
        assert(log.filter(f)[k] == log[places[k]]);
    }
}

proof fn lemma_counts_runs(log: Seq<TraceEvent>)
    ensures
        counts_runs(log, log.filter(trace::starts_run()).len() as int),
{
    let places = seqs::lemma_filter_picks(log, trace::starts_run());
    assert(trace::starts_run() =~= begins());
}

proof fn lemma_is_completed(log: Seq<TraceEvent>, name: Seq<char>)
    ensures
        trace::names(log.filter_map(trace::completed_step()), name) == is_completed(log, name),
{
    let f = trace::completed_step();
    let places = seqs::lemma_filter_map_picks(log, f);
    let listed = log.filter_map(f);
    if trace::names(listed, name) {
        let k = choose|k: int| 0 <= k < listed.len() && (#[trigger] listed[k])@ == name;
        assert(Some(listed[k]) == f(log[places[k]]));
        assert(log[places[k]].kind is StepCompleted);
    }
    if is_completed(log, name) {
        let i = choose|i: int|
            0 <= i < log.len() && ((#[trigger] log[i]).kind matches TraceEventKind::StepCompleted {
                step,
                ..
            } && step@ == name);
        assert((|event: TraceEvent| f(event) is Some)(log[i]));
        assert(places.contains(i));
        let k = choose|k: int| 0 <= k < places.len() && places[k] == i;
        assert(Some(listed[k]) == f(log[places[k]]));
        assert(listed[k]@ == name);
    }
}

proof fn lemma_is_skipped(log: Seq<TraceEvent>, name: Seq<char>)
    ensures
        trace::names(log.filter_map(trace::skipped_step()), name) == is_skipped(log, name),
{
    let f = trace::skipped_step();
    let places = seqs::lemma_filter_map_picks(log, f);
    let listed = log.filter_map(f);
    if trace::names(listed, name) {
        let k = choose|k: int| 0 <= k < listed.len() && (#[trigger] listed[k])@ == name;
        assert(Some(listed[k]) == f(log[places[k]]));
        assert(log[places[k]].kind is StepSkipped);
    }
    if is_skipped(log, name) {
        let i = choose|i: int|
            0 <= i < log.len() && ((#[trigger] log[i]).kind matches TraceEventKind::StepSkipped {
                step,
                ..
            } && step@ == name);
        assert((|event: TraceEvent| f(event) is Some)(log[i]));
        assert(places.contains(i));
        let k = choose|k: int| 0 <= k < places.len() && places[k] == i;
        assert(Some(listed[k]) == f(log[places[k]]));
        assert(listed[k]@ == name);
    }
}

proof fn lemma_is_last_outcome(log: Seq<TraceEvent>)
    ensures
        is_last_outcome(log, trace::last_of(log.filter_map(trace::finished_outcome()))),
{
    let f = trace::finished_outcome();
    let places = seqs::lemma_filter_map_picks(log, f);
    let listed = log.filter_map(f);
    assert forall|j: int|
        0 <= j < log.len() && (#[trigger] log[j]).kind is RunFinished implies places.contains(
        j,
    ) by {
        assert((|event: TraceEvent| f(event) is Some)(log[j]));
    }
    if listed.len() > 0 {
        let last = places.len() - 1;
        assert(Some(listed[last]) == f(log[places[last]]));
        assert forall|j: int| places[last] < j < log.len() implies !((
        #[trigger] log[j]).kind is RunFinished) by {
            if log[j].kind is RunFinished {
                let k = choose|k: int| 0 <= k < places.len() && places[k] == j;
                if k < last {
                    assert(places[k] < places[last]);
                }
            }
        }
        assert(log[places[last]].kind == (TraceEventKind::RunFinished { outcome: listed.last() }));
    }
}

proof fn lemma_lists_run_ids(log: Seq<TraceEvent>)
    ensures
        lists_run_ids(log, seqs::distinct(log.map_values(trace::run_of()))),
{
    let runs = log.map_values(trace::run_of());
    let ids = seqs::distinct(runs);
    seqs::lemma_distinct(runs);
    assert forall|i: int| 0 <= i < log.len() implies ids.contains((#[trigger] log[i]).run_id) by {
        assert(runs[i] == log[i].run_id);
        assert(runs.contains(log[i].run_id));
    }
    assert forall|a: int| 0 <= a < ids.len() implies occurs(log, #[trigger] ids[a]) by {
        assert(ids.contains(ids[a]));
        let i = choose|i: int| 0 <= i < runs.len() && runs[i] == ids[a];
        assert(log[i].run_id == ids[a]);
    }
    assert forall|a: int, b: int| 0 <= a < b < ids.len() implies occurs_before(
        log,
        #[trigger] ids[a],
        #[trigger] ids[b],
    ) by {
        let i = seqs::lemma_distinct_order(runs, a, b);
        assert forall|j: int| 0 <= j <= i implies (#[trigger] log[j]).run_id != ids[b] by {
            assert(runs[j] == log[j].run_id);
        }
        assert(log[i].run_id == ids[a]);
    }
}

/// The queries of a log list what the log holds: the steps that completed, those that were
/// skipped and the outcomes of a step's handlers, each in the order of the log, none left out and
/// none made up.
pub proof fn law_the_queries_list_what_was_logged(
    log: &[TraceEvent],
    step: &str,
    phase: StepPhase,
    completed: Vec<String>,
    skipped: Vec<String>,
    finished: Vec<HandlerOutcome>,
)
    requires
        call_ensures(trace::completed_steps, (log,), completed),
        call_ensures(trace::skipped_steps, (log,), skipped),
        call_ensures(trace::handler_finishes, (log, step, phase), finished),
    ensures
        lists_completed(log@, completed@),
        lists_skipped(log@, skipped@),
        lists_finishes(log@, step@, phase, finished@),
{
    lemma_lists_completed(log@);
    lemma_lists_skipped(log@);
    lemma_lists_finishes(log@, step@, phase);
}

/// A step is said to have completed, or to have been skipped, exactly where an event says so, and
/// the last outcome is that of the last run that finished.
pub proof fn law_the_queries_answer_what_was_logged(
    log: &[TraceEvent],
    step: &str,
    completed: bool,
    skipped: bool,
    last: Option<RunOutcome>,
)
    requires
        call_ensures(trace::step_completed, (log, step), completed),
        call_ensures(trace::step_skipped, (log, step), skipped),
        call_ensures(trace::last_outcome, (log,), last),
    ensures
        completed == is_completed(log@, step@),
        skipped == is_skipped(log@, step@),
        is_last_outcome(log@, last),
{
    lemma_is_completed(log@, step@);
    lemma_is_skipped(log@, step@);
    lemma_is_last_outcome(log@);
}

/// The runs of a log are told apart: their ids are listed once each, in the order in which they
/// first occur, the events of one run are those tagged with it, in order, and the full runs are
/// counted by their start.
pub proof fn law_the_runs_of_a_log_are_told_apart(
    log: &[TraceEvent],
    run_id: u64,
    ids: Vec<u64>,
    run: RunTrace,
    count: usize,
)
    requires
        call_ensures(trace::run_ids, (log,), ids),
        call_ensures(trace::for_run, (log, run_id), run),
        call_ensures(trace::run_count, (log,), count),
    ensures
        lists_run_ids(log@, ids@),
        run.run_id == run_id,
        lists_run(log@, run_id, run.events@),
        counts_runs(log@, count as int),
{
    lemma_lists_run_ids(log@);
    lemma_lists_run(log@, run_id);
    lemma_counts_runs(log@);
}

/// The snapshot of a run answers of its own events what a log answers of all of them.
pub proof fn law_a_snapshot_answers_of_its_own_run(
    run: RunTrace,
    step: &str,
    phase: StepPhase,
    id: u64,
    events: &[TraceEvent],
    completed: Vec<String>,
    skipped: Vec<String>,
    finished: Vec<HandlerOutcome>,
    is_complete: bool,
    is_skip: bool,
    last: Option<RunOutcome>,
)
    requires
        call_ensures(RunTrace::run_id, (&run,), id),
        call_ensures(RunTrace::events, (&run,), events),
        call_ensures(RunTrace::completed_steps, (&run,), completed),
        call_ensures(RunTrace::skipped_steps, (&run,), skipped),
        call_ensures(RunTrace::handler_finishes, (&run, step, phase), finished),
        call_ensures(RunTrace::step_completed, (&run, step), is_complete),
        call_ensures(RunTrace::step_skipped, (&run, step), is_skip),
        call_ensures(RunTrace::last_outcome, (&run,), last),
    ensures
        id == run.run_id,
        events@ == run.events@,
        lists_completed(run.events@, completed@),
        lists_skipped(run.events@, skipped@),
        lists_finishes(run.events@, step@, phase, finished@),
        is_complete == is_completed(run.events@, step@),
        is_skip == is_skipped(run.events@, step@),
        is_last_outcome(run.events@, last),
{
    let log = run.events@;
    lemma_lists_completed(log);
    lemma_lists_skipped(log);
    lemma_lists_finishes(log, step@, phase);
    lemma_is_completed(log, step@);
    lemma_is_skipped(log, step@);
    lemma_is_last_outcome(log);
}

/// Whether a log is what the collector held when it was read.
pub open spec fn was_held(collector: TraceCollector, log: Vec<TraceEvent>) -> bool {
    collector.log().was_read(observer::copy_of, log)
}

/// A collector answers of the log that it held at one moment what a log answers.
pub proof fn law_a_collector_answers_of_its_log(
    collector: TraceCollector,
    step: &str,
    phase: StepPhase,
    events: Vec<TraceEvent>,
    completed: Vec<String>,
    skipped: Vec<String>,
    finished: Vec<HandlerOutcome>,
    is_complete: bool,
    is_skip: bool,
    last: Option<RunOutcome>,
)
    requires
        call_ensures(TraceCollector::events, (&collector,), events),
        call_ensures(TraceCollector::completed_steps, (&collector,), completed),
        call_ensures(TraceCollector::skipped_steps, (&collector,), skipped),
        call_ensures(TraceCollector::handler_finishes, (&collector, step, phase), finished),
        call_ensures(TraceCollector::step_completed, (&collector, step), is_complete),
        call_ensures(TraceCollector::step_skipped, (&collector, step), is_skip),
        call_ensures(TraceCollector::last_outcome, (&collector,), last),
    ensures
        was_held(collector, events),
        exists|log: Vec<TraceEvent>| #[trigger]
            was_held(collector, log) && lists_completed(log@, completed@),
        exists|log: Vec<TraceEvent>| #[trigger]
            was_held(collector, log) && lists_skipped(log@, skipped@),
        exists|log: Vec<TraceEvent>| #[trigger]
            was_held(collector, log) && lists_finishes(log@, step@, phase, finished@),
        exists|log: Vec<TraceEvent>| #[trigger]
            was_held(collector, log) && is_complete == is_completed(log@, step@),
        exists|log: Vec<TraceEvent>| #[trigger]
            was_held(collector, log) && is_skip == is_skipped(log@, step@),
        exists|log: Vec<TraceEvent>| #[trigger]
            was_held(collector, log) && is_last_outcome(log@, last),
{
    let held = collector.log();
    let log = choose|log: Vec<TraceEvent>| #[trigger]
        held.was_read(observer::copy_of, log) && completed@ == log@.filter_map(
            trace::completed_step(),
        );
    lemma_lists_completed(log@);
    assert(was_held(collector, log));
    let log = choose|log: Vec<TraceEvent>| #[trigger]
        held.was_read(observer::copy_of, log) && skipped@ == log@.filter_map(
            trace::skipped_step(),
        );
    lemma_lists_skipped(log@);
    assert(was_held(collector, log));
    let log = choose|log: Vec<TraceEvent>| #[trigger]
        held.was_read(observer::copy_of, log) && finished@ == log@.filter_map(
            trace::finish_of(step@, phase),
        );
    lemma_lists_finishes(log@, step@, phase);
    assert(was_held(collector, log));
    let log = choose|log: Vec<TraceEvent>| #[trigger]
        held.was_read(observer::copy_of, log) && is_complete == trace::names(
            log@.filter_map(trace::completed_step()),
            step@,
        );
    lemma_is_completed(log@, step@);
    assert(was_held(collector, log));
    let log = choose|log: Vec<TraceEvent>| #[trigger]
        held.was_read(observer::copy_of, log) && is_skip == trace::names(
            log@.filter_map(trace::skipped_step()),
            step@,
        );
    lemma_is_skipped(log@, step@);
    assert(was_held(collector, log));
    let log = choose|log: Vec<TraceEvent>| #[trigger]
        held.was_read(observer::copy_of, log) && last == trace::last_of(
            log@.filter_map(trace::finished_outcome()),
        );
    lemma_is_last_outcome(log@);
    assert(was_held(collector, log));
}

/// A collector tells the runs of its log apart as the log itself does.
pub proof fn law_a_collector_tells_its_runs_apart(
    collector: TraceCollector,
    run_id: u64,
    ids: Vec<u64>,
    run: RunTrace,
    count: usize,
)
    requires
        call_ensures(TraceCollector::run_ids, (&collector,), ids),
        call_ensures(TraceCollector::for_run, (&collector, run_id), run),
        call_ensures(TraceCollector::run_count, (&collector,), count),
    ensures
        exists|log: Vec<TraceEvent>| #[trigger]
            was_held(collector, log) && lists_run_ids(log@, ids@),
        run.run_id == run_id,
        exists|log: Vec<TraceEvent>| #[trigger]
            was_held(collector, log) && lists_run(log@, run_id, run.events@),
        exists|log: Vec<TraceEvent>| #[trigger]
            was_held(collector, log) && counts_runs(log@, count as int),
{
    let held = collector.log();
    let log = choose|log: Vec<TraceEvent>| #[trigger]
        held.was_read(observer::copy_of, log) && ids@ == seqs::distinct(
            log@.map_values(trace::run_of()),
        );
    lemma_lists_run_ids(log@);
    assert(was_held(collector, log));
    let log = choose|log: Vec<TraceEvent>| #[trigger]
        held.was_read(observer::copy_of, log) && run.events@ == log@.filter(
            trace::of_run(run_id),
        );
    lemma_lists_run(log@, run_id);
    assert(was_held(collector, log));
    let log = choose|log: Vec<TraceEvent>| #[trigger]
        held.was_read(observer::copy_of, log) && count == log@.filter(trace::starts_run()).len();
    lemma_counts_runs(log@);
    assert(was_held(collector, log));
}

/// What a collector is told is what its log holds: recording puts the event behind all that were
/// recorded before, a copy of the log is the log, and clearing leaves nothing.
pub proof fn law_a_log_holds_what_was_recorded(
    before: Vec<TraceEvent>,
    event: TraceEvent,
    recorded: Vec<TraceEvent>,
    copied: Vec<TraceEvent>,
    cleared: Vec<TraceEvent>,
)
    requires
        exists|log: &mut Vec<TraceEvent>| #[trigger]
            call_ensures(observer::append, (log, event), ()) && *log == before && *final(log)
                == recorded,
        call_ensures(observer::copy_of, (&before,), copied),
        exists|log: &mut Vec<TraceEvent>| #[trigger]
            call_ensures(observer::discard, (log,), ()) && *log == before && *final(log)
                == cleared,
    ensures
        recorded@.len() == before@.len() + 1,
        forall|i: int| 0 <= i < before@.len() ==> #[trigger] recorded@[i] == before@[i],
        recorded@.last() == event,
        copied@ == before@,
        cleared@.len() == 0,
{
}

/// Recording an event, clearing the log and observing a run all work on the log behind the
/// collector's lock, which starts out empty and which every handle shares.
pub proof fn law_a_collector_works_on_its_log(
    collector: TraceCollector,
    event: TraceEvent,
    fresh: TraceCollector,
    handle: TraceCollector,
)
    requires
        call_ensures(TraceCollector::record, (&collector, event), ()),
        call_ensures(TraceCollector::clear, (&collector,), ()),
        call_ensures(TraceCollector::new, (), fresh),
        call_ensures(TraceCollector::clone, (&collector,), handle),
    ensures
        collector.log().ran_on(event, observer::append, ()),
        collector.log().ran(observer::discard, ()),
        fresh.origin().len() == 0,
        handle.log() == collector.log(),
{
}

/// A clone of anything in a trace is equal to it.
pub proof fn law_clones_are_equal(
    reason: SkipReason,
    outcome: HandlerOutcome,
    ending: RunOutcome,
    kind: TraceEventKind,
    event: TraceEvent,
    run: RunTrace,
    reason_clone: SkipReason,
    outcome_clone: HandlerOutcome,
    ending_clone: RunOutcome,
    kind_clone: TraceEventKind,
    event_clone: TraceEvent,
    run_clone: RunTrace,
)
    requires
        call_ensures(SkipReason::clone, (&reason,), reason_clone),
        call_ensures(HandlerOutcome::clone, (&outcome,), outcome_clone),
        call_ensures(RunOutcome::clone, (&ending,), ending_clone),
        call_ensures(TraceEventKind::clone, (&kind,), kind_clone),
        call_ensures(TraceEvent::clone, (&event,), event_clone),
        call_ensures(RunTrace::clone, (&run,), run_clone),
    ensures
        reason_clone == reason,
        outcome_clone == outcome,
        ending_clone == ending,
        kind_clone == kind,
        event_clone == event,
        run_clone.run_id == run.run_id,
        run_clone.events@ == run.events@,
{
}

} // verus!
