//! Messages, traces, contexts, resources, the registry and the test utilities.

use orka::conditional::{as_provider_failure, factory_failure};
use orka::registry::{dispatch_mismatch, refused_outcome, unregistered, Orka};
use orka::runner::unattributed_outcome;
use orka::subcontext::{as_extractor_failure, check_downcast, merge_mismatch};
use orka::test_util::{
    first_out_of_order, format_events, outcome_matches, steps_match, CannedResponse,
    CannedResponses, ExecutionCounter, MockPipeline, Taken, Tally, TestError,
};
use orka::time::timed;
use orka::{
    CancelToken, CompositeObserver, ContextData, HandlerOutcome, OrkaError, PipelineResult, PlannedAction, RunOutcome,
    SkipReason, StepPhase, StepPlan, TraceCollector, TraceEvent, TraceEventKind,
};
use std::any::{Any, TypeId};
use std::time::Duration;

type Bag = Box<dyn Any + Send>;

fn cause(message: &str) -> anyhow::Error {
    anyhow::Error::msg(message.to_string())
}

fn named(name: &str) -> String {
    name.to_string()
}

// --- Error messages ---

#[test]
fn every_error_is_written_for_debugging_as_its_variant_and_fields() {
    let errors = vec![
        OrkaError::StepNotFound { step_name: named("a \"b\"\n") },
        OrkaError::HandlerMissing { step_name: named("s") },
        OrkaError::ExtractorFailure { step_name: named("s"), source: cause("why") },
        OrkaError::PipelineProviderFailure {
            step_name: named("s"),
            source: cause("low").context("high"),
        },
        OrkaError::TypeMismatch { step_name: named("s"), expected_type: named("T") },
        OrkaError::HandlerError { source: cause("why") },
        OrkaError::ConfigurationError { step_name: named("s"), message: named("m") },
        OrkaError::Internal(named("m")),
        OrkaError::NoConditionalScopeMatched { step_name: named("s") },
        OrkaError::FanOutPolicyUnmet {
            policy: named("RequireAll"),
            total: 12,
            succeeded: 3,
            failed: 4,
            not_started: 0,
        },
        OrkaError::FanOutBranchLost { index: 10 },
        OrkaError::ResourceMissing { resource: named("r") },
        OrkaError::StepTimedOut { step_name: named("s"), after: Duration::from_millis(1500) },
    ];
    for error in errors {
        assert_eq!(error.to_debug(), format!("{:?}", error));
        let text = error.to_debug();
        assert_eq!(TestError::from(error), TestError::Orka(text));
    }
    assert_eq!(
        OrkaError::StepTimedOut { step_name: named("s"), after: Duration::from_millis(1500) }
            .to_debug(),
        "StepTimedOut { step_name: \"s\", after: 1.5s }"
    );
}

#[test]
fn every_error_says_what_went_wrong() {
    let cases: Vec<(OrkaError, &str)> = vec![
        (OrkaError::StepNotFound { step_name: named("s") }, "Step not found: s"),
        (
            OrkaError::HandlerMissing { step_name: named("s") },
            "Handler missing for non-optional step: s",
        ),
        (
            OrkaError::ExtractorFailure { step_name: named("s"), source: cause("why") },
            "Extractor failed for step 's'. Source: why",
        ),
        (
            OrkaError::PipelineProviderFailure { step_name: named("s"), source: cause("why") },
            "Pipeline provider failed for conditional scope in step 's'. Source: why",
        ),
        (
            OrkaError::TypeMismatch { step_name: named("s"), expected_type: named("T") },
            "Type mismatch during context downcast (expected T, step: 's')",
        ),
        (
            OrkaError::HandlerError { source: cause("why") },
            "Error in user-provided handler or external operation. Source: why",
        ),
        (
            OrkaError::ConfigurationError { step_name: named("s"), message: named("m") },
            "Configuration error for step 's': m",
        ),
        (OrkaError::Internal(named("m")), "Internal Orka error: m"),
        (
            OrkaError::NoConditionalScopeMatched { step_name: named("s") },
            "No conditional scope's condition matched for step 's'",
        ),
        (
            OrkaError::FanOutPolicyUnmet {
                policy: named("RequireAll"),
                total: 10,
                succeeded: 7,
                failed: 2,
                not_started: 1,
            },
            "Fan-out policy RequireAll unmet: 7 of 10 succeeded (2 failed, 1 never started)",
        ),
        (
            OrkaError::FanOutBranchLost { index: 204 },
            "Fan-out branch 204 did not run to completion (its task panicked or was aborted)",
        ),
        (
            OrkaError::ResourceMissing { resource: named("spec") },
            "Required resource 'spec' is not present in the context (was its producing step \
             skipped or removed?)",
        ),
        (
            OrkaError::StepTimedOut { step_name: named("s"), after: Duration::from_millis(1500) },
            "Step 's' timed out after 1.5s",
        ),
    ];
    for (error, expected) in cases {
        assert_eq!(error.to_string(), expected);
    }
}

#[test]
fn a_foreign_error_becomes_a_handler_error_with_its_own_text() {
    let parse: Result<i32, _> = "x".parse::<i32>();
    let foreign = anyhow::Error::new(parse.unwrap_err());
    let error = OrkaError::from(foreign);
    assert!(matches!(error, OrkaError::HandlerError { .. }));
    assert_eq!(
        error.to_string(),
        "Error in user-provided handler or external operation. Source: invalid digit found in \
         string"
    );
}

#[test]
fn errors_with_a_cause_are_attributed() {
    let from_handler = as_extractor_failure(named("step"), OrkaError::from(cause("why")));
    assert_eq!(from_handler.to_string(), "Extractor failed for step 'step'. Source: why");
    let renamed = as_extractor_failure(
        named("step"),
        OrkaError::ExtractorFailure { step_name: named("other"), source: cause("why") },
    );
    assert_eq!(renamed.to_string(), "Extractor failed for step 'step'. Source: why");
    let kept = as_extractor_failure(named("step"), OrkaError::Internal(named("m")));
    assert!(matches!(kept, OrkaError::Internal(_)));

    let provider = as_provider_failure(named("scope"), OrkaError::from(cause("why")));
    assert_eq!(
        provider.to_string(),
        "Pipeline provider failed for conditional scope in step 'scope'. Source: why"
    );
    let kept = as_provider_failure(named("scope"), OrkaError::StepNotFound { step_name: named("x") });
    assert!(matches!(kept, OrkaError::StepNotFound { .. }));
}

#[test]
fn a_failed_factory_keeps_its_error_as_text() {
    let failed = factory_failure("Order", &OrkaError::Internal(named("no database")));
    assert_eq!(
        failed.to_string(),
        "Pipeline provider failed for conditional scope in step 'functional_provider_for_Order'. \
         Source: Factory for SData='Order' failed: Internal Orka error: no database"
    );
}

#[test]
fn a_downcast_is_judged() {
    assert!(check_downcast(true, true, "s", "T", "id").is_ok());
    assert_eq!(
        check_downcast(false, true, "s", "T", "id").unwrap_err().to_string(),
        "Type mismatch during context downcast (expected ContextData<T> (underlying SData TypeId: \
         id), step: 's')"
    );
    assert_eq!(
        check_downcast(true, false, "s", "T", "id").unwrap_err().to_string(),
        "Internal Orka error: Internal type mismatch during ContextData downcast for step 's'. \
         Expected ContextData<T> but downcast failed despite TypeId match."
    );
    assert_eq!(
        merge_mismatch("T").to_string(),
        "Internal Orka error: Internal type mismatch merging sub-context back: expected \
         ContextData<T>."
    );
}

#[test]
fn an_overrun_carries_the_step_and_its_budget() {
    let budget = Duration::from_millis(10);
    let overrun: Result<u8, OrkaError> = timed("await-artifact", budget, None);
    match overrun.unwrap_err() {
        OrkaError::StepTimedOut { step_name, after } => {
            assert_eq!(step_name, "await-artifact");
            assert_eq!(after, budget);
        }
        other => panic!("expected a timeout, got {:?}", other),
    }
}

#[test]
fn timed_passes_the_value_through_when_it_finishes_in_time() {
    let budget = Duration::from_secs(30);
    assert_eq!(timed("quick", budget, Some(21 * 2)).unwrap(), 42);
    let inner: Result<i32, &str> = timed("quick", budget, Some(Ok(7))).unwrap();
    assert_eq!(inner.unwrap(), 7);
}

// --- Traces ---

fn event(run_id: u64, kind: TraceEventKind) -> TraceEvent {
    TraceEvent { run_id, kind }
}

#[test]
fn every_event_renders_in_words() {
    let outcome = RunOutcome::Errored { step: named("s"), message: named("m") };
    let cases: Vec<(TraceEventKind, &str)> = vec![
        (TraceEventKind::RunStarted, "run started"),
        (TraceEventKind::StepStarted { step: named("s"), index: 0 }, "step 's' started (index 0)"),
        (
            TraceEventKind::StepSkipped {
                step: named("s"),
                index: 12,
                reason: SkipReason::OptionalWithoutHandlers,
            },
            "step 's' skipped (index 12): optional without handlers",
        ),
        (
            TraceEventKind::HandlerFinished {
                step: named("s"),
                phase: StepPhase::Before,
                handler_index: 3,
                outcome: HandlerOutcome::Error(named("e")),
            },
            "step 's' before handler #3: error: e",
        ),
        (
            TraceEventKind::StepCompleted { step: named("s"), index: 1 },
            "step 's' completed (index 1)",
        ),
        (
            TraceEventKind::RunCancelled { step: named("s"), index: 1 },
            "run cancelled before step 's' (index 1)",
        ),
        (
            TraceEventKind::ScopeMatched { step: named("s"), scope_index: 2 },
            "step 's' matched conditional scope #2",
        ),
        (
            TraceEventKind::ScopeNotMatched { step: named("s") },
            "step 's' matched no conditional scope",
        ),
        (
            TraceEventKind::FinalizerFinished { handler_index: 0, outcome: HandlerOutcome::Continue },
            "finish handler #0: continue",
        ),
        (
            TraceEventKind::ResourcesReleased { count: 40 },
            "released 40 run-scoped resource(s)",
        ),
        (
            TraceEventKind::RunFinished { outcome: outcome.clone() },
            "run finished: errored at 's': m",
        ),
    ];
    for (kind, expected) in cases {
        assert_eq!(kind.to_string(), expected);
        assert_eq!(event(99, kind).to_string(), format!("[run 99] {}", expected));
    }
    assert_eq!(StepPhase::On.to_string(), "on");
    assert_eq!(StepPhase::After.to_string(), "after");
    assert_eq!(HandlerOutcome::Stop.to_string(), "stop");
    assert_eq!(RunOutcome::Completed.to_string(), "completed");
    assert_eq!(RunOutcome::Stopped.to_string(), "stopped");
    assert_eq!(RunOutcome::Cancelled.to_string(), "cancelled");
    assert_eq!(SkipReason::SkipCondition { label: None }.to_string(), "skip_if condition");
    assert_eq!(
        StepPlan { name: named("s"), action: PlannedAction::Cancelled }.to_string(),
        "s: cancelled"
    );
}

fn two_runs() -> TraceCollector {
    let trace = TraceCollector::new();
    for kind in [
        (7, TraceEventKind::RunStarted),
        (8, TraceEventKind::RunStarted),
        (7, TraceEventKind::StepCompleted { step: named("a"), index: 0 }),
        (
            8,
            TraceEventKind::StepSkipped {
                step: named("a"),
                index: 0,
                reason: SkipReason::SkipCondition { label: None },
            },
        ),
        (
            7,
            TraceEventKind::HandlerFinished {
                step: named("b"),
                phase: StepPhase::On,
                handler_index: 0,
                outcome: HandlerOutcome::Stop,
            },
        ),
        (7, TraceEventKind::RunFinished { outcome: RunOutcome::Stopped }),
        (8, TraceEventKind::RunFinished { outcome: RunOutcome::Completed }),
    ] {
        trace.record(event(kind.0, kind.1));
    }
    trace
}

#[test]
fn runs_are_kept_apart() {
    let trace = two_runs();
    assert_eq!(trace.run_ids(), vec![7, 8]);
    assert_eq!(trace.run_count(), 2);
    assert_eq!(trace.last_outcome(), Some(RunOutcome::Completed));
    let first = trace.for_run(7);
    assert_eq!(first.run_id(), 7);
    assert_eq!(first.events().len(), 4);
    assert_eq!(first.completed_steps(), vec!["a"]);
    assert!(first.skipped_steps().is_empty());
    assert!(first.step_completed("a") && !first.step_completed("b"));
    assert!(!first.step_skipped("a"));
    assert_eq!(first.handler_finishes("b", StepPhase::On), vec![HandlerOutcome::Stop]);
    assert!(first.handler_finishes("b", StepPhase::After).is_empty());
    assert_eq!(first.last_outcome(), Some(RunOutcome::Stopped));
    let second = trace.for_run(8);
    assert!(second.step_skipped("a"));
    assert!(trace.for_run(9).events().is_empty());
    assert_eq!(trace.for_run(9).last_outcome(), None);
}

#[test]
fn a_cleared_collector_is_empty_for_every_handle() {
    let trace = two_runs();
    let other = trace.clone();
    assert_eq!(other.events().len(), 7);
    trace.clear();
    assert!(other.events().is_empty());
}

// --- Contexts ---

#[derive(Clone, Debug, Default, PartialEq)]
struct Build {
    app_spec: Option<String>,
    count: usize,
}

fn build() -> ContextData<Build, Bag> {
    ContextData::new(Build::default())
}

#[test]
fn a_write_through_one_handle_is_read_through_another() {
    let ctx = build();
    let other = ctx.clone();
    other.with_mut(|c| c.count += 1);
    assert_eq!(ctx.with_ref(|c| c.count), 1);
    assert_eq!(ctx.lock().read().count, 1);
}

#[test]
fn test_with_ref_and_with_mut_are_await_safe() {
    let ctx = build();
    let initial = ctx.with_ref(|c| c.count);
    ctx.with_mut(|c| c.count = initial + 1);
    ctx.with_mut(|c| c.count += 1);
    assert_eq!(ctx.with_ref(|c| c.count), 2);
}

#[derive(Debug, PartialEq)]
struct ParsedSpecs {
    entries: Vec<String>,
}

#[test]
fn test_with_mut_handles_non_clone_intermediates_in_place() {
    let ctx: ContextData<Option<ParsedSpecs>, Bag> = ContextData::new(None);
    ctx.with_mut(|c| *c = Some(ParsedSpecs { entries: vec![named("alpha")] }));
    ctx.with_mut(|c| c.as_mut().unwrap().entries.push(named("beta")));
    let taken = ctx.with_mut(|c| c.take()).expect("still present");
    assert_eq!(taken, ParsedSpecs { entries: vec![named("alpha"), named("beta")] });
    assert!(ctx.with_ref(|c| c.is_none()));
}

#[test]
fn a_projection_shares_neither_resources_nor_token() {
    let ctx = build();
    ctx.resources().put(Box::new(1_u8));
    ctx.cancellation().cancel();
    let sub: ContextData<usize, Bag> = ctx.project(|c: &Build| c.count);
    sub.with_mut(|n| *n = 9);
    assert_eq!(ctx.with_ref(|c| c.count), 0);
    assert!(sub.resources().is_empty());
    assert!(!sub.cancellation().is_cancelled());
}

#[test]
fn require_reads_a_value_that_is_there() {
    let ctx: ContextData<Build, Bag> =
        ContextData::new(Build { app_spec: Some(named("spec")), count: 0 });
    assert_eq!(ctx.require("app spec", |c: &Build| c.app_spec.clone()).unwrap(), "spec");
}

#[test]
fn require_can_be_used_outside_a_pipeline() {
    let err = build().require("app spec", |c: &Build| c.app_spec.clone()).unwrap_err();
    assert!(matches!(err, OrkaError::ResourceMissing { ref resource } if resource == "app spec"));
}

#[test]
fn an_installed_token_is_seen_by_every_handle() {
    let ctx = build();
    let other = ctx.clone();
    let token = CancelToken::new();
    ctx.install_cancellation(token.clone());
    token.cancel();
    assert!(other.cancellation().is_cancelled());
    assert!(!ContextData::<Build, Bag>::default().cancellation().is_cancelled());
}

// --- Resources ---

fn is_u32(entry: &Bag) -> bool {
    entry.is::<u32>()
}

fn unpack(entry: Bag) -> u32 {
    *entry.downcast::<u32>().unwrap()
}

#[test]
fn with_borrows_the_most_recently_stashed_value_of_a_type() {
    let ctx = build();
    let text = || {
        ctx.resources().with(
            |e: &Bag| e.is::<String>(),
            |e| e.downcast_ref::<String>().unwrap().clone(),
        )
    };
    assert_eq!(text(), None);
    ctx.resources()
        .put(Box::new("first".to_string()))
        .put(Box::new("second".to_string()))
        .put(Box::new(7_u32));
    assert_eq!(text(), Some("second".to_string()));
    assert_eq!(ctx.resources().with(is_u32, |e| *e.downcast_ref::<u32>().unwrap()), Some(7));
    assert_eq!(ctx.resources().with(|e: &Bag| e.is::<bool>(), |_| ()), None);
    assert_eq!(ctx.resources().len(), 3);
}

#[test]
fn take_removes_permanently_and_keep_opts_out_of_the_return() {
    let ctx = build();
    ctx.resources().put(Box::new(7_u32)).put(Box::new(9_u32));
    assert_eq!(ctx.resources().take(is_u32).map(unpack), Some(9), "most recently stashed first");
    assert_eq!(ctx.resources().len(), 1);
    assert_eq!(ctx.resources().take(is_u32).map(unpack), Some(7));
    assert!(ctx.resources().is_empty());
    assert!(ctx.resources().take(is_u32).is_none());

    ctx.resources().put(Box::new(named("held")));
    let kept = ctx.resources().take_guard(|e: &Bag| e.is::<String>()).unwrap().keep();
    assert_eq!(*kept.downcast::<String>().unwrap(), "held");
    assert!(ctx.resources().is_empty(), "keeping opts out of the return");
}

#[test]
fn a_loan_given_back_is_found_first() {
    let ctx = build();
    ctx.resources().put(Box::new(1_u32)).put(Box::new(2_u32));
    let mut loan = ctx.resources().take_guard(is_u32).unwrap();
    assert_eq!(ctx.resources().len(), 1);
    *loan.get_mut() = Box::new(5_u32);
    assert!(loan.get().is::<u32>());
    loan.give_back().put(Box::new(named("later")));
    assert_eq!(ctx.resources().len(), 3);
    assert_eq!(ctx.resources().take(is_u32).map(unpack), Some(5));
    assert!(ctx.resources().take_guard(|e: &Bag| e.is::<i8>()).is_none());
    assert_eq!(ctx.resources().release_all(), 2);
    assert_eq!(ctx.resources().release_all(), 0);
}

// --- The registry and the run boundary ---

struct First;

struct Second;

#[test]
fn the_last_registration_wins_for_its_type_alone() {
    let registry: Orka<&str, &str> = Orka::default();
    let (first, second) = (TypeId::of::<First>(), TypeId::of::<Second>());
    registry.register_runner(first, "one");
    registry.register_runner(second, "two");
    registry.register_runner(first, "three");
    assert_eq!(registry.runner(first, "First").unwrap(), "three");
    assert_eq!(registry.runner(second, "Second").unwrap(), "two");
    assert_eq!(registry.pipeline(first), None, "a bare runner has no pipeline to hand back");
}

#[test]
fn an_unregistered_type_is_refused_by_its_name() {
    let registry: Orka<&str, &str> = Orka::new();
    let error = registry.runner(TypeId::of::<First>(), "First").unwrap_err();
    assert_eq!(
        error.to_string(),
        "Configuration error for step 'Orka::run': No pipeline registered for TData type First"
    );
}

#[test]
fn a_refused_run_names_the_stage_of_the_refusal() {
    assert_eq!(
        refused_outcome(&unregistered("Order")),
        RunOutcome::Errored {
            step: named("Orka::run"),
            message: named(
                "Configuration error for step 'Orka::run': No pipeline registered for TData type \
                 Order"
            ),
        }
    );
    assert_eq!(
        refused_outcome(&dispatch_mismatch("ContextData<Order>")),
        RunOutcome::Errored {
            step: named("registry_dispatch"),
            message: named(
                "Type mismatch during context downcast (expected ContextData<Order>, step: \
                 'registry_dispatch')"
            ),
        }
    );
}

#[test]
fn a_bare_result_cannot_attribute_a_failure() {
    assert_eq!(unattributed_outcome(Ok(PipelineResult::Completed)), RunOutcome::Completed);
    assert_eq!(unattributed_outcome(Ok(PipelineResult::Stopped)), RunOutcome::Stopped);
    assert_eq!(unattributed_outcome(Ok(PipelineResult::Cancelled)), RunOutcome::Cancelled);
    assert_eq!(
        unattributed_outcome(Err(named("boom"))),
        RunOutcome::Errored { step: String::new(), message: named("boom") }
    );
}

#[test]
fn queued_answers_come_first_in_the_order_they_were_queued() {
    let mut mock: MockPipeline<usize, &str, PipelineResult> =
        MockPipeline::new(PipelineResult::Completed);
    mock.then_stopped().then_error("boom").then_completed();
    let answer = |mock: &MockPipeline<usize, &'static str, PipelineResult>, ctx: usize| {
        match mock.begin_run(ctx) {
            Some(CannedResponse::Completed) => Ok(PipelineResult::Completed),
            Some(CannedResponse::Stopped) => Ok(PipelineResult::Stopped),
            Some(CannedResponse::Error(e)) => Err(*e),
            None => Ok(*mock.base()),
        }
    };
    assert_eq!(answer(&mock, 10), Ok(PipelineResult::Stopped));
    assert_eq!(answer(&mock, 11), Err("boom"));
    assert_eq!(answer(&mock, 12), Ok(PipelineResult::Completed));
    assert_eq!(answer(&mock, 13), Ok(PipelineResult::Completed));
    assert_eq!(mock.run_count(), 4);
    assert_eq!(mock.contexts(), vec![10, 11, 12, 13]);
}

#[test]
fn an_answer_queued_after_the_script_ran_out_is_the_next_one() {
    let mut mock: MockPipeline<u8, &str, ()> = MockPipeline::new(());
    assert!(mock.begin_run(1).is_none());
    mock.then_stopped();
    assert!(matches!(mock.begin_run(2), Some(CannedResponse::Stopped)));
    assert!(mock.begin_run(3).is_none());
    assert!(mock.begin_run(4).is_none());
    mock.then_error("late").then_completed();
    assert!(matches!(mock.begin_run(5), Some(CannedResponse::Error(e)) if *e == "late"));
    assert!(matches!(mock.begin_run(6), Some(CannedResponse::Completed)));
    assert!(mock.begin_run(7).is_none());
    assert_eq!(mock.contexts(), vec![1, 2, 3, 4, 5, 6, 7]);
}

#[test]
fn answers_are_taken_one_by_one_while_some_are_left() {
    let mut taken = Taken { count: 0 };
    assert_eq!(taken.advance(2), 0);
    assert_eq!(taken.advance(2), 1);
    assert_eq!(taken.advance(2), 2);
    assert_eq!(taken.count, 2);

    let mut script: CannedResponses<()> = CannedResponses::new();
    assert!(script.after(0).is_none());
    script.push(CannedResponse::Completed);
    script.push(CannedResponse::Stopped);
    assert!(matches!(script.after(0), Some(CannedResponse::Completed)));
    assert!(matches!(script.after(1), Some(CannedResponse::Stopped)));
    assert!(script.after(2).is_none());
}

// --- Test utilities ---

#[test]
fn a_count_wraps_around() {
    let mut tally = Tally { count: 41 };
    assert_eq!(tally.increment(), 42);
    assert_eq!(tally.get(), 42);
    tally.reset();
    assert_eq!(tally.get(), 0);
    assert_eq!(tally.increment(), 1);
    let mut full = Tally { count: usize::MAX };
    assert_eq!(full.increment(), 0);
}

#[test]
fn increments_count_up_over_all_clones() {
    let counter = ExecutionCounter::new();
    let clone = counter.clone();
    let other = ExecutionCounter::new();
    assert_eq!(counter.increment(), 1);
    assert_eq!(clone.increment(), 2);
    assert_eq!(counter.get(), 2);
    assert_eq!(counter.increment(), 3);
    assert_eq!(clone.get(), 3);
    clone.reset();
    clone.reset();
    assert_eq!(counter.get(), 0);
    assert_eq!(counter.increment(), 1);
    assert_eq!(other.get(), 0);
}

#[test]
fn observers_are_told_once_each_in_the_order_they_were_added() {
    let mut composite: CompositeObserver<&str> = CompositeObserver::with(vec!["a", "b"]);
    composite.push("c");
    let told = composite.tell_each(Vec::new(), |mut told: Vec<&str>, observer: &&'static str| {
        told.push(observer);
        told
    });
    assert_eq!(told, vec!["a", "b", "c"]);
}

#[test]
fn test_errors_say_what_failed() {
    assert_eq!(TestError::Handler(named("m")).to_string(), "Test handler failed: m");
    assert_eq!(TestError::Extractor(named("m")).to_string(), "Test extractor failed: m");
    assert_eq!(TestError::Provider(named("m")).to_string(), "Test pipeline provider failed: m");
    assert_eq!(TestError::ScopedTask(named("m")).to_string(), "Test scoped task failed: m");
    assert_eq!(TestError::Other(named("m")).to_string(), "m");
    assert_eq!(
        TestError::Orka(named("a \"b\"")).to_string(),
        "Orka framework error: \"a \\\"b\\\"\""
    );
    assert_eq!(
        TestError::from(OrkaError::StepNotFound { step_name: named("s") }),
        TestError::Orka(named("StepNotFound { step_name: \"s\" }"))
    );
    let error = TestError::Other(named("m"));
    assert_eq!(error.clone(), error);
}

#[test]
fn counters_count_for_every_handle() {
    let counter = ExecutionCounter::new();
    let other = counter.clone();
    assert_eq!(counter.increment(), 1);
    assert_eq!(other.increment(), 2);
    assert_eq!(counter.get(), 2);
    other.reset();
    assert_eq!(counter.get(), 0);
}

fn names(list: &[&str]) -> Vec<String> {
    list.iter().map(|s| s.to_string()).collect()
}

#[test]
fn order_is_that_of_a_subsequence() {
    let actual = names(&["a", "b", "c", "b"]);
    assert_eq!(first_out_of_order(&actual, &[]), None);
    assert_eq!(first_out_of_order(&actual, &["a", "c"]), None);
    assert_eq!(first_out_of_order(&actual, &["c", "b"]), None);
    assert_eq!(first_out_of_order(&actual, &["b", "b"]), None);
    assert_eq!(first_out_of_order(&actual, &["c", "a"]), Some(1));
    assert_eq!(first_out_of_order(&actual, &["a", "b", "x"]), Some(2));
    assert_eq!(first_out_of_order(&names(&[]), &["a"]), Some(0));
}

#[test]
fn steps_match_exactly_or_not_at_all() {
    let actual = names(&["a", "b"]);
    assert!(steps_match(&actual, &["a", "b"]));
    assert!(!steps_match(&actual, &["a"]));
    assert!(!steps_match(&actual, &["b", "a"]));
}

#[test]
fn outcomes_match_by_their_fields() {
    let errored = |step: &str| RunOutcome::Errored { step: named(step), message: named("m") };
    assert!(outcome_matches(&Some(errored("s")), &errored("s")));
    assert!(!outcome_matches(&Some(errored("s")), &errored("t")));
    assert!(!outcome_matches(&Some(RunOutcome::Completed), &RunOutcome::Stopped));
    assert!(!outcome_matches(&None, &RunOutcome::Completed));
    assert!(outcome_matches(&Some(RunOutcome::Cancelled), &RunOutcome::Cancelled));
}

#[test]
fn events_are_reported_one_to_a_line() {
    assert_eq!(format_events(&[]), "");
    assert_eq!(
        format_events(&[
            event(1, TraceEventKind::RunStarted),
            event(1, TraceEventKind::ScopeNotMatched { step: named("s") }),
        ]),
        "    [run 1] run started\n    [run 1] step 's' matched no conditional scope"
    );
}

#[test]
fn numbers_are_written_in_decimal() {
    for n in [0, 9, 10, 99, 100, 1234567890, u64::MAX] {
        let mut out = String::from("n=");
        orka::text::push_decimal(&mut out, n);
        assert_eq!(out, format!("n={}", n));
    }
    let parts = names(&["a", "b", "c"]);
    assert_eq!(orka::text::join(&parts, ", "), "a, b, c");
    assert_eq!(orka::text::join(&Vec::new(), ", "), "");
}
