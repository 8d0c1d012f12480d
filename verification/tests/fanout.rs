//! Fan-out: the bounded join and the verdict on its branches.

use orka::fanout::joiner::{BoundedJoin, JoinAction, JoinReply};
use orka::fanout::spawned_output;
use orka::test_util::TestError;
use orka::{
    CancelToken, ContextData, FanOut, FanOutItemOutcome, FanOutPolicy, FanOutResults, OrkaError,
    PipelineControl, PipelineResult,
};

type Ctx = ContextData<usize, ()>;
type Output = Result<PipelineResult, TestError>;
type Results = FanOutResults<Ctx, TestError>;
type Custom = fn(&Results) -> bool;
type Fan = FanOut<(), (), Custom>;

/// A branch that is pending for some polls and then has its output.
struct Branch {
    polls_left: usize,
    output: Option<Output>,
}

fn branch(polls: usize, output: Output) -> Branch {
    Branch { polls_left: polls, output: Some(output) }
}

fn done() -> Output {
    Ok(PipelineResult::Completed)
}

fn failed(message: &str) -> Output {
    Err(TestError::Handler(message.to_string()))
}

/// What driving a join showed.
struct Watched {
    /// The branches in the order in which they were first polled.
    started: Vec<usize>,
    /// The branches in the order in which they finished.
    finished: Vec<usize>,
    /// The most branches in flight at once.
    peak: usize,
    results: Results,
}

fn drive(fan: &Fan, mut branches: Vec<Branch>, mut cancel_after: Option<usize>) -> Watched {
    let token = fan.cancel.clone();
    let contexts: Vec<Ctx> = fan.contexts((0..branches.len()).collect());
    let mut join: BoundedJoin<PipelineResult, TestError> = fan.run(branches.len());
    let mut started: Vec<usize> = Vec::new();
    let mut finished: Vec<usize> = Vec::new();
    let mut peak = 0;
    let is_set = |token: &Option<CancelToken>| match token {
        Some(token) => token.is_cancelled(),
        None => false,
    };
    loop {
        match join.action() {
            JoinAction::ReadToken => join.advance(JoinReply::Token(is_set(&token))),
            JoinAction::Poll { branch } => {
                if !started.contains(&branch) {
                    started.push(branch);
                }
                peak = peak.max(started.len() - finished.len());
                let b = &mut branches[branch];
                let output = if b.polls_left == 0 {
                    finished.push(branch);
                    b.output.take()
                } else {
                    b.polls_left -= 1;
                    None
                };
                join.advance(JoinReply::Branch(output));
                if cancel_after == Some(finished.len()) {
                    cancel_after = None;
                    token.as_ref().unwrap().cancel();
                }
            }
            JoinAction::Wait => join.begin_poll(),
            JoinAction::Ready => break,
        }
    }
    let outputs = join.into_results();
    let results = fan.settle(contexts, outputs, is_set(&token));
    Watched { started, finished, peak, results }
}

fn fan() -> Fan {
    FanOut::new(())
}

#[test]
fn respects_the_concurrency_limit() {
    let seen = drive(&fan().max_concurrent(3), (0..9).map(|_| branch(5, done())).collect(), None);
    assert_eq!(seen.results.len(), 9);
    assert_eq!(seen.results.succeeded(), 9);
    assert_eq!(seen.peak, 3);
}

#[test]
fn a_limit_of_one_is_fully_sequential() {
    let seen = drive(&fan().max_concurrent(1), (0..4).map(|_| branch(2, done())).collect(), None);
    assert_eq!(seen.results.succeeded(), 4);
    assert_eq!(seen.peak, 1);
    assert_eq!(seen.finished, vec![0, 1, 2, 3]);
}

#[test]
fn more_items_than_the_limit_still_all_complete() {
    let seen = drive(&fan().max_concurrent(2), (0..10).map(|_| branch(1, done())).collect(), None);
    assert_eq!(seen.results.succeeded(), 10);
    for (i, item) in seen.results.items().iter().enumerate() {
        assert_eq!(item.index, i);
        assert_eq!(item.context.with_ref(|id| *id), i);
    }
}

#[test]
fn results_keep_input_order_even_when_completion_order_is_reversed() {
    let ladder: Vec<Branch> = (0..5).map(|id| branch((5 - id) * 6, done())).collect();
    let seen = drive(&fan(), ladder, None);
    assert_eq!(seen.finished, vec![4, 3, 2, 1, 0]);
    assert_eq!(seen.results.cloned_oks(), vec![0, 1, 2, 3, 4], "input order, not completion order");
}

#[test]
fn per_item_errors_stay_typed_and_keep_their_index() {
    let branches: Vec<Branch> = (0..5)
        .map(|id| branch(0, if id % 2 == 1 { failed(&format!("item {} failed", id)) } else { done() }))
        .collect();
    let results = drive(&fan(), branches, None).results;
    assert_eq!(results.succeeded(), 3);
    assert_eq!(results.failed(), 2);
    let errors: Vec<(usize, String)> =
        results.errors().into_iter().map(|(i, e)| (i, e.to_string())).collect();
    assert_eq!(errors.len(), 2);
    assert_eq!(errors[0].0, 1);
    assert_eq!(errors[1].0, 3);
    assert!(errors[0].1.contains("item 1 failed"));
    match &results.items()[1].outcome {
        FanOutItemOutcome::Failed(TestError::Handler(msg)) => assert_eq!(msg, "item 1 failed"),
        other => panic!("expected a typed Handler error, got {:?}", other),
    }
    assert_eq!(results.oks().len(), 3);
    assert_eq!(results.into_first_error(), Some(TestError::Handler("item 1 failed".to_string())));
}

#[test]
fn fail_fast_drains_in_flight_branches_instead_of_cancelling_them() {
    let ladder = vec![
        branch(0, failed("first item fails immediately")),
        branch(25, done()),
        branch(25, done()),
        branch(0, done()),
        branch(0, done()),
    ];
    let seen = drive(&fan().policy(FanOutPolicy::FailFast).max_concurrent(3), ladder, None);
    assert!(!seen.results.satisfied(), "a failure means FailFast is unmet");
    assert_eq!(seen.results.failed(), 1);
    assert_eq!(seen.results.not_started(), 2);
    assert!(seen.results.items()[3].outcome.is_not_started());
    assert!(seen.results.items()[4].outcome.is_not_started());
    let mut ran = seen.finished.clone();
    ran.sort_unstable();
    assert_eq!(ran, vec![0, 1, 2], "the branches in flight were drained");
}

#[test]
fn without_fail_fast_an_error_stops_nothing() {
    let branches = vec![branch(0, failed("boom")), branch(0, done()), branch(0, done())];
    let seen = drive(&fan().max_concurrent(1), branches, None);
    assert_eq!(seen.started, vec![0, 1, 2]);
    assert_eq!(seen.results.not_started(), 0);
}

fn three_of_five() -> Vec<Branch> {
    (0..5)
        .map(|id| branch(0, if id >= 3 { failed(&format!("item {} failed", id)) } else { done() }))
        .collect()
}

#[test]
fn policy_verdicts() {
    let collect_all = drive(&fan(), three_of_five(), None).results;
    assert!(collect_all.satisfied(), "CollectAll never fails on branch errors");
    assert_eq!((collect_all.succeeded(), collect_all.failed()), (3, 2));

    let verdict = |fan: Fan| drive(&fan, three_of_five(), None).results.satisfied();
    assert!(!verdict(fan().policy(FanOutPolicy::RequireAll)));
    assert!(verdict(fan().policy(FanOutPolicy::RequireAtLeast(3))));
    assert!(!verdict(fan().policy(FanOutPolicy::RequireAtLeast(4))));
    assert!(verdict(fan().custom_policy(|r| r.items()[0].outcome.is_success())));
    assert!(!verdict(fan().custom_policy(|r| r.items()[4].outcome.is_success())));
}

#[test]
fn into_control_returns_the_first_typed_error_then_falls_back_to_policy_unmet() {
    let failing = vec![branch(0, failed("boom")), branch(0, failed("boom"))];
    let results = drive(&fan().policy(FanOutPolicy::RequireAll), failing, None).results;
    assert_eq!(results.into_control().unwrap_err(), TestError::Handler("boom".into()));

    let stopping = vec![
        branch(0, Ok(PipelineResult::Stopped)),
        branch(0, Ok(PipelineResult::Stopped)),
    ];
    let stopped = drive(&fan().custom_policy(|_| false), stopping, None).results;
    assert_eq!(stopped.succeeded(), 2, "a stopped branch ran without error");
    assert_eq!(stopped.stopped(), 2);
    match stopped.into_control().unwrap_err() {
        TestError::Orka(msg) => assert!(msg.contains("FanOutPolicyUnmet"), "got: {}", msg),
        other => panic!("expected the synthesized policy error, got {:?}", other),
    }

    let fine = drive(&fan(), vec![branch(0, done())], None).results;
    assert_eq!(fine.into_control().unwrap(), PipelineControl::Continue);
}

#[test]
fn require_all_is_unmet_over_branches_that_stopped() {
    let stopping = || {
        vec![branch(0, Ok(PipelineResult::Stopped)), branch(0, Ok(PipelineResult::Stopped))]
    };
    let results = drive(&fan().policy(FanOutPolicy::RequireAll), stopping(), None).results;
    assert!(!results.satisfied());
    assert_eq!((results.succeeded(), results.stopped(), results.failed()), (2, 2, 0));
    assert_eq!(
        results.into_control().unwrap_err(),
        TestError::from(OrkaError::FanOutPolicyUnmet {
            policy: "RequireAll".to_string(),
            total: 2,
            succeeded: 2,
            failed: 0,
            not_started: 0,
        })
    );

    let at_least = drive(&fan().policy(FanOutPolicy::RequireAtLeast(2)), stopping(), None).results;
    assert!(at_least.satisfied());
    let complete = vec![branch(0, done()), branch(1, done())];
    let all = drive(&fan().policy(FanOutPolicy::RequireAll), complete, None).results;
    assert!(all.satisfied());
    let one_stops = vec![branch(0, done()), branch(0, Ok(PipelineResult::Stopped))];
    let mixed = drive(&fan().policy(FanOutPolicy::RequireAll), one_stops, None).results;
    assert!(!mixed.satisfied());
}

#[test]
fn branches_run_under_the_token_of_their_fan_out() {
    let token = CancelToken::new();
    let fan_out = fan().with_cancel(token.clone());
    let contexts: Vec<Ctx> = fan_out.contexts(vec![7, 8]);
    assert_eq!(contexts[0].with_ref(|id| *id), 7);
    assert_eq!(contexts[1].with_ref(|id| *id), 8);
    assert!(!contexts[1].cancellation().is_cancelled());
    token.cancel();
    assert!(contexts[0].cancellation().is_cancelled());
    assert!(contexts[1].cancellation().is_cancelled());

    let independent: Vec<Ctx> = fan().contexts(vec![1, 2]);
    independent[0].cancellation().cancel();
    assert!(!independent[1].cancellation().is_cancelled());
}

#[test]
fn empty_and_single_item_collections() {
    let empty = drive(&fan(), Vec::new(), None).results;
    assert!(empty.is_empty());
    assert!(empty.satisfied(), "CollectAll over nothing is satisfied");
    let one = drive(&fan(), vec![branch(0, done())], None).results;
    assert_eq!(one.len(), 1);
    assert_eq!(one.succeeded(), 1);
    assert!(matches!(
        one.items()[0].outcome,
        FanOutItemOutcome::Completed(PipelineResult::Completed)
    ));
}

#[test]
fn results_display_summarises_the_run() {
    let branches = vec![branch(0, failed("nope")), branch(0, done()), branch(0, done())];
    let results = drive(&fan().policy(FanOutPolicy::RequireAll), branches, None).results;
    let rendered = results.to_string();
    assert!(rendered.contains("3 item(s)"), "got: {}", rendered);
    assert!(rendered.contains("2 succeeded"), "got: {}", rendered);
    assert!(rendered.contains("1 failed"), "got: {}", rendered);
    assert!(rendered.contains("RequireAll: unmet"), "got: {}", rendered);
}

#[test]
fn cancelling_drains_in_flight_branches_instead_of_dropping_them() {
    let ladder = vec![
        branch(5, done()),
        branch(40, done()),
        branch(40, done()),
        branch(0, done()),
        branch(0, done()),
    ];
    let seen = drive(&fan().with_cancel(CancelToken::new()).max_concurrent(3), ladder, Some(1));
    assert!(seen.results.was_cancelled());
    assert_eq!(seen.results.not_started(), 2, "items 3 and 4 never started");
    let mut drained = seen.finished.clone();
    drained.sort_unstable();
    assert_eq!(drained, vec![0, 1, 2], "the three in-flight branches each ran to their end");
    assert!(seen.results.items()[1].outcome.is_success());
    assert_eq!(seen.started, vec![0, 1, 2], "nothing starts once the token is set");
    assert!(!seen.results.satisfied());
}

#[test]
fn cancelled_branches_are_reported_apart_from_never_started_ones() {
    let branches: Vec<Branch> =
        (0..6).map(|_| branch(0, Ok(PipelineResult::Cancelled))).collect();
    let seen = drive(&fan().with_cancel(CancelToken::new()).max_concurrent(2), branches, Some(1));
    assert!(seen.results.was_cancelled());
    assert_eq!(seen.results.cancelled(), 2, "both in-flight branches were interrupted");
    assert_eq!(seen.results.not_started(), 4);
    assert_eq!(seen.results.succeeded(), 0);
    assert_eq!(seen.results.failed(), 0);
    assert!(seen.started.contains(&0), "an interrupted branch did real work");
    assert!(!seen.started.contains(&5), "one that never started did not");
    assert!(seen.results.items()[0].outcome.is_cancelled());
    assert!(seen.results.items()[5].outcome.is_not_started());
}

#[test]
fn interrupted_and_finished_branches_are_told_apart() {
    let branches = vec![
        branch(0, Ok(PipelineResult::Cancelled)),
        branch(1, done()),
        branch(0, done()),
    ];
    let seen = drive(&fan().max_concurrent(2).with_cancel(CancelToken::new()), branches, Some(1));
    assert_eq!(seen.results.cancelled(), 1);
    assert_eq!(seen.results.succeeded(), 1);
    assert_eq!(seen.results.not_started(), 1);
}

#[test]
fn a_cancelled_fanout_is_unmet_even_under_collect_all() {
    let branches: Vec<Branch> = (0..4).map(|_| branch(0, done())).collect();
    let token = CancelToken::new();
    token.cancel();
    let fan_out = fan().policy(FanOutPolicy::CollectAll).with_cancel(token);
    let results = drive(&fan_out, branches, None).results;
    assert!(results.was_cancelled());
    assert!(!results.satisfied(), "CollectAll claims everything ran, and it did not");
    assert_eq!(results.not_started(), 4);
    assert!(results.to_string().contains("cancelled"), "got: {}", results.to_string());
    assert_eq!(
        results.into_control().unwrap(),
        PipelineControl::Stop,
        "cancellation is an outcome, not a branch failure"
    );
}

#[test]
fn a_lost_branch_is_reported_with_its_index() {
    let lost: Output = spawned_output(None, 3);
    match lost {
        Err(TestError::Orka(msg)) => assert!(msg.contains("FanOutBranchLost { index: 3 }"), "{}", msg),
        other => panic!("expected a lost branch, got {:?}", other),
    }
    let kept: Output = spawned_output(Some(failed("own")), 3);
    assert_eq!(kept, failed("own"));
    let direct: Result<PipelineResult, OrkaError> = spawned_output(None, 12);
    assert_eq!(
        direct.unwrap_err().to_string(),
        "Fan-out branch 12 did not run to completion (its task panicked or was aborted)"
    );
}

#[test]
fn every_branch_is_counted_once() {
    let branches = vec![
        branch(0, done()),
        branch(0, failed("x")),
        branch(0, Ok(PipelineResult::Cancelled)),
        branch(0, Ok(PipelineResult::Stopped)),
    ];
    let results = drive(&fan(), branches, None).results;
    assert_eq!(
        results.succeeded() + results.failed() + results.cancelled() + results.not_started(),
        results.len()
    );
}

#[test]
fn policies_render_their_names() {
    assert_eq!(FanOutPolicy::CollectAll.to_string(), "CollectAll");
    assert_eq!(FanOutPolicy::FailFast.to_string(), "FailFast");
    assert_eq!(FanOutPolicy::RequireAll.to_string(), "RequireAll");
    assert_eq!(FanOutPolicy::RequireAtLeast(7).to_string(), "RequireAtLeast(7)");
}
