//! Fan-out: running one pipeline over every item of a collection.
//!
//! [`FanOut`] holds the configuration and judges the outcome; [`joiner`] decides which
//! branch runs when. Each branch is a full run of the pipeline on its own context.

pub mod joiner;
pub mod laws;

use vstd::prelude::*;

use crate::cancel;
use crate::cancel::CancelToken;
use crate::context_data::ContextData;
use crate::control::{PipelineControl, PipelineResult};
use crate::error::OrkaError;
use crate::fanout::joiner::{BoundedJoin, JoinStage};
use crate::seqs;
use crate::text;

verus! {

/// How a fan-out decides whether it succeeded.
#[derive(Debug, Clone, Copy, PartialEq, Eq, Structural)]
pub enum FanOutPolicy {
    /// Stop starting new branches after the first failure, let those in flight finish, and
    /// report unsatisfied.
    FailFast,
    /// Run everything and report satisfied. Failures are still in the results.
    CollectAll,
    /// Satisfied only if every branch ran to completion: a branch that was stopped by one of
    /// its own handlers did not.
    RequireAll,
    /// Satisfied if at least this many branches ran without error.
    RequireAtLeast(usize),
}

/// How a policy reads in messages.
pub open spec fn policy_text(policy: FanOutPolicy) -> Seq<char> {
    match policy {
        FanOutPolicy::FailFast => "FailFast"@,
        FanOutPolicy::CollectAll => "CollectAll"@,
        FanOutPolicy::RequireAll => "RequireAll"@,
        FanOutPolicy::RequireAtLeast(n) => "RequireAtLeast("@ + text::decimal(n as nat) + ")"@,
    }
}

impl FanOutPolicy {
    /// The policy's name.
    pub fn to_string(&self) -> (r: String)
        ensures
            r@ == policy_text(*self),
    {
        match self {
            FanOutPolicy::FailFast => "FailFast".to_string(),
            FanOutPolicy::CollectAll => "CollectAll".to_string(),
            FanOutPolicy::RequireAll => "RequireAll".to_string(),
            FanOutPolicy::RequireAtLeast(n) => {
                let mut out = "RequireAtLeast(".to_string();
                text::push_count(&mut out, *n);
                out.append(")");
                out
            },
        }
    }
}

/// A built-in policy, or a predicate over the results.
pub enum Verdict<V> {
    Builtin(FanOutPolicy),
    Custom(V),
}

/// How one branch ended.
#[derive(Debug)]
pub enum FanOutItemOutcome<E> {
    /// The branch ran without error, and completed or was stopped by one of its handlers.
    Completed(PipelineResult),
    /// The branch failed.
    Failed(E),
    /// The branch started and was interrupted by a cancellation.
    Cancelled,
    /// The branch never started. It has run no code at all.
    NotStarted,
}

impl<E> FanOutItemOutcome<E> {
    /// Whether the branch ran without error.
    pub fn is_success(&self) -> (r: bool)
        ensures
            r == (self is Completed),
    {
        matches!(self, FanOutItemOutcome::Completed(_))
    }

    /// Whether the branch failed.
    pub fn is_failure(&self) -> (r: bool)
        ensures
            r == (self is Failed),
    {
        matches!(self, FanOutItemOutcome::Failed(_))
    }

    /// Whether the branch was interrupted.
    pub fn is_cancelled(&self) -> (r: bool)
        ensures
            r == (self is Cancelled),
    {
        matches!(self, FanOutItemOutcome::Cancelled)
    }

    /// Whether the branch never started.
    pub fn is_not_started(&self) -> (r: bool)
        ensures
            r == (self is NotStarted),
    {
        matches!(self, FanOutItemOutcome::NotStarted)
    }
}

/// One branch's outcome, with the context it ran against.
pub struct FanOutItem<C, E> {
    /// Position in the input collection.
    pub index: usize,
    pub context: C,
    pub outcome: FanOutItemOutcome<E>,
}

/// Every branch's outcome, in input order.
pub struct FanOutResults<C, E> {
    pub items: Vec<FanOutItem<C, E>>,
    pub policy: FanOutPolicy,
    pub satisfied: bool,
    pub cancelled: bool,
}

/// How a branch ended, given its output.
pub open spec fn item_outcome<E>(
    output: Option<Result<PipelineResult, E>>,
) -> FanOutItemOutcome<E> {
    match output {
        Some(Ok(PipelineResult::Cancelled)) => FanOutItemOutcome::Cancelled,
        Some(Ok(result)) => FanOutItemOutcome::Completed(result),
        Some(Err(e)) => FanOutItemOutcome::Failed(e),
        None => FanOutItemOutcome::NotStarted,
    }
}

/// Whether an item ran without error.
pub open spec fn succeeds<C, E>() -> spec_fn(FanOutItem<C, E>) -> bool {
    |item: FanOutItem<C, E>| item.outcome is Completed
}

/// Whether an item failed.
pub open spec fn fails<C, E>() -> spec_fn(FanOutItem<C, E>) -> bool {
    |item: FanOutItem<C, E>| item.outcome is Failed
}

/// Whether an item was stopped by one of its own handlers.
pub open spec fn stops<C, E>() -> spec_fn(FanOutItem<C, E>) -> bool {
    |item: FanOutItem<C, E>| item.outcome == FanOutItemOutcome::<E>::Completed(
        PipelineResult::Stopped,
    )
}

/// Whether an item was interrupted.
pub open spec fn is_interrupted<C, E>() -> spec_fn(FanOutItem<C, E>) -> bool {
    |item: FanOutItem<C, E>| item.outcome is Cancelled
}

/// Whether an item never started.
pub open spec fn stays_out<C, E>() -> spec_fn(FanOutItem<C, E>) -> bool {
    |item: FanOutItem<C, E>| item.outcome is NotStarted
}

/// The error of an item that failed.
pub open spec fn failure_of<C, E>() -> spec_fn(FanOutItem<C, E>) -> Option<E> {
    |item: FanOutItem<C, E>|
        match item.outcome {
            FanOutItemOutcome::Failed(e) => Some(e),
            _ => None,
        }
}

/// Whether every branch ran to completion.
pub open spec fn all_complete<C, E>(items: Seq<FanOutItem<C, E>>) -> bool {
    forall|i: int|
        0 <= i < items.len() ==> (#[trigger] items[i]).outcome == FanOutItemOutcome::<
            E,
        >::Completed(PipelineResult::Completed)
}

/// Whether a built-in policy is met by these items.
pub open spec fn policy_met<C, E>(policy: FanOutPolicy, items: Seq<FanOutItem<C, E>>) -> bool {
    match policy {
        FanOutPolicy::CollectAll => true,
        FanOutPolicy::FailFast => items.filter(fails()).len() == 0,
        FanOutPolicy::RequireAll => all_complete(items),
        FanOutPolicy::RequireAtLeast(n) => items.filter(succeeds()).len() >= n,
    }
}

impl<C, E> FanOutResults<C, E> {
    /// The items, in input order.
    pub fn items(&self) -> (r: &Vec<FanOutItem<C, E>>)
        ensures
            *r == self.items,
    {
        &self.items
    }

    /// How many branches there were.
    pub fn len(&self) -> (r: usize)
        ensures
            r == self.items@.len(),
    {
        self.items.len()
    }

    /// Whether there were no branches.
    pub fn is_empty(&self) -> (r: bool)
        ensures
            r == (self.items@.len() == 0),
    {
        self.items.len() == 0
    }

    /// Branches that ran without error, whether their pipeline completed or stopped.
    pub fn succeeded(&self) -> (r: usize)
        ensures
            r == self.items@.filter(succeeds()).len(),
    {
        let ghost f = succeeds::<C, E>();
        let mut n: usize = 0;
        let mut i: usize = 0;
        while i < self.items.len()
            invariant
                n <= i <= self.items.len(),
                f == succeeds::<C, E>(),
                n == self.items@.take(i as int).filter(f).len(),
            decreases self.items.len() - i,
        {
            proof {
                seqs::lemma_filter_take(self.items@, f, i as int);
            }
            if self.items[i].outcome.is_success() {
                n += 1;
            }
            i += 1;
        }
        proof {
            assert(self.items@.take(i as int) =~= self.items@);
        }
        n
    }

    /// Branches that failed.
    pub fn failed(&self) -> (r: usize)
        ensures
            r == self.items@.filter(fails()).len(),
    {
        let ghost f = fails::<C, E>();
        let mut n: usize = 0;
        let mut i: usize = 0;
        while i < self.items.len()
            invariant
                n <= i <= self.items.len(),
                f == fails::<C, E>(),
                n == self.items@.take(i as int).filter(f).len(),
            decreases self.items.len() - i,
        {
            proof {
                seqs::lemma_filter_take(self.items@, f, i as int);
            }
            if self.items[i].outcome.is_failure() {
                n += 1;
            }
            i += 1;
        }
        proof {
            assert(self.items@.take(i as int) =~= self.items@);
        }
        n
    }

    /// Branches that ran without error and were stopped by one of their own handlers. They
    /// are among those counted by [`succeeded`](Self::succeeded).
    pub fn stopped(&self) -> (r: usize)
        ensures
            r == self.items@.filter(stops()).len(),
    {
        let ghost f = stops::<C, E>();
        let mut n: usize = 0;
        let mut i: usize = 0;
        while i < self.items.len()
            invariant
                n <= i <= self.items.len(),
                f == stops::<C, E>(),
                n == self.items@.take(i as int).filter(f).len(),
            decreases self.items.len() - i,
        {
            proof {
                seqs::lemma_filter_take(self.items@, f, i as int);
            }
            if matches!(
                self.items[i].outcome,
                FanOutItemOutcome::Completed(PipelineResult::Stopped)
            ) {
                n += 1;
            }
            i += 1;
        }
        proof {
            assert(self.items@.take(i as int) =~= self.items@);
        }
        n
    }

    /// Branches that started and were interrupted.
    pub fn cancelled(&self) -> (r: usize)
        ensures
            r == self.items@.filter(is_interrupted()).len(),
    {
        let ghost f = is_interrupted::<C, E>();
        let mut n: usize = 0;
        let mut i: usize = 0;
        while i < self.items.len()
            invariant
                n <= i <= self.items.len(),
                f == is_interrupted::<C, E>(),
                n == self.items@.take(i as int).filter(f).len(),
            decreases self.items.len() - i,
        {
            proof {
                seqs::lemma_filter_take(self.items@, f, i as int);
            }
            if self.items[i].outcome.is_cancelled() {
                n += 1;
            }
            i += 1;
        }
        proof {
            assert(self.items@.take(i as int) =~= self.items@);
        }
        n
    }

    /// Branches that never started.
    pub fn not_started(&self) -> (r: usize)
        ensures
            r == self.items@.filter(stays_out()).len(),
    {
        let ghost f = stays_out::<C, E>();
        let mut n: usize = 0;
        let mut i: usize = 0;
        while i < self.items.len()
            invariant
                n <= i <= self.items.len(),
                f == stays_out::<C, E>(),
                n == self.items@.take(i as int).filter(f).len(),
            decreases self.items.len() - i,
        {
            proof {
                seqs::lemma_filter_take(self.items@, f, i as int);
            }
            if self.items[i].outcome.is_not_started() {
                n += 1;
            }
            i += 1;
        }
        proof {
            assert(self.items@.take(i as int) =~= self.items@);
        }
        n
    }

    /// Whether the fan-out's token was set when it settled. A fan-out cancelled before any
    /// branch started has no interrupted branch at all.
    pub fn was_cancelled(&self) -> (r: bool)
        ensures
            r == self.cancelled,
    {
        self.cancelled
    }

    /// The policy's name, for a custom one the nearest built-in.
    pub fn policy(&self) -> (r: &FanOutPolicy)
        ensures
            *r == self.policy,
    {
        &self.policy
    }

    /// Whether the policy was met.
    pub fn satisfied(&self) -> (r: bool)
        ensures
            r == self.satisfied,
    {
        self.satisfied
    }

    /// Contexts of the branches that ran without error, in input order.
    pub fn oks(&self) -> (r: Vec<&C>)
        ensures
            r@.len() == self.items@.filter(succeeds()).len(),
            forall|k: int|
                0 <= k < r@.len() ==> *(#[trigger] r@[k]) == self.items@.filter(
                    succeeds(),
                )[k].context,
    {
        let ghost f = succeeds::<C, E>();
        let mut contexts: Vec<&C> = Vec::new();
        let mut i: usize = 0;
        while i < self.items.len()
            invariant
                i <= self.items.len(),
                f == succeeds::<C, E>(),
                contexts@.len() == self.items@.take(i as int).filter(f).len(),
                forall|k: int|
                    0 <= k < contexts@.len() ==> *(#[trigger] contexts@[k]) == self.items@.take(
                        i as int,
                    ).filter(f)[k].context,
            decreases self.items.len() - i,
        {
            proof {
                seqs::lemma_filter_take(self.items@, f, i as int);
            }
            if self.items[i].outcome.is_success() {
                contexts.push(&self.items[i].context);
            }
            i += 1;
        }
        proof {
            assert(self.items@.take(i as int) =~= self.items@);
        }
        contexts
    }

    /// Each failure with its input index, in input order.
    pub fn errors(&self) -> (r: Vec<(usize, &E)>)
        ensures
            r@.len() == self.items@.filter(fails()).len(),
            forall|k: int|
                0 <= k < r@.len() ==> (#[trigger] r@[k]).0 == self.items@.filter(fails())[k].index
                    && FanOutItemOutcome::Failed(*r@[k].1) == self.items@.filter(
                    fails(),
                )[k].outcome,
    {
        let ghost f = fails::<C, E>();
        let mut errors: Vec<(usize, &E)> = Vec::new();
        let mut i: usize = 0;
        while i < self.items.len()
            invariant
                i <= self.items.len(),
                f == fails::<C, E>(),
                errors@.len() == self.items@.take(i as int).filter(f).len(),
                forall|k: int|
                    0 <= k < errors@.len() ==> (#[trigger] errors@[k]).0 == self.items@.take(
                        i as int,
                    ).filter(f)[k].index && FanOutItemOutcome::Failed(*errors@[k].1)
                        == self.items@.take(i as int).filter(f)[k].outcome,
            decreases self.items.len() - i,
        {
            proof {
                seqs::lemma_filter_take(self.items@, f, i as int);
            }
            if let FanOutItemOutcome::Failed(e) = &self.items[i].outcome {
                errors.push((self.items[i].index, e));
            }
            i += 1;
        }
        proof {
            assert(self.items@.take(i as int) =~= self.items@);
        }
        errors
    }

    /// The first branch failure, in input order.
    pub fn into_first_error(self) -> (r: Option<E>)
        ensures
            ({
                let errors = self.items@.filter_map(failure_of());
                r == if errors.len() == 0 {
                    None
                } else {
                    Some(errors[0])
                }
            }),
    {
        let ghost f = failure_of::<C, E>();
        let ghost all = self.items@;
        let mut first: Option<E> = None;
        let mut remaining = self.items;
        proof {
            assert(all.skip(all.len() as int).filter_map(f) =~= Seq::empty());
            assert(all.take(all.len() as int) =~= all);
        }
        while remaining.len() > 0
            invariant
                f == failure_of::<C, E>(),
                remaining@.len() <= all.len(),
                remaining@ == all.take(remaining@.len() as int),
                first == first_of(all.skip(remaining@.len() as int).filter_map(f)),
            decreases remaining.len(),
        {
            let ghost n = remaining@.len() as int;
            let item = remaining.pop().unwrap();
            proof {
                assert(item == all[n - 1]);
                assert(remaining@ =~= all.take(n - 1));
                lemma_filter_map_front(all.skip(n - 1), f);
                assert(all.skip(n - 1).drop_first() =~= all.skip(n));
            }
            if let FanOutItemOutcome::Failed(e) = item.outcome {
                first = Some(e);
            }
        }
        proof {
            assert(all.skip(0) =~= all);
        }
        first
    }

    /// The handler-body convenience: `Ok(Continue)` when the policy was satisfied, otherwise
    /// the first branch's own error, or `FanOutPolicyUnmet` when the policy was unmet without
    /// any branch failing (`RequireAll` over branches that all stopped). A cancelled fan-out
    /// yields `Ok(Stop)` instead of any error.
    pub fn into_control(self) -> (r: Result<PipelineControl, E>) where E: From<OrkaError>
        ensures
            ({
                let errors = self.items@.filter_map(failure_of());
                if self.cancelled {
                    r == Ok::<PipelineControl, E>(PipelineControl::Stop)
                } else if self.satisfied {
                    r == Ok::<PipelineControl, E>(PipelineControl::Continue)
                } else if errors.len() > 0 {
                    r == Err::<PipelineControl, E>(errors[0])
                } else {
                    r is Err && exists|unmet: OrkaError| #[trigger]
                        is_unmet(self, unmet) && call_ensures(E::from, (unmet,), r->Err_0)
                }
            }),
    {
        if self.cancelled {
            return Ok(PipelineControl::Stop);
        }
        if self.satisfied {
            return Ok(PipelineControl::Continue);
        }
        let unmet = OrkaError::FanOutPolicyUnmet {
            policy: self.policy.to_string(),
            total: self.len(),
            succeeded: self.succeeded(),
            failed: self.failed(),
            not_started: self.not_started(),
        };
        let ghost reported = unmet;
        assert(is_unmet(self, reported));
        match self.into_first_error() {
            Some(e) => Err(e),
            None => {
                let error = E::from(unmet);
                assert(call_ensures(E::from, (reported,), error));
                Err(error)
            },
        }
    }

    /// A summary in words.
    pub fn to_string(&self) -> (r: String)
        ensures
            r@ == text::decimal(self.items@.len()) + " item(s): "@ + text::decimal(
                self.items@.filter(succeeds()).len(),
            ) + " succeeded, "@ + text::decimal(self.items@.filter(fails()).len()) + " failed, "@
                + text::decimal(self.items@.filter(is_interrupted()).len()) + " cancelled, "@
                + text::decimal(self.items@.filter(stays_out()).len()) + " not started ("@
                + policy_text(self.policy) + ": "@ + (if self.cancelled {
                "cancelled"@
            } else if self.satisfied {
                "satisfied"@
            } else {
                "unmet"@
            }) + ")"@,
    {
        let mut out = String::new();
        text::push_count(&mut out, self.len());
        proof {
            assert(out@ =~= text::decimal(self.items@.len()));
        }
        out.append(" item(s): ");
        text::push_count(&mut out, self.succeeded());
        out.append(" succeeded, ");
        text::push_count(&mut out, self.failed());
        out.append(" failed, ");
        text::push_count(&mut out, self.cancelled());
        out.append(" cancelled, ");
        text::push_count(&mut out, self.not_started());
        out.append(" not started (");
        out.append(self.policy.to_string().as_str());
        out.append(": ");
        if self.cancelled {
            out.append("cancelled");
        } else if self.satisfied {
            out.append("satisfied");
        } else {
            out.append("unmet");
        }
        out.append(")");
        out
    }
}

/// The first element, if there is one.
pub open spec fn first_of<A>(s: Seq<A>) -> Option<A> {
    if s.len() == 0 {
        None
    } else {
        Some(s[0])
    }
}

/// A filtering map, seen from the front.
proof fn lemma_filter_map_front<A, B>(s: Seq<A>, f: spec_fn(A) -> Option<B>)
    requires
        s.len() > 0,
    ensures
        s.filter_map(f) == (match f(s[0]) {
            Some(b) => seq![b],
            None => Seq::empty(),
        }) + s.drop_first().filter_map(f),
    decreases s.len(),
{
    let head = match f(s[0]) {
        Some(b) => seq![b],
        None => Seq::empty(),
    };
    if s.len() == 1 {
        assert(s.drop_last() =~= Seq::empty());
        assert(s.drop_first() =~= Seq::empty());
        assert(s.filter_map(f) =~= head + s.drop_first().filter_map(f)) by {
            reveal_with_fuel(Seq::filter_map, 2);
        }
    } else {
        lemma_filter_map_front(s.drop_last(), f);
        assert(s.drop_last().drop_first() =~= s.drop_first().drop_last());
        assert(s.filter_map(f) =~= head + s.drop_first().filter_map(f));
    }
}

/// Whether an error reports that these results do not meet their policy.
pub open spec fn is_unmet<C, E>(results: FanOutResults<C, E>, error: OrkaError) -> bool {
    error matches OrkaError::FanOutPolicyUnmet { policy, total, succeeded, failed, not_started }
        && {
        &&& policy@ == policy_text(results.policy)
        &&& total == results.items@.len()
        &&& succeeded == results.items@.filter(succeeds()).len()
        &&& failed == results.items@.filter(fails()).len()
        &&& not_started == results.items@.filter(stays_out()).len()
    }
}

/// The output of a spawned branch: what its task left, or the error that the task was lost.
pub fn spawned_output<E: From<OrkaError>>(
    left: Option<Result<PipelineResult, E>>,
    index: usize,
) -> (r: Result<PipelineResult, E>)
    ensures
        match left {
            Some(output) => r == output,
            None => r is Err && call_ensures(
                E::from,
                (OrkaError::FanOutBranchLost { index },),
                r->Err_0,
            ),
        },
{
    match left {
        Some(output) => output,
        None => Err(E::from(OrkaError::FanOutBranchLost { index })),
    }
}

/// Runs one pipeline over every item of a collection, with bounded concurrency.
///
/// `P` is the pipeline, `S` what spawns branches, and `V` a custom policy.
pub struct FanOut<P, S, V> {
    pub pipeline: P,
    pub verdict: Verdict<V>,
    pub max_concurrent: usize,
    pub spawner: Option<S>,
    pub cancel: Option<CancelToken>,
}

impl<P, S, V> FanOut<P, S, V> {
    /// At least one branch may be in flight.
    pub open spec fn wf(self) -> bool {
        self.max_concurrent > 0
    }

    /// Defaults to [`FanOutPolicy::CollectAll`] and unbounded concurrency.
    pub fn new(pipeline: P) -> (r: Self)
        ensures
            r.wf(),
            r == (FanOut {
                pipeline,
                verdict: Verdict::<V>::Builtin(FanOutPolicy::CollectAll),
                max_concurrent: usize::MAX,
                spawner: None::<S>,
                cancel: None,
            }),
    {
        FanOut {
            pipeline,
            verdict: Verdict::Builtin(FanOutPolicy::CollectAll),
            max_concurrent: usize::MAX,
            spawner: None,
            cancel: None,
        }
    }

    /// Lets a caller outside the fan-out wind it down.
    pub fn with_cancel(self, token: CancelToken) -> (r: Self)
        requires
            self.wf(),
        ensures
            r.wf(),
            r == (FanOut { cancel: Some(token), ..self }),
    {
        let mut fan_out = self;
        fan_out.cancel = Some(token);
        fan_out
    }

    /// Runs each branch as a task of its own.
    pub fn spawner(self, spawner: S) -> (r: Self)
        requires
            self.wf(),
        ensures
            r.wf(),
            r == (FanOut { spawner: Some(spawner), ..self }),
    {
        let mut fan_out = self;
        fan_out.spawner = Some(spawner);
        fan_out
    }

    /// Sets a built-in policy.
    pub fn policy(self, policy: FanOutPolicy) -> (r: Self)
        requires
            self.wf(),
        ensures
            r.wf(),
            r == (FanOut { verdict: Verdict::Builtin(policy), ..self }),
    {
        let mut fan_out = self;
        fan_out.verdict = Verdict::Builtin(policy);
        fan_out
    }

    /// Sets a policy of the caller's own. It is evaluated once, after every branch has
    /// settled, so it cannot keep branches from starting.
    pub fn custom_policy(self, is_satisfied: V) -> (r: Self)
        requires
            self.wf(),
        ensures
            r.wf(),
            r == (FanOut { verdict: Verdict::Custom(is_satisfied), ..self }),
    {
        let mut fan_out = self;
        fan_out.verdict = Verdict::Custom(is_satisfied);
        fan_out
    }

    /// Caps how many branches are in flight at once.
    pub fn max_concurrent(self, n: usize) -> (r: Self)
        requires
            n > 0,
        ensures
            r.wf(),
            r == (FanOut { max_concurrent: n, ..self }),
    {
        let mut fan_out = self;
        fan_out.max_concurrent = n;
        fan_out
    }

    /// Whether the first failure keeps further branches from starting.
    pub open spec fn fails_fast(self) -> bool {
        self.verdict == Verdict::<V>::Builtin(FanOutPolicy::FailFast)
    }

    /// The policy that results are labelled with: for a custom one, which decides at the end,
    /// the built-in that runs everything.
    pub open spec fn reported_policy(self) -> FanOutPolicy {
        match self.verdict {
            Verdict::Builtin(policy) => policy,
            Verdict::Custom(_) => FanOutPolicy::CollectAll,
        }
    }

    /// The contexts of the branches over `items`, in order: each branch gets a context of its
    /// own around its item, under the fan-out's token where there is one.
    pub fn contexts<T, B>(&self, items: Vec<T>) -> (r: Vec<ContextData<T, B>>)
        ensures
            r@.len() == items@.len(),
            forall|i: int|
                0 <= i < r@.len() ==> is_branch_context(#[trigger] r@[i], items@[i], self.cancel),
    {
        let ghost all = items@;
        let mut contexts: Vec<ContextData<T, B>> = Vec::new();
        for item in it: items
            invariant
                it.seq() == all,
                contexts@.len() == it.index(),
                forall|i: int|
                    0 <= i < contexts@.len() ==> is_branch_context(
                        #[trigger] contexts@[i],
                        all[i],
                        self.cancel,
                    ),
        {
            let context = match &self.cancel {
                Some(token) => ContextData::with_token(item, token.clone()),
                None => ContextData::new(item),
            };
            contexts.push(context);
        }
        contexts
    }

    /// Begins running `count` branches.
    pub fn run<E>(&self, count: usize) -> (r: BoundedJoin<PipelineResult, E>)
        requires
            self.wf(),
        ensures
            r.wf(),
            r.count() == count,
            r.next == 0,
            r.active@.len() == 0,
            r.limit == self.max_concurrent,
            r.stop_on_error == self.fails_fast(),
            !r.stop_starting,
            !r.completed_any,
            r.stage == JoinStage::RoundStart,
    {
        let fail_fast = matches!(self.verdict, Verdict::Builtin(FanOutPolicy::FailFast));
        BoundedJoin::new(count, self.max_concurrent, fail_fast)
    }

    /// Judges the branches once all have settled: pairs each context with its outcome, in
    /// input order, and applies the policy. `cancelled` is whether the fan-out's token is
    /// set; a cancelled fan-out is unsatisfied under every policy.
    pub fn settle<C, E>(
        &self,
        contexts: Vec<C>,
        outputs: Vec<Option<Result<PipelineResult, E>>>,
        cancelled: bool,
    ) -> (r: FanOutResults<C, E>) where V: Fn(&FanOutResults<C, E>) -> bool
        requires
            contexts@.len() == outputs@.len(),
            self.verdict matches Verdict::Custom(f) ==> forall|results: &FanOutResults<C, E>|
                #[trigger] f.requires((results,)),
        ensures
            r.items@.len() == contexts@.len(),
            forall|i: int|
                0 <= i < r.items@.len() ==> (#[trigger] r.items@[i]) == (FanOutItem {
                    index: i as usize,
                    context: contexts@[i],
                    outcome: item_outcome(outputs@[i]),
                }),
            r.policy == self.reported_policy(),
            r.cancelled == cancelled,
            cancelled ==> !r.satisfied,
            !cancelled ==> match self.verdict {
                Verdict::Builtin(policy) => r.satisfied == policy_met(policy, r.items@),
                Verdict::Custom(f) => f.ensures(
                    (&(FanOutResults { satisfied: false, ..r }),),
                    r.satisfied,
                ),
            },
    {
        let items = pair_up(contexts, outputs);
        let policy = match &self.verdict {
            Verdict::Builtin(policy) => *policy,
            Verdict::Custom(_) => FanOutPolicy::CollectAll,
        };
        let mut results = FanOutResults { items, policy, satisfied: false, cancelled };
        if !cancelled {
            let satisfied = match &self.verdict {
                Verdict::Builtin(FanOutPolicy::CollectAll) => true,
                Verdict::Builtin(FanOutPolicy::FailFast) => results.failed() == 0,
                Verdict::Builtin(FanOutPolicy::RequireAll) => {
                    proof {
                        law_require_all_means_every_branch(results.items@);
                    }
                    results.succeeded() == results.len() && results.stopped() == 0
                },
                Verdict::Builtin(FanOutPolicy::RequireAtLeast(n)) => results.succeeded() >= *n,
                Verdict::Custom(is_satisfied) => is_satisfied(&results),
            };
            results.satisfied = satisfied;
        }
        results
    }
}

/// Whether a context is one of a branch over `item`, fresh but for the fan-out's token.
pub open spec fn is_branch_context<T, B>(
    context: ContextData<T, B>,
    item: T,
    token: Option<CancelToken>,
) -> bool {
    &&& context.origin() == item
    &&& context.bag().origin() == Seq::<B>::empty()
    &&& match token {
        Some(token) => context.token_at_origin() == token,
        None => context.token_at_origin().origin() == cancel::fresh_token(),
    }
}

/// Pairs contexts with the outcomes of their branches, in input order.
fn pair_up<C, E>(
    contexts: Vec<C>,
    outputs: Vec<Option<Result<PipelineResult, E>>>,
) -> (r: Vec<FanOutItem<C, E>>)
    requires
        contexts@.len() == outputs@.len(),
    ensures
        r@.len() == contexts@.len(),
        forall|i: int|
            0 <= i < r@.len() ==> (#[trigger] r@[i]) == (FanOutItem {
                index: i as usize,
                context: contexts@[i],
                outcome: item_outcome(outputs@[i]),
            }),
{
    let mut contexts = contexts;
    let mut outputs = outputs;
    let ghost all_contexts = contexts@;
    let ghost all_outputs = outputs@;
    let mut reversed: Vec<FanOutItem<C, E>> = Vec::new();
    while contexts.len() > 0
        invariant
            contexts@.len() == outputs@.len(),
            contexts@.len() + reversed@.len() == all_contexts.len(),
            all_contexts.len() == all_outputs.len(),
            contexts@ == all_contexts.take(contexts@.len() as int),
            outputs@ == all_outputs.take(outputs@.len() as int),
            forall|k: int|
                0 <= k < reversed@.len() ==> (#[trigger] reversed@[k]) == (FanOutItem {
                    index: (all_contexts.len() - 1 - k) as usize,
                    context: all_contexts[all_contexts.len() - 1 - k],
                    outcome: item_outcome(all_outputs[all_contexts.len() - 1 - k]),
                }),
        decreases contexts.len(),
    {
        let index = contexts.len() - 1;
        let context = contexts.pop().unwrap();
        let output = outputs.pop().unwrap();
        let outcome = match output {
            Some(Ok(PipelineResult::Cancelled)) => FanOutItemOutcome::Cancelled,
            Some(Ok(result)) => FanOutItemOutcome::Completed(result),
            Some(Err(e)) => FanOutItemOutcome::Failed(e),
            None => FanOutItemOutcome::NotStarted,
        };
        reversed.push(FanOutItem { index, context, outcome });
    }
    let mut items: Vec<FanOutItem<C, E>> = Vec::new();
    while reversed.len() > 0
        invariant
            items@.len() + reversed@.len() == all_contexts.len(),
            forall|k: int|
                0 <= k < reversed@.len() ==> (#[trigger] reversed@[k]) == (FanOutItem {
                    index: (all_contexts.len() - 1 - k) as usize,
                    context: all_contexts[all_contexts.len() - 1 - k],
                    outcome: item_outcome(all_outputs[all_contexts.len() - 1 - k]),
                }),
            forall|i: int|
                0 <= i < items@.len() ==> (#[trigger] items@[i]) == (FanOutItem {
                    index: i as usize,
                    context: all_contexts[i],
                    outcome: item_outcome(all_outputs[i]),
                }),
        decreases reversed.len(),
    {
        let item = reversed.pop().unwrap();
        items.push(item);
    }
    items
}

/// Every branch is counted once: those that ran without error, those that failed, those that
/// were interrupted and those that never started add up to all of them.
pub proof fn law_every_branch_is_counted_once<C, E>(items: Seq<FanOutItem<C, E>>)
    ensures
        items.filter(succeeds()).len() + items.filter(fails()).len() + items.filter(
            is_interrupted(),
        ).len() + items.filter(stays_out()).len() == items.len(),
        items.filter(stops()).len() <= items.filter(succeeds()).len(),
    decreases items.len(),
{
    reveal(Seq::filter);
    if items.len() > 0 {
        law_every_branch_is_counted_once(items.drop_last());
    }
}

/// Under [`FanOutPolicy::RequireAll`] a fan-out is met exactly where every branch ran without
/// error and none of them was stopped, given that an interrupted branch counts as interrupted:
/// over branches that all stopped it is unmet, though none failed.
pub proof fn law_require_all_means_every_branch<C, E>(items: Seq<FanOutItem<C, E>>)
    requires
        forall|i: int|
            0 <= i < items.len() ==> (#[trigger] items[i]).outcome != FanOutItemOutcome::<
                E,
            >::Completed(PipelineResult::Cancelled),
    ensures
        policy_met(FanOutPolicy::RequireAll, items) <==> items.filter(succeeds()).len()
            == items.len() && items.filter(stops()).len() == 0,
    decreases items.len(),
{
    reveal(Seq::filter);
    items.lemma_filter_len(succeeds());
    if items.len() > 0 {
        let short = items.drop_last();
        law_require_all_means_every_branch(short);
        short.lemma_filter_len(succeeds());
        assert(forall|i: int| 0 <= i < short.len() ==> short[i] == #[trigger] items[i]);
        if all_complete(items) {
            assert(all_complete(short));
            assert(items[items.len() - 1].outcome is Completed);
        } else if all_complete(short) {
            let i = choose|i: int|
                0 <= i < items.len() && (#[trigger] items[i]).outcome != FanOutItemOutcome::<
                    E,
                >::Completed(PipelineResult::Completed);
            assert(i == items.len() - 1);
        }
    }
}

impl<S: Clone, B, E> FanOutResults<ContextData<S, B>, E> {
    /// Snapshots of the successful branches' data, in input order. What a branch's context
    /// holds is read at the time of the call.
    pub fn cloned_oks(&self) -> (r: Vec<S>)
        ensures
            r@.len() == self.items@.filter(succeeds()).len(),
            forall|k: int|
                0 <= k < r@.len() ==> self.items@.filter(
                    succeeds(),
                )[k].context.data().was_read(S::clone, #[trigger] r@[k]),
    {
        let contexts = self.oks();
        let mut snapshots: Vec<S> = Vec::new();
        let mut i: usize = 0;
        while i < contexts.len()
            invariant
                i <= contexts.len(),
                snapshots@.len() == i,
                forall|k: int|
                    0 <= k < i ==> contexts@[k].data().was_read(
                        S::clone,
                        #[trigger] snapshots@[k],
                    ),
            decreases contexts.len() - i,
        {
            let snapshot = contexts[i].snapshot();
            snapshots.push(snapshot);
            i += 1;
        }
        snapshots
    }
}

} // verus!
