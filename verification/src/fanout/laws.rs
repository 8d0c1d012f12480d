//! What a fan-out makes of its branches: how each is reported, how a policy judges them, and
//! what a handler hands on.
//!
//! A branch is given by its output: `None` where it never started, and otherwise what its run
//! returned.

use vstd::prelude::*;

use crate::cancel::CancelToken;
use crate::context_data::ContextData;
use crate::control::{PipelineControl, PipelineResult};
use crate::error::OrkaError;
use crate::fanout;
use crate::fanout::joiner::{BoundedJoin, JoinAction, JoinReply, JoinStage};
use crate::fanout::{FanOut, FanOutItem, FanOutItemOutcome, FanOutPolicy, FanOutResults, Verdict};
use crate::seqs;

verus! {

/// What a branch left: its run's result, or nothing where it never started.
pub type Output<E> = Option<Result<PipelineResult, E>>;

/// Whether a branch ran without error and to its own end: it completed, or one of its handlers
/// stopped it.
pub open spec fn ran_well<E>(output: Output<E>) -> bool {
    ||| output == Some(Ok::<PipelineResult, E>(PipelineResult::Completed))
    ||| output == Some(Ok::<PipelineResult, E>(PipelineResult::Stopped))
}

/// Whether these are `n` different branches that ran without error.
pub open spec fn ran_well_at<E>(outputs: Seq<Output<E>>, branches: Seq<int>, n: nat) -> bool {
    &&& branches.len() == n
    &&& branches.no_duplicates()
    &&& forall|k: int|
        0 <= k < n ==> 0 <= (#[trigger] branches[k]) < outputs.len() && ran_well(
            outputs[branches[k]],
        )
}

/// Each branch is reported at its own position, with its own context and as what it left: as
/// completed with its result, as failed with its error, as interrupted where a cancellation
/// ended it, and as never started where it left nothing.
pub proof fn law_each_branch_is_reported_as_it_ended<
    P,
    S,
    V: Fn(&FanOutResults<C, E>) -> bool,
    C,
    E,
>(
    fan_out: FanOut<P, S, V>,
    contexts: Vec<C>,
    outputs: Vec<Output<E>>,
    cancelled: bool,
    r: FanOutResults<C, E>,
    i: int,
)
    requires
        contexts@.len() == outputs@.len(),
        call_ensures(
            FanOut::<P, S, V>::settle::<C, E>,
            (&fan_out, contexts, outputs, cancelled),
            r,
        ),
        0 <= i < outputs@.len(),
    ensures
        r.items@.len() == outputs@.len(),
        r.items@[i].index == i,
        r.items@[i].context == contexts@[i],
        r.cancelled == cancelled,
        match r.items@[i].outcome {
            FanOutItemOutcome::Completed(result) => outputs@[i] == Some(
                Ok::<PipelineResult, E>(result),
            ) && ran_well(outputs@[i]),
            FanOutItemOutcome::Failed(e) => outputs@[i] == Some(Err::<PipelineResult, E>(e)),
            FanOutItemOutcome::Cancelled => outputs@[i] == Some(
                Ok::<PipelineResult, E>(PipelineResult::Cancelled),
            ),
            FanOutItemOutcome::NotStarted => outputs@[i] is None,
        },
{
    assert(outputs@.len() == outputs.len());
    assert(r.items@[i].index == i as usize);
}

/// A fan-out that was not cancelled is judged by its policy alone. `CollectAll` is always
/// satisfied; `FailFast` exactly where no branch failed; `RequireAll` exactly where every
/// branch completed; and `RequireAtLeast(n)` exactly where there are `n` different branches
/// that ran without error. A policy of the caller's own decides as it says of the results. A
/// cancelled fan-out is never satisfied.
pub proof fn law_the_policy_judges_the_branches<
    P,
    S,
    V: Fn(&FanOutResults<C, E>) -> bool,
    C,
    E,
>(
    fan_out: FanOut<P, S, V>,
    contexts: Vec<C>,
    outputs: Vec<Output<E>>,
    cancelled: bool,
    r: FanOutResults<C, E>,
)
    requires
        contexts@.len() == outputs@.len(),
        call_ensures(
            FanOut::<P, S, V>::settle::<C, E>,
            (&fan_out, contexts, outputs, cancelled),
            r,
        ),
    ensures
        cancelled ==> !r.satisfied,
        !cancelled ==> match fan_out.verdict {
            Verdict::Builtin(FanOutPolicy::CollectAll) => r.satisfied,
            Verdict::Builtin(FanOutPolicy::FailFast) => r.satisfied <==> forall|i: int|
                0 <= i < outputs@.len() ==> !((#[trigger] outputs@[i]) matches Some(Err(_))),
            Verdict::Builtin(FanOutPolicy::RequireAll) => r.satisfied <==> forall|i: int|
                0 <= i < outputs@.len() ==> (#[trigger] outputs@[i]) == Some(
                    Ok::<PipelineResult, E>(PipelineResult::Completed),
                ),
            Verdict::Builtin(FanOutPolicy::RequireAtLeast(n)) => r.satisfied <==> exists|
                branches: Seq<int>,
            | #[trigger] ran_well_at(outputs@, branches, n as nat),
            Verdict::Custom(decides) => decides.ensures(
                (&(FanOutResults { satisfied: false, ..r }),),
                r.satisfied,
            ),
        },
        r.policy == match fan_out.verdict {
            Verdict::Builtin(policy) => policy,
            Verdict::Custom(_) => FanOutPolicy::CollectAll,
        },
{
    let items = r.items@;
    assert forall|i: int| 0 <= i < outputs@.len() implies {
        &&& (#[trigger] items[i]).outcome is Completed <==> ran_well(outputs@[i])
        &&& items[i].outcome is Failed <==> (outputs@[i] matches Some(Err(_)))
    } by {
        law_each_branch_is_reported_as_it_ended(fan_out, contexts, outputs, cancelled, r, i);
    }
    if !cancelled {
        if let Verdict::Builtin(FanOutPolicy::FailFast) = fan_out.verdict {
            let places = seqs::lemma_filter_picks(items, fanout::fails());
            if !r.satisfied {
                assert(items[places[0]].outcome is Failed);
                assert(outputs@[places[0]] matches Some(Err(_)));
            } else {
                assert forall|i: int| 0 <= i < outputs@.len() implies !(
                (#[trigger] outputs@[i]) matches Some(Err(_))) by {
                    assert(!places.contains(i));
                    assert(!(items[i].outcome is Failed));
                }
            }
        }
        if let Verdict::Builtin(FanOutPolicy::RequireAtLeast(n)) = fan_out.verdict {
            let places = seqs::lemma_filter_picks(items, fanout::succeeds());
            seqs::lemma_picks_bound(items, fanout::succeeds(), places, Seq::empty());
            if r.satisfied {
                let branches = places.take(n as int);
                assert forall|k: int| 0 <= k < n implies 0 <= (#[trigger] branches[k])
                    < outputs@.len() && ran_well(outputs@[branches[k]]) by {
                    assert(items[places[k]].outcome is Completed);
                }
                assert(ran_well_at(outputs@, branches, n as nat));
            }
            if exists|branches: Seq<int>| #[trigger] ran_well_at(outputs@, branches, n as nat) {
                let branches = choose|branches: Seq<int>| #[trigger]
                    ran_well_at(outputs@, branches, n as nat);
                assert forall|k: int| 0 <= k < branches.len() implies 0 <= (#[trigger] branches[k])
                    < items.len() && fanout::succeeds()(items[branches[k]]) by {
                    assert(items[branches[k]].outcome is Completed);
                }
                seqs::lemma_picks_bound(items, fanout::succeeds(), places, branches);
            }
        }
        if let Verdict::Builtin(FanOutPolicy::RequireAll) = fan_out.verdict {
            assert forall|i: int| 0 <= i < outputs@.len() implies ((#[trigger] outputs@[i])
                == Some(Ok::<PipelineResult, E>(PipelineResult::Completed)) <==> items[i].outcome
                == FanOutItemOutcome::<E>::Completed(PipelineResult::Completed)) by {
                law_each_branch_is_reported_as_it_ended(
                    fan_out,
                    contexts,
                    outputs,
                    cancelled,
                    r,
                    i,
                );
            }
            if fanout::all_complete(items) {
                assert forall|i: int| 0 <= i < outputs@.len() implies (#[trigger] outputs@[i])
                    == Some(Ok::<PipelineResult, E>(PipelineResult::Completed)) by {
                    assert(items[i].outcome == FanOutItemOutcome::<E>::Completed(
                        PipelineResult::Completed,
                    ));
                }
            }
        }
    }
}

/// `RequireAtLeast` is monotone: with more branches that ran without error, or asking for
/// fewer, a satisfied fan-out stays satisfied. Asking for none is always satisfied.
pub proof fn law_more_successes_never_hurt<
    P,
    S,
    V: Fn(&FanOutResults<C, E>) -> bool,
    C,
    E,
>(
    more: FanOut<P, S, V>,
    fewer: FanOut<P, S, V>,
    n: usize,
    m: usize,
    contexts: Vec<C>,
    outputs: Vec<Output<E>>,
    other_contexts: Vec<C>,
    other_outputs: Vec<Output<E>>,
    r: FanOutResults<C, E>,
    other: FanOutResults<C, E>,
)
    requires
        contexts@.len() == outputs@.len() <= other_outputs@.len(),
        other_contexts@.len() == other_outputs@.len(),
        more.verdict == Verdict::<V>::Builtin(FanOutPolicy::RequireAtLeast(n)),
        fewer.verdict == Verdict::<V>::Builtin(FanOutPolicy::RequireAtLeast(m)),
        m <= n,
        forall|i: int|
            0 <= i < outputs@.len() && ran_well(#[trigger] outputs@[i]) ==> ran_well(
                other_outputs@[i],
            ),
        call_ensures(FanOut::<P, S, V>::settle::<C, E>, (&more, contexts, outputs, false), r),
        call_ensures(
            FanOut::<P, S, V>::settle::<C, E>,
            (&fewer, other_contexts, other_outputs, false),
            other,
        ),
    ensures
        r.satisfied ==> other.satisfied,
        m == 0 ==> other.satisfied,
{
    law_the_policy_judges_the_branches(more, contexts, outputs, false, r);
    law_the_policy_judges_the_branches(fewer, other_contexts, other_outputs, false, other);
    if r.satisfied {
        let branches = choose|branches: Seq<int>| #[trigger]
            ran_well_at(outputs@, branches, n as nat);
        let some = branches.take(m as int);
        assert forall|k: int| 0 <= k < m implies 0 <= (#[trigger] some[k]) < other_outputs@.len()
            && ran_well(other_outputs@[some[k]]) by {
            assert(some[k] == branches[k]);
            assert(ran_well(outputs@[branches[k]]));
        }
        assert(ran_well_at(other_outputs@, some, m as nat));
    }
    if m == 0 {
        assert(ran_well_at(other_outputs@, Seq::empty(), 0));
    }
}

/// A way for a branch to have ended. Those that were stopped by one of their handlers are among
/// those that ran without error.
pub enum Ending {
    WithoutError,
    Stopped,
    Failed,
    Interrupted,
    NeverStarted,
}

/// Whether an outcome is that of a branch which ended so.
pub open spec fn ended<E>(outcome: FanOutItemOutcome<E>, ending: Ending) -> bool {
    match ending {
        Ending::WithoutError => outcome is Completed,
        Ending::Stopped => outcome == FanOutItemOutcome::<E>::Completed(PipelineResult::Stopped),
        Ending::Failed => outcome is Failed,
        Ending::Interrupted => outcome is Cancelled,
        Ending::NeverStarted => outcome is NotStarted,
    }
}

/// The items that ended so.
pub open spec fn items_that<C, E>(ending: Ending) -> spec_fn(FanOutItem<C, E>) -> bool {
    |item: FanOutItem<C, E>| ended(item.outcome, ending)
}

/// Whether a number is how many items ended so: there are as many different positions of such
/// items, and no other.
pub open spec fn counts<C, E>(items: Seq<FanOutItem<C, E>>, ending: Ending, n: nat) -> bool {
    exists|places: Seq<int>| #[trigger]
        seqs::picks(items, items_that(ending), places) && places.len() == n
}

/// The counts of a fan-out's results are those of its items: of the ones that completed or were
/// stopped, of the ones that were stopped, of the failed, of the interrupted and of those that
/// never started.
pub proof fn law_the_counts_are_of_the_items<C, E>(
    results: FanOutResults<C, E>,
    len: usize,
    succeeded: usize,
    stopped: usize,
    failed: usize,
    cancelled: usize,
    not_started: usize,
)
    requires
        call_ensures(FanOutResults::<C, E>::len, (&results,), len),
        call_ensures(FanOutResults::<C, E>::succeeded, (&results,), succeeded),
        call_ensures(FanOutResults::<C, E>::stopped, (&results,), stopped),
        call_ensures(FanOutResults::<C, E>::failed, (&results,), failed),
        call_ensures(FanOutResults::<C, E>::cancelled, (&results,), cancelled),
        call_ensures(FanOutResults::<C, E>::not_started, (&results,), not_started),
    ensures
        len == results.items@.len(),
        counts(results.items@, Ending::WithoutError, succeeded as nat),
        counts(results.items@, Ending::Stopped, stopped as nat),
        counts(results.items@, Ending::Failed, failed as nat),
        counts(results.items@, Ending::Interrupted, cancelled as nat),
        counts(results.items@, Ending::NeverStarted, not_started as nat),
{
    lemma_counts(results.items@);
}

proof fn lemma_counts<C, E>(items: Seq<FanOutItem<C, E>>)
    ensures
        counts(items, Ending::WithoutError, items.filter(fanout::succeeds()).len()),
        counts(items, Ending::Stopped, items.filter(fanout::stops()).len()),
        counts(items, Ending::Failed, items.filter(fanout::fails()).len()),
        counts(items, Ending::Interrupted, items.filter(fanout::is_interrupted()).len()),
        counts(items, Ending::NeverStarted, items.filter(fanout::stays_out()).len()),
{
    let a = seqs::lemma_filter_picks(items, fanout::succeeds());
    let b = seqs::lemma_filter_picks(items, fanout::stops());
    let c = seqs::lemma_filter_picks(items, fanout::fails());
    let d = seqs::lemma_filter_picks(items, fanout::is_interrupted());
    let e = seqs::lemma_filter_picks(items, fanout::stays_out());
    assert(seqs::picks(items, items_that(Ending::WithoutError), a));
    assert(seqs::picks(items, items_that(Ending::Stopped), b));
    assert(seqs::picks(items, items_that(Ending::Failed), c));
    assert(seqs::picks(items, items_that(Ending::Interrupted), d));
    assert(seqs::picks(items, items_that(Ending::NeverStarted), e));
}

/// The contexts of the branches that ran without error, and the errors of those that failed
/// with their positions, are handed out in input order, all of them and no others.
pub proof fn law_results_are_handed_out_in_order<'r, C, E>(
    results: &'r FanOutResults<C, E>,
    oks: Vec<&'r C>,
    errors: Vec<(usize, &'r E)>,
)
    requires
        call_ensures(FanOutResults::<C, E>::oks, (results,), oks),
        call_ensures(FanOutResults::<C, E>::errors, (results,), errors),
    ensures
        exists|places: Seq<int>| #[trigger]
            seqs::picks(results.items@, items_that(Ending::WithoutError), places) && places.len()
                == oks@.len() && forall|k: int|
                0 <= k < places.len() ==> *(#[trigger] oks@[k])
                    == results.items@[places[k]].context,
        exists|places: Seq<int>| #[trigger]
            seqs::picks(results.items@, items_that(Ending::Failed), places) && places.len()
                == errors@.len() && forall|k: int|
                0 <= k < places.len() ==> (#[trigger] errors@[k]).0
                    == results.items@[places[k]].index && results.items@[places[k]].outcome
                    == FanOutItemOutcome::Failed(*errors@[k].1),
{
    let items = results.items@;
    let well = seqs::lemma_filter_picks(items, fanout::succeeds());
    let badly = seqs::lemma_filter_picks(items, fanout::fails());
    assert(seqs::picks(items, items_that(Ending::WithoutError), well));
    assert(seqs::picks(items, items_that(Ending::Failed), badly));
    assert forall|k: int| 0 <= k < well.len() implies *(#[trigger] oks@[k])
        == items[well[k]].context by {
        assert(items.filter(fanout::succeeds())[k] == items[well[k]]);
    }
    assert forall|k: int| 0 <= k < badly.len() implies (#[trigger] errors@[k]).0
        == items[badly[k]].index && items[badly[k]].outcome == FanOutItemOutcome::Failed(
        *errors@[k].1,
    ) by {
        assert(items.filter(fanout::fails())[k] == items[badly[k]]);
    }
}

/// Whether `e` is the error of the first branch that failed.
pub open spec fn is_first_error<C, E>(items: Seq<FanOutItem<C, E>>, e: E) -> bool {
    exists|i: int|
        0 <= i < items.len() && (#[trigger] items[i]).outcome == FanOutItemOutcome::Failed(e)
            && forall|j: int| 0 <= j < i ==> !((#[trigger] items[j]).outcome is Failed)
}

/// The first error of a fan-out's results is that of the first branch, in input order, that
/// failed; there is none exactly where no branch failed.
pub proof fn law_the_first_error_is_the_first_branchs<C, E>(
    results: FanOutResults<C, E>,
    r: Option<E>,
)
    requires
        call_ensures(FanOutResults::<C, E>::into_first_error, (results,), r),
    ensures
        r matches Some(e) ==> is_first_error(results.items@, e),
        r is None <==> forall|i: int|
            0 <= i < results.items@.len() ==> !((#[trigger] results.items@[i]).outcome is Failed),
{
    lemma_first_error(results.items@);
    let places = seqs::lemma_filter_map_picks(results.items@, fanout::failure_of());
}

proof fn lemma_first_error<C, E>(items: Seq<FanOutItem<C, E>>)
    ensures
        items.filter_map(fanout::failure_of()).len() > 0 ==> is_first_error(
            items,
            items.filter_map(fanout::failure_of())[0],
        ),
        items.filter_map(fanout::failure_of()).len() == 0 <==> forall|i: int|
            0 <= i < items.len() ==> !((#[trigger] items[i]).outcome is Failed),
{
    let f = fanout::failure_of::<C, E>();
    let places = seqs::lemma_filter_map_picks(items, f);
    let wanted = |item: FanOutItem<C, E>| f(item) is Some;
    if places.len() > 0 {
        let i = places[0];
        assert(wanted(items[i]));
        assert(items[i].outcome == FanOutItemOutcome::Failed(items.filter_map(f)[0]));
        assert forall|j: int| 0 <= j < i implies !((#[trigger] items[j]).outcome is Failed) by {
            if items[j].outcome is Failed {
                assert(wanted(items[j]));
                assert(places.contains(j));
                let k = choose|k: int| 0 <= k < places.len() && places[k] == j;
                assert(places[0] <= places[k]);
            }
        }
    } else {
        assert forall|i: int| 0 <= i < items.len() implies !((
        #[trigger] items[i]).outcome is Failed) by {
            if items[i].outcome is Failed {
                assert(wanted(items[i]));
                assert(places.contains(i));
            }
        }
    }
}

/// What a handler returns of a fan-out: it stops where the fan-out was cancelled, goes on
/// exactly where it was not and its policy was met, and otherwise fails, with the error of the
/// first branch that failed, or, where none did, with the error that the policy was not met,
/// which carries the policy's name and the counts.
pub proof fn law_a_fan_out_decides_for_its_step<C, E: From<OrkaError>>(
    results: FanOutResults<C, E>,
    r: Result<PipelineControl, E>,
)
    requires
        call_ensures(FanOutResults::<C, E>::into_control, (results,), r),
    ensures
        r == Ok::<PipelineControl, E>(PipelineControl::Stop) <==> results.cancelled,
        r == Ok::<PipelineControl, E>(PipelineControl::Continue) <==> !results.cancelled
            && results.satisfied,
        r matches Err(e) ==> {
            ||| is_first_error(results.items@, e)
            ||| {
                &&& forall|i: int|
                    0 <= i < results.items@.len() ==> !((
                    #[trigger] results.items@[i]).outcome is Failed)
                &&& exists|unmet: OrkaError| #[trigger]
                    names_the_policy(results, unmet) && call_ensures(E::from, (unmet,), e)
            }
        },
{
    lemma_first_error(results.items@);
    if r is Err && results.items@.filter_map(fanout::failure_of()).len() == 0 {
        let unmet = choose|unmet: OrkaError| #[trigger]
            fanout::is_unmet(results, unmet) && call_ensures(E::from, (unmet,), r->Err_0);
        lemma_counts(results.items@);
        let failing = seqs::lemma_filter_picks(results.items@, fanout::fails());
        if failing.len() > 0 {
            assert(results.items@[failing[0]].outcome is Failed);
        }
        assert(names_the_policy(results, unmet));
    }
}

/// Whether an error says that the policy of these results, none of which failed, was not met,
/// with how many branches there were, how many ran without error and how many never started.
pub open spec fn names_the_policy<C, E>(results: FanOutResults<C, E>, error: OrkaError) -> bool {
    &&& error matches OrkaError::FanOutPolicyUnmet {
        policy,
        total,
        succeeded,
        failed,
        not_started,
    }
    &&& policy@ == fanout::policy_text(results.policy)
    &&& total == results.items@.len()
    &&& counts(results.items@, Ending::WithoutError, succeeded as nat)
    &&& counts(results.items@, Ending::NeverStarted, not_started as nat)
    &&& failed == 0
}

/// The calls on a join make the turns that the laws on joins speak of.
pub proof fn law_the_calls_make_the_join_turns<R, E>(
    before: BoundedJoin<R, E>,
    reply: JoinReply<R, E>,
    after: BoundedJoin<R, E>,
)
    requires
        exists|join: &mut BoundedJoin<R, E>| #[trigger]
            call_ensures(BoundedJoin::<R, E>::advance, (join, reply), ()) && *join == before
                && *final(join) == after,
    ensures
        after.wf(),
        before.leads_to(reply, after),
{
}

/// A round starts every branch that there is room for: unless the join is halted, as many are
/// in flight as may be, or none is left to start. They are started in input order, behind
/// those in flight, and a halted join starts none. No branch that is in flight is dropped, and
/// no output changes.
pub proof fn law_a_round_fills_the_room<R, E>(
    before: BoundedJoin<R, E>,
    cancelled: bool,
    after: BoundedJoin<R, E>,
)
    requires
        before.wf(),
        before.stage is RoundStart,
        before.leads_to(JoinReply::Token(cancelled), after),
    ensures
        ({
            let started = after.next - before.next;
            &&& started >= 0
            &&& before.stop_starting || cancelled ==> started == 0
            &&& !before.stop_starting && !cancelled ==> after.active@.len() == after.limit
                || after.next == after.count()
            &&& after.active@.len() == before.active@.len() + started
            &&& forall|k: int|
                0 <= k < before.active@.len() ==> #[trigger] after.active@[k] == before.active@[k]
            &&& forall|k: int|
                0 <= k < started ==> #[trigger] after.active@[before.active@.len() + k]
                    == before.next + k
            &&& after.results == before.results
            &&& after.limit == before.limit
            &&& after.stop_starting == before.stop_starting
        }),
{
    assert(before.results@.len() == before.results.len());
}

/// A round polls the branches in flight one after the other, from the first to the last, and
/// then reads the token; where none is in flight it reads the token at once.
pub proof fn law_a_round_polls_every_branch_in_flight<R, E>(
    before: BoundedJoin<R, E>,
    reply: JoinReply<R, E>,
    after: BoundedJoin<R, E>,
    asked: JoinAction,
    next: JoinAction,
)
    requires
        before.wf(),
        before.accepts(reply),
        after.wf(),
        before.leads_to(reply, after),
        call_ensures(BoundedJoin::<R, E>::action, (&before,), asked),
        call_ensures(BoundedJoin::<R, E>::action, (&after,), next),
    ensures
        before.stage is RoundStart ==> {
            &&& asked is ReadToken
            &&& if after.active@.len() > 0 {
                next == JoinAction::Poll { branch: after.active@[0] }
            } else {
                next is ReadToken && after.stage is RoundEnd
            }
        },
        before.stage matches JoinStage::Polling { cursor } ==> {
            let branch = before.active@[cursor as int];
            let pending = reply == JoinReply::<R, E>::Branch(None);
            &&& asked == JoinAction::Poll { branch }
            &&& after.next == before.next
            &&& pending ==> after.active@ == before.active@ && after.results == before.results
            &&& !pending ==> {
                &&& forall|b: int|
                    after.in_flight(b) <==> b != branch && #[trigger] before.in_flight(b)
                &&& reply matches JoinReply::Branch(output)
                &&& after.results@ == before.results@.update(branch as int, output)
            }
            &&& forall|b: int|
                is_still_to_poll(after, b) <==> b != branch && #[trigger] is_still_to_poll(
                    before,
                    b,
                )
            &&& match next {
                JoinAction::Poll { branch: b } => is_still_to_poll(after, b as int),
                _ => next is ReadToken && after.stage is RoundEnd && forall|b: int|
                    !(#[trigger] is_still_to_poll(after, b)),
            }
        },
{
    if let JoinStage::Polling { cursor } = before.stage {
        let branch = before.active@[cursor as int];
        let last = before.active@.len() - 1;
        assert(before.active@.len() == before.active.len());
        if reply == JoinReply::<R, E>::Branch(None) {
            assert forall|b: int|
                is_still_to_poll(after, b) <==> b != branch && #[trigger] is_still_to_poll(
                    before,
                    b,
                ) by {
                if is_still_to_poll(after, b) {
                    let k = choose|k: int|
                        polling_from(after) <= k < after.active@.len()
                            && #[trigger] after.active@[k] == b;
                    assert(before.active@[k] == b);
                }
                if b != branch && is_still_to_poll(before, b) {
                    let k = choose|k: int|
                        polling_from(before) <= k < before.active@.len()
                            && #[trigger] before.active@[k] == b;
                    assert(after.active@[k] == b);
                }
            }
        } else {
            assert forall|b: int|
                after.in_flight(b) <==> b != branch && #[trigger] before.in_flight(b) by {
                if after.in_flight(b) {
                    let k = choose|k: int|
                        0 <= k < after.active@.len() && #[trigger] after.active@[k] == b;
                    let from = if k == cursor { last } else { k };
                    assert(before.active@[from] == b);
                    assert(before.active@[from] != before.active@[cursor as int]);
                }
                if b != branch && before.in_flight(b) {
                    let k = choose|k: int|
                        0 <= k < before.active@.len() && #[trigger] before.active@[k] == b;
                    let to = if k == last { cursor as int } else { k };
                    assert(after.active@[to] == b);
                }
            }
            assert forall|b: int|
                is_still_to_poll(after, b) <==> b != branch && #[trigger] is_still_to_poll(
                    before,
                    b,
                ) by {
                if is_still_to_poll(after, b) {
                    let k = choose|k: int|
                        polling_from(after) <= k < after.active@.len()
                            && #[trigger] after.active@[k] == b;
                    let from = if k == cursor { last } else { k };
                    assert(before.active@[from] == b);
                    assert(before.active@[from] != before.active@[cursor as int]);
                }
                if b != branch && is_still_to_poll(before, b) {
                    let k = choose|k: int|
                        polling_from(before) <= k < before.active@.len()
                            && #[trigger] before.active@[k] == b;
                    let to = if k == last { cursor as int } else { k };
                    assert(after.active@[to] == b);
                }
            }
        }
        if let JoinStage::Polling { cursor: at } = after.stage {
            assert(after.active@[at as int] == after.active@[at as int]);
            assert(is_still_to_poll(after, after.active@[at as int] as int));
        }
    }
}

/// The first of the branches in flight that are still to be polled in this round.
pub open spec fn polling_from<R, E>(join: BoundedJoin<R, E>) -> int {
    match join.stage {
        JoinStage::Polling { cursor } => cursor as int,
        _ => join.active@.len() as int,
    }
}

/// Whether a branch in flight is still to be polled in this round.
pub open spec fn is_still_to_poll<R, E>(join: BoundedJoin<R, E>, branch: int) -> bool {
    exists|k: int|
        polling_from(join) <= k < join.active@.len() && #[trigger] join.active@[k] == branch
}

/// After a round the join is ready exactly where nothing is in flight and nothing more will
/// start: all branches were started, or the join is halted. It goes round again exactly where a
/// branch finished in the round and another can take its place. Otherwise it waits. The
/// branches and their outputs are left as they are.
pub proof fn law_a_round_ends_ready_or_goes_on<R, E>(
    before: BoundedJoin<R, E>,
    cancelled: bool,
    after: BoundedJoin<R, E>,
    next: JoinAction,
)
    requires
        before.wf(),
        before.stage is RoundEnd,
        after.wf(),
        before.leads_to(JoinReply::Token(cancelled), after),
        call_ensures(BoundedJoin::<R, E>::action, (&after,), next),
    ensures
        ({
            let more = !before.stop_starting && !cancelled && before.next < before.count();
            &&& next is Ready <==> before.active@.len() == 0 && !more
            &&& next is ReadToken <==> before.completed_any && more && before.active@.len()
                < before.limit
            &&& !(next is Poll)
            &&& after.active == before.active
            &&& after.results == before.results
            &&& after.next == before.next
        }),
{
}

/// A branch that finishes in a round makes the round count as one in which a branch finished,
/// and nothing else does.
pub proof fn law_a_round_remembers_that_a_branch_finished<R, E>(
    before: BoundedJoin<R, E>,
    reply: JoinReply<R, E>,
    after: BoundedJoin<R, E>,
)
    requires
        before.wf(),
        before.accepts(reply),
        before.leads_to(reply, after),
    ensures
        before.stage is RoundStart ==> !after.completed_any,
        !(before.stage is RoundStart) ==> after.completed_any == (before.completed_any || (
        reply matches JoinReply::Branch(Some(_)))),
        after.stop_starting ==> before.stop_starting || before.stop_on_error && (reply matches
            JoinReply::Branch(Some(Err(_)))),
        before.stop_on_error && (reply matches JoinReply::Branch(Some(Err(_))))
            ==> after.stop_starting,
        before.stop_starting ==> after.stop_starting,
{
}

/// A fan-out runs its branches as it was configured: as many at once as were allowed, without
/// bound where nothing was said, and stopping at the first failure exactly under `FailFast`. It
/// begins with nothing started, hands out one output for each branch, and a join that is polled
/// again begins a new round with everything as it was.
pub proof fn law_a_fan_out_runs_as_configured<P, S, V, E>(
    fan_out: FanOut<P, S, V>,
    count: usize,
    join: BoundedJoin<PipelineResult, E>,
    done: BoundedJoin<PipelineResult, E>,
    outputs: Vec<Output<E>>,
    waiting: BoundedJoin<PipelineResult, E>,
    again: BoundedJoin<PipelineResult, E>,
)
    requires
        fan_out.wf(),
        call_ensures(FanOut::<P, S, V>::run::<E>, (&fan_out, count), join),
        done.wf(),
        call_ensures(BoundedJoin::<PipelineResult, E>::into_results, (done,), outputs),
        waiting.wf(),
        exists|polled: &mut BoundedJoin<PipelineResult, E>| #[trigger]
            call_ensures(BoundedJoin::<PipelineResult, E>::begin_poll, (polled,), ()) && *polled
                == waiting && *final(polled) == again,
    ensures
        join.wf(),
        join.stage is RoundStart,
        join.results@.len() == count,
        forall|b: int| 0 <= b < count ==> (#[trigger] join.results@[b]) is None,
        join.next == 0,
        join.active@.len() == 0,
        !join.stop_starting,
        join.limit == fan_out.max_concurrent,
        join.stop_on_error <==> (fan_out.verdict matches Verdict::Builtin(FanOutPolicy::FailFast)),
        outputs@ == done.results@,
        again.stage is RoundStart,
        again.active == waiting.active,
        again.next == waiting.next,
        again.results == waiting.results,
        again.limit == waiting.limit,
        again.stop_on_error == waiting.stop_on_error,
        again.stop_starting == waiting.stop_starting,
{
}

/// Each setting of a fan-out changes that setting and no other: the last policy set is the one
/// in force, and a fan-out that nothing was said of runs everything, without bound, without a
/// token and without a spawner.
pub proof fn law_settings_are_independent<P, S, V>(
    pipeline: P,
    fresh: FanOut<P, S, V>,
    before: FanOut<P, S, V>,
    policy: FanOutPolicy,
    judged: FanOut<P, S, V>,
    decides: V,
    custom: FanOut<P, S, V>,
    n: usize,
    bounded: FanOut<P, S, V>,
)
    requires
        call_ensures(FanOut::<P, S, V>::new, (pipeline,), fresh),
        call_ensures(FanOut::<P, S, V>::policy, (before, policy), judged),
        call_ensures(FanOut::<P, S, V>::custom_policy, (before, decides), custom),
        call_ensures(FanOut::<P, S, V>::max_concurrent, (before, n), bounded),
    ensures
        fresh.pipeline == pipeline,
        fresh.verdict == Verdict::<V>::Builtin(FanOutPolicy::CollectAll),
        fresh.max_concurrent == usize::MAX,
        fresh.spawner is None,
        fresh.cancel is None,
        judged.verdict == Verdict::<V>::Builtin(policy),
        judged == (FanOut { verdict: judged.verdict, ..before }),
        custom.verdict == Verdict::<V>::Custom(decides),
        custom == (FanOut { verdict: custom.verdict, ..before }),
        bounded.max_concurrent == n,
        bounded == (FanOut { max_concurrent: n, ..before }),
{
}

/// A spawned branch whose task left a result has that result; one whose task was lost fails, as
/// the lost branch at its position.
pub proof fn law_a_lost_task_is_a_failed_branch<E: From<OrkaError>>(
    left: Output<E>,
    index: usize,
    r: Result<PipelineResult, E>,
)
    requires
        call_ensures(fanout::spawned_output::<E>, (left, index), r),
    ensures
        left matches Some(output) ==> r == output,
        left is None ==> r is Err && call_ensures(
            E::from,
            (OrkaError::FanOutBranchLost { index },),
            r->Err_0,
        ),
{
}

/// Each item gets a context of its own, in order: around the item, with nothing in its bag, and
/// wound down by the fan-out's token where it has one, by a token of its own where not.
pub proof fn law_each_item_gets_its_own_context<P, S, V, T, B>(
    fan_out: FanOut<P, S, V>,
    items: Vec<T>,
    r: Vec<ContextData<T, B>>,
    i: int,
)
    requires
        call_ensures(FanOut::<P, S, V>::contexts::<T, B>, (&fan_out, items), r),
        0 <= i < items@.len(),
    ensures
        r@.len() == items@.len(),
        r@[i].origin() == items@[i],
        r@[i].bag().origin().len() == 0,
        fan_out.cancel matches Some(token) ==> r@[i].token_at_origin() == token,
        fan_out.cancel is None ==> {
            let own = r@[i].token_at_origin().origin();
            !own.set && own.slots.len() == 0
        },
{
    assert(fanout::is_branch_context(r@[i], items@[i], fan_out.cancel));
}

/// A token and a spawner are set without touching the other settings.
pub proof fn law_tokens_and_spawners_are_independent<P, S, V>(
    before: FanOut<P, S, V>,
    token: CancelToken,
    spawner: S,
    cancellable: FanOut<P, S, V>,
    spawning: FanOut<P, S, V>,
)
    requires
        call_ensures(FanOut::<P, S, V>::with_cancel, (before, token), cancellable),
        call_ensures(FanOut::<P, S, V>::spawner, (before, spawner), spawning),
    ensures
        cancellable.cancel == Some(token),
        spawning.spawner == Some(spawner),
        cancellable.pipeline == before.pipeline && spawning.pipeline == before.pipeline,
        cancellable.verdict == before.verdict && spawning.verdict == before.verdict,
        cancellable.max_concurrent == before.max_concurrent && spawning.max_concurrent
            == before.max_concurrent,
        cancellable.spawner == before.spawner,
        spawning.cancel == before.cancel,
{
}

/// An outcome answers to exactly one of its names.
pub proof fn law_an_outcome_has_one_name<E>(
    outcome: FanOutItemOutcome<E>,
    success: bool,
    failure: bool,
    cancelled: bool,
    not_started: bool,
)
    requires
        call_ensures(FanOutItemOutcome::<E>::is_success, (&outcome,), success),
        call_ensures(FanOutItemOutcome::<E>::is_failure, (&outcome,), failure),
        call_ensures(FanOutItemOutcome::<E>::is_cancelled, (&outcome,), cancelled),
        call_ensures(FanOutItemOutcome::<E>::is_not_started, (&outcome,), not_started),
    ensures
        match outcome {
            FanOutItemOutcome::Completed(_) => success && !failure && !cancelled && !not_started,
            FanOutItemOutcome::Failed(_) => !success && failure && !cancelled && !not_started,
            FanOutItemOutcome::Cancelled => !success && !failure && cancelled && !not_started,
            FanOutItemOutcome::NotStarted => !success && !failure && !cancelled && not_started,
        },
{
}

/// The results tell what they hold: the items, whether there are any, the policy, whether it was
/// met and whether the fan-out was cancelled.
pub proof fn law_the_results_tell_what_they_hold<C, E>(
    results: FanOutResults<C, E>,
    items: &Vec<FanOutItem<C, E>>,
    empty: bool,
    policy: &FanOutPolicy,
    satisfied: bool,
    cancelled: bool,
)
    requires
        call_ensures(FanOutResults::<C, E>::items, (&results,), items),
        call_ensures(FanOutResults::<C, E>::is_empty, (&results,), empty),
        call_ensures(FanOutResults::<C, E>::policy, (&results,), policy),
        call_ensures(FanOutResults::<C, E>::satisfied, (&results,), satisfied),
        call_ensures(FanOutResults::<C, E>::was_cancelled, (&results,), cancelled),
    ensures
        *items == results.items,
        empty <==> results.items@.len() == 0,
        *policy == results.policy,
        satisfied == results.satisfied,
        cancelled == results.cancelled,
{
}

/// The snapshots of the successful branches are read from their contexts, in input order: one for
/// each branch that ran without error, and none for any other.
pub proof fn law_snapshots_are_of_the_successful_branches<D: Clone, B, E>(
    results: FanOutResults<ContextData<D, B>, E>,
    snapshots: Vec<D>,
)
    requires
        call_ensures(
            FanOutResults::<ContextData<D, B>, E>::cloned_oks,
            (&results,),
            snapshots,
        ),
    ensures
        exists|places: Seq<int>| #[trigger]
            seqs::picks(results.items@, is_completed_item(), places) && places.len()
                == snapshots@.len() && forall|k: int|
                0 <= k < snapshots@.len() ==> results.items@[places[k]].context.data().was_read(
                    D::clone,
                    #[trigger] snapshots@[k],
                ),
{
    let f = fanout::succeeds::<ContextData<D, B>, E>();
    let places = seqs::lemma_filter_picks(results.items@, f);
    assert(f =~= is_completed_item());
    assert forall|k: int|
        0 <= k < snapshots@.len() implies results.items@[places[k]].context.data().was_read(
        D::clone,
        #[trigger] snapshots@[k],
    ) by {
        assert(results.items@.filter(f)[k] == results.items@[places[k]]);
    }
}

/// Whether an item ran without error.
pub open spec fn is_completed_item<C, E>() -> spec_fn(FanOutItem<C, E>) -> bool {
    |item: FanOutItem<C, E>| item.outcome is Completed
}

} // verus!
