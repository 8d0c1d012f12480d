//! The decisions of a bounded-concurrency join: which branch is polled next, which may
//! start, when the join is ready.
//!
//! [`BoundedJoin`] drives up to `limit` branches at a time to completion and resolves to
//! their outputs in **input order**, whatever order they finish in. It asks for one thing at
//! a time ([`BoundedJoin::action`]); whoever drives it owns the branches and polls them.
//!
//! A branch that never starts is never polled, and its slot stays empty.

use vstd::prelude::*;

verus! {

/// What a join asks for next.
#[derive(Debug, Clone, Copy, PartialEq, Eq, Structural)]
pub enum JoinAction {
    /// Read the cancellation token (unset, where there is none).
    ReadToken,
    /// Poll this branch.
    Poll { branch: usize },
    /// Wait until a branch wakes the join, then begin again with
    /// [`BoundedJoin::begin_poll`].
    Wait,
    /// Every branch that started has finished, and no other will start.
    Ready,
}

/// The result of a [`JoinAction`].
pub enum JoinReply<R, E> {
    /// Whether the token is set.
    Token(bool),
    /// The branch's output, `None` where it is still pending.
    Branch(Option<Result<R, E>>),
}

/// Where a join stands within a poll.
#[derive(Debug, Clone, Copy, PartialEq, Eq, Structural)]
pub enum JoinStage {
    /// Before a round: the token decides whether branches may start.
    RoundStart,
    /// In a round, at this position of the branches in flight.
    Polling { cursor: usize },
    /// After a round: the token decides how to go on.
    RoundEnd,
    /// Every branch in flight is pending.
    Waiting,
    /// Resolved.
    Done,
}

/// A join in progress.
pub struct BoundedJoin<R, E> {
    /// The output of each branch, once it has finished.
    pub results: Vec<Option<Result<R, E>>>,
    /// The branches in flight.
    pub active: Vec<usize>,
    /// The first branch that has not been started.
    pub next: usize,
    /// How many branches may be in flight at once.
    pub limit: usize,
    /// Whether a branch's error keeps further branches from starting.
    pub stop_on_error: bool,
    /// Set once such an error was seen.
    pub stop_starting: bool,
    /// Whether a branch finished in this round.
    pub completed_any: bool,
    pub stage: JoinStage,
    /// The branches that were polled in this round and found pending.
    pub pending: Ghost<Set<int>>,
    /// Whether the join was halted when this round started.
    pub was_halted: Ghost<bool>,
}

/// How many branches start in a round that may start some.
pub open spec fn starting(active: nat, next: nat, count: nat, limit: nat) -> nat {
    let room = if limit > active {
        (limit - active) as nat
    } else {
        0
    };
    let waiting = if count > next {
        (count - next) as nat
    } else {
        0
    };
    if room < waiting {
        room
    } else {
        waiting
    }
}

/// Whether a slot holds the error of a branch.
pub open spec fn is_failure<R, E>(slot: Option<Result<R, E>>) -> bool {
    match slot {
        Some(output) => output is Err,
        None => false,
    }
}

impl<R, E> BoundedJoin<R, E> {
    /// How many branches there are.
    pub open spec fn count(self) -> nat {
        self.results@.len()
    }

    /// Whether a branch is in flight.
    pub open spec fn in_flight(self, branch: int) -> bool {
        exists|k: int| 0 <= k < self.active@.len() && #[trigger] self.active@[k] == branch
    }

    /// The join's invariant: at most `limit` branches are in flight, each once and none of
    /// them finished; exactly the branches before `next` have been started, and each of those
    /// is in flight or finished.
    pub open spec fn wf(self) -> bool {
        &&& self.limit > 0
        &&& self.next <= self.count()
        &&& self.active@.len() <= self.limit
        &&& forall|k: int, l: int|
            0 <= k < l < self.active@.len() ==> #[trigger] self.active@[k]
                != #[trigger] self.active@[l]
        &&& forall|k: int|
            0 <= k < self.active@.len() ==> (#[trigger] self.active@[k]) < self.next
                && self.results@[self.active@[k] as int] is None
        &&& forall|b: int|
            0 <= b < self.next ==> (#[trigger] self.results@[b]) is Some || self.in_flight(b)
        &&& forall|b: int| self.next <= b < self.count() ==> (#[trigger] self.results@[b]) is None
        &&& self.stop_starting ==> self.stop_on_error && exists|b: int|
            0 <= b < self.count() && is_failure(#[trigger] self.results@[b])
        &&& match self.stage {
            JoinStage::RoundStart => true,
            JoinStage::Polling { cursor } => {
                &&& cursor < self.active@.len()
                &&& self.polled_up_to(cursor as int)
            },
            JoinStage::RoundEnd => {
                &&& self.polled_up_to(self.active@.len() as int)
                &&& self.active@.len() == 0 && !self.completed_any ==> self.was_halted@
                    || self.next == self.count()
            },
            JoinStage::Waiting => self.polled_up_to(self.active@.len() as int),
            JoinStage::Done => self.active@.len() == 0,
        }
    }

    /// Whether the first `n` branches in flight were polled in this round.
    pub open spec fn polled_up_to(self, n: int) -> bool {
        forall|k: int|
            0 <= k < n ==> self.pending@.contains((#[trigger] self.active@[k]) as int)
    }

    /// What a reply makes of the join.
    ///
    /// At the start of a round branches are started while there is room, unless the join is
    /// halted. Then every branch in flight is polled; one that finishes hands its output to
    /// its own slot and leaves. After the round the join is ready when nothing is in flight
    /// and nothing more will start; it goes round again when a branch finished and another
    /// can take its place, since that one still needs its first poll; else it waits.
    pub open spec fn leads_to(self, reply: JoinReply<R, E>, after: Self) -> bool {
        &&& after.count() == self.count()
        &&& after.limit == self.limit
        &&& after.stop_on_error == self.stop_on_error
        &&& match (self.stage, reply) {
            (JoinStage::RoundStart, JoinReply::Token(cancelled)) => {
                let started = if self.halted(cancelled) {
                    0
                } else {
                    starting(
                        self.active@.len(),
                        self.next as nat,
                        self.count(),
                        self.limit as nat,
                    )
                };
                &&& after.next == self.next + started
                &&& after.active@ == self.active@ + Seq::new(
                    started,
                    |k: int| (self.next + k) as usize,
                )
                &&& after.results == self.results
                &&& after.stop_starting == self.stop_starting
                &&& !after.completed_any
                &&& after.stage == Self::polling(after.active@.len(), 0)
                &&& after.pending@ == Set::<int>::empty()
                &&& after.was_halted@ == self.halted(cancelled)
            },
            (JoinStage::Polling { cursor }, JoinReply::Branch(Some(output))) => {
                let branch = self.active@[cursor as int] as int;
                &&& after.results@ == self.results@.update(branch, Some(output))
                &&& after.active@ == self.active@.update(
                    cursor as int,
                    self.active@.last(),
                ).drop_last()
                &&& after.next == self.next
                &&& after.stop_starting == (self.stop_starting || self.stop_on_error
                    && output is Err)
                &&& after.completed_any
                &&& after.stage == Self::polling(after.active@.len(), cursor as nat)
                &&& after.pending == self.pending
                &&& after.was_halted == self.was_halted
            },
            (JoinStage::Polling { cursor }, JoinReply::Branch(None)) => after == (BoundedJoin {
                stage: Self::polling(self.active@.len(), (cursor + 1) as nat),
                pending: Ghost(self.pending@.insert(self.active@[cursor as int] as int)),
                ..self
            }),
            (JoinStage::RoundEnd, JoinReply::Token(cancelled)) => {
                let may_start = !self.halted(cancelled) && self.next < self.count();
                after == (BoundedJoin {
                    stage: if self.active@.len() == 0 && !may_start {
                        JoinStage::Done
                    } else if self.completed_any && may_start && self.active@.len() < self.limit {
                        JoinStage::RoundStart
                    } else {
                        JoinStage::Waiting
                    },
                    ..self
                })
            },
            _ => false,
        }
    }

    /// Whether branches may not start, given the token.
    pub open spec fn halted(self, cancelled: bool) -> bool {
        self.stop_starting || cancelled
    }

    /// Whether a reply answers what the join asks.
    pub open spec fn accepts(self, reply: JoinReply<R, E>) -> bool {
        match self.stage {
            JoinStage::RoundStart => reply is Token,
            JoinStage::Polling { .. } => reply is Branch,
            JoinStage::RoundEnd => reply is Token,
            _ => false,
        }
    }

    /// The stage at this position of the branches in flight.
    pub open spec fn polling(active: nat, cursor: nat) -> JoinStage {
        if cursor < active {
            JoinStage::Polling { cursor: cursor as usize }
        } else {
            JoinStage::RoundEnd
        }
    }

    /// A join over `count` branches, at most `limit` at a time. With `stop_on_error`, the
    /// first branch that fails keeps those not yet started from starting.
    pub fn new(count: usize, limit: usize, stop_on_error: bool) -> (r: Self)
        requires
            limit > 0,
        ensures
            r.wf(),
            r.count() == count,
            forall|b: int| 0 <= b < count ==> (#[trigger] r.results@[b]) is None,
            r.active@.len() == 0,
            r.next == 0,
            r.limit == limit,
            r.stop_on_error == stop_on_error,
            !r.stop_starting,
            !r.completed_any,
            r.stage == JoinStage::RoundStart,
    {
        let mut results: Vec<Option<Result<R, E>>> = Vec::new();
        let mut i: usize = 0;
        while i < count
            invariant
                i <= count,
                results@.len() == i,
                forall|b: int| 0 <= b < i ==> (#[trigger] results@[b]) is None,
            decreases count - i,
        {
            results.push(None);
            i += 1;
        }
        BoundedJoin {
            results,
            active: Vec::new(),
            next: 0,
            limit,
            stop_on_error,
            stop_starting: false,
            completed_any: false,
            stage: JoinStage::RoundStart,
            pending: Ghost(Set::empty()),
            was_halted: Ghost(false),
        }
    }

    /// What has to be done next.
    pub fn action(&self) -> (r: JoinAction)
        requires
            self.wf(),
        ensures
            r == match self.stage {
                JoinStage::RoundStart => JoinAction::ReadToken,
                JoinStage::Polling { cursor } => JoinAction::Poll {
                    branch: self.active@[cursor as int],
                },
                JoinStage::RoundEnd => JoinAction::ReadToken,
                JoinStage::Waiting => JoinAction::Wait,
                JoinStage::Done => JoinAction::Ready,
            },
    {
        match self.stage {
            JoinStage::RoundStart => JoinAction::ReadToken,
            JoinStage::Polling { cursor } => JoinAction::Poll { branch: self.active[cursor] },
            JoinStage::RoundEnd => JoinAction::ReadToken,
            JoinStage::Waiting => JoinAction::Wait,
            JoinStage::Done => JoinAction::Ready,
        }
    }

    /// Begins a new poll of a join that was waiting.
    pub fn begin_poll(&mut self)
        requires
            old(self).wf(),
            old(self).stage == JoinStage::Waiting,
        ensures
            final(self).wf(),
            *final(self) == (BoundedJoin { stage: JoinStage::RoundStart, ..*old(self) }),
    {
        self.stage = JoinStage::RoundStart;
    }

    /// Starts as many branches as may be in flight, unless the join is halted.
    fn fill(&mut self, halted: bool)
        requires
            old(self).wf(),
            old(self).stage == JoinStage::RoundStart,
        ensures
            final(self).wf(),
            ({
                let before = *old(self);
                let started = if halted {
                    0
                } else {
                    starting(
                        before.active@.len(),
                        before.next as nat,
                        before.count(),
                        before.limit as nat,
                    )
                };
                &&& final(self).next == before.next + started
                &&& final(self).active@ == before.active@ + Seq::new(
                    started,
                    |k: int| (before.next + k) as usize,
                )
                &&& final(self).results == before.results
                &&& final(self).limit == before.limit
                &&& final(self).stop_on_error == before.stop_on_error
                &&& final(self).stop_starting == before.stop_starting
                &&& final(self).completed_any == before.completed_any
                &&& final(self).stage == before.stage
                &&& final(self).pending == before.pending
                &&& final(self).was_halted == before.was_halted
            }),
    {
        let ghost before = *self;
        let ghost mut started: nat = 0;
        while !halted && self.active.len() < self.limit && self.next < self.results.len()
            invariant
                self.wf(),
                before.wf(),
                halted ==> started == 0,
                started <= starting(
                    before.active@.len(),
                    before.next as nat,
                    before.count(),
                    before.limit as nat,
                ),
                self.next == before.next + started,
                self.active@ == before.active@ + Seq::new(
                    started,
                    |k: int| (before.next + k) as usize,
                ),
                self.results == before.results,
                self.limit == before.limit,
                self.stop_on_error == before.stop_on_error,
                self.stop_starting == before.stop_starting,
                self.completed_any == before.completed_any,
                self.stage == before.stage,
                self.stage == JoinStage::RoundStart,
                self.pending == before.pending,
                self.was_halted == before.was_halted,
            decreases self.results.len() - self.next,
        {
            let ghost earlier = *self;
            self.active.push(self.next);
            self.next = self.next + 1;
            proof {
                started = started + 1;
                assert(self.active@ =~= before.active@ + Seq::new(
                    started,
                    |k: int| (before.next + k) as usize,
                ));
                assert forall|b: int| 0 <= b < self.next implies (
                #[trigger] self.results@[b]) is Some || self.in_flight(b) by {
                    if b == earlier.next {
                        assert(self.active@[earlier.active@.len() as int] == b);
                    } else if earlier.results@[b] is None {
                        assert(earlier.in_flight(b));
                        let k = choose|k: int|
                            0 <= k < earlier.active@.len() && #[trigger] earlier.active@[k] == b;
                        assert(self.active@[k] == b);
                    }
                }
            }
        }
    }

    /// Takes the result of the last action and moves on, as [`leads_to`](Self::leads_to)
    /// says.
    pub fn advance(&mut self, reply: JoinReply<R, E>)
        requires
            old(self).wf(),
            old(self).accepts(reply),
        ensures
            final(self).wf(),
            old(self).leads_to(reply, *final(self)),
    {
        match self.stage {
            JoinStage::RoundStart => {
                if let JoinReply::Token(cancelled) = reply {
                    let halted = self.stop_starting || cancelled;
                    self.completed_any = false;
                    self.pending = Ghost(Set::empty());
                    self.was_halted = Ghost(halted);
                    self.fill(halted);
                    if self.active.len() > 0 {
                        self.stage = JoinStage::Polling { cursor: 0 };
                    } else {
                        self.stage = JoinStage::RoundEnd;
                    }
                }
            },
            JoinStage::Polling { cursor } => {
                if let JoinReply::Branch(output) = reply {
                    match output {
                        Some(output) => {
                            self.branch_finished(cursor, output);
                        },
                        None => {
                            self.pending = Ghost(
                                self.pending@.insert(self.active@[cursor as int] as int),
                            );
                            if cursor + 1 < self.active.len() {
                                self.stage = JoinStage::Polling { cursor: cursor + 1 };
                            } else {
                                self.stage = JoinStage::RoundEnd;
                            }
                        },
                    }
                }
            },
            JoinStage::RoundEnd => {
                if let JoinReply::Token(cancelled) = reply {
                    let halted = self.stop_starting || cancelled;
                    let may_start = !halted && self.next < self.results.len();
                    if self.active.len() == 0 && !may_start {
                        self.stage = JoinStage::Done;
                    } else if self.completed_any && may_start && self.active.len() < self.limit {
                        self.stage = JoinStage::RoundStart;
                    } else {
                        self.stage = JoinStage::Waiting;
                    }
                }
            },
            _ => {},
        }
    }

    fn branch_finished(&mut self, cursor: usize, output: Result<R, E>)
        requires
            old(self).wf(),
            old(self).stage == (JoinStage::Polling { cursor }),
        ensures
            final(self).wf(),
            old(self).leads_to(JoinReply::Branch(Some(output)), *final(self)),
    {
        let ghost before = *self;
        let failed = output.is_err();
        let branch = self.active[cursor];
        self.results[branch] = Some(output);
        self.active.swap_remove(cursor);
        if self.stop_on_error && failed {
            self.stop_starting = true;
        }
        self.completed_any = true;
        if cursor < self.active.len() {
            self.stage = JoinStage::Polling { cursor };
        } else {
            self.stage = JoinStage::RoundEnd;
        }
        proof {
            let last = before.active@.len() - 1;
            assert forall|k: int| 0 <= k < self.active@.len() implies (
            #[trigger] self.active@[k]) < self.next
                && self.results@[self.active@[k] as int] is None by {
                let source = if k == cursor { last } else { k };
                assert(self.active@[k] == before.active@[source]);
                assert(before.active@[source] != before.active@[cursor as int]);
            }
            assert forall|k: int, l: int| 0 <= k < l < self.active@.len() implies
                #[trigger] self.active@[k] != #[trigger] self.active@[l] by {
                let from_k = if k == cursor { last } else { k };
                let from_l = if l == cursor { last } else { l };
                assert(self.active@[k] == before.active@[from_k]);
                assert(self.active@[l] == before.active@[from_l]);
            }
            assert forall|b: int| 0 <= b < self.next implies (
            #[trigger] self.results@[b]) is Some || self.in_flight(b) by {
                if b != branch && before.results@[b] is None {
                    assert(before.in_flight(b));
                    let k = choose|k: int|
                        0 <= k < before.active@.len() && #[trigger] before.active@[k] == b;
                    let target = if k == last { cursor as int } else { k };
                    assert(self.active@[target] == b);
                }
            }
            assert(before.active@[cursor as int] < before.next);
            if before.stop_starting {
                let b = choose|b: int|
                    0 <= b < before.count() && is_failure(#[trigger] before.results@[b]);
                assert(is_failure(self.results@[b]));
                assert(before.results@[branch as int] is None);
            } else if self.stop_starting {
                assert(is_failure(self.results@[branch as int]));
            }
        }
    }

    /// The outputs of the branches, in input order; `None` for one that never started.
    pub fn into_results(self) -> (r: Vec<Option<Result<R, E>>>)
        requires
            self.wf(),
            self.stage == JoinStage::Done,
        ensures
            r@ == self.results@,
            forall|b: int| 0 <= b < r@.len() ==> ((#[trigger] r@[b]) is Some <==> b < self.next),
    {
        proof {
            assert forall|b: int| 0 <= b < self.results@.len() implies ((
            #[trigger] self.results@[b]) is Some <==> b < self.next) by {
                if b < self.next && self.results@[b] is None {
                    assert(self.in_flight(b));
                }
            }
        }
        self.results
    }
}

/// A branch's output is final: no reply takes it away or changes it, and no branch returns
/// to the state of not having been started.
pub proof fn law_outputs_are_final<R, E>(
    before: BoundedJoin<R, E>,
    reply: JoinReply<R, E>,
    after: BoundedJoin<R, E>,
    branch: int,
)
    requires
        before.wf(),
        before.leads_to(reply, after),
        0 <= branch < before.count(),
    ensures
        before.results@[branch] is Some ==> after.results@[branch] == before.results@[branch],
        branch < before.next ==> branch < after.next,
{
    if let JoinStage::Polling { cursor } = before.stage {
        assert(before.results@[before.active@[cursor as int] as int] is None);
    }
}

/// A branch's output goes to the branch's own slot, and a reply about one branch leaves the
/// slots of all others as they are.
pub proof fn law_outputs_keep_input_order<R, E>(
    before: BoundedJoin<R, E>,
    output: Result<R, E>,
    after: BoundedJoin<R, E>,
    branch: int,
)
    requires
        before.wf(),
        before.stage is Polling,
        before.leads_to(JoinReply::Branch(Some(output)), after),
        0 <= branch < before.count(),
    ensures
        after.results@[branch] == if branch == before.active@[before.stage->cursor as int] {
            Some(output)
        } else {
            before.results@[branch]
        },
{
}

/// Once a branch's error or the token has halted the join, no branch starts: neither in a
/// round that begins halted nor, after a stopping error, ever again.
pub proof fn law_a_halted_join_starts_nothing<R, E>(
    before: BoundedJoin<R, E>,
    reply: JoinReply<R, E>,
    after: BoundedJoin<R, E>,
)
    requires
        before.wf(),
        before.leads_to(reply, after),
        before.stop_starting || reply == JoinReply::<R, E>::Token(true),
    ensures
        after.next == before.next,
        before.stop_starting ==> after.stop_starting,
{
}

/// With fail-fast, the reply that brings the first error halts the join at once; without it,
/// an error never does.
pub proof fn law_only_fail_fast_stops_on_an_error<R, E>(
    before: BoundedJoin<R, E>,
    error: E,
    after: BoundedJoin<R, E>,
)
    requires
        before.wf(),
        before.stage is Polling,
        before.leads_to(JoinReply::Branch(Some(Err(error))), after),
    ensures
        after.stop_starting == (before.stop_starting || before.stop_on_error),
        before.wf() && !before.stop_on_error ==> !after.stop_starting,
{
}

/// A join that waits will be woken: some branch is in flight, and every branch in flight was
/// polled since it started, so each has had the chance to ask for a wake-up. The token, once
/// found set, is taken to stay set.
pub proof fn law_a_waiting_join_will_be_woken<R, E>(
    before: BoundedJoin<R, E>,
    cancelled: bool,
    after: BoundedJoin<R, E>,
)
    requires
        before.wf(),
        before.stage is RoundEnd,
        before.leads_to(JoinReply::Token(cancelled), after),
        before.was_halted@ ==> before.halted(cancelled),
        after.stage is Waiting,
    ensures
        after.active@.len() > 0,
        forall|k: int|
            0 <= k < after.active@.len() ==> after.pending@.contains(
                (#[trigger] after.active@[k]) as int,
            ),
{
}

/// A join that is ready has nothing in flight: every branch that was started has finished,
/// and none that was not started has an output.
pub proof fn law_a_ready_join_drained_every_branch<R, E>(join: BoundedJoin<R, E>)
    requires
        join.wf(),
        join.stage is Done,
    ensures
        forall|b: int|
            0 <= b < join.count() ==> ((#[trigger] join.results@[b]) is Some <==> b < join.next),
{
    assert forall|b: int| 0 <= b < join.count() implies ((#[trigger] join.results@[b]) is Some
        <==> b < join.next) by {
        if b < join.next && join.results@[b] is None {
            assert(join.in_flight(b));
        }
    }
}

/// A join that is ready and was never halted has run every branch.
pub proof fn law_an_unhalted_join_runs_every_branch<R, E>(
    before: BoundedJoin<R, E>,
    after: BoundedJoin<R, E>,
)
    requires
        before.wf(),
        before.stage is RoundEnd,
        !before.stop_starting,
        before.leads_to(JoinReply::Token(false), after),
        after.stage is Done,
    ensures
        after.next == after.count(),
{
}

/// How far a poll is from its end: first how many branches have not finished, then the part
/// of the round still ahead, then the branches still to be polled in it.
pub open spec fn poll_distance<R, E>(join: BoundedJoin<R, E>) -> (int, int, int) {
    let unfinished = join.active@.len() + join.count() - join.next;
    match join.stage {
        JoinStage::Polling { cursor } => (
            unfinished,
            if join.completed_any {
                5
            } else {
                2
            },
            join.active@.len() - cursor,
        ),
        JoinStage::RoundEnd => (
            unfinished,
            if join.completed_any {
                4
            } else {
                1
            },
            0,
        ),
        JoinStage::RoundStart => (unfinished, 3, 0),
        _ => (unfinished, 0, 0),
    }
}

/// A poll comes to an end: every reply brings the join nearer to waiting or being ready,
/// whatever the branches and the token answer.
pub proof fn law_a_poll_comes_to_an_end<R, E>(
    before: BoundedJoin<R, E>,
    reply: JoinReply<R, E>,
    after: BoundedJoin<R, E>,
)
    requires
        before.wf(),
        after.wf(),
        before.accepts(reply),
        before.leads_to(reply, after),
    ensures
        ({
            let (a, b) = (poll_distance(after), poll_distance(before));
            &&& a.0 >= 0 && a.1 >= 0 && a.2 >= 0
            &&& a.0 < b.0 || (a.0 == b.0 && (a.1 < b.1 || (a.1 == b.1 && a.2 < b.2)))
        }),
{
}

} // verus!
