//! What holds of a cancellation token over its whole life.
//!
//! A [`History`] is a token, all of its clones, and everyone who ever waited for it: a sequence
//! of operations, one after the other, each of them as the contracts in [`crate::cancel`] say.

use std::task::Waker;
use vstd::prelude::*;

use crate::cancel;
use crate::cancel::{CancelToken, Cancelled, TokenState, TokenView, WakerSlots};
use crate::seqs;

verus! {

/// What can be done with a token and its waiters. Waiters are told apart by a number.
pub enum TokenOp {
    /// The token is cancelled, through any of its clones.
    Cancel,
    /// A waiter is polled.
    Poll { waiter: int, waker: Waker },
    /// A waiter gives up.
    Release { waiter: int },
}

/// A token between two operations.
#[verifier::ext_equal]
pub struct Moment {
    pub token: TokenView,
    /// The slot of every waiter that has one.
    pub held: Map<int, usize>,
}

impl Moment {
    /// The slot of a waiter, if it has one.
    pub open spec fn slot_of(self, waiter: int) -> Option<usize> {
        if self.held.contains_key(waiter) {
            Some(self.held[waiter])
        } else {
            None
        }
    }

    /// The waker registered for a waiter.
    pub open spec fn waker_of(self, waiter: int) -> Option<Waker> {
        self.token.slots[self.held[waiter] as int]
    }
}

/// What an operation answers.
#[verifier::ext_equal]
pub struct Answer {
    /// Whether a poll found the token set.
    pub ready: bool,
    /// Who is woken.
    pub woken: Seq<Waker>,
}

/// Whether an operation can lead from one moment to the next with this answer.
pub open spec fn leads_to(before: Moment, op: TokenOp, after: Moment, answer: Answer) -> bool {
    match op {
        TokenOp::Cancel => {
            &&& after.token == cancel::cancelled_token(before.token)
            &&& after.held == before.held
            &&& answer == (Answer { ready: false, woken: cancel::woken_by_cancel(before.token) })
        },
        TokenOp::Poll { waiter, waker } => {
            &&& answer.woken == Seq::<Waker>::empty()
            &&& exists|registered: Option<usize>| #[trigger]
                cancel::is_polled(
                    before.token,
                    before.slot_of(waiter),
                    waker,
                    after.token,
                    registered,
                ) && answer.ready == (registered is None) && after.held == match registered {
                    Some(i) => before.held.insert(waiter, i),
                    None => before.held,
                }
        },
        TokenOp::Release { waiter } => {
            &&& answer == (Answer { ready: false, woken: Seq::empty() })
            &&& after.held == before.held.remove(waiter)
            &&& after.token == match before.slot_of(waiter) {
                Some(i) => cancel::released_token(before.token, i),
                None => before.token,
            }
        },
    }
}

/// The life of a token: what was done with it, what it was in between, and what was answered.
pub struct History {
    pub ops: Seq<TokenOp>,
    pub moments: Seq<Moment>,
    pub answers: Seq<Answer>,
}

impl History {
    /// The token starts out unset and without waiters, and each operation does what it does.
    pub open spec fn wf(self) -> bool {
        &&& self.moments.len() == self.ops.len() + 1
        &&& self.answers.len() == self.ops.len()
        &&& self.moments[0] == (Moment { token: cancel::fresh_token(), held: Map::empty() })
        &&& forall|i: int|
            0 <= i < self.ops.len() ==> leads_to(
                self.moments[i],
                #[trigger] self.ops[i],
                self.moments[i + 1],
                self.answers[i],
            )
    }

    /// Whether the token was cancelled by one of the first `n` operations.
    pub open spec fn cancelled_before(self, n: int) -> bool {
        exists|j: int| 0 <= j < n && (#[trigger] self.ops[j]) is Cancel
    }

    /// Whether `registered` stands for the waker that the waiter was polled with last in the
    /// first `n` operations.
    pub open spec fn is_waker_of(self, n: int, waiter: int, registered: Waker) -> bool {
        exists|j: int|
            0 <= j < n && is_poll_with(#[trigger] self.ops[j], waiter, registered)
                && self.is_last_poll(n, waiter, j)
    }

    /// Whether no operation after the `j`-th, of the first `n`, polls the waiter.
    pub open spec fn is_last_poll(self, n: int, waiter: int, j: int) -> bool {
        forall|k: int| j < k < n ==> !is_poll_of(#[trigger] self.ops[k], waiter)
    }
}

/// Whether an operation polls the waiter.
pub open spec fn is_poll_of(op: TokenOp, waiter: int) -> bool {
    op matches TokenOp::Poll { waiter: w, .. } && w == waiter
}

/// Whether an operation polls the waiter with a waker that `registered` stands for.
pub open spec fn is_poll_with(op: TokenOp, waiter: int, registered: Waker) -> bool {
    op matches TokenOp::Poll { waiter: w, waker } && w == waiter && cancel::stands_for(
        registered,
        waker,
    )
}

/// Whether everyone who waits for an unset token has a slot of their own with a waker in it,
/// and no other slot holds one.
pub open spec fn is_orderly(m: Moment) -> bool {
    &&& forall|w: int| #[trigger]
        m.held.contains_key(w) ==> m.held[w] < m.token.slots.len() && m.waker_of(w) is Some
    &&& forall|v: int, w: int|
        #[trigger] m.held.contains_key(v) && #[trigger] m.held.contains_key(w) && v != w
            ==> m.held[v] != m.held[w]
    &&& forall|i: int|
        0 <= i < m.token.slots.len() && (#[trigger] m.token.slots[i]) is Some ==> is_held(m, i)
}

/// Whether a slot belongs to someone.
pub open spec fn is_held(m: Moment, i: int) -> bool {
    exists|w: int| #[trigger] m.held.contains_key(w) && m.held[w] == i
}

/// A slot that is not free belongs to the waiter whose slot it is, and to nobody else.
proof fn lemma_orderly_after_poll(
    before: Moment,
    waiter: int,
    waker: Waker,
    after: Moment,
    i: usize,
)
    requires
        is_orderly(before),
        cancel::is_registered(
            before.token.slots,
            before.slot_of(waiter),
            waker,
            after.token.slots,
            i,
        ),
        after.held == before.held.insert(waiter, i),
    ensures
        is_orderly(after),
        forall|w: int| #[trigger]
            before.held.contains_key(w) && w != waiter ==> after.waker_of(w)
                == before.waker_of(w),
        after.waker_of(waiter) is Some,
        cancel::stands_for(after.waker_of(waiter)->Some_0, waker),
{
    let slots = before.token.slots;
    cancel::lemma_first_free_is_free(slots, 0);
    if !before.held.contains_key(waiter) && i < slots.len() {
        assert(slots[i as int] is None);
    }
    assert forall|w: int| #[trigger] before.held.contains_key(w) && w != waiter implies
        before.held[w] != i && after.waker_of(w) == before.waker_of(w) by {
        assert(before.waker_of(w) is Some);
        if before.held.contains_key(waiter) {
            assert(before.held[waiter] == i);
        }
        assert(slots[before.held[w] as int] is Some);
    }
    assert forall|w: int| #[trigger] after.held.contains_key(w) implies after.held[w]
        < after.token.slots.len() && after.waker_of(w) is Some by {
        if w != waiter {
            assert(before.held.contains_key(w));
        }
    }
    assert forall|v: int, w: int|
        #[trigger] after.held.contains_key(v) && #[trigger] after.held.contains_key(w) && v
            != w implies after.held[v] != after.held[w] by {
        if v != waiter {
            assert(before.held.contains_key(v));
        }
        if w != waiter {
            assert(before.held.contains_key(w));
        }
    }
    assert forall|j: int|
        0 <= j < after.token.slots.len() && (#[trigger] after.token.slots[j]) is Some implies
        is_held(after, j) by {
        if j == i {
            assert(after.held.contains_key(waiter));
        } else {
            assert(slots[j] is Some);
            assert(is_held(before, j));
            let w = choose|w: int| #[trigger] before.held.contains_key(w) && before.held[w] == j;
            assert(w != waiter) by {
                if w == waiter {
                    assert(cancel::slot_for(slots, before.slot_of(waiter)) == j);
                }
            }
            assert(after.held.contains_key(w));
        }
    }
}

proof fn lemma_orderly_after_release(before: Moment, waiter: int, after: Moment)
    requires
        is_orderly(before),
        before.held.contains_key(waiter),
        after.held == before.held.remove(waiter),
        after.token.slots == cancel::freed(before.token.slots, before.held[waiter]),
    ensures
        is_orderly(after),
        forall|w: int| #[trigger]
            after.held.contains_key(w) ==> after.waker_of(w) == before.waker_of(w),
{
    let slots = before.token.slots;
    assert forall|w: int| #[trigger] after.held.contains_key(w) implies after.held[w]
        < after.token.slots.len() && after.waker_of(w) is Some && after.waker_of(w)
        == before.waker_of(w) by {
        assert(before.held.contains_key(w));
        assert(before.held[w] != before.held[waiter]);
    }
    assert forall|v: int, w: int|
        #[trigger] after.held.contains_key(v) && #[trigger] after.held.contains_key(w) && v
            != w implies after.held[v] != after.held[w] by {
        assert(before.held.contains_key(v) && before.held.contains_key(w));
    }
    assert forall|j: int|
        0 <= j < after.token.slots.len() && (#[trigger] after.token.slots[j]) is Some implies
        is_held(after, j) by {
        assert(slots[j] is Some);
        assert(is_held(before, j));
        let w = choose|w: int| #[trigger] before.held.contains_key(w) && before.held[w] == j;
        assert(w != waiter);
        assert(after.held.contains_key(w));
    }
}

/// What holds between any two operations of a token's life.
proof fn lemma_moments(h: History, n: int)
    requires
        h.wf(),
        0 <= n <= h.ops.len(),
    ensures
        h.moments[n].token.set <==> h.cancelled_before(n),
        !h.moments[n].token.set ==> is_orderly(h.moments[n]),
        !h.moments[n].token.set ==> forall|w: int| #[trigger]
            h.moments[n].held.contains_key(w) ==> h.is_waker_of(
                n,
                w,
                h.moments[n].waker_of(w)->Some_0,
            ),
    decreases n,
{
    if n > 0 {
        lemma_moments(h, n - 1);
        let before = h.moments[n - 1];
        let after = h.moments[n];
        let op = h.ops[n - 1];
        assert(leads_to(before, op, h.moments[n - 1 + 1], h.answers[n - 1]));
        if op is Cancel {
            assert(h.cancelled_before(n));
        } else if h.cancelled_before(n - 1) {
            let j = choose|j: int| 0 <= j < n - 1 && (#[trigger] h.ops[j]) is Cancel;
            assert(h.ops[j] is Cancel);
            assert(h.cancelled_before(n));
        } else {
            assert(!h.cancelled_before(n)) by {
                if h.cancelled_before(n) {
                    let j = choose|j: int| 0 <= j < n && (#[trigger] h.ops[j]) is Cancel;
                    assert(j < n - 1);
                }
            }
            match op {
                TokenOp::Poll { waiter, waker } => {
                    let registered = choose|registered: Option<usize>| #[trigger]
                        cancel::is_polled(
                            before.token,
                            before.slot_of(waiter),
                            waker,
                            after.token,
                            registered,
                        ) && h.answers[n - 1].ready == (registered is None) && after.held
                            == match registered {
                            Some(i) => before.held.insert(waiter, i),
                            None => before.held,
                        };
                    lemma_orderly_after_poll(before, waiter, waker, after, registered->Some_0);
                    assert forall|w: int| #[trigger] after.held.contains_key(w) implies
                        h.is_waker_of(n, w, after.waker_of(w)->Some_0) by {
                        if w == waiter {
                            assert(is_poll_with(h.ops[n - 1], w, after.waker_of(w)->Some_0));
                            assert(h.is_last_poll(n, w, n - 1));
                        } else {
                            assert(before.held.contains_key(w));
                            lemma_waker_stays(h, n - 1, w, before.waker_of(w)->Some_0);
                        }
                    }
                },
                TokenOp::Release { waiter } => {
                    if before.held.contains_key(waiter) {
                        lemma_orderly_after_release(before, waiter, after);
                    } else {
                        assert(after.held =~= before.held);
                    }
                    assert forall|w: int| #[trigger] after.held.contains_key(w) implies
                        h.is_waker_of(n, w, after.waker_of(w)->Some_0) by {
                        assert(before.held.contains_key(w));
                        lemma_waker_stays(h, n - 1, w, before.waker_of(w)->Some_0);
                    }
                },
                TokenOp::Cancel => {},
            }
        }
    }
}

proof fn lemma_waker_stays(h: History, n: int, waiter: int, registered: Waker)
    requires
        h.is_waker_of(n, waiter, registered),
        !is_poll_of(h.ops[n], waiter),
    ensures
        h.is_waker_of(n + 1, waiter, registered),
{
    let j = choose|j: int|
        0 <= j < n && is_poll_with(#[trigger] h.ops[j], waiter, registered) && h.is_last_poll(
            n,
            waiter,
            j,
        );
    assert(is_poll_with(h.ops[j], waiter, registered));
    assert(h.is_last_poll(n + 1, waiter, j));
}

/// A poll is ready exactly where the token, or any clone of it, was cancelled before. Otherwise
/// the waiter is registered: it has a slot of its own, and the waker in it stands for the one of
/// this poll, whatever waker was there before.
pub proof fn law_a_poll_is_ready_exactly_once_cancelled(h: History, i: int)
    requires
        h.wf(),
        0 <= i < h.ops.len(),
        h.ops[i] is Poll,
    ensures
        h.answers[i].ready <==> h.cancelled_before(i),
        !h.answers[i].ready ==> {
            let waiter = h.ops[i]->Poll_waiter;
            let after = h.moments[i + 1];
            &&& after.held.contains_key(waiter)
            &&& after.waker_of(waiter) is Some
            &&& cancel::stands_for(after.waker_of(waiter)->Some_0, h.ops[i]->Poll_waker)
            &&& h.is_waker_of(i + 1, waiter, after.waker_of(waiter)->Some_0)
            &&& forall|w: int| #[trigger]
                after.held.contains_key(w) && w != waiter ==> after.held[w] != after.held[waiter]
        },
{
    lemma_moments(h, i);
    lemma_moments(h, i + 1);
    assert(leads_to(h.moments[i], h.ops[i], h.moments[i + 1], h.answers[i]));
    if !h.answers[i].ready {
        let waiter = h.ops[i]->Poll_waiter;
        let registered = h.moments[i + 1].waker_of(waiter)->Some_0;
        assert(h.moments[i + 1].held.contains_key(waiter));
        let j = choose|j: int|
            0 <= j < i + 1 && is_poll_with(#[trigger] h.ops[j], waiter, registered)
                && h.is_last_poll(i + 1, waiter, j);
        assert(j == i) by {
            if j < i {
                assert(is_poll_of(h.ops[i], waiter));
            }
        }
    }
    assert(h.cancelled_before(i + 1) ==> h.cancelled_before(i)) by {
        if h.cancelled_before(i + 1) {
            let j = choose|j: int| 0 <= j < i + 1 && (#[trigger] h.ops[j]) is Cancel;
            assert(j < i);
        }
    }
}

/// A token that was cancelled stays so: every moment from then on finds it set, and cancelling
/// it again changes nothing and wakes nobody.
pub proof fn law_cancellation_is_for_good(h: History, i: int, n: int)
    requires
        h.wf(),
        0 <= i < n <= h.ops.len(),
        h.ops[i] is Cancel,
    ensures
        h.moments[n].token.set,
        n < h.ops.len() && h.ops[n] is Cancel ==> h.answers[n].woken == Seq::<Waker>::empty()
            && h.moments[n + 1] == h.moments[n],
{
    lemma_moments(h, n);
    assert(h.cancelled_before(n));
    if n < h.ops.len() {
        assert(leads_to(h.moments[n], h.ops[n], h.moments[n + 1], h.answers[n]));
    }
}

/// The position of a slot's waker among the wakers that are woken.
pub open spec fn rank(slots: Seq<Option<Waker>>, i: int) -> int {
    cancel::wakers(slots.take(i)).len() as int
}

/// The place of a waiter's waker among those that are woken.
pub open spec fn place_of(m: Moment, waiter: int) -> int {
    rank(m.token.slots, m.held[waiter] as int)
}

/// Whether a place among those woken is that of a waiter.
pub open spec fn is_placed(m: Moment, k: int) -> bool {
    exists|w: int| #[trigger] m.held.contains_key(w) && place_of(m, w) == k
}

/// Where the waker of a slot stands among all wakers.
proof fn lemma_rank(slots: Seq<Option<Waker>>, i: int)
    requires
        0 <= i < slots.len(),
        slots[i] is Some,
    ensures
        0 <= rank(slots, i) < cancel::wakers(slots).len(),
        cancel::wakers(slots)[rank(slots, i)] == slots[i]->Some_0,
    decreases slots.len(),
{
    let f = |slot: Option<Waker>| slot;
    let short = slots.drop_last();
    slots.lemma_filter_map_take_succ(f, slots.len() - 1);
    assert(slots.take(slots.len() as int) =~= slots);
    assert(slots.take(slots.len() - 1) =~= short);
    if i < slots.len() - 1 {
        assert(short.take(i) =~= slots.take(i));
        lemma_rank(short, i);
    }
}

/// The wakers of different slots stand in different places.
proof fn lemma_rank_increases(slots: Seq<Option<Waker>>, i: int, j: int)
    requires
        0 <= i < j <= slots.len(),
        slots[i] is Some,
    ensures
        rank(slots, i) < rank(slots, j),
    decreases j - i,
{
    let f = |slot: Option<Waker>| slot;
    slots.lemma_filter_map_take_succ(f, j - 1);
    if i < j - 1 {
        lemma_rank_increases(slots, i, j - 1);
    }
}

/// Every waker is that of some slot.
proof fn lemma_rank_onto(slots: Seq<Option<Waker>>, k: int) -> (i: int)
    requires
        0 <= k < cancel::wakers(slots).len(),
    ensures
        0 <= i < slots.len(),
        slots[i] is Some,
        rank(slots, i) == k,
    decreases slots.len(),
{
    let f = |slot: Option<Waker>| slot;
    let short = slots.drop_last();
    if slots.len() == 0 {
        assert(cancel::wakers(slots) =~= Seq::empty());
        0
    } else {
        slots.lemma_filter_map_take_succ(f, slots.len() - 1);
        assert(slots.take(slots.len() as int) =~= slots);
        assert(slots.take(slots.len() - 1) =~= short);
        if k < cancel::wakers(short).len() {
            let i = lemma_rank_onto(short, k);
            assert(short.take(i) =~= slots.take(i));
            i
        } else {
            slots.len() - 1
        }
    }
}

/// The first cancellation wakes everyone who waits, each once: the waker of every waiter stands
/// at one place among those woken, those of two waiters at different places, and there is no
/// place besides. What is woken for a waiter stands for the waker of its last poll: it is a clone
/// of that waker, or `will_wake` answered that it wakes the same task.
pub proof fn law_cancelling_wakes_every_waiter_once(h: History, i: int)
    requires
        h.wf(),
        0 <= i < h.ops.len(),
        h.ops[i] is Cancel,
        !h.cancelled_before(i),
    ensures
        ({
            let before = h.moments[i];
            let woken = h.answers[i].woken;
            &&& forall|w: int| #[trigger]
                before.held.contains_key(w) ==> {
                    &&& 0 <= place_of(before, w) < woken.len()
                    &&& before.waker_of(w) == Some(woken[place_of(before, w)])
                    &&& h.is_waker_of(i, w, woken[place_of(before, w)])
                }
            &&& forall|v: int, w: int|
                #[trigger] before.held.contains_key(v) && #[trigger] before.held.contains_key(w)
                    && v != w ==> place_of(before, v) != place_of(before, w)
            &&& forall|k: int| 0 <= k < woken.len() ==> #[trigger] is_placed(before, k)
        }),
{
    lemma_moments(h, i);
    assert(leads_to(h.moments[i], h.ops[i], h.moments[i + 1], h.answers[i]));
    let before = h.moments[i];
    let slots = before.token.slots;
    let woken = h.answers[i].woken;
    assert forall|w: int| #[trigger] before.held.contains_key(w) implies 0 <= place_of(before, w)
        < woken.len() && before.waker_of(w) == Some(woken[place_of(before, w)]) && h.is_waker_of(
        i,
        w,
        woken[place_of(before, w)],
    ) by {
        lemma_rank(slots, before.held[w] as int);
    }
    assert forall|v: int, w: int|
        #[trigger] before.held.contains_key(v) && #[trigger] before.held.contains_key(w) && v
            != w implies place_of(before, v) != place_of(before, w) by {
        let a = before.held[v] as int;
        let b = before.held[w] as int;
        if a < b {
            lemma_rank_increases(slots, a, b);
        } else {
            lemma_rank_increases(slots, b, a);
        }
    }
    assert forall|k: int| 0 <= k < woken.len() implies #[trigger] is_placed(before, k) by {
        let j = lemma_rank_onto(slots, k);
        assert(is_held(before, j));
        let w = choose|w: int| #[trigger] before.held.contains_key(w) && before.held[w] == j;
        assert(place_of(before, w) == k);
    }
}

/// Whether a slot holds a waker.
pub open spec fn is_taken() -> spec_fn(Option<Waker>) -> bool {
    |slot: Option<Waker>| slot is Some
}

/// Whether these are the wakers of all taken slots, in the order of the slots.
pub open spec fn hands_out(slots: Seq<Option<Waker>>, wakers: Seq<Waker>) -> bool {
    exists|places: Seq<int>| #[trigger]
        seqs::picks(slots, is_taken(), places) && places.len() == wakers.len() && forall|k: int|
            0 <= k < wakers.len() ==> slots[places[k]] == Some(#[trigger] wakers[k])
}

/// Whether a number is that of the taken slots.
pub open spec fn counts_taken(slots: Seq<Option<Waker>>, n: int) -> bool {
    exists|places: Seq<int>| #[trigger]
        seqs::picks(slots, is_taken(), places) && places.len() == n
}

/// Whether a waiter got slot `i` and left every other as it was: its own where it has one that is
/// still there, and otherwise the first that is free, a new one only where none is. The waker in
/// it stands for that of the waiter.
pub open spec fn takes_slot(
    before: Seq<Option<Waker>>,
    slot: Option<usize>,
    waker: Waker,
    after: Seq<Option<Waker>>,
    i: int,
) -> bool {
    &&& 0 <= i < after.len()
    &&& after[i] matches Some(held) && (cloned::<Waker>(waker, held) || call_ensures(
        Waker::will_wake,
        (&held, &waker),
        true,
    ))
    &&& forall|j: int| 0 <= j < before.len() && j != i ==> after[j] == #[trigger] before[j]
    &&& match slot {
        Some(own) if own < before.len() => i == own && after.len() == before.len(),
        _ => {
            &&& forall|j: int| 0 <= j < before.len() && j < i ==> (#[trigger] before[j]) is Some
            &&& i < before.len() ==> before[i] is None && after.len() == before.len()
            &&& i >= before.len() ==> i == before.len() && after.len() == before.len() + 1
        },
    }
}

/// Whether a slot was given back and every other left as it was.
pub open spec fn gives_back(
    before: Seq<Option<Waker>>,
    slot: int,
    after: Seq<Option<Waker>>,
) -> bool {
    &&& after.len() == before.len()
    &&& 0 <= slot < after.len() ==> after[slot] is None
    &&& forall|j: int| 0 <= j < before.len() && j != slot ==> after[j] == #[trigger] before[j]
}

proof fn lemma_hands_out(slots: Seq<Option<Waker>>)
    ensures
        hands_out(slots, cancel::wakers(slots)),
        counts_taken(slots, cancel::wakers(slots).len() as int),
{
    let f = |slot: Option<Waker>| slot;
    let places = seqs::lemma_filter_map_picks(slots, f);
    assert((|slot: Option<Waker>| f(slot) is Some) =~= is_taken());
    assert forall|k: int| 0 <= k < places.len() implies slots[places[k]] == Some(
        #[trigger] cancel::wakers(slots)[k],
    ) by {
        assert(Some(cancel::wakers(slots)[k]) == f(slots[places[k]]));
    }
}

/// All slots before the first free one are taken.
proof fn lemma_before_first_free(slots: Seq<Option<Waker>>, i: int)
    requires
        0 <= i <= slots.len(),
    ensures
        forall|j: int| i <= j < cancel::first_free(slots, i) ==> (#[trigger] slots[j]) is Some,
    decreases slots.len() - i,
{
    if i < slots.len() && slots[i] is Some {
        lemma_before_first_free(slots, i + 1);
        cancel::lemma_first_free_is_free(slots, i + 1);
    }
}

proof fn lemma_takes_slot(
    before: Seq<Option<Waker>>,
    slot: Option<usize>,
    waker: Waker,
    after: Seq<Option<Waker>>,
    i: usize,
)
    requires
        cancel::is_registered(before, slot, waker, after, i),
    ensures
        takes_slot(before, slot, waker, after, i as int),
{
    lemma_before_first_free(before, 0);
    cancel::lemma_first_free_is_free(before, 0);
}

/// Setting a token hands out the waker of everyone who waits, in the order of their slots, and
/// leaves nobody waiting. A token that is set stays as it is, and hands out nothing.
pub proof fn law_setting_a_token_hands_out_every_waker(
    before: TokenState,
    after: TokenState,
    woken: Vec<Waker>,
)
    requires
        exists|token: &mut TokenState| #[trigger]
            call_ensures(TokenState::cancel, (token,), woken) && *token == before && *final(token)
                == after,
    ensures
        after.set,
        before.set ==> after@ == before@ && woken@.len() == 0,
        !before.set ==> after.waiters.slots@.len() == 0 && hands_out(
            before.waiters.slots@,
            woken@,
        ),
{
    lemma_hands_out(before.waiters.slots@);
    assert(after@.set);
    assert(after@.slots == after.waiters.slots@);
}

/// Polling a token that is set changes nothing and registers nobody. Polling one that is not
/// leaves it unset and gives the waiter a slot, in either form of the call.
pub proof fn law_polling_registers_while_unset(
    before: TokenState,
    slot: Option<usize>,
    waker: &Waker,
    after: TokenState,
    r: Option<usize>,
)
    requires
        ({
            ||| exists|token: &mut TokenState| #[trigger]
                call_ensures(TokenState::poll, (token, slot, waker), r) && *token == before
                    && *final(token) == after
            ||| exists|token: &mut TokenState| #[trigger]
                call_ensures(TokenState::poll_by, (token, (slot, waker)), r) && *token == before
                    && *final(token) == after
        }),
    ensures
        before.set <==> r is None,
        before.set ==> after@ == before@,
        r matches Some(i) ==> !after.set && takes_slot(
            before.waiters.slots@,
            slot,
            *waker,
            after.waiters.slots@,
            i as int,
        ),
{
    assert(cancel::is_polled(before@, slot, *waker, after@, r));
    assert(after@.set == after.set);
    if let Some(i) = r {
        lemma_takes_slot(before.waiters.slots@, slot, *waker, after.waiters.slots@, i);
    }
}

/// Releasing a waiter frees its slot and changes nothing else. A token tells whether it is set,
/// how many slots it has and how many of them are taken; it starts out unset and with none.
pub proof fn law_a_token_tells_what_it_is(
    token: TokenState,
    slot: usize,
    released: TokenState,
    fresh: TokenState,
    set: bool,
    slots: usize,
    waiters: usize,
)
    requires
        exists|t: &mut TokenState| #[trigger]
            call_ensures(TokenState::release, (t, slot), ()) && *t == token && *final(t)
                == released,
        call_ensures(TokenState::new, (), fresh),
        call_ensures(TokenState::is_set, (&token,), set),
        call_ensures(TokenState::slot_count, (&token,), slots),
        call_ensures(TokenState::waiter_count, (&token,), waiters),
    ensures
        released.set == token.set,
        gives_back(token.waiters.slots@, slot as int, released.waiters.slots@),
        !fresh.set,
        fresh.waiters.slots@.len() == 0,
        set == token.set,
        slots == token.waiters.slots@.len(),
        counts_taken(token.waiters.slots@, waiters as int),
{
    lemma_hands_out(token.waiters.slots@);
    assert(released@ == cancel::released_token(token@, slot));
    assert(released@.slots == released.waiters.slots@);
    assert(fresh@.slots == fresh.waiters.slots@);
    assert(fresh@.set == fresh.set && released@.set == released.set);
}

/// The slots do for themselves what a token does with them.
pub proof fn law_slots_are_taken_and_given_back(
    before: WakerSlots,
    slot: Option<usize>,
    own: usize,
    waker: &Waker,
    registered: WakerSlots,
    i: usize,
    freed: WakerSlots,
    drained: WakerSlots,
    wakers: Vec<Waker>,
    len: usize,
    occupied: usize,
)
    requires
        exists|s: &mut WakerSlots| #[trigger]
            call_ensures(WakerSlots::register, (s, slot, waker), i) && *s == before && *final(s)
                == registered,
        exists|s: &mut WakerSlots| #[trigger]
            call_ensures(WakerSlots::free, (s, own), ()) && *s == before && *final(s) == freed,
        exists|s: &mut WakerSlots| #[trigger]
            call_ensures(WakerSlots::drain, (s,), wakers) && *s == before && *final(s) == drained,
        call_ensures(WakerSlots::len, (&before,), len),
        call_ensures(WakerSlots::occupied, (&before,), occupied),
    ensures
        takes_slot(before.slots@, slot, *waker, registered.slots@, i as int),
        gives_back(before.slots@, own as int, freed.slots@),
        drained.slots@.len() == 0,
        hands_out(before.slots@, wakers@),
        len == before.slots@.len(),
        counts_taken(before.slots@, occupied as int),
{
    lemma_takes_slot(before.slots@, slot, *waker, registered.slots@, i);
    lemma_hands_out(before.slots@);
}

/// A waiter begins without a slot, on the token that it was asked of. It is ready exactly where
/// its poll found the token set, and otherwise has the slot that it was given from then on.
pub proof fn law_a_waiter_keeps_what_it_was_given(
    token: CancelToken,
    fresh: Cancelled,
    before: Cancelled,
    registered: Option<usize>,
    after: Cancelled,
    ready: bool,
)
    requires
        call_ensures(CancelToken::cancelled, (&token,), fresh),
        exists|waiter: &mut Cancelled| #[trigger]
            call_ensures(Cancelled::conclude, (waiter, registered), ready) && *waiter == before
                && *final(waiter) == after,
    ensures
        fresh.token == token,
        fresh.slot is None,
        after.token == before.token,
        ready <==> registered is None,
        ready ==> after.slot == before.slot,
        !ready ==> after.slot == registered,
{
}

/// What is done with a token through any of its handles is done with the one state behind its
/// lock, which starts out fresh: it is cancelled there, and everyone whom that hands out is
/// woken; it is read there; and a waiter is polled there under the slot that it has, and released
/// there where it has one.
pub proof fn law_every_handle_works_on_the_one_token(
    token: CancelToken,
    fresh: CancelToken,
    handle: CancelToken,
    set: bool,
    slots: usize,
    waiters: usize,
    waker: &Waker,
    before: Cancelled,
    polled: Cancelled,
    ready: bool,
    released: Cancelled,
)
    requires
        call_ensures(CancelToken::new, (), fresh),
        call_ensures(CancelToken::clone, (&token,), handle),
        call_ensures(CancelToken::cancel, (&token,), ()),
        call_ensures(CancelToken::is_cancelled, (&token,), set),
        call_ensures(CancelToken::slot_count, (&token,), slots),
        call_ensures(CancelToken::waiter_count, (&token,), waiters),
        exists|waiter: &mut Cancelled| #[trigger]
            call_ensures(Cancelled::poll_with, (waiter, waker), ready) && *waiter == before
                && *final(waiter) == polled,
        exists|waiter: &mut Cancelled| #[trigger]
            call_ensures(Cancelled::release, (waiter,), ()) && *waiter == before
                && *final(waiter) == released,
    ensures
        !fresh.origin().set && fresh.origin().slots.len() == 0,
        handle.state() == token.state(),
        exists|woken: Vec<Waker>| #[trigger]
            token.state().ran(TokenState::cancel, woken) && forall|i: int|
                0 <= i < woken@.len() ==> call_ensures(Waker::wake, (#[trigger] woken@[i],), ()),
        token.state().was_read(TokenState::is_set, set),
        token.state().was_read(TokenState::slot_count, slots),
        token.state().was_read(TokenState::waiter_count, waiters),
        exists|registered: Option<usize>| #[trigger]
            before.token.state().ran_on(
                (before.slot, waker),
                TokenState::poll_by,
                registered,
            ) && ready == (registered is None) && polled.token == before.token && polled.slot
                == if ready {
                before.slot
            } else {
                registered
            },
        released.token == before.token,
        released.slot is None,
        before.slot matches Some(i) ==> before.token.state().ran_on(i, TokenState::release, ()),
{
    let woken = choose|woken: Vec<Waker>| #[trigger]
        token.state().ran(TokenState::cancel, woken) && cancel::all_woken(woken@);
    assert(token.state().ran(TokenState::cancel, woken));
}

/// A default token is not set, and nobody waits for it.
pub proof fn law_a_default_token_is_fresh(token: CancelToken)
    requires
        call_ensures(CancelToken::default, (), token),
    ensures
        !token.origin().set,
        token.origin().slots.len() == 0,
{
}

} // verus!
