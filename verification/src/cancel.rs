//! Out-of-band cancellation: a token a caller holds outside a run, and the waiter a handler
//! polls to notice it.
//!
//! Cancellation is cooperative and never preemptive. Setting a token keeps new work from
//! starting; it does not drop a handler in flight. That is what lets a cancelled run reach
//! its normal exit.

use std::sync::Arc;
use std::task::Waker;
use vstd::prelude::*;

use crate::lock::Guarded;

verus! {

/// `std::task::Waker`, carried through and never inspected.
#[verifier::external_type_specification]
#[verifier::external_body]
pub struct ExWaker(Waker);

/// `std::task::Waker::wake`: wakes the task. Its effect is on the task alone.
pub assume_specification[ Waker::wake ](waker: Waker)
;

/// `std::task::Waker::will_wake`: where it answers `true`, both wakers are known to wake the
/// same task; it is a best effort, so `false` tells nothing. Which task a waker wakes cannot be
/// seen from here, so nothing is claimed of the answer: contracts speak of what was answered.
pub assume_specification[ Waker::will_wake ](waker: &Waker, other: &Waker) -> (r: bool)
;

/// `std::task::Waker::clone`: another waker for the same task. Nothing more is claimed; that
/// a waker is a clone of another is all that the contracts here say of it.
pub assume_specification[ <Waker as Clone>::clone ](waker: &Waker) -> (r: Waker)
;

/// The registered waiters of a token: slots that hold a waker or are free.
pub struct WakerSlots {
    pub slots: Vec<Option<Waker>>,
}

/// The first free slot from `i` on, or the length of the list.
pub open spec fn first_free(slots: Seq<Option<Waker>>, i: int) -> int
    decreases slots.len() - i,
{
    if i >= slots.len() {
        slots.len() as int
    } else if slots[i] is None {
        i
    } else {
        first_free(slots, i + 1)
    }
}

/// The first free slot lies at or behind every slot before it, all of which are taken.
proof fn lemma_first_free(slots: Seq<Option<Waker>>, i: int, n: int)
    requires
        0 <= i <= n <= slots.len(),
        forall|j: int| i <= j < n ==> (#[trigger] slots[j]) is Some,
        n < slots.len() ==> slots[n] is None,
    ensures
        first_free(slots, i) == n,
    decreases n - i,
{
    if i < n {
        assert(slots[i] is Some);
        lemma_first_free(slots, i + 1, n);
    }
}

/// The slot a waiter ends up with: the one it has, where that is still there, and otherwise
/// the first free one, which may be a new one at the end.
pub open spec fn slot_for(slots: Seq<Option<Waker>>, slot: Option<usize>) -> int {
    match slot {
        Some(i) if i < slots.len() => i as int,
        _ => first_free(slots, 0),
    }
}

/// Whether `after` is `before` with a clone of `waker` in slot `i`, which may be a new slot
/// at the end.
pub open spec fn registers(
    before: Seq<Option<Waker>>,
    i: int,
    waker: Waker,
    after: Seq<Option<Waker>>,
) -> bool {
    &&& 0 <= i <= before.len()
    &&& after.len() == if i < before.len() {
        before.len()
    } else {
        before.len() + 1
    }
    &&& after[i] is Some
    &&& cloned::<Waker>(waker, after[i]->Some_0)
    &&& forall|j: int| 0 <= j < before.len() && j != i ==> after[j] == #[trigger] before[j]
}

/// Whether a registered waker stands for the waker that its waiter was polled with: it is a
/// clone of it, or `will_wake` answered that it wakes the same task.
pub open spec fn stands_for(registered: Waker, waker: Waker) -> bool {
    cloned::<Waker>(waker, registered) || call_ensures(
        Waker::will_wake,
        (&registered, &waker),
        true,
    )
}

/// Whether registering a waiter that has the given slot, if any, can lead from `before` to
/// `after`, with slot `i` as the waiter's own: a clone of the waker is put there, unless the
/// slot is the waiter's already and `will_wake` answered that the waker in it wakes the same
/// task.
pub open spec fn is_registered(
    before: Seq<Option<Waker>>,
    slot: Option<usize>,
    waker: Waker,
    after: Seq<Option<Waker>>,
    i: usize,
) -> bool {
    &&& i == slot_for(before, slot)
    &&& registers(before, i as int, waker, after) || (after == before && i < before.len()
        && slot == Some(i) && (before[i as int] matches Some(held) && call_ensures(
        Waker::will_wake,
        (&held, &waker),
        true,
    )))
}

/// The slots once `slot` was freed.
pub open spec fn freed(slots: Seq<Option<Waker>>, slot: usize) -> Seq<Option<Waker>> {
    if slot < slots.len() {
        slots.update(slot as int, None)
    } else {
        slots
    }
}

/// The wakers that the slots hold, in order.
pub open spec fn wakers(slots: Seq<Option<Waker>>) -> Seq<Waker> {
    slots.filter_map(|slot: Option<Waker>| slot)
}

impl WakerSlots {
    /// No slots.
    pub fn new() -> (r: Self)
        ensures
            r.slots@.len() == 0,
    {
        WakerSlots { slots: Vec::new() }
    }

    /// Registers a waiter that has the given slot, if any, and returns the slot it has now.
    ///
    /// A waiter keeps its slot, and a waker there that wakes the same task is kept as well;
    /// a waiter without a slot takes the first free one.
    pub fn register(&mut self, slot: Option<usize>, waker: &Waker) -> (r: usize)
        ensures
            is_registered(old(self).slots@, slot, *waker, final(self).slots@, r),
    {
        if let Some(i) = slot {
            if i < self.slots.len() {
                let same = match &self.slots[i] {
                    Some(held) => held.will_wake(waker),
                    None => false,
                };
                if !same {
                    self.slots[i] = Some(waker.clone());
                }
                return i;
            }
        }
        let mut i: usize = 0;
        while i < self.slots.len() && self.slots[i].is_some()
            invariant
                i <= self.slots.len(),
                self.slots@ == old(self).slots@,
                forall|j: int| 0 <= j < i ==> (#[trigger] self.slots@[j]) is Some,
            decreases self.slots.len() - i,
        {
            i += 1;
        }
        proof {
            lemma_first_free(self.slots@, 0, i as int);
        }
        if i < self.slots.len() {
            self.slots[i] = Some(waker.clone());
        } else {
            self.slots.push(Some(waker.clone()));
        }
        i
    }

    /// Frees a slot. A slot that is no longer there is left alone: the token may have been
    /// cancelled, which removes every slot.
    pub fn free(&mut self, slot: usize)
        ensures
            final(self).slots@ == freed(old(self).slots@, slot),
    {
        if slot < self.slots.len() {
            self.slots[slot] = None;
        }
    }

    /// Removes every slot and returns the wakers they held, in order.
    pub fn drain(&mut self) -> (r: Vec<Waker>)
        ensures
            final(self).slots@.len() == 0,
            r@ == wakers(old(self).slots@),
    {
        let ghost f = |slot: Option<Waker>| slot;
        let ghost all = self.slots@;
        let mut slots: Vec<Option<Waker>> = Vec::new();
        std::mem::swap(&mut slots, &mut self.slots);
        let mut wakers: Vec<Waker> = Vec::new();
        let mut i: usize = 0;
        proof {
            assert(wakers@ =~= all.take(0).filter_map(f));
        }
        while i < slots.len()
            invariant
                i <= slots.len(),
                slots@.len() == all.len(),
                forall|j: int| i <= j < slots@.len() ==> slots@[j] == #[trigger] all[j],
                f == (|slot: Option<Waker>| slot),
                wakers@ == all.take(i as int).filter_map(f),
                self.slots@.len() == 0,
            decreases slots.len() - i,
        {
            proof {
                all.lemma_filter_map_take_succ(f, i as int);
                assert(slots@[i as int] == all[i as int]);
            }
            let mut entry: Option<Waker> = None;
            std::mem::swap(&mut entry, &mut slots[i]);
            if let Some(waker) = entry {
                wakers.push(waker);
            }
            i += 1;
        }
        proof {
            assert(all.take(i as int) =~= all);
        }
        wakers
    }

    /// How many slots there are, taken or free.
    pub fn len(&self) -> (r: usize)
        ensures
            r == self.slots@.len(),
    {
        self.slots.len()
    }

    /// How many slots hold a waker.
    pub fn occupied(&self) -> (r: usize)
        ensures
            r == wakers(self.slots@).len(),
    {
        let ghost f = |slot: Option<Waker>| slot;
        let mut n: usize = 0;
        let mut i: usize = 0;
        while i < self.slots.len()
            invariant
                n <= i <= self.slots.len(),
                f == (|slot: Option<Waker>| slot),
                n == self.slots@.take(i as int).filter_map(f).len(),
            decreases self.slots.len() - i,
        {
            proof {
                self.slots@.lemma_filter_map_take_succ(f, i as int);
            }
            if self.slots[i].is_some() {
                n += 1;
            }
            i += 1;
        }
        proof {
            assert(self.slots@.take(i as int) =~= self.slots@);
        }
        n
    }
}

/// What a token is at one moment: whether it is set, and who waits for it.
pub struct TokenState {
    pub set: bool,
    pub waiters: WakerSlots,
}

/// What a token is at one moment, as a mathematical value.
#[verifier::ext_equal]
pub struct TokenView {
    pub set: bool,
    pub slots: Seq<Option<Waker>>,
}

impl View for TokenState {
    type V = TokenView;

    open spec fn view(&self) -> TokenView {
        TokenView { set: self.set, slots: self.waiters.slots@ }
    }
}

/// A token that is not set and that nobody waits for.
pub open spec fn fresh_token() -> TokenView {
    TokenView { set: false, slots: Seq::empty() }
}

/// The token once it was cancelled.
pub open spec fn cancelled_token(before: TokenView) -> TokenView {
    if before.set {
        before
    } else {
        TokenView { set: true, slots: Seq::empty() }
    }
}

/// Whom cancelling the token wakes: everyone who waits, and nobody where it was set before.
pub open spec fn woken_by_cancel(before: TokenView) -> Seq<Waker> {
    if before.set {
        Seq::empty()
    } else {
        wakers(before.slots)
    }
}

/// Whether a poll by a waiter that has the given slot, if any, can lead from `before` to `after`
/// with `r` as its result: `None` exactly where the token is set, and then nothing is
/// registered; otherwise the slot that the waiter has from here on.
pub open spec fn is_polled(
    before: TokenView,
    slot: Option<usize>,
    waker: Waker,
    after: TokenView,
    r: Option<usize>,
) -> bool {
    match r {
        None => before.set && after == before,
        Some(i) => !before.set && !after.set && is_registered(
            before.slots,
            slot,
            waker,
            after.slots,
            i,
        ),
    }
}

/// The token once a waiter gave its slot back.
pub open spec fn released_token(before: TokenView, slot: usize) -> TokenView {
    TokenView { set: before.set, slots: freed(before.slots, slot) }
}

impl TokenState {
    /// A token that is not set, with no waiters.
    pub fn new() -> (r: Self)
        ensures
            r@ == fresh_token(),
    {
        TokenState { set: false, waiters: WakerSlots::new() }
    }

    /// Whether the token is set.
    pub fn is_set(&self) -> (r: bool)
        ensures
            r == self@.set,
    {
        self.set
    }

    /// How many waiter slots there are, taken or free.
    pub fn slot_count(&self) -> (r: usize)
        ensures
            r == self@.slots.len(),
    {
        self.waiters.len()
    }

    /// How many waiters are registered.
    pub fn waiter_count(&self) -> (r: usize)
        ensures
            r == wakers(self@.slots).len(),
    {
        self.waiters.occupied()
    }

    /// Sets the token and hands out the wakers of everyone who waits for it. A token that is
    /// set already stays as it is.
    pub fn cancel(&mut self) -> (r: Vec<Waker>)
        ensures
            final(self)@ == cancelled_token(old(self)@),
            r@ == woken_by_cancel(old(self)@),
    {
        if self.set {
            return Vec::new();
        }
        self.set = true;
        let woken = self.waiters.drain();
        assert(self@.slots =~= Seq::empty());
        woken
    }

    /// Polls on behalf of a waiter that has the given slot, if any.
    pub fn poll(&mut self, slot: Option<usize>, waker: &Waker) -> (r: Option<usize>)
        ensures
            is_polled(old(self)@, slot, *waker, final(self)@, r),
    {
        if self.set {
            None
        } else {
            Some(self.waiters.register(slot, waker))
        }
    }

    /// Polls, as [`poll`](Self::poll) does, on behalf of a waiter given by its slot and waker.
    pub fn poll_by(&mut self, waiter: (Option<usize>, &Waker)) -> (r: Option<usize>)
        ensures
            is_polled(old(self)@, waiter.0, *waiter.1, final(self)@, r),
    {
        self.poll(waiter.0, waiter.1)
    }

    /// Takes a waiter's slot back.
    pub fn release(&mut self, slot: usize)
        ensures
            final(self)@ == released_token(old(self)@, slot),
    {
        self.waiters.free(slot);
    }
}

/// Whether each of the wakers was woken.
pub open spec fn all_woken(wakers: Seq<Waker>) -> bool {
    forall|i: int| 0 <= i < wakers.len() ==> call_ensures(Waker::wake, (#[trigger] wakers[i],), ())
}

/// A shared, cheaply cloneable cancellation flag.
///
/// Any handle may set it at any time, so the contract of an operation says what was run on the
/// [`TokenState`] behind this token's lock, and what that does and answers is stated of the
/// state that it finds.
pub struct CancelToken {
    inner: Arc<Guarded<TokenState>>,
}

impl CancelToken {
    /// What the token was when it was made.
    pub closed spec fn origin(self) -> TokenView {
        self.inner.origin()@
    }

    /// A token that is not set, with no waiters.
    pub fn new() -> (r: Self)
        ensures
            r.origin() == fresh_token(),
    {
        CancelToken { inner: Arc::new(Guarded::new(TokenState::new())) }
    }

    /// What the token is, behind its lock.
    pub closed spec fn state(self) -> Guarded<TokenState> {
        *self.inner
    }

    /// Sets the token and wakes everything waiting for it. A second call does nothing.
    ///
    /// The wakers are called once the token is unlocked, so what they wake may reach for it.
    pub fn cancel(&self)
        ensures
            exists|woken: Vec<Waker>| #[trigger]
                self.state().ran(TokenState::cancel, woken) && all_woken(woken@),
    {
        let woken = self.inner.with(TokenState::cancel);
        let ghost all = woken;
        assert(self.state().ran(TokenState::cancel, all));
        for waker in it: woken
            invariant
                it.seq() == all@,
                forall|i: int|
                    0 <= i < it.index() ==> call_ensures(
                        Waker::wake,
                        (#[trigger] all@[i],),
                        (),
                    ),
        {
            waker.wake();
        }
    }

    /// Whether the token is set.
    pub fn is_cancelled(&self) -> (r: bool)
        ensures
            self.state().was_read(TokenState::is_set, r),
    {
        self.inner.read(TokenState::is_set)
    }

    /// A waiter for the token.
    pub fn cancelled(&self) -> (r: Cancelled)
        ensures
            r.token == *self,
            r.slot is None,
    {
        Cancelled { token: self.clone(), slot: None }
    }

    /// How many waiter slots the token has, taken or free.
    pub fn slot_count(&self) -> (r: usize)
        ensures
            self.state().was_read(TokenState::slot_count, r),
    {
        self.inner.read(TokenState::slot_count)
    }

    /// How many waiters are registered with the token.
    pub fn waiter_count(&self) -> (r: usize)
        ensures
            self.state().was_read(TokenState::waiter_count, r),
    {
        self.inner.read(TokenState::waiter_count)
    }
}

impl Clone for CancelToken {
    fn clone(&self) -> (r: Self)
        ensures
            r == *self,
    {
        CancelToken { inner: Arc::clone(&self.inner) }
    }
}

impl Default for CancelToken {
    fn default() -> (r: Self)
        ensures
            r.origin() == fresh_token(),
    {
        Self::new()
    }
}

/// A waiter for a token, returned by [`CancelToken::cancelled`].
pub struct Cancelled {
    pub token: CancelToken,
    /// The slot under which the waiter is registered, once it is.
    pub slot: Option<usize>,
}

/// Whether a waiter whose poll came to `registered` (see [`is_polled`]) becomes `after` and
/// answers `ready`: it is ready exactly where the token was set, and has the slot that it got
/// from here on.
pub open spec fn is_concluded(
    before: Cancelled,
    registered: Option<usize>,
    after: Cancelled,
    ready: bool,
) -> bool {
    &&& after.token == before.token
    &&& ready == (registered is None)
    &&& after.slot == match registered {
        Some(i) => Some(i),
        None => before.slot,
    }
}

impl Cancelled {
    /// Polls the waiter: `true` once the token is set. Otherwise the waiter is registered, so
    /// that setting the token wakes the task behind `waker`.
    ///
    /// The token is read and the waiter registered under one lock, so a token found unset means
    /// that whoever sets it will see the waker registered here.
    pub fn poll_with(&mut self, waker: &Waker) -> (r: bool)
        ensures
            exists|registered: Option<usize>| #[trigger]
                old(self).token.state().ran_on(
                    (old(self).slot, waker),
                    TokenState::poll_by,
                    registered,
                ) && is_concluded(*old(self), registered, *final(self), r),
    {
        let registered = self.token.inner.with_arg((self.slot, waker), TokenState::poll_by);
        assert(self.token.state().ran_on((self.slot, waker), TokenState::poll_by, registered));
        self.conclude(registered)
    }

    /// Concludes a poll that found the token set (`None`) or registered the waiter under a
    /// slot: the waiter is ready in the first case, and has that slot from here on in the
    /// second.
    pub fn conclude(&mut self, registered: Option<usize>) -> (r: bool)
        ensures
            is_concluded(*old(self), registered, *final(self), r),
    {
        match registered {
            Some(i) => {
                self.slot = Some(i);
                false
            },
            None => true,
        }
    }

    /// Gives the waiter's slot back. A waiter has to be released when it is dropped.
    pub fn release(&mut self)
        ensures
            final(self).token == old(self).token,
            final(self).slot is None,
            old(self).slot matches Some(i) ==> old(self).token.state().ran_on(
                i,
                TokenState::release,
                (),
            ),
    {
        if let Some(i) = self.slot {
            self.token.inner.with_arg(i, TokenState::release);
            self.slot = None;
        }
    }
}

/// Polling a waiter again keeps its slot, so a waiter polled in a loop takes one slot.
pub proof fn law_repolling_keeps_the_slot(
    before: Seq<Option<Waker>>,
    slot: usize,
    waker: Waker,
    after: Seq<Option<Waker>>,
)
    requires
        slot < before.len(),
        registers(before, slot_for(before, Some(slot)), waker, after),
    ensures
        slot_for(before, Some(slot)) == slot,
        after.len() == before.len(),
{
}

/// A freed slot is taken again before the list grows: as long as a slot is free, a new
/// waiter adds none.
pub proof fn law_freed_slots_are_reused(
    before: Seq<Option<Waker>>,
    free: int,
    waker: Waker,
    after: Seq<Option<Waker>>,
)
    requires
        0 <= free < before.len(),
        before[free] is None,
        registers(before, slot_for(before, None), waker, after),
    ensures
        slot_for(before, None) <= free,
        before[slot_for(before, None)] is None,
        after.len() == before.len(),
{
    lemma_first_free_bound(before, 0, free);
}

proof fn lemma_first_free_bound(slots: Seq<Option<Waker>>, i: int, free: int)
    requires
        0 <= i <= free < slots.len(),
        slots[free] is None,
    ensures
        i <= first_free(slots, i) <= free,
        slots[first_free(slots, i)] is None,
    decreases free - i,
{
    if slots[i] is Some {
        lemma_first_free_bound(slots, i + 1, free);
    }
}

/// A waiter that registers takes no other waiter's slot: the slot it takes was free, and
/// every other slot keeps its waker.
pub proof fn law_waiters_do_not_share_slots(
    before: Seq<Option<Waker>>,
    waker: Waker,
    after: Seq<Option<Waker>>,
    other: int,
)
    requires
        0 <= other < before.len(),
        before[other] is Some,
        registers(before, slot_for(before, None), waker, after),
    ensures
        slot_for(before, None) != other,
        after[other] == before[other],
{
    lemma_first_free_is_free(before, 0);
}

pub(crate) proof fn lemma_first_free_is_free(slots: Seq<Option<Waker>>, i: int)
    requires
        0 <= i <= slots.len(),
    ensures
        i <= first_free(slots, i) <= slots.len(),
        first_free(slots, i) < slots.len() ==> slots[first_free(slots, i)] is None,
    decreases slots.len() - i,
{
    if i < slots.len() && slots[i] is Some {
        lemma_first_free_is_free(slots, i + 1);
    }
}

} // verus!
