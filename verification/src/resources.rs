//! Run-scoped resources: values a run must *hold*, as opposed to data it *operates on*.

use vstd::prelude::*;

use crate::lock::Guarded;

verus! {

/// Held resources, oldest first.
pub struct ResourceStack<B> {
    pub entries: Vec<B>,
}

/// Whether `i` is the position of the most recent entry that `is` accepts.
pub open spec fn is_most_recent<B, P: Fn(&B) -> bool>(entries: Seq<B>, is: P, i: int) -> bool {
    &&& 0 <= i < entries.len()
    &&& is.ensures((&entries[i],), true)
    &&& forall|j: int| i < j < entries.len() ==> is.ensures((&#[trigger] entries[j],), false)
}

/// Whether `is` accepts no entry.
pub open spec fn accepts_none<B, P: Fn(&B) -> bool>(entries: Seq<B>, is: P) -> bool {
    forall|j: int| 0 <= j < entries.len() ==> is.ensures((&#[trigger] entries[j],), false)
}

/// Whether `r` is what `f` makes of the most recent of the held resources that `is` accepts.
pub open spec fn is_borrowed_from<B, P: Fn(&B) -> bool, T, F: FnOnce(&B) -> T>(
    held: Seq<B>,
    is: P,
    f: F,
    r: Option<T>,
) -> bool {
    match r {
        Some(t) => exists|i: int| #[trigger]
            is_most_recent(held, is, i) && f.ensures((&held[i],), t),
        None => accepts_none(held, is),
    }
}

/// Whether `r` is the most recent of the held resources that `is` accepts.
pub open spec fn is_taken_from<B, P: Fn(&B) -> bool>(held: Seq<B>, is: P, r: Option<B>) -> bool {
    match r {
        Some(taken) => exists|i: int| #[trigger] is_most_recent(held, is, i) && taken == held[i],
        None => accepts_none(held, is),
    }
}

/// The resource on loan, if there is one.
pub open spec fn on_loan<B>(loan: Option<TakenResource<'_, B>>) -> Option<B> {
    match loan {
        Some(taken) => Some(taken@),
        None => None,
    }
}

impl<B> ResourceStack<B> {
    /// Nothing held.
    pub fn new() -> (r: Self)
        ensures
            r.entries@.len() == 0,
    {
        ResourceStack { entries: Vec::new() }
    }

    /// Adds a resource on top.
    pub fn put(&mut self, resource: B)
        ensures
            final(self).entries@ == old(self).entries@.push(resource),
    {
        self.entries.push(resource);
    }

    /// How many resources are held.
    pub fn len(&self) -> (r: usize)
        ensures
            r == self.entries@.len(),
    {
        self.entries.len()
    }

    /// Whether nothing is held.
    pub fn is_empty(&self) -> (r: bool)
        ensures
            r == (self.entries@.len() == 0),
    {
        self.entries.len() == 0
    }

    /// The position of the most recent entry that `is` accepts.
    pub fn find_last<P: Fn(&B) -> bool>(&self, is: &P) -> (r: Option<usize>)
        requires
            forall|entry: &B| #[trigger] is.requires((entry,)),
        ensures
            match r {
                Some(i) => is_most_recent(self.entries@, *is, i as int),
                None => accepts_none(self.entries@, *is),
            },
    {
        let mut i: usize = self.entries.len();
        while i > 0
            invariant
                i <= self.entries.len(),
                forall|entry: &B| #[trigger] is.requires((entry,)),
                forall|j: int|
                    i <= j < self.entries@.len() ==> is.ensures(
                        (&#[trigger] self.entries@[j],),
                        false,
                    ),
            decreases i,
        {
            i -= 1;
            if is(&self.entries[i]) {
                return Some(i);
            }
        }
        None
    }

    /// Runs the second of the two on the most recent entry that the first accepts.
    pub fn borrow_last<P: Fn(&B) -> bool, T, F: FnOnce(&B) -> T>(&self, by: (P, F)) -> (r:
        Option<T>)
        requires
            forall|entry: &B| #[trigger] by.0.requires((entry,)),
            forall|entry: &B| #[trigger] by.1.requires((entry,)),
        ensures
            is_borrowed_from(self.entries@, by.0, by.1, r),
    {
        let (is, f) = by;
        match self.find_last(&is) {
            Some(i) => Some(f(&self.entries[i])),
            None => None,
        }
    }

    /// Removes the most recent entry that `is` accepts and hands it over.
    pub fn take_last<P: Fn(&B) -> bool>(&mut self, is: P) -> (r: Option<B>)
        requires
            forall|entry: &B| #[trigger] is.requires((entry,)),
        ensures
            is_taken_from(old(self).entries@, is, r),
            match r {
                Some(taken) => exists|i: int| #[trigger]
                    is_most_recent(old(self).entries@, is, i) && taken == old(self).entries@[i]
                        && final(self).entries@ == old(self).entries@.remove(i),
                None => accepts_none(old(self).entries@, is) && final(self).entries@
                    == old(self).entries@,
            },
    {
        match self.find_last(&is) {
            Some(i) => Some(self.entries.remove(i)),
            None => None,
        }
    }

    /// Empties the stack and returns what it held in the order of release: most recent
    /// first.
    pub fn drain(&mut self) -> (r: Vec<B>)
        ensures
            final(self).entries@.len() == 0,
            r@ == old(self).entries@.reverse(),
    {
        let ghost all = self.entries@;
        let mut order: Vec<B> = Vec::new();
        while self.entries.len() > 0
            invariant
                order@.len() + self.entries@.len() == all.len(),
                self.entries@ == all.take(self.entries@.len() as int),
                forall|k: int|
                    0 <= k < order@.len() ==> (#[trigger] order@[k]) == all[all.len() - 1 - k],
            decreases self.entries.len(),
        {
            let resource = self.entries.pop().unwrap();
            order.push(resource);
        }
        proof {
            assert(order@ =~= all.reverse());
        }
        order
    }
}

/// Releases a resource: taken over and not handed on, it is dropped.
fn release<B>(_resource: B) {
}

/// Whether each of the resources was released.
pub closed spec fn all_released<B>(resources: Seq<B>) -> bool {
    forall|i: int|
        0 <= i < resources.len() ==> call_ensures(release::<B>, (#[trigger] resources[i],), ())
}

/// A bag of run-scoped resources, shared by the handles of a context.
///
/// Everything held is dropped when a full run finishes, in **reverse** order of insertion,
/// after the finish handlers have run. Any handle may change what is held at any time, so the
/// contract of an operation says what was run on the [`ResourceStack`] behind this bag's lock,
/// and what that does is stated of the stack that it finds.
#[verifier::reject_recursive_types(B)]
pub struct RunResources<B> {
    entries: Guarded<ResourceStack<B>>,
}

impl<B> RunResources<B> {
    /// What the bag held when it was made, oldest first.
    pub closed spec fn origin(self) -> Seq<B> {
        self.entries.origin().entries@
    }

    /// An empty bag.
    pub fn new() -> (r: Self)
        ensures
            r.origin() == Seq::<B>::empty(),
    {
        RunResources { entries: Guarded::new(ResourceStack::new()) }
    }

    /// What the bag holds, behind its lock.
    pub closed spec fn stack(self) -> Guarded<ResourceStack<B>> {
        self.entries
    }

    /// Stashes a resource, to be dropped when the run finishes.
    pub fn put(&self, resource: B) -> (r: &Self)
        ensures
            r == self,
            self.stack().ran_on(resource, ResourceStack::<B>::put, ()),
    {
        self.entries.with_arg(resource, ResourceStack::<B>::put);
        self
    }

    /// Runs `f` on the most recently stashed resource that `is` accepts; `None` where there
    /// is none. The bag stays locked while `f` runs, so `f` must not touch it.
    pub fn with<P: Fn(&B) -> bool, T, F: FnOnce(&B) -> T>(&self, is: P, f: F) -> (r: Option<T>)
        requires
            forall|entry: &B| #[trigger] is.requires((entry,)),
            forall|entry: &B| #[trigger] f.requires((entry,)),
        ensures
            self.stack().was_read_on((is, f), ResourceStack::<B>::borrow_last::<P, T, F>, r),
    {
        self.entries.read_arg((is, f), ResourceStack::<B>::borrow_last::<P, T, F>)
    }

    /// Removes the most recently stashed resource that `is` accepts and hands it over.
    pub fn take<P: Fn(&B) -> bool>(&self, is: P) -> (r: Option<B>)
        requires
            forall|entry: &B| #[trigger] is.requires((entry,)),
        ensures
            self.stack().ran_on(is, ResourceStack::<B>::take_last::<P>, r),
    {
        self.entries.with_arg(is, ResourceStack::<B>::take_last::<P>)
    }

    /// Takes the most recently stashed resource that `is` accepts out on loan.
    pub fn take_guard<P: Fn(&B) -> bool>(&self, is: P) -> (r: Option<TakenResource<'_, B>>)
        requires
            forall|entry: &B| #[trigger] is.requires((entry,)),
        ensures
            r matches Some(loan) ==> loan.lender() == self,
            self.stack().ran_on(is, ResourceStack::<B>::take_last::<P>, on_loan(r)),
    {
        match self.take(is) {
            Some(value) => Some(TakenResource { value, bag: self }),
            None => None,
        }
    }

    /// How many resources are held.
    pub fn len(&self) -> (r: usize)
        ensures
            self.stack().was_read(ResourceStack::<B>::len, r),
    {
        self.entries.read(ResourceStack::<B>::len)
    }

    /// Whether nothing is held.
    pub fn is_empty(&self) -> (r: bool)
        ensures
            self.stack().was_read(ResourceStack::<B>::is_empty, r),
    {
        self.entries.read(ResourceStack::<B>::is_empty)
    }

    /// Drops everything held, most recent first, and returns how many were dropped.
    ///
    /// The resources leave the bag before the first of them is dropped, so a resource whose
    /// own cleanup reaches into the same bag finds it unlocked.
    pub fn release_all(&self) -> (r: usize)
        ensures
            exists|order: Vec<B>| #[trigger]
                self.stack().ran(ResourceStack::<B>::drain, order) && all_released(order@) && r
                    == order@.len(),
    {
        let order = self.entries.with(ResourceStack::<B>::drain);
        let ghost all = order;
        assert(self.stack().ran(ResourceStack::<B>::drain, all));
        let count = order.len();
        for resource in it: order
            invariant
                it.seq() == all@,
                forall|i: int|
                    0 <= i < it.index() ==> call_ensures(
                        release::<B>,
                        (#[trigger] all@[i],),
                        (),
                    ),
        {
            release(resource);
        }
        count
    }
}

/// A resource taken out of a bag on loan. It is an ordinary owned value, so it may be held
/// across suspension points.
#[verifier::reject_recursive_types(B)]
pub struct TakenResource<'a, B> {
    value: B,
    bag: &'a RunResources<B>,
}

impl<'a, B> View for TakenResource<'a, B> {
    type V = B;

    closed spec fn view(&self) -> B {
        self.value
    }
}

impl<'a, B> TakenResource<'a, B> {
    /// The bag the resource was taken from.
    pub closed spec fn lender(&self) -> &'a RunResources<B> {
        self.bag
    }

    /// The resource on loan.
    pub fn get(&self) -> (r: &B)
        ensures
            *r == self@,
    {
        &self.value
    }

    /// The resource on loan, to be operated on.
    pub fn get_mut(&mut self) -> (r: &mut B)
        ensures
            *r == old(self)@,
            final(self)@ == *final(r),
            final(self).lender() == old(self).lender(),
    {
        &mut self.value
    }

    /// Keeps the resource instead of returning it: from here on it is an ordinary value, and
    /// the bag no longer releases it.
    pub fn keep(self) -> (r: B)
        ensures
            r == self@,
    {
        self.value
    }

    /// Ends the loan: the resource goes back into the bag, on top, and is released with the
    /// others at the end of the run.
    pub fn give_back(self) -> (r: &'a RunResources<B>)
        ensures
            r == self.lender(),
            self.lender().stack().ran_on(self@, ResourceStack::<B>::put, ()),
    {
        self.bag.put(self.value)
    }
}

/// A stashed resource is the one that a search for its kind finds, and taking it leaves the
/// bag as it was before.
pub proof fn law_what_is_put_is_taken_back<B, P: Fn(&B) -> bool>(
    held: Seq<B>,
    resource: B,
    wanted: P,
    i: int,
)
    requires
        !wanted.ensures((&resource,), false),
        is_most_recent(held.push(resource), wanted, i),
    ensures
        held.push(resource)[i] == resource,
        held.push(resource).remove(i) == held,
{
    let after = held.push(resource);
    if i < held.len() {
        assert(after[held.len() as int] == resource);
    }
    assert(after.remove(i) =~= held);
}

/// A loan takes the most recent resource of its kind out of the bag and leaves the others in
/// order, one fewer. Given back, the resource lies on top: the bag holds what it held before,
/// the others still in their order, and a search for the kind finds that resource again. A loan
/// that is kept leaves the bag as the loan left it.
pub proof fn law_a_loan_given_back_is_held_again<B, P: Fn(&B) -> bool>(
    held: Seq<B>,
    wanted: P,
    i: int,
)
    requires
        is_most_recent(held, wanted, i),
    ensures
        ({
            let during = held.remove(i);
            let after = during.push(held[i]);
            &&& during.len() == held.len() - 1
            &&& during == held.take(i) + held.skip(i + 1)
            &&& after.len() == held.len()
            &&& after.to_multiset() == held.to_multiset()
            &&& after.drop_last() == during
            &&& is_most_recent(after, wanted, after.len() - 1)
            &&& after.last() == held[i]
        }),
{
    broadcast use vstd::seq_lib::group_to_multiset_ensures;

    let during = held.remove(i);
    let after = during.push(held[i]);
    assert(during =~= held.take(i) + held.skip(i + 1));
    assert(held.to_multiset().count(held[i]) > 0) by {
        assert(held.contains(held[i]));
    }
    assert(after.to_multiset() =~= held.to_multiset());
    assert(after.drop_last() =~= during);
}

/// There is a loan exactly where the bag holds a resource of the kind: where none is found,
/// none is accepted, and where one is accepted, one is found. The kind has to be decided, that
/// is, no resource both is and is not of it.
pub proof fn law_a_loan_is_made_where_something_is_held<B, P: Fn(&B) -> bool>(
    held: Seq<B>,
    wanted: P,
    r: Option<B>,
)
    requires
        is_taken_from(held, wanted, r),
        forall|b: B| !(#[trigger] wanted.ensures((&b,), true) && wanted.ensures((&b,), false)),
    ensures
        r is Some <==> exists|i: int|
            0 <= i < held.len() && wanted.ensures((&#[trigger] held[i],), true),
{
    if r is Some {
        let i = choose|i: int| #[trigger] is_most_recent(held, wanted, i) && r->Some_0 == held[i];
        assert(wanted.ensures((&held[i],), true));
    } else if exists|i: int| 0 <= i < held.len() && wanted.ensures((&#[trigger] held[i],), true) {
        let i = choose|i: int| 0 <= i < held.len() && wanted.ensures((&#[trigger] held[i],), true);
        assert(wanted.ensures((&held[i],), false));
    }
}

/// Release undoes acquisition, last in first out: of two resources, the one stashed later is
/// released earlier.
pub proof fn law_release_is_last_in_first_out<B>(held: Seq<B>, earlier: int, later: int)
    requires
        0 <= earlier < later < held.len(),
    ensures
        ({
            let released_at = |i: int| held.len() - 1 - i;
            &&& held.reverse().len() == held.len()
            &&& held.reverse()[released_at(earlier)] == held[earlier]
            &&& held.reverse()[released_at(later)] == held[later]
            &&& released_at(later) < released_at(earlier)
        }),
{
}

/// A stack starts out empty, a resource is put on top of all others, and its length is how many
/// it holds.
pub proof fn law_a_resource_is_put_on_top<B>(
    fresh: ResourceStack<B>,
    before: ResourceStack<B>,
    resource: B,
    after: ResourceStack<B>,
    len: usize,
    empty: bool,
)
    requires
        call_ensures(ResourceStack::<B>::new, (), fresh),
        exists|stack: &mut ResourceStack<B>| #[trigger]
            call_ensures(ResourceStack::<B>::put, (stack, resource), ()) && *stack == before
                && *final(stack) == after,
        call_ensures(ResourceStack::<B>::len, (&before,), len),
        call_ensures(ResourceStack::<B>::is_empty, (&before,), empty),
    ensures
        fresh.entries@.len() == 0,
        after.entries@.len() == before.entries@.len() + 1,
        after.entries@.last() == resource,
        forall|i: int|
            0 <= i < before.entries@.len() ==> #[trigger] after.entries@[i] == before.entries@[i],
        len == before.entries@.len(),
        empty <==> before.entries@.len() == 0,
{
}

/// A search finds the most recent resource of its kind: it was accepted, and none that was put
/// later was. Where none is found, none is accepted. What is found is what is borrowed.
pub proof fn law_a_search_finds_the_most_recent<
    B,
    P: Fn(&B) -> bool,
    T,
    F: FnOnce(&B) -> T,
>(stack: ResourceStack<B>, is: P, f: F, found: Option<usize>, borrowed: Option<T>)
    requires
        call_ensures(ResourceStack::<B>::find_last::<P>, (&stack, &is), found),
        call_ensures(ResourceStack::<B>::borrow_last::<P, T, F>, (&stack, (is, f)), borrowed),
    ensures
        found matches Some(i) ==> {
            &&& i < stack.entries@.len()
            &&& is.ensures((&stack.entries@[i as int],), true)
            &&& forall|j: int|
                i < j < stack.entries@.len() ==> is.ensures((&#[trigger] stack.entries@[j],), false)
        },
        found is None ==> forall|j: int|
            0 <= j < stack.entries@.len() ==> is.ensures((&#[trigger] stack.entries@[j],), false),
        borrowed matches Some(t) ==> exists|i: int|
            0 <= i < stack.entries@.len() && is.ensures((&stack.entries@[i],), true)
                && #[trigger] f.ensures((&stack.entries@[i],), t) && forall|j: int|
                i < j < stack.entries@.len() ==> is.ensures(
                    (&#[trigger] stack.entries@[j],),
                    false,
                ),
        borrowed is None ==> forall|j: int|
            0 <= j < stack.entries@.len() ==> is.ensures((&#[trigger] stack.entries@[j],), false),
{
    if let Some(t) = borrowed {
        let i = choose|i: int| #[trigger]
            is_most_recent(stack.entries@, is, i) && f.ensures((&stack.entries@[i],), t);
        assert(f.ensures((&stack.entries@[i],), t));
    }
}

/// Taking a resource out of a stack hands over the most recent of its kind and closes the gap;
/// the others stay in order. Where there is none, the stack stays as it was.
pub proof fn law_taking_closes_the_gap<B, P: Fn(&B) -> bool>(
    before: ResourceStack<B>,
    is: P,
    after: ResourceStack<B>,
    r: Option<B>,
)
    requires
        exists|stack: &mut ResourceStack<B>| #[trigger]
            call_ensures(ResourceStack::<B>::take_last::<P>, (stack, is), r) && *stack == before
                && *final(stack) == after,
    ensures
        r matches Some(taken) ==> exists|i: int|
            0 <= i < before.entries@.len() && taken == #[trigger] before.entries@[i]
                && is_most_recent(before.entries@, is, i) && after.entries@.len()
                == before.entries@.len() - 1 && (forall|j: int|
                0 <= j < i ==> #[trigger] after.entries@[j] == before.entries@[j]) && (forall|
                j: int,
            |
                i <= j < after.entries@.len() ==> #[trigger] after.entries@[j]
                    == before.entries@[j + 1]),
        r is None ==> after.entries@ == before.entries@ && accepts_none(before.entries@, is),
{
    if let Some(taken) = r {
        let i = choose|i: int| #[trigger]
            is_most_recent(before.entries@, is, i) && taken == before.entries@[i] && after.entries@
                == before.entries@.remove(i);
        assert(before.entries@[i] == taken);
    }
}

/// Draining a stack empties it, and hands everything over in the order of release: what was put
/// last comes first.
pub proof fn law_draining_reverses_the_stack<B>(
    before: ResourceStack<B>,
    after: ResourceStack<B>,
    order: Vec<B>,
)
    requires
        exists|stack: &mut ResourceStack<B>| #[trigger]
            call_ensures(ResourceStack::<B>::drain, (stack,), order) && *stack == before
                && *final(stack) == after,
    ensures
        after.entries@.len() == 0,
        order@.len() == before.entries@.len(),
        forall|i: int|
            0 <= i < order@.len() ==> #[trigger] order@[i] == before.entries@[before.entries@.len()
                - 1 - i],
{
}

/// Every handle on a bag works on the one stack behind its lock, which starts out empty.
pub proof fn law_a_bag_works_on_its_stack<'a, B, P: Fn(&B) -> bool, T, F: FnOnce(&B) -> T>(
    bag: &'a RunResources<B>,
    fresh: RunResources<B>,
    resource: B,
    put: &'a RunResources<B>,
    is: P,
    f: F,
    borrowed: Option<T>,
    taken: Option<B>,
    loan: Option<TakenResource<'a, B>>,
    len: usize,
    empty: bool,
    released: usize,
)
    requires
        call_ensures(RunResources::<B>::new, (), fresh),
        call_ensures(RunResources::<B>::put, (bag, resource), put),
        call_ensures(RunResources::<B>::with::<P, T, F>, (bag, is, f), borrowed),
        call_ensures(RunResources::<B>::take::<P>, (bag, is), taken),
        call_ensures(RunResources::<B>::take_guard::<P>, (bag, is), loan),
        call_ensures(RunResources::<B>::len, (bag,), len),
        call_ensures(RunResources::<B>::is_empty, (bag,), empty),
        call_ensures(RunResources::<B>::release_all, (bag,), released),
    ensures
        fresh.origin().len() == 0,
        put == bag,
        bag.stack().ran_on(resource, ResourceStack::<B>::put, ()),
        bag.stack().was_read_on((is, f), ResourceStack::<B>::borrow_last::<P, T, F>, borrowed),
        bag.stack().ran_on(is, ResourceStack::<B>::take_last::<P>, taken),
        loan matches Some(resource) ==> resource.lender() == bag && bag.stack().ran_on(
            is,
            ResourceStack::<B>::take_last::<P>,
            Some(resource@),
        ),
        loan is None ==> bag.stack().ran_on(is, ResourceStack::<B>::take_last::<P>, None),
        bag.stack().was_read(ResourceStack::<B>::len, len),
        bag.stack().was_read(ResourceStack::<B>::is_empty, empty),
        exists|order: Vec<B>| #[trigger]
            bag.stack().ran(ResourceStack::<B>::drain, order) && released == order@.len()
                && all_released(order@),
{
}

/// A loan is the resource that was taken: it is what is read, what is kept, and what goes back
/// on top of the bag that lent it.
pub proof fn law_a_loan_is_the_resource_taken<'a, B>(
    loan: TakenResource<'a, B>,
    read: &B,
    kept: B,
    lender: &'a RunResources<B>,
)
    requires
        call_ensures(TakenResource::<B>::get, (&loan,), read),
        call_ensures(TakenResource::<B>::keep, (loan,), kept),
        call_ensures(TakenResource::<B>::give_back, (loan,), lender),
    ensures
        *read == loan@,
        kept == loan@,
        lender == loan.lender(),
        lender.stack().ran_on(loan@, ResourceStack::<B>::put, ()),
{
}

/// Operating on a loan operates on the resource: what is found is what was taken, what is left
/// there is what the loan is from then on, and its lender stays the same.
pub proof fn law_a_loan_is_operated_on_in_place<'a, B>(
    before: TakenResource<'a, B>,
    found: B,
    left: B,
    after: TakenResource<'a, B>,
)
    requires
        exists|loan: &mut TakenResource<'a, B>, r: &mut B| #[trigger]
            call_ensures(TakenResource::<B>::get_mut, (loan,), r) && *loan == before
                && *final(loan) == after && *r == found && *final(r) == left,
    ensures
        found == before@,
        after@ == left,
        after.lender() == before.lender(),
{
}

} // verus!
