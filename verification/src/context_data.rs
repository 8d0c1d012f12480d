//! The shared context a pipeline runs against.

use std::sync::Arc;
use vstd::prelude::*;

use crate::cancel;
use crate::cancel::CancelToken;
use crate::error::OrkaError;
use crate::lock::Shared;
use crate::resources::RunResources;

verus! {

/// The shared state behind a context: the workflow's data, the resources it holds, and the
/// token that can wind the run down.
#[verifier::reject_recursive_types(T)]
#[verifier::reject_recursive_types(B)]
struct Inner<T, B> {
    data: Shared<T>,
    resources: RunResources<B>,
    cancel: Shared<CancelToken>,
}

/// Context data with shared ownership and interior mutability.
///
/// Every handle to a context sees the same data. The scoped accessors
/// [`with_ref`](Self::with_ref) and [`with_mut`](Self::with_mut) hold the lock for the length
/// of a call, so it cannot reach a suspension point. What they find is what some handle left
/// there last, which no single handle knows. `B` is what the resource bag holds.
#[verifier::reject_recursive_types(T)]
#[verifier::reject_recursive_types(B)]
pub struct ContextData<T, B> {
    inner: Arc<Inner<T, B>>,
}

impl<T, B> ContextData<T, B> {
    /// The data that the context was made with.
    pub closed spec fn origin(self) -> T {
        self.inner.data.origin()
    }

    /// The token that the context was made with.
    pub closed spec fn token_at_origin(self) -> CancelToken {
        self.inner.cancel.origin()
    }

    /// A context of its own, with an empty resource bag and a token nobody else holds.
    pub fn new(data: T) -> (r: Self)
        ensures
            r.origin() == data,
            r.bag().origin() == Seq::<B>::empty(),
            r.token_at_origin().origin() == cancel::fresh_token(),
    {
        Self::with_token(data, CancelToken::new())
    }

    /// A context of its own, as [`new`](Self::new) makes it, that is wound down by `token`.
    pub fn with_token(data: T, token: CancelToken) -> (r: Self)
        ensures
            r.origin() == data,
            r.bag().origin() == Seq::<B>::empty(),
            r.token_at_origin() == token,
    {
        ContextData {
            inner: Arc::new(
                Inner {
                    data: Shared::new(data),
                    resources: RunResources::new(),
                    cancel: Shared::new(token),
                },
            ),
        }
    }

    /// The resource bag shared by every handle to this context.
    pub closed spec fn bag(self) -> RunResources<B> {
        self.inner.resources
    }

    /// The resource bag shared by every handle to this context.
    pub fn resources(&self) -> (r: &RunResources<B>)
        ensures
            *r == self.bag(),
    {
        &self.inner.resources
    }

    /// The data, behind its lock.
    pub closed spec fn data(self) -> Shared<T> {
        self.inner.data
    }

    /// The lock around the data, for callers that need its guards. A guard must be dropped
    /// before any suspension point.
    pub fn lock(&self) -> (r: &parking_lot::RwLock<T>)
        ensures
            *r == self.data().inner(),
    {
        self.inner.data.lock()
    }

    /// The run's token, behind its lock.
    pub closed spec fn token(self) -> Shared<CancelToken> {
        self.inner.cancel
    }

    /// The run's cancellation token, shared by every handle to this context.
    pub fn cancellation(&self) -> (r: CancelToken)
        ensures
            self.token().was_read(another_handle, r),
    {
        self.inner.cancel.read(another_handle)
    }

    /// Replaces the run's token: at the start of a cancellable run, and to hand a child run
    /// its parent's token.
    pub fn install_cancellation(&self, token: CancelToken)
        ensures
            self.token().ran_on(token, install, ()),
    {
        self.inner.cancel.with_arg(token, install);
    }

    /// Runs `f` under a read lock, releasing it before returning the result.
    pub fn with_ref<R, F: FnOnce(&T) -> R>(&self, f: F) -> (r: R)
        requires
            forall|data: &T| #[trigger] f.requires((data,)),
        ensures
            self.data().was_read(f, r),
    {
        self.inner.data.read(f)
    }

    /// Runs `f` under a write lock, releasing it before returning the result.
    pub fn with_mut<R, F: FnOnce(&mut T) -> R>(&self, f: F) -> (r: R)
        requires
            forall|data: &mut T| #[trigger] f.requires((data,)),
        ensures
            self.data().ran(f, r),
    {
        self.inner.data.with(f)
    }

    /// Reads a value that an earlier step was to produce, failing with
    /// [`OrkaError::ResourceMissing`] where it is absent.
    pub fn require<R, F: FnOnce(&T) -> Option<R>>(&self, resource: &str, get: F) -> (r: Result<
        R,
        OrkaError,
    >)
        requires
            forall|data: &T| #[trigger] get.requires((data,)),
        ensures
            exists|found: Option<R>| #[trigger]
                self.data().was_read(get, found) && is_present(found, resource@, r),
    {
        let found = self.with_ref(get);
        assert(self.data().was_read(get, found));
        present(found, resource)
    }

    /// Builds a *new, independent* context from a projection of this one: it shares no data
    /// with this one, and starts with an empty resource bag and a token of its own.
    pub fn project<U, F: FnOnce(&T) -> U>(&self, get: F) -> (r: ContextData<U, B>)
        requires
            forall|data: &T| #[trigger] get.requires((data,)),
        ensures
            self.data().was_read(get, r.origin()),
            r.bag().origin() == Seq::<B>::empty(),
            r.token_at_origin().origin() == cancel::fresh_token(),
    {
        ContextData::new(self.with_ref(get))
    }
}

impl<T: Clone, B> ContextData<T, B> {
    /// A clone of the data, as it is at the time of the call.
    pub fn snapshot(&self) -> (r: T)
        ensures
            self.data().was_read(T::clone, r),
    {
        self.inner.data.read(T::clone)
    }
}

/// Another handle on a token.
pub fn another_handle(token: &CancelToken) -> (r: CancelToken)
    ensures
        r == *token,
{
    token.clone()
}

/// Puts a token in the place of the one before.
pub fn install(slot: &mut CancelToken, token: CancelToken)
    ensures
        *final(slot) == token,
{
    *slot = token;
}

/// Folds a sub-context into its root by `merge`, with the sub-context locked for reading and
/// the root for writing.
pub fn merge_back<T, S, B, M: Fn(&mut T, &S)>(
    root: &ContextData<T, B>,
    sub: &ContextData<S, B>,
    merge: &M,
)
    requires
        forall|data: &mut T, sub: &S| #[trigger] merge.requires((data, sub)),
    ensures
        sub.data().was_read_on((root, merge), fold_into::<T, S, B, M>, ()),
{
    sub.inner.data.read_arg((root, merge), fold_into::<T, S, B, M>);
}

/// Folds what a sub-context holds into its root by `merge`, with the root locked for writing.
pub fn fold_into<T, S, B, M: Fn(&mut T, &S)>(found: &S, into: (&ContextData<T, B>, &M))
    requires
        forall|data: &mut T, sub: &S| #[trigger] into.1.requires((data, sub)),
    ensures
        into.0.data().ran_on((found, into.1), merge_data::<T, S, M>, ()),
{
    into.0.inner.data.with_arg((found, into.1), merge_data::<T, S, M>);
}

/// Merges into the data of a root what its sub-context holds.
pub fn merge_data<T, S, M: Fn(&mut T, &S)>(data: &mut T, by: (&S, &M))
    requires
        forall|data: &mut T| #[trigger] by.1.requires((data, by.0)),
    ensures
        exists|merged: &mut T| *merged == *old(data) && *final(merged) == *final(data)
            && #[trigger] by.1.ensures((merged, by.0), ()),
{
    (by.1)(data, by.0)
}

/// Whether `r` is what was found, or the error that names the missing resource.
pub open spec fn is_present<R>(
    found: Option<R>,
    resource: Seq<char>,
    r: Result<R, OrkaError>,
) -> bool {
    match found {
        Some(value) => r == Ok::<R, OrkaError>(value),
        None => r matches Err(OrkaError::ResourceMissing { resource: missing }) && missing@
            == resource,
    }
}

/// The value, or the error that names the resource it stands for.
pub fn present<R>(found: Option<R>, resource: &str) -> (r: Result<R, OrkaError>)
    ensures
        is_present(found, resource@, r),
{
    match found {
        Some(value) => Ok(value),
        None => Err(OrkaError::ResourceMissing { resource: resource.to_string() }),
    }
}

impl<T, B> Clone for ContextData<T, B> {
    fn clone(&self) -> (r: Self)
        ensures
            r == *self,
    {
        ContextData { inner: Arc::clone(&self.inner) }
    }
}

impl<T: Default, B> Default for ContextData<T, B> {
    fn default() -> (r: Self)
        ensures
            call_ensures(T::default, (), r.origin()),
            r.bag().origin() == Seq::<B>::empty(),
            r.token_at_origin().origin() == cancel::fresh_token(),
    {
        Self::new(T::default())
    }
}

/// A context begins with the data that it was given, with nothing in its bag and with a token
/// that is not set and that nobody waits for, or with the token that it was given. Every handle
/// on it shares all three.
pub proof fn law_a_context_begins_on_its_own<T, B>(
    data: T,
    token: CancelToken,
    fresh: ContextData<T, B>,
    under: ContextData<T, B>,
    handle: ContextData<T, B>,
    bag: &RunResources<B>,
)
    requires
        call_ensures(ContextData::<T, B>::new, (data,), fresh),
        call_ensures(ContextData::<T, B>::with_token, (data, token), under),
        call_ensures(ContextData::<T, B>::clone, (&fresh,), handle),
        call_ensures(ContextData::<T, B>::resources, (&fresh,), bag),
    ensures
        fresh.origin() == data,
        fresh.bag().origin().len() == 0,
        !fresh.token_at_origin().origin().set,
        fresh.token_at_origin().origin().slots.len() == 0,
        under.origin() == data,
        under.bag().origin().len() == 0,
        under.token_at_origin() == token,
        handle.data() == fresh.data(),
        handle.bag() == fresh.bag(),
        handle.token() == fresh.token(),
        *bag == fresh.bag(),
{
}

/// What is done with a context is done with what its locks guard: the data is read and written
/// by what the caller passes, and its token is read and replaced.
pub proof fn law_a_context_works_on_its_data<
    T: Clone,
    B,
    R,
    W,
    F: FnOnce(&T) -> R,
    G: FnOnce(&mut T) -> W,
>(
    context: ContextData<T, B>,
    f: F,
    g: G,
    token: CancelToken,
    read: R,
    written: W,
    snapshot: T,
    cancellation: CancelToken,
    lock: &parking_lot::RwLock<T>,
)
    requires
        call_ensures(ContextData::<T, B>::with_ref::<R, F>, (&context, f), read),
        call_ensures(ContextData::<T, B>::with_mut::<W, G>, (&context, g), written),
        call_ensures(ContextData::<T, B>::snapshot, (&context,), snapshot),
        call_ensures(ContextData::<T, B>::cancellation, (&context,), cancellation),
        call_ensures(ContextData::<T, B>::install_cancellation, (&context, token), ()),
        call_ensures(ContextData::<T, B>::lock, (&context,), lock),
    ensures
        context.data().was_read(f, read),
        context.data().ran(g, written),
        context.data().was_read(T::clone, snapshot),
        context.token().was_read(another_handle, cancellation),
        context.token().ran_on(token, install, ()),
        *lock == context.data().inner(),
{
}

/// Another handle on a token is the same token, and what is installed is what is there from then
/// on.
pub proof fn law_an_installed_token_is_in_force(
    token: CancelToken,
    handle: CancelToken,
    before: CancelToken,
    after: CancelToken,
)
    requires
        call_ensures(another_handle, (&token,), handle),
        exists|slot: &mut CancelToken| #[trigger]
            call_ensures(install, (slot, token), ()) && *slot == before && *final(slot) == after,
    ensures
        handle == token,
        after == token,
{
}

/// What an earlier step was to produce is handed over where it is found, and otherwise reported
/// missing by its name.
pub proof fn law_what_is_missing_is_reported_by_name<T, B, R, F: FnOnce(&T) -> Option<R>>(
    context: ContextData<T, B>,
    resource: &str,
    get: F,
    r: Result<R, OrkaError>,
    found: Option<R>,
    answer: Result<R, OrkaError>,
)
    requires
        call_ensures(ContextData::<T, B>::require::<R, F>, (&context, resource, get), r),
        call_ensures(present::<R>, (found, resource), answer),
    ensures
        r matches Ok(value) ==> context.data().was_read(get, Some(value)),
        r matches Err(e) ==> {
            &&& context.data().was_read(get, None)
            &&& e matches OrkaError::ResourceMissing { resource: missing }
            &&& missing@ == resource@
        },
        found matches Some(value) ==> answer == Ok::<R, OrkaError>(value),
        found is None ==> (answer matches Err(OrkaError::ResourceMissing { resource: missing })
            && missing@ == resource@),
{
    let read = choose|read: Option<R>| #[trigger]
        context.data().was_read(get, read) && is_present(read, resource@, r);
    assert(context.data().was_read(get, read));
}

/// A projection is a context of its own around what the projection read: it begins with nothing
/// in its bag and with a token of its own.
pub proof fn law_a_projection_stands_on_its_own<T, B, U, F: FnOnce(&T) -> U>(
    context: ContextData<T, B>,
    get: F,
    r: ContextData<U, B>,
)
    requires
        call_ensures(ContextData::<T, B>::project::<U, F>, (&context, get), r),
    ensures
        context.data().was_read(get, r.origin()),
        r.bag().origin().len() == 0,
        !r.token_at_origin().origin().set,
        r.token_at_origin().origin().slots.len() == 0,
{
}

/// Folding back reads the sub-context and writes the root: what the sub-context holds is merged
/// by `merge` into what the root holds.
pub proof fn law_merging_writes_the_root<T, S, B, M: Fn(&mut T, &S)>(
    root: &ContextData<T, B>,
    sub: &ContextData<S, B>,
    merge: &M,
    held: &S,
    before: T,
    after: T,
)
    requires
        call_ensures(merge_back::<T, S, B, M>, (root, sub, merge), ()),
        call_ensures(fold_into::<T, S, B, M>, (held, (root, merge)), ()),
        exists|data: &mut T| #[trigger]
            call_ensures(merge_data::<T, S, M>, (data, (held, merge)), ()) && *data == before
                && *final(data) == after,
    ensures
        sub.data().was_read_on((root, merge), fold_into::<T, S, B, M>, ()),
        root.data().ran_on((held, merge), merge_data::<T, S, M>, ()),
        exists|data: &mut T| #[trigger]
            merge.ensures((data, held), ()) && *data == before && *final(data) == after,
{
    let data = choose|data: &mut T| #[trigger]
        call_ensures(merge_data::<T, S, M>, (data, (held, merge)), ()) && *data == before
            && *final(data) == after;
    let merged = choose|merged: &mut T| *merged == before && *final(merged) == after
        && #[trigger] merge.ensures((merged, held), ());
    assert(merge.ensures((merged, held), ()));
}

/// A default context is a new one around the default of its data.
pub proof fn law_a_default_context_is_new<T: Default, B>(r: ContextData<T, B>)
    requires
        call_ensures(ContextData::<T, B>::default, (), r),
    ensures
        call_ensures(T::default, (), r.origin()),
        r.bag().origin().len() == 0,
        !r.token_at_origin().origin().set,
        r.token_at_origin().origin().slots.len() == 0,
{
}

} // verus!
