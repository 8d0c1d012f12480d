//! Access to values shared behind `parking_lot` locks.
//!
//! What a lock holds when it is taken is not known to its user: another handle may have
//! written it a moment before. So each function here runs a verified operation on whatever
//! value it finds, and promises only that the operation's own contract was met on *some*
//! value. What is fixed for good is the lock itself, which every handle shares, and the value
//! that it was made with, its *origin*. So a contract above says which operation was run on
//! which lock ([`Guarded::ran`] and its kin), and the operation's own contract says what it
//! does to whatever it finds there.

use vstd::prelude::*;

verus! {

/// `parking_lot::Mutex` is `lock_api::Mutex` over `parking_lot::RawMutex`.
#[verifier::external_type_specification]
#[verifier::external_body]
#[verifier::reject_recursive_types(R)]
#[verifier::reject_recursive_types(T)]
pub struct ExMutex<R, T: ?Sized>(parking_lot::lock_api::Mutex<R, T>);

/// The raw lock behind `parking_lot::Mutex`.
#[verifier::external_type_specification]
#[verifier::external_body]
pub struct ExRawMutex(parking_lot::RawMutex);

/// `parking_lot::RwLock` is `lock_api::RwLock` over `parking_lot::RawRwLock`.
#[verifier::external_type_specification]
#[verifier::external_body]
#[verifier::reject_recursive_types(R)]
#[verifier::reject_recursive_types(T)]
pub struct ExRwLock<R, T: ?Sized>(parking_lot::lock_api::RwLock<R, T>);

/// The raw lock behind `parking_lot::RwLock`.
#[verifier::external_type_specification]
#[verifier::external_body]
pub struct ExRawRwLock(parking_lot::RawRwLock);

/// `parking_lot::Mutex::new`: an unlocked mutex around `value`. What it holds later is not
/// tracked, so nothing is claimed of it.
#[verifier::external_body]
pub(crate) fn new_mutex<T>(value: T) -> parking_lot::Mutex<T> {
    parking_lot::Mutex::new(value)
}

/// `parking_lot::Mutex::lock`: waits for the lock and runs `f` once on the value behind it,
/// releasing the lock when `f` returns. Which value `f` finds is left open.
///
/// The lock is not reentrant: `f` must not take the same lock again.
#[verifier::external_body]
pub(crate) fn with_lock<T, R, F: FnOnce(&mut T) -> R>(
    mutex: &parking_lot::Mutex<T>,
    f: F,
) -> (r: R)
    requires
        forall|value: &mut T| #[trigger] f.requires((value,)),
    ensures
        exists|value: &mut T| #[trigger] f.ensures((value,), r),
{
    f(&mut mutex.lock())
}

/// `parking_lot::RwLock::new`: an unlocked lock around `value`. What it holds later is not
/// tracked, so nothing is claimed of it.
#[verifier::external_body]
pub(crate) fn new_rw_lock<T>(value: T) -> parking_lot::RwLock<T> {
    parking_lot::RwLock::new(value)
}

/// `parking_lot::RwLock::read`: waits for shared access and runs `f` once on the value
/// behind the lock. Which value `f` finds is left open.
///
/// `f` must not take the same lock again: for writing it never gets it, and for reading it may
/// not get it while a writer waits.
#[verifier::external_body]
pub(crate) fn with_read<T, R, F: FnOnce(&T) -> R>(
    lock: &parking_lot::RwLock<T>,
    f: F,
) -> (r: R)
    requires
        forall|value: &T| #[trigger] f.requires((value,)),
    ensures
        exists|value: &T| #[trigger] f.ensures((value,), r),
{
    f(&lock.read())
}

/// `parking_lot::RwLock::write`: waits for exclusive access and runs `f` once on the value
/// behind the lock. Which value `f` finds is left open.
///
/// The lock is not reentrant: `f` must not take the same lock again.
#[verifier::external_body]
pub(crate) fn with_write<T, R, F: FnOnce(&mut T) -> R>(
    lock: &parking_lot::RwLock<T>,
    f: F,
) -> (r: R)
    requires
        forall|value: &mut T| #[trigger] f.requires((value,)),
    ensures
        exists|value: &mut T| #[trigger] f.ensures((value,), r),
{
    f(&mut lock.write())
}

/// A value behind a mutex, together with the value that the mutex was made with.
#[verifier::reject_recursive_types(T)]
pub struct Guarded<T> {
    mutex: parking_lot::Mutex<T>,
    origin: Ghost<T>,
}

impl<T> Guarded<T> {
    /// What the mutex was made with.
    pub closed spec fn origin(self) -> T {
        self.origin@
    }

    /// A mutex around `value`.
    pub fn new(value: T) -> (r: Self)
        ensures
            r.origin() == value,
    {
        let ghost origin = value;
        Guarded { mutex: new_mutex(value), origin: Ghost(origin) }
    }

    /// Whether `f` was run on the value behind this mutex and gave `r`.
    pub open spec fn ran<R, F: FnOnce(&mut T) -> R>(self, f: F, r: R) -> bool {
        &&& call_ensures(Guarded::<T>::with::<R, F>, (&self, f), r)
        &&& exists|value: &mut T| #[trigger] f.ensures((value,), r)
    }

    /// Whether `f` was run on the value behind this mutex and on `arg` and gave `r`.
    pub open spec fn ran_on<A, R, F: FnOnce(&mut T, A) -> R>(self, arg: A, f: F, r: R) -> bool {
        &&& call_ensures(Guarded::<T>::with_arg::<A, R, F>, (&self, arg, f), r)
        &&& exists|value: &mut T| #[trigger] f.ensures((value, arg), r)
    }

    /// Whether `f` read the value behind this mutex and gave `r`.
    pub open spec fn was_read<R, F: FnOnce(&T) -> R>(self, f: F, r: R) -> bool {
        &&& call_ensures(Guarded::<T>::read::<R, F>, (&self, f), r)
        &&& exists|value: &T| #[trigger] f.ensures((value,), r)
    }

    /// Whether `f` read the value behind this mutex, was handed `arg`, and gave `r`.
    pub open spec fn was_read_on<A, R, F: FnOnce(&T, A) -> R>(self, arg: A, f: F, r: R) -> bool {
        &&& call_ensures(Guarded::<T>::read_arg::<A, R, F>, (&self, arg, f), r)
        &&& exists|value: &T| #[trigger] f.ensures((value, arg), r)
    }

    /// Runs `f` once on the value behind the mutex.
    pub fn with<R, F: FnOnce(&mut T) -> R>(&self, f: F) -> (r: R)
        requires
            forall|value: &mut T| #[trigger] f.requires((value,)),
        ensures
            exists|value: &mut T| #[trigger] f.ensures((value,), r),
    {
        with_lock(&self.mutex, f)
    }

    /// Runs `f` once on the value behind the mutex and on `arg`.
    pub fn with_arg<A, R, F: FnOnce(&mut T, A) -> R>(&self, arg: A, f: F) -> (r: R)
        requires
            forall|value: &mut T| #[trigger] f.requires((value, arg)),
        ensures
            exists|value: &mut T| #[trigger] f.ensures((value, arg), r),
    {
        self.with(
            |value: &mut T| -> (r: R)
                ensures
                    (exists|value: &mut T| #[trigger] f.ensures((value, arg), r))
                { f(value, arg) },
        )
    }

    /// Runs `f` once on the value behind the mutex, which it only reads.
    pub fn read<R, F: FnOnce(&T) -> R>(&self, f: F) -> (r: R)
        requires
            forall|value: &T| #[trigger] f.requires((value,)),
        ensures
            exists|value: &T| #[trigger] f.ensures((value,), r),
    {
        self.with(
            |value: &mut T| -> (r: R)
                ensures
                    (exists|value: &T| #[trigger] f.ensures((value,), r))
                { f(value) },
        )
    }

    /// Runs `f` once on the value behind the mutex, which it only reads, and on `arg`.
    pub fn read_arg<A, R, F: FnOnce(&T, A) -> R>(&self, arg: A, f: F) -> (r: R)
        requires
            forall|value: &T| #[trigger] f.requires((value, arg)),
        ensures
            exists|value: &T| #[trigger] f.ensures((value, arg), r),
    {
        self.with(
            |value: &mut T| -> (r: R)
                ensures
                    (exists|value: &T| #[trigger] f.ensures((value, arg), r))
                { f(value, arg) },
        )
    }
}

/// A value behind a read-write lock, together with the value that the lock was made with.
#[verifier::reject_recursive_types(T)]
pub struct Shared<T> {
    lock: parking_lot::RwLock<T>,
    origin: Ghost<T>,
}

impl<T> Shared<T> {
    /// What the lock was made with.
    pub closed spec fn origin(self) -> T {
        self.origin@
    }

    /// The lock itself.
    pub closed spec fn inner(self) -> parking_lot::RwLock<T> {
        self.lock
    }

    /// A lock around `value`.
    pub fn new(value: T) -> (r: Self)
        ensures
            r.origin() == value,
    {
        let ghost origin = value;
        Shared { lock: new_rw_lock(value), origin: Ghost(origin) }
    }

    /// The lock itself.
    pub fn lock(&self) -> (r: &parking_lot::RwLock<T>)
        ensures
            *r == self.inner(),
    {
        &self.lock
    }

    /// Whether `f` read the value behind this lock and gave `r`.
    pub open spec fn was_read<R, F: FnOnce(&T) -> R>(self, f: F, r: R) -> bool {
        &&& call_ensures(Shared::<T>::read::<R, F>, (&self, f), r)
        &&& exists|value: &T| #[trigger] f.ensures((value,), r)
    }

    /// Whether `f` read the value behind this lock, was handed `arg`, and gave `r`.
    pub open spec fn was_read_on<A, R, F: FnOnce(&T, A) -> R>(self, arg: A, f: F, r: R) -> bool {
        &&& call_ensures(Shared::<T>::read_arg::<A, R, F>, (&self, arg, f), r)
        &&& exists|value: &T| #[trigger] f.ensures((value, arg), r)
    }

    /// Whether `f` was run on the value behind this lock and gave `r`.
    pub open spec fn ran<R, F: FnOnce(&mut T) -> R>(self, f: F, r: R) -> bool {
        &&& call_ensures(Shared::<T>::with::<R, F>, (&self, f), r)
        &&& exists|value: &mut T| #[trigger] f.ensures((value,), r)
    }

    /// Whether `f` was run on the value behind this lock and on `arg` and gave `r`.
    pub open spec fn ran_on<A, R, F: FnOnce(&mut T, A) -> R>(self, arg: A, f: F, r: R) -> bool {
        &&& call_ensures(Shared::<T>::with_arg::<A, R, F>, (&self, arg, f), r)
        &&& exists|value: &mut T| #[trigger] f.ensures((value, arg), r)
    }

    /// Runs `f` once on the value behind the lock, which it only reads.
    pub fn read<R, F: FnOnce(&T) -> R>(&self, f: F) -> (r: R)
        requires
            forall|value: &T| #[trigger] f.requires((value,)),
        ensures
            exists|value: &T| #[trigger] f.ensures((value,), r),
    {
        with_read(&self.lock, f)
    }

    /// Runs `f` once on the value behind the lock, which it only reads, and on `arg`.
    pub fn read_arg<A, R, F: FnOnce(&T, A) -> R>(&self, arg: A, f: F) -> (r: R)
        requires
            forall|value: &T| #[trigger] f.requires((value, arg)),
        ensures
            exists|value: &T| #[trigger] f.ensures((value, arg), r),
    {
        self.read(
            |value: &T| -> (r: R)
                ensures
                    (exists|value: &T| #[trigger] f.ensures((value, arg), r))
                { f(value, arg) },
        )
    }

    /// Runs `f` once on the value behind the lock.
    pub fn with<R, F: FnOnce(&mut T) -> R>(&self, f: F) -> (r: R)
        requires
            forall|value: &mut T| #[trigger] f.requires((value,)),
        ensures
            exists|value: &mut T| #[trigger] f.ensures((value,), r),
    {
        with_write(&self.lock, f)
    }

    /// Runs `f` once on the value behind the lock and on `arg`.
    pub fn with_arg<A, R, F: FnOnce(&mut T, A) -> R>(&self, arg: A, f: F) -> (r: R)
        requires
            forall|value: &mut T| #[trigger] f.requires((value, arg)),
        ensures
            exists|value: &mut T| #[trigger] f.ensures((value, arg), r),
    {
        self.with(
            |value: &mut T| -> (r: R)
                ensures
                    (exists|value: &mut T| #[trigger] f.ensures((value, arg), r))
                { f(value, arg) },
        )
    }
}

/// What is said to have run behind a mutex was handed to that mutex and run once on a value
/// there, with the answer that was given.
pub proof fn law_what_ran_was_run_behind_the_mutex<
    T,
    A,
    R,
    F: FnOnce(&mut T) -> R,
    G: FnOnce(&mut T, A) -> R,
    H: FnOnce(&T) -> R,
    I: FnOnce(&T, A) -> R,
>(mutex: Guarded<T>, f: F, g: G, h: H, i: I, arg: A, r: R)
    ensures
        mutex.ran(f, r) ==> call_ensures(Guarded::<T>::with::<R, F>, (&mutex, f), r) && exists|
            value: &mut T,
        | #[trigger] f.ensures((value,), r),
        mutex.ran_on(arg, g, r) ==> call_ensures(
            Guarded::<T>::with_arg::<A, R, G>,
            (&mutex, arg, g),
            r,
        ) && exists|value: &mut T| #[trigger] g.ensures((value, arg), r),
        mutex.was_read(h, r) ==> call_ensures(Guarded::<T>::read::<R, H>, (&mutex, h), r)
            && exists|value: &T| #[trigger] h.ensures((value,), r),
        mutex.was_read_on(arg, i, r) ==> call_ensures(
            Guarded::<T>::read_arg::<A, R, I>,
            (&mutex, arg, i),
            r,
        ) && exists|value: &T| #[trigger] i.ensures((value, arg), r),
{
}

/// What is said to have run behind a read-write lock was handed to that lock and run once on a
/// value there, with the answer that was given.
pub proof fn law_what_ran_was_run_behind_the_lock<
    T,
    A,
    R,
    F: FnOnce(&mut T) -> R,
    G: FnOnce(&mut T, A) -> R,
    H: FnOnce(&T) -> R,
    I: FnOnce(&T, A) -> R,
>(lock: Shared<T>, f: F, g: G, h: H, i: I, arg: A, r: R)
    ensures
        lock.ran(f, r) ==> call_ensures(Shared::<T>::with::<R, F>, (&lock, f), r) && exists|
            value: &mut T,
        | #[trigger] f.ensures((value,), r),
        lock.ran_on(arg, g, r) ==> call_ensures(
            Shared::<T>::with_arg::<A, R, G>,
            (&lock, arg, g),
            r,
        ) && exists|value: &mut T| #[trigger] g.ensures((value, arg), r),
        lock.was_read(h, r) ==> call_ensures(Shared::<T>::read::<R, H>, (&lock, h), r) && exists|
            value: &T,
        | #[trigger] h.ensures((value,), r),
        lock.was_read_on(arg, i, r) ==> call_ensures(
            Shared::<T>::read_arg::<A, R, I>,
            (&lock, arg, i),
            r,
        ) && exists|value: &T| #[trigger] i.ensures((value, arg), r),
{
}

/// A lock is made around the value that it was given, and reading, writing and handing an
/// argument over each run what they are given on a value behind it.
pub proof fn law_a_lock_runs_what_it_is_given<
    T,
    A,
    R,
    F: FnOnce(&mut T) -> R,
    G: FnOnce(&mut T, A) -> R,
    H: FnOnce(&T) -> R,
    I: FnOnce(&T, A) -> R,
>(
    value: T,
    mutex: Guarded<T>,
    lock: Shared<T>,
    f: F,
    g: G,
    h: H,
    i: I,
    arg: A,
    answers: (R, R, R, R),
)
    requires
        call_ensures(Guarded::<T>::new, (value,), mutex),
        call_ensures(Shared::<T>::new, (value,), lock),
        ({
            ||| call_ensures(Guarded::<T>::with::<R, F>, (&mutex, f), answers.0)
            ||| call_ensures(Shared::<T>::with::<R, F>, (&lock, f), answers.0)
        }),
        ({
            ||| call_ensures(Guarded::<T>::with_arg::<A, R, G>, (&mutex, arg, g), answers.1)
            ||| call_ensures(Shared::<T>::with_arg::<A, R, G>, (&lock, arg, g), answers.1)
        }),
        ({
            ||| call_ensures(Guarded::<T>::read::<R, H>, (&mutex, h), answers.2)
            ||| call_ensures(Shared::<T>::read::<R, H>, (&lock, h), answers.2)
        }),
        ({
            ||| call_ensures(Guarded::<T>::read_arg::<A, R, I>, (&mutex, arg, i), answers.3)
            ||| call_ensures(Shared::<T>::read_arg::<A, R, I>, (&lock, arg, i), answers.3)
        }),
    ensures
        mutex.origin() == value,
        lock.origin() == value,
        exists|held: &mut T| #[trigger] f.ensures((held,), answers.0),
        exists|held: &mut T| #[trigger] g.ensures((held, arg), answers.1),
        exists|held: &T| #[trigger] h.ensures((held,), answers.2),
        exists|held: &T| #[trigger] i.ensures((held, arg), answers.3),
{
}

} // verus!
