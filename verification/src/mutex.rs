//! A lock that is held only while a closure runs.

use vstd::prelude::*;

verus! {

/// The lock of `std`. Nothing is said of what it guards.
#[verifier::external_type_specification]
#[verifier::external_body]
#[verifier::reject_recursive_types(T)]
pub struct ExMutex<T: ?Sized>(std::sync::Mutex<T>);

/// A lock of `std` that is held. Nothing is said of what it guards.
#[verifier::external_type_specification]
#[verifier::external_body]
#[verifier::reject_recursive_types(T)]
pub struct ExMutexGuard<'a, T: ?Sized + 'a>(std::sync::MutexGuard<'a, T>);

/// The error of taking a lock of `std` that is poisoned. Nothing is said of what it holds.
#[verifier::external_type_specification]
#[verifier::external_body]
#[verifier::reject_recursive_types(T)]
pub struct ExPoisonError<T>(std::sync::PoisonError<T>);

/// `Mutex::new` of `std`. Nothing is said of the lock: what it guards changes with every thread
/// that takes it.
pub assume_specification<T>[ std::sync::Mutex::<T>::new ](v: T) -> std::sync::Mutex<T>;

/// `Mutex::lock` of `std`. Nothing is said of the outcome: it depends on what other threads have
/// done, whether one panicked while it held the lock and what the others left in it.
pub assume_specification<'a, T: ?Sized>[ std::sync::Mutex::<T>::lock ](
    m: &'a std::sync::Mutex<T>,
) -> std::sync::LockResult<std::sync::MutexGuard<'a, T>>;

/// `DerefMut::deref_mut` of `MutexGuard` of `std`. Nothing is said of the value that is lent out:
/// it is what the last thread left behind.
#[verifier::external_body]
fn guarded<'a, 'b, T>(guard: &'a mut std::sync::MutexGuard<'b, T>) -> &'a mut T {
    std::ops::DerefMut::deref_mut(guard)
}

/// A lock that is held only while a closure runs.
#[derive(Debug)]
#[verifier::reject_recursive_types(T)]
pub struct Mutex<T: ?Sized>(std::sync::Mutex<T>);

/// Whether `f` can return `r` when it is called on some value.
pub open spec fn yields<T, Ret, F: FnOnce(&mut T) -> Ret>(f: F, r: Ret) -> bool {
    exists|v: &mut T| call_ensures(f, (v,), r)
}

/// Calls `f` on `v`.
fn apply<T, Ret, F: FnOnce(&mut T) -> Ret>(f: F, v: &mut T) -> (r: Ret)
    requires
        forall|w: &mut T| call_requires(f, (w,)),
    ensures
        exists|w: &mut T| #[trigger]
            call_ensures(f, (w,), r) && *w == *old(v) && *final(w) == *final(v),
{
    f(v)
}

/// Calls `f` on `v` as a value, so that the outcome can be spoken of as one of this call.
fn call<A, Ret, F: FnOnce(A) -> Ret>(f: F, v: A) -> (r: Ret)
    requires
        call_requires(f, (v,)),
    ensures
        call_ensures(f, (v,), r),
{
    f(v)
}

/// What running `thunk` under a lock gives, by the outcome of taking the lock: what `thunk`
/// returns, or the error.
pub open spec fn is_run_locked<'a, T, Ret, F: FnOnce(&mut T) -> Ret>(
    lock: std::sync::LockResult<std::sync::MutexGuard<'a, T>>,
    thunk: F,
    r: Result<Ret, std::sync::PoisonError<std::sync::MutexGuard<'a, T>>>,
) -> bool {
    match lock {
        Ok(_) => r matches Ok(x) && yields::<T, Ret, F>(thunk, x),
        Err(e) => r matches Err(f) && f == e,
    }
}

/// Runs `thunk` on the value that a lock guards, once the lock is taken, and hands on what it
/// returns. If it could not be taken, `thunk` is not run, and the error is handed on.
pub fn run_locked<'a, T, Ret, F>(
    lock: std::sync::LockResult<std::sync::MutexGuard<'a, T>>,
    thunk: F,
) -> (r: Result<Ret, std::sync::PoisonError<std::sync::MutexGuard<'a, T>>>) where
    F: FnOnce(&mut T) -> Ret,

    requires
        lock is Ok ==> forall|v: &mut T| call_requires(thunk, (v,)),
    ensures
        is_run_locked::<T, Ret, F>(lock, thunk, r),
{
    match lock {
        Ok(mut guard) => {
            let return_value = apply(thunk, guarded(&mut guard));
            assert(yields::<T, Ret, F>(thunk, return_value));
            Ok(return_value)
        },
        Err(e) => Err(e),
    }
}

/// Whether `r` can be what running `thunk` under the lock `m` gives: the lock is taken, and `r` is
/// what [`run_locked`] makes of the outcome.
pub open spec fn runs_under<'a, T, Ret, F: FnOnce(&mut T) -> Ret>(
    m: &'a std::sync::Mutex<T>,
    thunk: F,
    r: Result<Ret, std::sync::PoisonError<std::sync::MutexGuard<'a, T>>>,
) -> bool {
    exists|lock: std::sync::LockResult<std::sync::MutexGuard<'a, T>>| #[trigger]
        call_ensures(std::sync::Mutex::<T>::lock, (m,), lock) && is_run_locked::<T, Ret, F>(
            lock,
            thunk,
            r,
        )
}

/// What running a closure under a lock gives: the closure's result on some value if the lock is
/// taken, and the very error of taking the lock if not.
pub proof fn lock_outcome_decides<'a, T, Ret, F: FnOnce(&mut T) -> Ret>(
    m: &'a std::sync::Mutex<T>,
    thunk: F,
    r: Result<Ret, std::sync::PoisonError<std::sync::MutexGuard<'a, T>>>,
)
    requires
        runs_under::<T, Ret, F>(m, thunk, r),
    ensures
        r is Ok ==> exists|v: &mut T| #[trigger] call_ensures(thunk, (v,), r->Ok_0),
        r matches Err(e) ==> call_ensures(std::sync::Mutex::<T>::lock, (m,), Err(e)),
        r is Ok ==> exists|guard: std::sync::MutexGuard<'a, T>| #[trigger]
            call_ensures(std::sync::Mutex::<T>::lock, (m,), Ok(guard)),
{
    let lock = choose|lock: std::sync::LockResult<std::sync::MutexGuard<'a, T>>| #[trigger]
        call_ensures(std::sync::Mutex::<T>::lock, (m,), lock) && is_run_locked::<T, Ret, F>(
            lock,
            thunk,
            r,
        );
    if let Ok(guard) = lock {
        assert(call_ensures(std::sync::Mutex::<T>::lock, (m,), Ok(guard)));
    }
}

impl<T> Mutex<T> {
    /// The lock of `std` that this is made of.
    pub closed spec fn inner(&self) -> &std::sync::Mutex<T> {
        &self.0
    }

    /// Runs `thunk` on the guarded value and hands on what it returns. If the lock is poisoned,
    /// `thunk` is not run, and the error is returned.
    ///
    /// Which of the two happens, and on what value `thunk` is run, depends on the other threads.
    /// A thread that already holds the lock does not get it again: the call panics or never
    /// returns. So `thunk` must not take the lock that it runs under.
    pub fn safe_lock<F, Ret>(&self, thunk: F) -> (r: Result<
        Ret,
        std::sync::PoisonError<std::sync::MutexGuard<'_, T>>,
    >) where F: FnOnce(&mut T) -> Ret
        requires
            forall|v: &mut T| call_requires(thunk, (v,)),
        ensures
            runs_under::<T, Ret, F>(self.inner(), thunk, r),
    {
        run_locked(call(std::sync::Mutex::<T>::lock, &self.0), thunk)
    }

    /// A lock that guards `v`: the one that `std` makes of it.
    pub fn new(v: T) -> (r: Self)
        ensures
            call_ensures(std::sync::Mutex::<T>::new, (v,), *r.inner()),
    {
        Mutex(call(std::sync::Mutex::<T>::new, v))
    }

    /// Takes the lock and hands it out, or the error if it is poisoned. A thread that already holds
    /// the lock does not get it again: the call panics or never returns.
    pub fn to_remove(&self) -> (r: Result<
        std::sync::MutexGuard<'_, T>,
        std::sync::PoisonError<std::sync::MutexGuard<'_, T>>,
    >)
        ensures
            call_ensures(std::sync::Mutex::<T>::lock, (self.inner(),), r),
    {
        call(std::sync::Mutex::<T>::lock, &self.0)
    }
}

} // verus!
