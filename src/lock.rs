//! Exclusive access to a shared engine, surviving a holder that panicked.

use vstd::prelude::*;
use std::sync::{LockResult, Mutex, MutexGuard, PoisonError};

verus! {

#[verifier::external_type_specification]
#[verifier::external_body]
#[verifier::reject_recursive_types(T)]
pub struct ExMutex<T: ?Sized>(Mutex<T>);

#[verifier::external_type_specification]
#[verifier::external_body]
#[verifier::reject_recursive_types(T)]
pub struct ExMutexGuard<'a, T: ?Sized + 'a>(MutexGuard<'a, T>);

#[verifier::external_type_specification]
#[verifier::external_body]
#[verifier::reject_recursive_types(T)]
pub struct ExPoisonError<T>(PoisonError<T>);

/// Relies on Mutex::lock: it blocks until this thread holds the lock, and
/// reports a poisoned lock as an error that still carries the guard.
pub assume_specification<T: ?Sized>[ Mutex::<T>::lock ](m: &Mutex<T>) -> LockResult<MutexGuard<'_, T>>;

/// Relies on PoisonError::into_inner: it hands back the value that the
/// error carries.
pub assume_specification<T>[ PoisonError::<T>::into_inner ](e: PoisonError<T>) -> T;

/// Locks `lock`, taking the guard also where an earlier holder panicked.
pub fn recover_lock<T>(lock: &Mutex<T>) -> MutexGuard<'_, T> {
    match lock.lock() {
        Ok(guard) => guard,
        Err(poisoned) => poisoned.into_inner(),
    }
}

} // verus!
