//! The lock that guards a limiter's state.
//!
//! A limiter holds its state in a `std::sync::Mutex` and only ever tries the
//! lock. Nothing is claimed here about what a lock holds or whether it can be
//! had: other threads decide that. What the limiters rely on is the invariant
//! of the state's own type, which every value of that type carries.
//!
//! The three functions below are taken on trust: each makes one call into
//! `std`, and none of them promises anything about its result.

use vstd::prelude::*;
use std::sync::Mutex;
use std::sync::MutexGuard;

verus! {

/// `std::sync::Mutex`, taken as it is. Nothing is known of a lock but that
/// it is one.
#[verifier::external_type_specification]
#[verifier::external_body]
#[verifier::reject_recursive_types(T)]
pub struct ExMutex<T: ?Sized>(Mutex<T>);

/// `std::sync::MutexGuard`, taken as it is: the proof that a lock is held,
/// which lets go of the lock when it is dropped.
#[verifier::external_type_specification]
#[verifier::external_body]
#[verifier::reject_recursive_types(T)]
pub struct ExMutexGuard<'a, T: ?Sized + 'a>(MutexGuard<'a, T>);

/// Calls `Mutex::new`: a lock that owns `value`. Nothing is stated of the
/// result.
#[verifier::external_body]
pub(crate) fn lock_new<T>(value: T) -> Mutex<T> {
    Mutex::new(value)
}

/// Calls `Mutex::try_lock` once, without waiting. `None` stands for a lock
/// that is held elsewhere or poisoned; which of the two outcomes comes back is
/// not stated.
#[verifier::external_body]
pub(crate) fn lock_try<'a, T>(lock: &'a Mutex<T>) -> Option<MutexGuard<'a, T>> {
    match lock.try_lock() {
        Ok(guard) => Some(guard),
        Err(_) => None,
    }
}

/// Calls `DerefMut::deref_mut` on the guard: the state behind a held lock.
/// Nothing is stated of the state found there.
#[verifier::external_body]
pub(crate) fn lock_state<'a, 'b, T>(guard: &'a mut MutexGuard<'b, T>) -> &'a mut T {
    &mut **guard
}

} // verus!
