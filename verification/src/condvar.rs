//! A flag-guarded condition variable, offered for tests and hosts.
//!
//! The runtime's blocking points — a reactive loop or the dispatcher
//! parking until a send arrives — belong to the hosting layer; this is the
//! primitive such a host (and the tests that exercise one) can pair with
//! [`crate::mailbox::Mailbox::wait_outcome`].  One thread blocks in
//! [`PelTestCondvar::wait`] until another has called
//! [`PelTestCondvar::notify`]; a notification given before the wait is not
//! lost, because the waited-on predicate is a flag under the mutex, checked
//! inside the lock before and after every wait.

use vstd::prelude::*;

verus! {

/// `std::sync::Mutex`, declared so the guarded flag can sit in a field.
#[verifier::external_type_specification]
#[verifier::external_body]
#[verifier::reject_recursive_types(T)]
pub struct ExMutex<T: ?Sized>(std::sync::Mutex<T>);

/// `std::sync::MutexGuard`, declared so a held lock can pass through the
/// wait loop.
#[verifier::external_type_specification]
#[verifier::external_body]
#[verifier::reject_recursive_types(T)]
pub struct ExMutexGuard<'a, T: ?Sized + 'a>(std::sync::MutexGuard<'a, T>);

/// `std::sync::Condvar`, declared so the signal can sit beside its mutex.
#[verifier::external_type_specification]
#[verifier::external_body]
pub struct ExCondvar(std::sync::Condvar);

/// Relies on `std::sync::Mutex::new`: builds an unlocked mutex guarding `t`.
pub assume_specification<T>[ std::sync::Mutex::<T>::new ](t: T) -> std::sync::Mutex<T>;

/// Relies on `std::sync::Condvar::new`: builds a fresh condition variable.
pub assume_specification[ std::sync::Condvar::new ]() -> std::sync::Condvar;

/// Relies on `std::sync::Mutex::lock`: blocks until the mutex is free and
/// returns the guard that holds it.  Panics only if a previous holder
/// panicked and poisoned the lock; nothing in this crate panics while
/// holding it.
#[verifier::external_body]
fn lock_flag<'a>(m: &'a std::sync::Mutex<bool>) -> std::sync::MutexGuard<'a, bool> {
    m.lock().unwrap()
}

/// Relies on `std::sync::MutexGuard`'s `DerefMut`: writes the flag under
/// the held lock.
#[verifier::external_body]
fn set_flag(g: &mut std::sync::MutexGuard<'_, bool>, v: bool) {
    **g = v;
}

/// Whether the flag is down; the predicate a waiting thread parks on.
fn flag_is_down(b: &bool) -> (r: bool)
    ensures
        r == !*b,
{
    !*b
}

/// Relies on `std::sync::Condvar::wait_while`: parks the calling thread,
/// with the guard's lock released, for as long as [`flag_is_down`] holds
/// of the guarded flag; the predicate is re-evaluated under the lock after
/// every wakeup, so a wakeup without a notification goes back to sleep.
/// Returns with the lock re-taken and the flag up.  Panics only if a
/// previous holder panicked and poisoned the lock.
#[verifier::external_body]
fn wait_while_down<'a>(
    cv: &std::sync::Condvar,
    g: std::sync::MutexGuard<'a, bool>,
) -> std::sync::MutexGuard<'a, bool> {
    cv.wait_while(g, |raised| flag_is_down(raised)).unwrap()
}

/// Relies on `std::sync::Condvar::notify_one`: wakes one thread parked on
/// the condition variable, if any.
#[verifier::external_body]
fn notify_one(cv: &std::sync::Condvar) {
    cv.notify_one();
}

/// A mutex-guarded boolean flag paired with a condition variable: the
/// smallest blocking rendezvous between two threads.
pub struct PelTestCondvar {
    lock: std::sync::Mutex<bool>,
    cvar: std::sync::Condvar,
}

impl PelTestCondvar {
    /// A fresh rendezvous with the flag down: a `wait` blocks until some
    /// `notify` raises it.
    pub fn new() -> PelTestCondvar {
        PelTestCondvar { lock: std::sync::Mutex::new(false), cvar: std::sync::Condvar::new() }
    }

    /// Blocks the calling thread until the flag is up, then takes it down
    /// again.  The flag is checked under the lock, so neither a wakeup
    /// without a notification nor a notification given before this call
    /// is ever lost.
    pub fn wait(&self) {
        let held = lock_flag(&self.lock);
        let mut raised = wait_while_down(&self.cvar, held);
        set_flag(&mut raised, false);
    }

    /// Raises the flag under the lock and wakes one waiting thread, if
    /// any; a `wait` that has not parked yet still sees the flag.
    pub fn notify(&self) {
        let mut raised = lock_flag(&self.lock);
        set_flag(&mut raised, true);
        notify_one(&self.cvar);
    }
}

} // verus!
