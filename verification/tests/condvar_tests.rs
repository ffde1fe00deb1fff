//! The flag-guarded condition variable: a notification given before the
//! wait is kept, and a wait consumes exactly one notification.

use pel::PelTestCondvar;

#[test]
fn notify_before_wait_is_not_lost() {
    let cv = PelTestCondvar::new();
    cv.notify();
    // The flag was raised under the lock, so this returns at once instead
    // of parking forever.
    cv.wait();
}

#[test]
fn wait_consumes_the_notification() {
    let cv = PelTestCondvar::new();
    cv.notify();
    cv.notify();
    cv.wait();
    // The flag is a single slot, not a counter: it is down again now, and
    // one more notification raises it again.
    cv.notify();
    cv.wait();
}
