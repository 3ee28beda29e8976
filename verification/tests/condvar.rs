use no_std_async::semaphore::AcquireOutcome;
use no_std_async::Condvar;

#[test]
fn notify_all() {
    let mut condvar = Condvar::new();

    let mut task1 = condvar.wait();
    let mut task2 = condvar.wait();
    let mut task3 = condvar.wait();
    assert!(matches!(task1.poll(&mut condvar), AcquireOutcome::Pending));
    assert!(matches!(task2.poll(&mut condvar), AcquireOutcome::Pending));
    assert!(matches!(task3.poll(&mut condvar), AcquireOutcome::Pending));
    assert_eq!(condvar.num_waiters(), 3);

    let t1 = task1.id().unwrap();
    let t2 = task2.id().unwrap();
    let t3 = task3.id().unwrap();
    assert_eq!(condvar.notify_all(), Some(t1));
    assert_eq!(condvar.num_waiters(), 0);

    // each task, as it finishes, wakes the next
    assert!(matches!(task1.poll(&mut condvar), AcquireOutcome::Ready(Some(t)) if t == t2));
    assert!(matches!(task2.poll(&mut condvar), AcquireOutcome::Ready(Some(t)) if t == t3));
    assert!(matches!(task3.poll(&mut condvar), AcquireOutcome::Ready(None)));
}

#[test]
fn notify_one_wakes_one() {
    let mut condvar = Condvar::new();
    let mut task1 = condvar.wait();
    let mut task2 = condvar.wait();
    assert!(matches!(task1.poll(&mut condvar), AcquireOutcome::Pending));
    assert!(matches!(task2.poll(&mut condvar), AcquireOutcome::Pending));
    assert_eq!(condvar.notify_one(), task1.id());
    assert_eq!(condvar.num_waiters(), 1);
    assert!(matches!(task1.poll(&mut condvar), AcquireOutcome::Ready(None)));
    assert!(matches!(task2.poll(&mut condvar), AcquireOutcome::Pending));
}

#[test]
fn notify_without_waiters_is_not_kept() {
    let mut condvar = Condvar::new();
    assert_eq!(condvar.notify_one(), None);
    assert_eq!(condvar.notify_all(), None);
    assert_eq!(condvar.remaining(), 0);
    let mut task = condvar.wait();
    assert!(matches!(task.poll(&mut condvar), AcquireOutcome::Pending));
}

#[test]
fn wait_begins_when_polled() {
    let mut condvar = Condvar::new();
    let task = condvar.wait();
    assert_eq!(task.id(), None);
    assert_eq!(condvar.num_waiters(), 0);
    assert_eq!(task.cancel(&mut condvar), None);
    assert_eq!(condvar.tickets_issued(), 0);
}

#[test]
fn cancelled_wait_stops_counting() {
    let mut condvar = Condvar::new();
    let mut task = condvar.wait();
    assert!(matches!(task.poll(&mut condvar), AcquireOutcome::Pending));
    assert_eq!(task.cancel(&mut condvar), None);
    assert_eq!(condvar.num_waiters(), 0);
    // nobody waits, so the notification is not kept
    assert_eq!(condvar.notify_one(), None);
    assert_eq!(condvar.remaining(), 0);
    let mut next = condvar.wait();
    assert!(matches!(next.poll(&mut condvar), AcquireOutcome::Pending));
}

#[test]
fn notified_wait_that_gives_up_passes_the_notification_on() {
    let mut condvar = Condvar::new();
    let mut a = condvar.wait();
    let mut b = condvar.wait();
    assert!(matches!(a.poll(&mut condvar), AcquireOutcome::Pending));
    assert!(matches!(b.poll(&mut condvar), AcquireOutcome::Pending));
    assert_eq!(condvar.notify_one(), a.id());
    let b_id = b.id();
    assert_eq!(a.cancel(&mut condvar), b_id);
    assert_eq!(condvar.num_waiters(), 0);
    assert!(matches!(b.poll(&mut condvar), AcquireOutcome::Ready(None)));
}

#[test]
fn notified_wait_that_gives_up_takes_its_notification_away() {
    let mut condvar = Condvar::new();
    let mut a = condvar.wait();
    assert!(matches!(a.poll(&mut condvar), AcquireOutcome::Pending));
    assert_eq!(condvar.notify_one(), a.id());
    assert_eq!(condvar.remaining(), 1);
    assert_eq!(a.cancel(&mut condvar), None);
    assert_eq!(condvar.remaining(), 0);
    let mut next = condvar.wait();
    assert!(matches!(next.poll(&mut condvar), AcquireOutcome::Pending));
}

#[test]
fn notify_all_twice_is_notify_all_once() {
    let mut condvar = Condvar::new();
    let mut a = condvar.wait();
    assert!(matches!(a.poll(&mut condvar), AcquireOutcome::Pending));
    assert_eq!(condvar.notify_all(), a.id());
    assert_eq!(condvar.notify_all(), None);
    assert_eq!(condvar.remaining(), 1);
    assert!(matches!(a.poll(&mut condvar), AcquireOutcome::Ready(None)));
    let mut b = condvar.wait();
    assert!(matches!(b.poll(&mut condvar), AcquireOutcome::Pending));
}
