use no_std_async::semaphore::{AcquireOutcome, Semaphore};

fn is_ready(out: AcquireOutcome, wake: Option<u64>) -> bool {
    match out {
        AcquireOutcome::Ready(w) => w == wake,
        AcquireOutcome::Pending => false,
    }
}

fn is_pending(out: AcquireOutcome) -> bool {
    matches!(out, AcquireOutcome::Pending)
}

#[test]
fn semaphore() {
    let mut sem = Semaphore::new(10);

    let mut take_10 = sem.acquire(10);
    assert!(is_ready(take_10.poll(&mut sem), None)); // should complete instantly

    let mut take_1 = sem.acquire(1);
    assert!(is_pending(take_1.poll(&mut sem)));
    let mut take_30 = sem.acquire(30);
    assert!(is_pending(take_30.poll(&mut sem)));
    let mut take_5 = sem.acquire(5);
    assert!(is_pending(take_5.poll(&mut sem)));

    // releasing 30 wakes the task at the front of the line
    assert_eq!(sem.release(30), Some(take_1.id()));
    // take_1 completes and, with permits left, wakes the next in line
    assert!(is_ready(take_1.poll(&mut sem), Some(take_30.id())));
    // we only have 29 now
    assert_eq!(sem.remaining(), 29);
    assert!(is_pending(take_30.poll(&mut sem)));
    // take_30 waits at the start of the line and doesn't notify 5
    assert!(is_pending(take_5.poll(&mut sem)));

    assert_eq!(sem.release(6), Some(take_30.id()));
    assert!(is_ready(take_30.poll(&mut sem), Some(take_5.id())));
    assert!(is_ready(take_5.poll(&mut sem), None));
    assert_eq!(sem.remaining(), 0);
    assert_eq!(sem.waiting(), 0);
}

#[test]
fn woken_request_keeps_its_place() {
    let mut sem = Semaphore::new(10);
    let mut t10 = sem.acquire(10);
    assert!(is_ready(t10.poll(&mut sem), None));
    let mut t1 = sem.acquire(1);
    let mut t30 = sem.acquire(30);
    let mut t5 = sem.acquire(5);
    assert!(is_pending(t1.poll(&mut sem)));
    assert!(is_pending(t30.poll(&mut sem)));
    assert!(is_pending(t5.poll(&mut sem)));
    assert_eq!(sem.release(30), Some(t1.id()));
    assert!(is_ready(t1.poll(&mut sem), Some(t30.id())));
    assert!(is_pending(t30.poll(&mut sem)));
    // one more permit serves the request at the front, not the one behind it
    assert_eq!(sem.release(1), Some(t30.id()));
    assert!(is_ready(t30.poll(&mut sem), None));
    assert!(is_pending(t5.poll(&mut sem)));
}

#[test]
fn new_semaphore_has_its_permits() {
    let sem = Semaphore::new(7);
    assert_eq!(sem.remaining(), 7);
    assert_eq!(sem.waiting(), 0);
    assert_eq!(sem.tickets_issued(), 0);
}

#[test]
fn tickets_are_handed_out_in_order() {
    let mut sem = Semaphore::new(0);
    let a = sem.acquire(3);
    let b = sem.acquire(4);
    assert_eq!(a.id(), 0);
    assert_eq!(b.id(), 1);
    assert_eq!(a.permits(), 3);
    assert_eq!(b.permits(), 4);
    assert_eq!(sem.tickets_issued(), 2);
    // asking does nothing until polled
    assert_eq!(sem.waiting(), 0);
}

#[test]
fn release_undoes_grant() {
    let mut sem = Semaphore::new(5);
    let mut a = sem.acquire(3);
    assert!(is_ready(a.poll(&mut sem), None));
    assert_eq!(sem.remaining(), 2);
    assert_eq!(sem.release(3), None);
    assert_eq!(sem.remaining(), 5);
}

#[test]
fn release_only_wakes_front() {
    // the front asks for 4, the one behind for 1: a release of 2 wakes nobody
    let mut sem = Semaphore::new(0);
    let mut big = sem.acquire(4);
    let mut small = sem.acquire(1);
    assert!(is_pending(big.poll(&mut sem)));
    assert!(is_pending(small.poll(&mut sem)));
    assert_eq!(sem.release(2), None);
    assert_eq!(sem.remaining(), 2);
    assert_eq!(sem.waiting(), 2);
    assert_eq!(sem.release(2), Some(big.id()));
    // a release wakes the front; it leaves the line when it is served
    assert_eq!(sem.waiting(), 2);
    assert!(is_ready(big.poll(&mut sem), None));
    assert_eq!(sem.waiting(), 1);
}

#[test]
fn queued_request_keeps_waiting() {
    let mut sem = Semaphore::new(0);
    let mut a = sem.acquire(1);
    assert!(is_pending(a.poll(&mut sem)));
    assert!(is_pending(a.poll(&mut sem)));
    assert_eq!(sem.waiting(), 1);
    // even with permits back, a task still in line waits for its wake-up
    let mut b = sem.acquire(2);
    assert!(is_pending(b.poll(&mut sem)));
    assert_eq!(sem.release(1), Some(a.id()));
    assert!(is_ready(a.poll(&mut sem), None));
}

#[test]
fn new_request_waits_behind_the_line() {
    let mut sem = Semaphore::new(2);
    let mut big = sem.acquire(3);
    assert!(is_pending(big.poll(&mut sem)));
    let mut small = sem.acquire(1);
    // there are permits for it, but it may not overtake the waiting task
    assert!(is_pending(small.poll(&mut sem)));
    assert_eq!(sem.remaining(), 2);
    assert_eq!(sem.release(1), Some(big.id()));
    assert!(is_ready(big.poll(&mut sem), None));
    assert_eq!(sem.release(1), Some(small.id()));
    assert!(is_ready(small.poll(&mut sem), None));
}

#[test]
fn cancel_in_line_leaves_the_line() {
    let mut sem = Semaphore::new(0);
    let mut a = sem.acquire(1);
    let mut b = sem.acquire(1);
    assert!(is_pending(a.poll(&mut sem)));
    assert!(is_pending(b.poll(&mut sem)));
    let a_id = a.id();
    assert_eq!(a.cancel(&mut sem), None);
    assert!(!sem.is_queued(a_id));
    assert_eq!(sem.waiting(), 1);
    assert_eq!(sem.release(1), Some(b.id()));
}

#[test]
fn cancel_after_wake_passes_it_on() {
    let mut sem = Semaphore::new(0);
    let mut a = sem.acquire(1);
    let mut b = sem.acquire(1);
    assert!(is_pending(a.poll(&mut sem)));
    assert!(is_pending(b.poll(&mut sem)));
    assert_eq!(sem.release(1), Some(a.id()));
    // a was woken but gives up: b is woken in its place
    assert_eq!(a.cancel(&mut sem), Some(b.id()));
    assert!(is_ready(b.poll(&mut sem), None));
}

#[test]
fn cancel_before_poll_does_nothing() {
    let mut sem = Semaphore::new(1);
    let a = sem.acquire(1);
    assert_eq!(a.cancel(&mut sem), None);
    assert_eq!(sem.remaining(), 1);
    assert_eq!(sem.waiting(), 0);
}

#[test]
fn zero_permit_request_is_granted() {
    let mut sem = Semaphore::new(0);
    let mut a = sem.acquire(0);
    assert!(is_ready(a.poll(&mut sem), None));
}

#[test]
fn never_woken_front_gives_up_silently() {
    let mut sem = Semaphore::new(0);
    let mut a = sem.acquire(30);
    let mut b = sem.acquire(5);
    assert!(is_pending(a.poll(&mut sem)));
    assert!(is_pending(b.poll(&mut sem)));
    assert_eq!(sem.release(29), None);
    assert_eq!(a.cancel(&mut sem), None);
    // b was never woken, so it keeps waiting until the next release
    assert!(is_pending(b.poll(&mut sem)));
    assert_eq!(sem.release(1), Some(b.id()));
}

#[test]
fn woken_task_that_gives_up_always_hands_on() {
    let mut sem = Semaphore::new(0);
    let mut a = sem.acquire(1);
    let mut b = sem.acquire(30);
    assert!(is_pending(a.poll(&mut sem)));
    assert!(is_pending(b.poll(&mut sem)));
    assert_eq!(sem.release(1), Some(a.id()));
    // the wake-up passes on, though b asks for more than there is
    assert_eq!(a.cancel(&mut sem), Some(b.id()));
    assert!(is_pending(b.poll(&mut sem)));
    assert!(sem.is_queued(b.id()));
}

#[test]
fn grant_with_permits_left_wakes_next() {
    let mut sem = Semaphore::new(0);
    let mut a = sem.acquire(1);
    let mut b = sem.acquire(30);
    assert!(is_pending(a.poll(&mut sem)));
    assert!(is_pending(b.poll(&mut sem)));
    assert_eq!(sem.release(2), Some(a.id()));
    assert!(is_ready(a.poll(&mut sem), Some(b.id())));
    assert!(is_pending(b.poll(&mut sem)));
    assert_eq!(sem.remaining(), 1);
}
