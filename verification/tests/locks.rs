use no_std_async::mutex::LockOutcome;
use no_std_async::{Mutex, RwLock};

#[test]
fn mutex_counts_under_lock() {
    let mut mutex = Mutex::new(0u8);
    let mut req = mutex.lock();
    let guard = match mutex.poll_lock(&mut req) {
        LockOutcome::Locked(g, wake) => {
            assert_eq!(wake, None);
            g
        }
        LockOutcome::Pending => panic!("the lock is free"),
    };
    let expected = *guard.deref(&mutex) + 1;
    *guard.deref_mut(&mut mutex) += 1;
    assert_eq!(expected, *guard.deref(&mutex));
    assert_eq!(guard.unlock(&mut mutex), None);
}

#[test]
fn mutex_second_lock_waits_until_unlock() {
    let mut mutex = Mutex::new(String::from("a"));
    let mut first = mutex.lock();
    let mut second = mutex.lock();
    let guard = match mutex.poll_lock(&mut first) {
        LockOutcome::Locked(g, _) => g,
        LockOutcome::Pending => panic!("the lock is free"),
    };
    assert!(matches!(mutex.poll_lock(&mut second), LockOutcome::Pending));
    assert!(matches!(mutex.poll_lock(&mut second), LockOutcome::Pending));
    guard.deref_mut(&mut mutex).push('b');
    assert_eq!(guard.unlock(&mut mutex), Some(second.id()));
    let guard2 = match mutex.poll_lock(&mut second) {
        LockOutcome::Locked(g, wake) => {
            assert_eq!(wake, None);
            g
        }
        LockOutcome::Pending => panic!("woken after unlock"),
    };
    assert_eq!(guard2.deref(&mutex), "ab");
    assert_eq!(guard2.unlock(&mut mutex), None);
}

#[test]
fn mutex_cancelled_lock_passes_wake_on() {
    let mut mutex = Mutex::new(1);
    let mut a = mutex.lock();
    let mut b = mutex.lock();
    let mut c = mutex.lock();
    let guard = match mutex.poll_lock(&mut a) {
        LockOutcome::Locked(g, _) => g,
        LockOutcome::Pending => panic!("the lock is free"),
    };
    assert!(matches!(mutex.poll_lock(&mut b), LockOutcome::Pending));
    assert!(matches!(mutex.poll_lock(&mut c), LockOutcome::Pending));
    assert_eq!(guard.unlock(&mut mutex), Some(b.id()));
    assert_eq!(mutex.cancel_lock(b), Some(c.id()));
    assert!(matches!(mutex.poll_lock(&mut c), LockOutcome::Locked(_, None)));
}

#[test]
fn rwlock_many_readers() {
    let mut lock = RwLock::new(42);
    assert_eq!(lock.max_readers(), usize::MAX);
    let mut guards = Vec::new();
    for _ in 0..4 {
        let mut req = lock.read();
        match lock.poll_read(&mut req) {
            LockOutcome::Locked(g, _) => guards.push(g),
            LockOutcome::Pending => panic!("readers share the lock"),
        }
    }
    assert!(guards.iter().all(|g| *g.deref(&lock) == 42));
    for g in guards {
        assert_eq!(g.unlock(&mut lock), None);
    }
    let mut req = lock.write();
    let write = match lock.poll_write(&mut req) {
        LockOutcome::Locked(g, wake) => {
            assert_eq!(wake, None);
            g
        }
        LockOutcome::Pending => panic!("no reader is left"),
    };
    *write.deref_mut(&mut lock) += 1;
    assert_eq!(*write.deref(&lock), 43);
    assert_eq!(write.unlock(&mut lock), None);
}

#[test]
fn rwlock_writer_excludes_readers() {
    let mut lock = RwLock::with_max_readers(0, 3);
    let mut w = lock.write();
    let write = match lock.poll_write(&mut w) {
        LockOutcome::Locked(g, _) => g,
        LockOutcome::Pending => panic!("the lock is free"),
    };
    let mut r = lock.read();
    assert!(matches!(lock.poll_read(&mut r), LockOutcome::Pending));
    let mut w2 = lock.write();
    assert!(matches!(lock.poll_write(&mut w2), LockOutcome::Pending));
    // all three permits come back; the first reader in line is woken
    assert_eq!(write.unlock(&mut lock), Some(r.id()));
    // the reader takes one permit and, with two left, wakes the writer,
    // which still lacks one and waits again at its place
    let read = match lock.poll_read(&mut r) {
        LockOutcome::Locked(g, wake) => {
            assert_eq!(wake, Some(w2.id()));
            g
        }
        LockOutcome::Pending => panic!("woken after unlock"),
    };
    assert!(matches!(lock.poll_write(&mut w2), LockOutcome::Pending));
    assert_eq!(read.unlock(&mut lock), Some(w2.id()));
    assert!(matches!(lock.poll_write(&mut w2), LockOutcome::Locked(_, None)));
}

#[test]
fn rwlock_reader_limit() {
    let mut lock = RwLock::with_max_readers((), 2);
    let mut a = lock.read();
    let mut b = lock.read();
    let mut c = lock.read();
    assert!(matches!(lock.poll_read(&mut a), LockOutcome::Locked(_, None)));
    assert!(matches!(lock.poll_read(&mut b), LockOutcome::Locked(_, None)));
    assert!(matches!(lock.poll_read(&mut c), LockOutcome::Pending));
    assert_eq!(lock.cancel_request(c), None);
}

#[test]
fn reader_waits_behind_queued_writer() {
    let mut lock = RwLock::with_max_readers(7, 3);
    let mut r1 = lock.read();
    let read1 = match lock.poll_read(&mut r1) {
        LockOutcome::Locked(g, _) => g,
        LockOutcome::Pending => panic!("the lock is free"),
    };
    let mut w = lock.write();
    assert!(matches!(lock.poll_write(&mut w), LockOutcome::Pending));
    // a later reader does not overtake the waiting writer
    let mut r2 = lock.read();
    assert!(matches!(lock.poll_read(&mut r2), LockOutcome::Pending));
    assert_eq!(read1.unlock(&mut lock), Some(w.id()));
    let write = match lock.poll_write(&mut w) {
        LockOutcome::Locked(g, _) => g,
        LockOutcome::Pending => panic!("woken after the reader left"),
    };
    assert!(matches!(lock.poll_read(&mut r2), LockOutcome::Pending));
    *write.deref_mut(&mut lock) = 8;
    assert_eq!(write.unlock(&mut lock), Some(r2.id()));
    let read2 = match lock.poll_read(&mut r2) {
        LockOutcome::Locked(g, _) => g,
        LockOutcome::Pending => panic!("woken after the writer left"),
    };
    assert_eq!(*read2.deref(&lock), 8);
}

#[test]
fn guards_carry_the_granted_ticket() {
    let mut mutex = Mutex::new(());
    let mut req = mutex.lock();
    match mutex.poll_lock(&mut req) {
        LockOutcome::Locked(g, _) => assert_eq!(g.id(), req.id()),
        LockOutcome::Pending => panic!("the lock is free"),
    }
    let mut lock = RwLock::new(());
    let mut r = lock.read();
    match lock.poll_read(&mut r) {
        LockOutcome::Locked(g, _) => assert_eq!(g.id(), r.id()),
        LockOutcome::Pending => panic!("the lock is free"),
    }
}

#[test]
fn two_tasks_count_to_the_limit() {
    // two tasks take turns at the lock, each adding one while it holds it
    let mut count = Mutex::new(0u8);
    let mut requests = [count.lock(), count.lock()];
    let mut turn = 0;
    loop {
        let guard = match count.poll_lock(&mut requests[turn]) {
            LockOutcome::Locked(g, _) => g,
            LockOutcome::Pending => panic!("the other task gave the lock back"),
        };
        if *guard.deref(&count) == u8::MAX {
            guard.unlock(&mut count);
            break;
        }
        let expected = *guard.deref(&count) + 1;
        *guard.deref_mut(&mut count) += 1;
        assert_eq!(expected, *guard.deref(&count));
        let other = 1 - turn;
        // the other task asks while the lock is held, and waits
        requests[other] = count.lock();
        assert!(matches!(count.poll_lock(&mut requests[other]), LockOutcome::Pending));
        assert_eq!(guard.unlock(&mut count), Some(requests[other].id()));
        turn = other;
    }
    let mut last = count.lock();
    match count.poll_lock(&mut last) {
        LockOutcome::Locked(g, _) => assert_eq!(*g.deref(&count), u8::MAX),
        LockOutcome::Pending => panic!("the lock is free"),
    }
}
