use no_std_async::mutex::LockOutcome;
use no_std_async::swap_lock::SyncOutcome;
use no_std_async::SwapLock;

#[test]
fn swap_lock_syncs_writes() {
    let mut lock = SwapLock::new(42);
    let mut r = lock.read();
    let read = match lock.poll_read(&mut r) {
        LockOutcome::Locked(g, _) => g,
        LockOutcome::Pending => panic!("the data side is free"),
    };
    assert_eq!(*read.deref(lock.data()), 42);

    let mut w = lock.write();
    let write = match lock.written_mut().poll_lock(&mut w) {
        LockOutcome::Locked(g, _) => g,
        LockOutcome::Pending => panic!("the write side is free"),
    };
    *write.deref_mut(lock.written_mut()) += 1;
    assert_eq!(*write.deref(lock.written()), 43); // writers see the new value
    assert_eq!(*read.deref(lock.data()), 42); // readers do not, until a sync

    assert_eq!(lock.release_read(read), None);
    assert_eq!(write.unlock(lock.written_mut()), None);

    let mut sync = lock.sync();
    assert!(matches!(sync.poll(&mut lock), SyncOutcome::Stored));
    assert_eq!(sync.finish(&mut lock), (None, None));

    let mut r = lock.read();
    let read = match lock.poll_read(&mut r) {
        LockOutcome::Locked(g, _) => g,
        LockOutcome::Pending => panic!("the data side is free"),
    };
    assert_eq!(*read.deref(lock.data()), 43); // the value has now been updated
}

#[test]
fn sync_waits_for_readers() {
    let mut lock = SwapLock::const_new(String::from("old"), String::from("new"));
    let mut r = lock.read();
    let read = match lock.poll_read(&mut r) {
        LockOutcome::Locked(g, _) => g,
        LockOutcome::Pending => panic!("the data side is free"),
    };
    let mut sync = lock.sync();
    assert!(matches!(sync.poll(&mut lock), SyncOutcome::Pending));
    // the sync holds the write side meanwhile
    let mut w = lock.write();
    assert!(matches!(lock.written_mut().poll_lock(&mut w), LockOutcome::Pending));
    assert_eq!(read.deref(lock.data()), "old");
    // the reader leaves: the sync's request for the data side is woken
    assert!(lock.release_read(read).is_some());
    assert!(matches!(sync.poll(&mut lock), SyncOutcome::Stored));
    // on completion, the waiting writer is woken
    assert_eq!(sync.finish(&mut lock), (None, Some(w.id())));
    let mut r = lock.read();
    let read = match lock.poll_read(&mut r) {
        LockOutcome::Locked(g, _) => g,
        LockOutcome::Pending => panic!("the data side is free"),
    };
    assert_eq!(read.deref(lock.data()), "new");
}

#[test]
fn cancelled_sync_gives_locks_back() {
    let mut lock = SwapLock::const_new(1, 2);
    let mut r = lock.read();
    let read = match lock.poll_read(&mut r) {
        LockOutcome::Locked(g, _) => g,
        LockOutcome::Pending => panic!("the data side is free"),
    };
    let mut sync = lock.sync();
    assert!(matches!(sync.poll(&mut lock), SyncOutcome::Pending));
    assert_eq!(sync.cancel(&mut lock), (None, None));
    let mut w = lock.write();
    assert!(matches!(lock.written_mut().poll_lock(&mut w), LockOutcome::Locked(_, None)));
    assert_eq!(*read.deref(lock.data()), 1);
}

#[test]
fn new_clones_into_the_data_side() {
    let mut lock = SwapLock::new(vec![1, 2]);
    let mut r = lock.read();
    let read = match lock.poll_read(&mut r) {
        LockOutcome::Locked(g, _) => g,
        LockOutcome::Pending => panic!("the data side is free"),
    };
    assert_eq!(read.deref(lock.data()), &vec![1, 2]);
    let mut w = lock.write();
    let write = match lock.written_mut().poll_lock(&mut w) {
        LockOutcome::Locked(g, _) => g,
        LockOutcome::Pending => panic!("the write side is free"),
    };
    assert_eq!(write.deref(lock.written()), &vec![1, 2]);
}

#[test]
fn cancelled_read_request_leaves_the_line() {
    let mut lock = SwapLock::const_new(0, 0);
    let mut r = lock.read();
    assert!(matches!(lock.poll_read(&mut r), LockOutcome::Locked(_, None)));
    let r2 = lock.read();
    assert_eq!(lock.cancel_read(r2), None);
}
