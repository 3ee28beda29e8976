use vstd::prelude::*;

use crate::mutex::{Guard, LockOutcome, Mutex};
use crate::rwlock::{ReadGuard, RwLock, WriteGuard};
use crate::semaphore::{
    lemma_release_names_woken, lemma_release_wakes_unwoken_front, Acquire, AcquireOutcome,
    SemaphoreView,
};
use vstd::multiset::Multiset;

verus! {

/// A reader-writer lock that only syncs when the `sync` operation runs.
///
/// Readers see the `data` side, held in a [`RwLock`]; writers change the
/// `write` side, held in a [`Mutex`]. Writes are not seen by readers until a
/// sync copies (clones) the written value into the data side. A sync first
/// locks the write side, clones its value, then takes the write lock of the
/// data side, stores the clone, and gives both locks back (the data side
/// first).
pub struct SwapLock<T> {
    data: RwLock<T>,
    write: Mutex<T>,
}

/// Where a sync stands.
pub enum SyncStage<T> {
    /// Not polled yet.
    Start,
    /// Waiting for the lock of the write side.
    LockingWrite(Acquire),
    /// Holding the write side, with the clone of its value, and waiting for
    /// the write lock of the data side.
    LockingData(Guard, T, Acquire),
    /// Holding both sides, the clone stored in the data side.
    Holding(Guard, WriteGuard),
    /// Completed.
    Finished,
}

/// A sync of a [`SwapLock`], made by [`SwapLock::sync`]. Nothing happens
/// until it is first polled; it is driven by [`poll`](Self::poll) until it is
/// done, or given up with [`cancel`](Self::cancel).
pub struct SyncOp<T> {
    stage: SyncStage<T>,
}

/// What polling a sync gives back.
pub enum SyncOutcome {
    /// The sync holds both sides and has stored the clone in the data side;
    /// it completes with [`SyncOp::finish`].
    Stored,
    /// The sync waits for a lock.
    Pending,
}

impl<T> SwapLock<T> {
    /// The data side, which readers see.
    pub closed spec fn data_lock(&self) -> RwLock<T> {
        self.data
    }

    /// The write side, which writers change.
    pub closed spec fn write_lock(&self) -> Mutex<T> {
        self.write
    }

    /// Both sides are well formed.
    pub open spec fn wf(&self) -> bool {
        self.data_lock().wf() && self.write_lock().wf()
    }

    /// Creates a new [`SwapLock`] with the given data: the write side holds
    /// `val`, the data side a clone of it.
    pub fn new(val: T) -> (l: Self)
        where
            T: Clone,
        ensures
            l.wf(),
            cloned(val, l.data_lock().value()),
            l.write_lock().value() == val,
            l.data_lock().reader_limit() == usize::MAX,
            l.data_lock().lock_view() == SemaphoreView::fresh(usize::MAX as nat),
            l.data_lock().reader_tickets() =~= Multiset::empty(),
            l.data_lock().writer() is None,
            l.write_lock().lock_view() == SemaphoreView::fresh(1),
            l.write_lock().holder() is None,
    {
        let copy = val.clone();
        SwapLock { data: RwLock::new(copy), write: Mutex::new(val) }
    }

    /// Creates a new [`SwapLock`] with the given data and write value.
    /// These values should be the same. In [`new`](Self::new), it is simply
    /// cloned.
    pub fn const_new(data: T, write: T) -> (l: Self)
        ensures
            l.wf(),
            l.data_lock().value() == data,
            l.write_lock().value() == write,
            l.data_lock().reader_limit() == usize::MAX,
            l.data_lock().lock_view() == SemaphoreView::fresh(usize::MAX as nat),
            l.data_lock().reader_tickets() =~= Multiset::empty(),
            l.data_lock().writer() is None,
            l.write_lock().lock_view() == SemaphoreView::fresh(1),
            l.write_lock().holder() is None,
    {
        SwapLock { data: RwLock::new(data), write: Mutex::new(write) }
    }

    /// Asks for a read lock on the data side.
    pub fn read(&mut self) -> (acq: Acquire)
        requires
            old(self).wf(),
            old(self).data_lock().lock_view().issued < u64::MAX,
        ensures
            final(self).wf(),
            final(self).write_lock() == old(self).write_lock(),
            final(self).data_lock().lock_view() == old(self).data_lock().lock_view().issue(),
            final(self).data_lock().value() == old(self).data_lock().value(),
            final(self).data_lock().reader_limit() == old(self).data_lock().reader_limit(),
            final(self).data_lock().instance() == old(self).data_lock().instance(),
            final(self).data_lock().reader_tickets() == old(self).data_lock().reader_tickets(),
            final(self).data_lock().writer() == old(self).data_lock().writer(),
            acq.ticket() == old(self).data_lock().lock_view().issued,
            acq.amount() == 1,
            !acq.is_done(),
    {
        self.data.read()
    }

    /// Asks for the lock of the write side.
    pub fn write(&mut self) -> (acq: Acquire)
        requires
            old(self).wf(),
            old(self).write_lock().lock_view().issued < u64::MAX,
        ensures
            final(self).wf(),
            final(self).data_lock() == old(self).data_lock(),
            final(self).write_lock().lock_view() == old(self).write_lock().lock_view().issue(),
            final(self).write_lock().value() == old(self).write_lock().value(),
            final(self).write_lock().holder() == old(self).write_lock().holder(),
            final(self).write_lock().instance() == old(self).write_lock().instance(),
            acq.ticket() == old(self).write_lock().lock_view().issued,
            acq.amount() == 1,
            !acq.is_done(),
    {
        self.write.lock()
    }

    /// Makes a sync of the data side with the written value. It begins when
    /// first polled. It waits for all locks to be released, so a task that
    /// holds a read or write lock while it waits for the sync never wakes.
    pub fn sync(&self) -> (op: SyncOp<T>)
        ensures
            op.is_start(),
            !op.locking_write(),
            !op.holds_write(),
            !op.holding(),
            !op.is_finished(),
            op.valid_for(self),
    {
        SyncOp { stage: SyncStage::Start }
    }

    /// The data side.
    pub fn data(&self) -> (r: &RwLock<T>)
        ensures
            *r == self.data_lock(),
    {
        &self.data
    }

    /// Polls a read request made by [`read`](Self::read) on this lock.
    /// The data side's value does not change.
    pub fn poll_read(&mut self, acq: &mut Acquire) -> (out: LockOutcome<ReadGuard>)
        requires
            old(self).wf(),
            old(acq).amount() == 1,
            !old(acq).is_done(),
            old(acq).ticket() < old(self).data_lock().lock_view().issued,
        ensures
            final(self).wf(),
            final(self).write_lock() == old(self).write_lock(),
            final(self).data_lock().lock_view() == old(self).data_lock().lock_view().poll(
                old(acq).ticket(),
                1,
            ).0,
            final(self).data_lock().value() == old(self).data_lock().value(),
            final(self).data_lock().reader_limit() == old(self).data_lock().reader_limit(),
            final(self).data_lock().instance() == old(self).data_lock().instance(),
            final(self).data_lock().writer() == old(self).data_lock().writer(),
            final(acq).ticket() == old(acq).ticket(),
            final(acq).amount() == 1,
            final(acq).is_done() == (out is Locked),
            match out {
                LockOutcome::Locked(guard, wake) => {
                    &&& old(self).data_lock().lock_view().poll(old(acq).ticket(), 1).1
                        == AcquireOutcome::Ready(wake)
                    &&& final(self).data_lock().reader_tickets() == old(self).data_lock().reader_tickets().insert(old(acq).ticket())
                    &&& guard.ticket() == old(acq).ticket()
                    &&& guard.lock_instance() == old(self).data_lock().instance()
                },
                LockOutcome::Pending => {
                    &&& old(self).data_lock().lock_view().poll(old(acq).ticket(), 1).1 is Pending
                    &&& final(self).data_lock().reader_tickets() == old(self).data_lock().reader_tickets()
                },
            },
    {
        self.data.poll_read(acq)
    }

    /// Gives up a read request made on this lock before it was granted.
    /// Returns the ticket of a task to wake, if the wake-up the request had
    /// received must pass on.
    pub fn cancel_read(&mut self, acq: Acquire) -> (wake: Option<u64>)
        requires
            old(self).wf(),
        ensures
            final(self).wf(),
            final(self).write_lock() == old(self).write_lock(),
            final(self).data_lock().lock_view() == old(self).data_lock().lock_view().cancel(
                acq.ticket(),
            ).0,
            wake == old(self).data_lock().lock_view().cancel(acq.ticket()).1,
            final(self).data_lock().value() == old(self).data_lock().value(),
            final(self).data_lock().reader_limit() == old(self).data_lock().reader_limit(),
            final(self).data_lock().instance() == old(self).data_lock().instance(),
            final(self).data_lock().reader_tickets() == old(self).data_lock().reader_tickets(),
            final(self).data_lock().writer() == old(self).data_lock().writer(),
    {
        self.data.cancel_request(acq)
    }

    /// Gives a read lock back. Returns the ticket of the task to wake: the
    /// first in line not woken yet, if the permits now cover what it asks for.
    pub fn release_read(&mut self, guard: ReadGuard) -> (wake: Option<u64>)
        requires
            old(self).wf(),
            guard.holds(&old(self).data_lock()),
        ensures
            final(self).wf(),
            final(self).write_lock() == old(self).write_lock(),
            final(self).data_lock().lock_view() == old(self).data_lock().lock_view().release(1).0,
            wake == old(self).data_lock().lock_view().release(1).1,
            final(self).data_lock().value() == old(self).data_lock().value(),
            final(self).data_lock().reader_limit() == old(self).data_lock().reader_limit(),
            final(self).data_lock().instance() == old(self).data_lock().instance(),
            final(self).data_lock().reader_tickets() == old(self).data_lock().reader_tickets().remove(guard.ticket()),
            final(self).data_lock().writer() == old(self).data_lock().writer(),
    {
        guard.unlock(&mut self.data)
    }

    /// The write side.
    pub fn written(&self) -> (r: &Mutex<T>)
        ensures
            *r == self.write_lock(),
    {
        &self.write
    }

    /// The write side, to poll requests and use guards on it. The data
    /// side does not change.
    pub fn written_mut(&mut self) -> (r: &mut Mutex<T>)
        ensures
            *r == old(self).write_lock(),
            final(self).write_lock() == *final(r),
            final(self).data_lock() == old(self).data_lock(),
    {
        &mut self.write
    }
}

impl<T> SyncOp<T> {
    /// The sync was not polled yet.
    pub closed spec fn is_start(&self) -> bool {
        self.stage is Start
    }

    /// The sync waits for the lock of the write side.
    pub closed spec fn locking_write(&self) -> bool {
        self.stage is LockingWrite
    }

    /// The sync holds the lock of the write side and waits for the data side.
    pub closed spec fn holds_write(&self) -> bool {
        self.stage is LockingData
    }

    /// The sync holds both sides and has stored the clone.
    pub closed spec fn holding(&self) -> bool {
        self.stage is Holding
    }

    /// The sync completed.
    pub closed spec fn is_finished(&self) -> bool {
        self.stage is Finished
    }

    /// The pending request of the sync: for the write side while it waits
    /// for it, then for the data side.
    pub closed spec fn request(&self) -> Acquire {
        if self.stage is LockingData {
            self.stage->LockingData_2
        } else {
            self.stage->LockingWrite_0
        }
    }

    /// The ticket with which the sync holds the write side.
    pub closed spec fn write_ticket(&self) -> u64 {
        if self.stage is Holding {
            self.stage->Holding_0.ticket()
        } else {
            self.stage->LockingData_0.ticket()
        }
    }

    /// The ticket with which the sync holds the data side.
    pub closed spec fn data_ticket(&self) -> u64 {
        self.stage->Holding_1.ticket()
    }

    /// The clone of the written value that the sync will store, while it
    /// holds the write side.
    pub closed spec fn snapshot(&self) -> T {
        self.stage->LockingData_1
    }

    /// The value that a sync stores a clone of: the one it already cloned,
    /// or else the value of the write side of `lock` now.
    pub open spec fn source_on(&self, lock: &SwapLock<T>) -> T {
        if self.holds_write() {
            self.snapshot()
        } else {
            lock.write_lock().value()
        }
    }

    /// The sync can go on with `lock`: its pending request was made there and
    /// not served yet, and the locks it holds there are held by its tickets.
    pub closed spec fn valid_for(&self, lock: &SwapLock<T>) -> bool {
        match self.stage {
            SyncStage::Start => true,
            SyncStage::LockingWrite(acq) => {
                &&& acq.amount() == 1
                &&& !acq.is_done()
                &&& acq.ticket() < lock.write_lock().lock_view().issued
            },
            SyncStage::LockingData(guard, _, acq) => {
                &&& guard.holds(&lock.write_lock())
                &&& acq.amount() == lock.data_lock().reader_limit()
                &&& !acq.is_done()
                &&& acq.ticket() < lock.data_lock().lock_view().issued
            },
            SyncStage::Holding(guard, data_guard) => {
                &&& guard.holds(&lock.write_lock())
                &&& data_guard.holds(&lock.data_lock())
            },
            SyncStage::Finished => false,
        }
    }

    /// What a poll of this sync on `lock` leads to: the state of the write
    /// side's semaphore, the state of the data side's semaphore, and the
    /// outcome. A sync that has not begun asks for the write side; once that
    /// is granted, it asks for the data side with all its permits; once that
    /// is granted, it holds both.
    pub open spec fn poll_on(&self, lock: &SwapLock<T>) -> (SemaphoreView, SemaphoreView, SyncOutcome) {
        let w = lock.write_lock().lock_view();
        let d = lock.data_lock().lock_view();
        let m = lock.data_lock().reader_limit();
        if self.holds_write() {
            let (d2, o) = d.poll(self.request().ticket(), m);
            (w, d2, if o is Pending {
                SyncOutcome::Pending
            } else {
                SyncOutcome::Stored
            })
        } else {
            let w1 = if self.is_start() {
                w.issue()
            } else {
                w
            };
            let tw = if self.is_start() {
                w.issued as u64
            } else {
                self.request().ticket()
            };
            let (w2, o) = w1.poll(tw, 1);
            if o is Pending {
                (w2, d, SyncOutcome::Pending)
            } else {
                let (d2, o2) = d.issue().poll(d.issued as u64, m);
                (w2, d2, if o2 is Pending {
                    SyncOutcome::Pending
                } else {
                    SyncOutcome::Stored
                })
            }
        }
    }

    /// What giving back the two sides does to `lock`: the state of the write
    /// side's semaphore, the state of the data side's semaphore, and the
    /// tickets to wake, first the one the data side names, then the one the
    /// write side names.
    pub open spec fn finish_on(&self, lock: &SwapLock<T>) -> (
        SemaphoreView,
        SemaphoreView,
        (Option<u64>, Option<u64>),
    ) {
        let w = lock.write_lock().lock_view();
        let d = lock.data_lock().lock_view();
        let m = lock.data_lock().reader_limit();
        (w.release(1).0, d.release(m as nat).0, (d.release(m as nat).1, w.release(1).1))
    }

    /// What giving up this sync on `lock` leads to: the state of the write
    /// side's semaphore, the state of the data side's semaphore, and the
    /// tickets to wake.
    pub open spec fn cancel_on(&self, lock: &SwapLock<T>) -> (
        SemaphoreView,
        SemaphoreView,
        (Option<u64>, Option<u64>),
    ) {
        let w = lock.write_lock().lock_view();
        let d = lock.data_lock().lock_view();
        if self.locking_write() {
            let (w2, wake) = w.cancel(self.request().ticket());
            (w2, d, (None, wake))
        } else if self.holds_write() {
            let (d2, wake) = d.cancel(self.request().ticket());
            (w.release(1).0, d2, (wake, w.release(1).1))
        } else if self.holding() {
            self.finish_on(lock)
        } else {
            (w, d, (None, None))
        }
    }

    /// Finishing a sync gives each side back as unlocking it alone would,
    /// whatever the other side does: the write side ends as its release of
    /// the single permit leaves it, and wakes the task that release names;
    /// the data side ends as its release of all the permits leaves it, and
    /// wakes the task that release names. So a task waiting at the front of
    /// either side, not woken yet, is named, and is then marked woken there.
    pub proof fn lemma_finish_wakes_both_sides(&self, lock: &SwapLock<T>)
        requires
            lock.wf(),
            self.holding(),
            self.valid_for(lock),
        ensures
            self.finish_on(lock).0 == lock.write_lock().lock_view().release(1).0,
            self.finish_on(lock).2.1 == lock.write_lock().lock_view().release(1).1,
            self.finish_on(lock).1 == lock.data_lock().lock_view().release(
                lock.data_lock().reader_limit() as nat,
            ).0,
            self.finish_on(lock).2.0 == lock.data_lock().lock_view().release(
                lock.data_lock().reader_limit() as nat,
            ).1,
            lock.write_lock().lock_view().queue.len() > 0
                && !lock.write_lock().lock_view().queue[0].woken ==> {
                &&& self.finish_on(lock).2.1 == Some(lock.write_lock().lock_view().queue[0].id)
                &&& self.finish_on(lock).0.woken_mark(lock.write_lock().lock_view().queue[0].id)
            },
            lock.data_lock().lock_view().queue.len() > 0
                && !lock.data_lock().lock_view().queue[0].woken ==> {
                &&& self.finish_on(lock).2.0 == Some(lock.data_lock().lock_view().queue[0].id)
                &&& self.finish_on(lock).1.woken_mark(lock.data_lock().lock_view().queue[0].id)
            },
    {
        let w = lock.write_lock().lock_view();
        let d = lock.data_lock().lock_view();
        let m = lock.data_lock().reader_limit();
        lock.write.lemma_accounting();
        lock.data.lemma_accounting();
        lock.data.lemma_exclusive_writer();
        assert(w.permits == 0);
        assert(d.permits == 0);
        lemma_release_names_woken(w, 1);
        lemma_release_names_woken(d, m as nat);
        if w.queue.len() > 0 && !w.queue[0].woken {
            assert(w.queue[0].n == 1);
            lemma_release_wakes_unwoken_front(w, 1);
            assert(w.queued(w.queue[0].id));
        }
        if d.queue.len() > 0 && !d.queue[0].woken {
            assert(d.queue[0].n == 1 || d.queue[0].n == m);
            lemma_release_wakes_unwoken_front(d, m as nat);
            assert(d.queued(d.queue[0].id));
        }
    }

    /// Giving up a sync that holds the write side gives it back as unlocking
    /// it alone would, whatever happens on the data side: the write side ends
    /// as its release of the single permit leaves it, and wakes the task that
    /// release names. So a task waiting at the front of the write side, not
    /// woken yet, is named, and is then marked woken there.
    pub proof fn lemma_cancel_gives_write_side_back(&self, lock: &SwapLock<T>)
        requires
            lock.wf(),
            self.holds_write() || self.holding(),
            self.valid_for(lock),
        ensures
            self.cancel_on(lock).0 == lock.write_lock().lock_view().release(1).0,
            self.cancel_on(lock).2.1 == lock.write_lock().lock_view().release(1).1,
            lock.write_lock().lock_view().queue.len() > 0
                && !lock.write_lock().lock_view().queue[0].woken ==> {
                &&& self.cancel_on(lock).2.1 == Some(lock.write_lock().lock_view().queue[0].id)
                &&& self.cancel_on(lock).0.woken_mark(lock.write_lock().lock_view().queue[0].id)
            },
    {
        let w = lock.write_lock().lock_view();
        lock.write.lemma_accounting();
        assert(w.permits == 0);
        lemma_release_names_woken(w, 1);
        if w.queue.len() > 0 && !w.queue[0].woken {
            assert(w.queue[0].n == 1);
            lemma_release_wakes_unwoken_front(w, 1);
            assert(w.queued(w.queue[0].id));
        }
    }

    /// Giving up a sync that waits for a lock withdraws its request as the
    /// semaphore of that side withdraws it, so that a wake-up the request had
    /// received passes on: waiting for the write side, the write side ends as
    /// that withdrawal leaves it, wakes the task it names, and the data side is
    /// untouched; waiting for the data side, the data side ends as that
    /// withdrawal leaves it and wakes the task it names.
    pub proof fn lemma_cancel_withdraws_request(&self, lock: &SwapLock<T>)
        ensures
            self.locking_write() ==> {
                &&& self.cancel_on(lock).0 == lock.write_lock().lock_view().cancel(
                    self.request().ticket(),
                ).0
                &&& self.cancel_on(lock).1 == lock.data_lock().lock_view()
                &&& self.cancel_on(lock).2 == (
                    None::<u64>,
                    lock.write_lock().lock_view().cancel(self.request().ticket()).1,
                )
            },
            self.holds_write() ==> {
                &&& self.cancel_on(lock).1 == lock.data_lock().lock_view().cancel(
                    self.request().ticket(),
                ).0
                &&& self.cancel_on(lock).2.0 == lock.data_lock().lock_view().cancel(
                    self.request().ticket(),
                ).1
            },
    {
    }

    /// The request the sync waits on, if any: whether it is on the write
    /// side, and its ticket.
    pub fn pending_request(&self) -> (r: Option<(bool, u64)>)
        ensures
            r == if self.locking_write() {
                Some((true, self.request().ticket()))
            } else if self.holds_write() {
                Some((false, self.request().ticket()))
            } else {
                None::<(bool, u64)>
            },
    {
        match &self.stage {
            SyncStage::LockingWrite(acq) => Some((true, acq.id())),
            SyncStage::LockingData(_, _, acq) => Some((false, acq.id())),
            _ => None,
        }
    }

    /// Polls this sync on `lock`, the swap lock that made it. Once it holds
    /// both sides, the data side holds a clone of the written value, and the
    /// sync completes with [`finish`](Self::finish).
    pub fn poll(&mut self, lock: &mut SwapLock<T>) -> (out: SyncOutcome)
        where
            T: Clone,
        requires
            old(lock).wf(),
            old(self).valid_for(old(lock)),
            !old(self).holding(),
            old(lock).write_lock().lock_view().issued < u64::MAX,
            old(lock).data_lock().lock_view().issued < u64::MAX,
        ensures
            final(lock).wf(),
            final(self).valid_for(final(lock)),
            final(lock).write_lock().value() == old(lock).write_lock().value(),
            final(lock).data_lock().reader_limit() == old(lock).data_lock().reader_limit(),
            final(lock).data_lock().instance() == old(lock).data_lock().instance(),
            final(lock).write_lock().instance() == old(lock).write_lock().instance(),
            final(lock).data_lock().reader_tickets() == old(lock).data_lock().reader_tickets(),
            final(lock).write_lock().lock_view() == old(self).poll_on(old(lock)).0,
            final(lock).data_lock().lock_view() == old(self).poll_on(old(lock)).1,
            out == old(self).poll_on(old(lock)).2,
            old(lock).write_lock().holder() is Some && !old(self).holds_write() ==> {
                &&& out is Pending
                &&& !final(self).holds_write()
                &&& final(lock).write_lock().holder() == old(lock).write_lock().holder()
            },
            old(lock).data_lock().readers() >= 1 ==> out is Pending,
            match out {
                SyncOutcome::Stored => {
                    &&& final(self).holding()
                    &&& cloned(old(self).source_on(old(lock)), final(lock).data_lock().value())
                    &&& final(lock).write_lock().holder() == Some(final(self).write_ticket())
                    &&& final(lock).data_lock().writer() == Some(final(self).data_ticket())
                },
                SyncOutcome::Pending => {
                    &&& !final(self).holding()
                    &&& final(lock).data_lock().value() == old(lock).data_lock().value()
                    &&& final(lock).data_lock().writer() == old(lock).data_lock().writer()
                    &&& final(self).holds_write() ==> {
                        &&& final(lock).write_lock().holder() == Some(final(self).write_ticket())
                        &&& if old(self).holds_write() {
                            final(self).snapshot() == old(self).snapshot()
                        } else {
                            cloned(old(lock).write_lock().value(), final(self).snapshot())
                        }
                    }
                    &&& !final(self).holds_write() ==> final(lock).write_lock().holder() == old(lock).write_lock().holder()
                },
            },
    {
        let mut stage = SyncStage::Finished;
        core::mem::swap(&mut stage, &mut self.stage);
        let stage = match stage {
            SyncStage::Start => SyncStage::LockingWrite(lock.write.lock()),
            other => other,
        };
        let stage = match stage {
            SyncStage::LockingWrite(mut acq) => {
                match lock.write.poll_lock(&mut acq) {
                    LockOutcome::Pending => {
                        self.stage = SyncStage::LockingWrite(acq);
                        return SyncOutcome::Pending;
                    },
                    LockOutcome::Locked(guard, _) => {
                        let value = guard.deref(&lock.write).clone();
                        let data_request = lock.data.write();
                        SyncStage::LockingData(guard, value, data_request)
                    },
                }
            },
            other => other,
        };
        match stage {
            SyncStage::LockingData(guard, value, mut data_request) => {
                match lock.data.poll_write(&mut data_request) {
                    LockOutcome::Pending => {
                        self.stage = SyncStage::LockingData(guard, value, data_request);
                        SyncOutcome::Pending
                    },
                    LockOutcome::Locked(data_guard, _) => {
                        *data_guard.deref_mut(&mut lock.data) = value;
                        self.stage = SyncStage::Holding(guard, data_guard);
                        SyncOutcome::Stored
                    },
                }
            },
            other => {
                self.stage = other;
                SyncOutcome::Pending
            },
        }
    }

    /// Completes a sync that holds both sides of `lock`: gives back the data
    /// side, then the write side. Returns the tickets of the tasks to wake,
    /// if any: first the one the data side names, then the one the write
    /// side names.
    pub fn finish(&mut self, lock: &mut SwapLock<T>) -> (wakes: (Option<u64>, Option<u64>))
        requires
            old(lock).wf(),
            old(self).valid_for(old(lock)),
            old(self).holding(),
        ensures
            final(lock).wf(),
            final(self).is_finished(),
            final(lock).write_lock().lock_view() == old(self).finish_on(old(lock)).0,
            final(lock).data_lock().lock_view() == old(self).finish_on(old(lock)).1,
            wakes == old(self).finish_on(old(lock)).2,
            final(lock).write_lock().value() == old(lock).write_lock().value(),
            final(lock).data_lock().value() == old(lock).data_lock().value(),
            final(lock).data_lock().reader_limit() == old(lock).data_lock().reader_limit(),
            final(lock).data_lock().instance() == old(lock).data_lock().instance(),
            final(lock).write_lock().instance() == old(lock).write_lock().instance(),
            final(lock).data_lock().reader_tickets() == old(lock).data_lock().reader_tickets(),
            final(lock).data_lock().writer() is None,
            final(lock).write_lock().holder() is None,
            final(lock).write_lock().lock_view().permits == 1,
            final(lock).data_lock().lock_view().permits == final(lock).data_lock().reader_limit(),
    {
        let mut stage = SyncStage::Finished;
        core::mem::swap(&mut stage, &mut self.stage);
        match stage {
            SyncStage::Holding(guard, data_guard) => {
                proof {
                    lock.data.lemma_exclusive_writer();
                }
                let data_wake = data_guard.unlock(&mut lock.data);
                let write_wake = guard.unlock(&mut lock.write);
                proof {
                    lock.write.lemma_accounting();
                    lock.data.lemma_accounting();
                }
                (data_wake, write_wake)
            },
            _ => (None, None),
        }
    }

    /// Gives up this sync on `lock`, the swap lock that made it: a pending
    /// request is withdrawn, and the locks it holds are given back. Returns
    /// the tickets of the tasks to wake, if any: first the one on the data
    /// side, then the one on the write side.
    pub fn cancel(self, lock: &mut SwapLock<T>) -> (wakes: (Option<u64>, Option<u64>))
        requires
            old(lock).wf(),
            self.valid_for(old(lock)) || self.is_finished(),
        ensures
            final(lock).wf(),
            final(lock).write_lock().value() == old(lock).write_lock().value(),
            final(lock).data_lock().value() == old(lock).data_lock().value(),
            final(lock).data_lock().reader_tickets() == old(lock).data_lock().reader_tickets(),
            final(lock).data_lock().instance() == old(lock).data_lock().instance(),
            final(lock).write_lock().instance() == old(lock).write_lock().instance(),
            final(lock).write_lock().lock_view() == self.cancel_on(old(lock)).0,
            final(lock).data_lock().lock_view() == self.cancel_on(old(lock)).1,
            wakes == self.cancel_on(old(lock)).2,
            self.holds_write() || self.holding() ==> final(lock).write_lock().holder() is None,
            !(self.holds_write() || self.holding()) ==> final(lock).write_lock().holder() == old(lock).write_lock().holder(),
            self.holding() ==> final(lock).data_lock().writer() is None,
            !self.holding() ==> final(lock).data_lock().writer() == old(lock).data_lock().writer(),
            self.is_start() || self.is_finished() ==> *final(lock) == *old(lock),
    {
        match self.stage {
            SyncStage::LockingWrite(acq) => (None, lock.write.cancel_lock(acq)),
            SyncStage::LockingData(guard, _, data_request) => {
                let data_wake = lock.data.cancel_request(data_request);
                let write_wake = guard.unlock(&mut lock.write);
                (data_wake, write_wake)
            },
            SyncStage::Holding(guard, data_guard) => {
                let data_wake = data_guard.unlock(&mut lock.data);
                let write_wake = guard.unlock(&mut lock.write);
                (data_wake, write_wake)
            },
            _ => (None, None),
        }
    }
}

} // verus!
