use vstd::multiset::Multiset;
use vstd::prelude::*;

use crate::mutex::LockOutcome;
use crate::semaphore::{
    lemma_release_wakes_unwoken_front,lemma_steps_keep_asks, Acquire, AcquireOutcome, Semaphore, SemaphoreView};

verus! {

/// An async reader-writer lock.
///
/// This lock allows `max_readers` readers at once, or one writer: a read
/// takes one of `max_readers` semaphore permits, a write takes all of them.
/// Requests are served in the order in which they are made, so readers that
/// come later cannot starve a waiting writer.
pub struct RwLock<T> {
    data: T,
    semaphore: Semaphore,
    max_readers: usize,
    readers: Ghost<Multiset<u64>>,
    writer: Ghost<Option<u64>>,
    instance: Ghost<int>,
}

/// The right to read the data of an [`RwLock`], held from a granted read
/// until [`unlock`](Self::unlock).
pub struct ReadGuard {
    id: u64,
    lock: Ghost<int>,
}

/// The right to read and write the data of an [`RwLock`], held from a
/// granted write until [`unlock`](Self::unlock).
pub struct WriteGuard {
    id: u64,
    lock: Ghost<int>,
}

impl<T> RwLock<T> {
    /// At least one reader is allowed; the free permits and those the
    /// holders took make up `max_readers`; and every task in line asks for
    /// one permit (a read) or all of them (a write).
    pub closed spec fn wf(&self) -> bool {
        &&& self.semaphore@.wf()
        &&& self.max_readers >= 1
        &&& self.semaphore@.permits + self.held_permits() == self.max_readers
        &&& self.semaphore@.asks_within(1, self.max_readers as nat)
    }

    /// The protected data.
    pub closed spec fn value(&self) -> T {
        self.data
    }

    /// The state of the semaphore that guards the data.
    pub closed spec fn lock_view(&self) -> SemaphoreView {
        self.semaphore@
    }

    /// The number of readers allowed at once.
    pub closed spec fn reader_limit(&self) -> usize {
        self.max_readers
    }

    /// The identity of this lock: fixed when it is made, kept by every step,
    /// and carried by the guards it grants. Nothing relates the identities of
    /// two locks made apart.
    pub closed spec fn instance(&self) -> int {
        self.instance@
    }

    /// The tickets of the read locks held.
    pub closed spec fn reader_tickets(&self) -> Multiset<u64> {
        self.readers@
    }

    /// The ticket of the write lock held, if any.
    pub closed spec fn writer(&self) -> Option<u64> {
        self.writer@
    }

    /// How many read locks are held.
    pub open spec fn readers(&self) -> nat {
        self.reader_tickets().len()
    }

    /// How many write locks are held.
    pub open spec fn writers(&self) -> nat {
        if self.writer() is Some {
            1
        } else {
            0
        }
    }

    /// The permits the holders took: one per reader, all of them for a writer.
    pub open spec fn held_permits(&self) -> nat {
        self.readers() + if self.writer() is Some {
            self.reader_limit() as nat
        } else {
            0
        }
    }

    /// The accounting of a well-formed lock.
    pub proof fn lemma_accounting(&self)
        requires
            self.wf(),
        ensures
            self.lock_view().wf(),
            self.reader_limit() >= 1,
            self.lock_view().permits + self.held_permits() == self.reader_limit(),
            self.lock_view().asks_within(1, self.reader_limit() as nat),
    {
    }

    /// A writer holds the lock alone, and there are never more readers than allowed.
    pub proof fn lemma_exclusive_writer(&self)
        requires
            self.wf(),
        ensures
            self.writers() <= 1,
            self.writer() is Some ==> self.readers() == 0 && self.lock_view().permits == 0,
            self.readers() <= self.reader_limit(),
    {
    }

    /// While a guard holds the write lock, no guard holds a read lock and no
    /// other guard holds the write lock.
    pub proof fn lemma_writer_holds_alone(&self, w: &WriteGuard, other: &WriteGuard, r: &ReadGuard)
        requires
            self.wf(),
            w.holds(self),
        ensures
            !r.holds(self),
            other.holds(self) ==> other.ticket() == w.ticket(),
    {
        broadcast use vstd::multiset::group_multiset_axioms;

        if self.reader_tickets().count(r.ticket()) > 0 {
            assert(self.reader_tickets().len() > 0);
        }
    }

    /// While a guard holds a read lock, no writer holds the lock, so the data
    /// cannot change under the reader.
    pub proof fn lemma_reader_sees_no_writer(&self, r: &ReadGuard)
        requires
            self.wf(),
            r.holds(self),
        ensures
            self.writer() is None,
    {
        broadcast use vstd::multiset::group_multiset_axioms;

        assert(self.reader_tickets().len() > 0);
    }

    /// Creates a new [`RwLock`] with the given data, allowing any number of readers.
    pub fn new(data: T) -> (l: Self)
        ensures
            l.wf(),
            l.value() == data,
            l.reader_limit() == usize::MAX,
            l.lock_view() == SemaphoreView::fresh(usize::MAX as nat),
            l.reader_tickets() =~= Multiset::empty(),
            l.writer() is None,
    {
        Self::with_max_readers(data, usize::MAX)
    }

    /// Creates a new [`RwLock`] with the given data and maximum number of
    /// readers, of which there must be at least one.
    pub fn with_max_readers(data: T, max_readers: usize) -> (l: Self)
        requires
            max_readers >= 1,
        ensures
            l.wf(),
            l.value() == data,
            l.reader_limit() == max_readers,
            l.lock_view() == SemaphoreView::fresh(max_readers as nat),
            l.reader_tickets() =~= Multiset::empty(),
            l.writer() is None,
    {
        proof {
            broadcast use vstd::multiset::group_multiset_axioms;

        }
        RwLock {
            data,
            semaphore: Semaphore::new(max_readers),
            max_readers,
            readers: Ghost(Multiset::empty()),
            writer: Ghost(None),
            instance: Ghost(vstd::pervasive::arbitrary()),
        }
    }

    /// Returns the maximum number of readers.
    pub fn max_readers(&self) -> (r: usize)
        ensures
            r == self.reader_limit(),
    {
        self.max_readers
    }

    /// Returns how many tickets the semaphore has handed out.
    pub fn tickets_issued(&self) -> (r: u64)
        ensures
            r == self.lock_view().issued,
    {
        self.semaphore.tickets_issued()
    }

    /// Asks for a read lock: a request for one permit.
    pub fn read(&mut self) -> (acq: Acquire)
        requires
            old(self).wf(),
            old(self).lock_view().issued < u64::MAX,
        ensures
            final(self).wf(),
            final(self).lock_view() == old(self).lock_view().issue(),
            final(self).value() == old(self).value(),
            final(self).reader_limit() == old(self).reader_limit(),
            final(self).reader_tickets() == old(self).reader_tickets(),
            final(self).writer() == old(self).writer(),
            final(self).instance() == old(self).instance(),
            acq.ticket() == old(self).lock_view().issued,
            acq.amount() == 1,
            !acq.is_done(),
    {
        proof {
            lemma_steps_keep_asks(self.semaphore@, 1, self.max_readers as nat, 0, 1, 0, 0);
        }
        self.semaphore.acquire(1)
    }

    /// Asks for a write lock: a request for all `max_readers` permits.
    pub fn write(&mut self) -> (acq: Acquire)
        requires
            old(self).wf(),
            old(self).lock_view().issued < u64::MAX,
        ensures
            final(self).wf(),
            final(self).lock_view() == old(self).lock_view().issue(),
            final(self).value() == old(self).value(),
            final(self).reader_limit() == old(self).reader_limit(),
            final(self).reader_tickets() == old(self).reader_tickets(),
            final(self).writer() == old(self).writer(),
            final(self).instance() == old(self).instance(),
            acq.ticket() == old(self).lock_view().issued,
            acq.amount() == old(self).reader_limit(),
            !acq.is_done(),
    {
        proof {
            lemma_steps_keep_asks(self.semaphore@, 1, self.max_readers as nat, 0, 1, 0, 0);
        }
        self.semaphore.acquire(self.max_readers)
    }

    /// Polls a read request made by [`read`](Self::read) on this lock and not
    /// served yet. While a writer holds the lock, or someone is in line ahead
    /// of it, the request stays pending.
    pub fn poll_read(&mut self, acq: &mut Acquire) -> (out: LockOutcome<ReadGuard>)
        requires
            old(self).wf(),
            old(acq).amount() == 1,
            !old(acq).is_done(),
            old(acq).ticket() < old(self).lock_view().issued,
        ensures
            final(self).wf(),
            final(self).lock_view() == old(self).lock_view().poll(old(acq).ticket(), 1).0,
            final(self).value() == old(self).value(),
            final(self).reader_limit() == old(self).reader_limit(),
            final(self).writer() == old(self).writer(),
            final(self).instance() == old(self).instance(),
            final(acq).ticket() == old(acq).ticket(),
            final(acq).amount() == 1,
            final(acq).is_done() == (out is Locked),
            match out {
                LockOutcome::Locked(guard, wake) => {
                    &&& old(self).lock_view().poll(old(acq).ticket(), 1).1 == AcquireOutcome::Ready(
                        wake,
                    )
                    &&& final(self).reader_tickets() == old(self).reader_tickets().insert(
                        old(acq).ticket(),
                    )
                    &&& guard.ticket() == old(acq).ticket()
                    &&& guard.lock_instance() == old(self).instance()
                },
                LockOutcome::Pending => {
                    &&& old(self).lock_view().poll(old(acq).ticket(), 1).1 is Pending
                    &&& final(self).reader_tickets() == old(self).reader_tickets()
                },
            },
            old(self).writer() is Some ==> out is Pending,
    {
        proof {
            lemma_steps_keep_asks(
                self.semaphore@,
                1,
                self.max_readers as nat,
                acq.ticket(),
                1,
                0,
                0,
            );
        }
        match acq.poll(&mut self.semaphore) {
            AcquireOutcome::Ready(wake) => {
                proof {
                    broadcast use vstd::multiset::group_multiset_axioms;

                    self.readers@ = self.readers@.insert(acq.ticket());
                }
                LockOutcome::Locked(ReadGuard { id: acq.id(), lock: Ghost(self.instance@) }, wake)
            },
            AcquireOutcome::Pending => LockOutcome::Pending,
        }
    }

    /// Polls a write request made by [`write`](Self::write) on this lock and
    /// not served yet. While any lock is held, the request stays pending.
    pub fn poll_write(&mut self, acq: &mut Acquire) -> (out: LockOutcome<WriteGuard>)
        requires
            old(self).wf(),
            old(acq).amount() == old(self).reader_limit(),
            !old(acq).is_done(),
            old(acq).ticket() < old(self).lock_view().issued,
        ensures
            final(self).wf(),
            final(self).lock_view() == old(self).lock_view().poll(
                old(acq).ticket(),
                old(self).reader_limit(),
            ).0,
            final(self).value() == old(self).value(),
            final(self).reader_limit() == old(self).reader_limit(),
            final(self).reader_tickets() == old(self).reader_tickets(),
            final(self).instance() == old(self).instance(),
            final(acq).ticket() == old(acq).ticket(),
            final(acq).amount() == old(acq).amount(),
            final(acq).is_done() == (out is Locked),
            match out {
                LockOutcome::Locked(guard, wake) => {
                    &&& old(self).lock_view().poll(old(acq).ticket(), old(self).reader_limit()).1
                        == AcquireOutcome::Ready(wake)
                    &&& old(self).writer() is None
                    &&& final(self).writer() == Some(old(acq).ticket())
                    &&& guard.ticket() == old(acq).ticket()
                    &&& guard.lock_instance() == old(self).instance()
                    &&& wake is None
                },
                LockOutcome::Pending => {
                    &&& old(self).lock_view().poll(
                        old(acq).ticket(),
                        old(self).reader_limit(),
                    ).1 is Pending
                    &&& final(self).writer() == old(self).writer()
                },
            },
            old(self).readers() >= 1 || old(self).writer() is Some ==> out is Pending,
    {
        proof {
            lemma_steps_keep_asks(
                self.semaphore@,
                1,
                self.max_readers as nat,
                acq.ticket(),
                self.max_readers,
                0,
                0,
            );
        }
        match acq.poll(&mut self.semaphore) {
            AcquireOutcome::Ready(wake) => {
                proof {
                    self.writer@ = Some(acq.ticket());
                }
                LockOutcome::Locked(WriteGuard { id: acq.id(), lock: Ghost(self.instance@) }, wake)
            },
            AcquireOutcome::Pending => LockOutcome::Pending,
        }
    }

    /// Gives up a read or write request made on this lock before it was
    /// served. Returns the ticket of a task to wake, if the request had been
    /// woken: the wake-up passes on to the first task in line not woken yet.
    pub fn cancel_request(&mut self, acq: Acquire) -> (wake: Option<u64>)
        requires
            old(self).wf(),
        ensures
            final(self).wf(),
            final(self).lock_view() == old(self).lock_view().cancel(acq.ticket()).0,
            wake == old(self).lock_view().cancel(acq.ticket()).1,
            final(self).reader_tickets() == old(self).reader_tickets(),
            final(self).writer() == old(self).writer(),
            final(self).reader_limit() == old(self).reader_limit(),
            final(self).value() == old(self).value(),
            final(self).instance() == old(self).instance(),
    {
        proof {
            lemma_steps_keep_asks(
                self.semaphore@,
                1,
                self.max_readers as nat,
                acq.ticket(),
                1,
                0,
                0,
            );
        }
        acq.cancel(&mut self.semaphore)
    }
}

impl ReadGuard {
    /// The ticket of the request that was granted this read lock.
    pub closed spec fn ticket(&self) -> u64 {
        self.id
    }

    /// The identity of the lock that granted this read lock.
    pub closed spec fn lock_instance(&self) -> int {
        self.lock@
    }

    /// This guard holds a read lock of `rwlock`.
    pub open spec fn holds<T>(&self, rwlock: &RwLock<T>) -> bool {
        self.lock_instance() == rwlock.instance() && rwlock.reader_tickets().count(self.ticket())
            > 0
    }

    /// The ticket of the request that was granted this read lock.
    pub fn id(&self) -> (r: u64)
        ensures
            r == self.ticket(),
    {
        self.id
    }

    /// Reads the data of `rwlock`, whose read lock this guard holds.
    pub fn deref<'a, T>(&self, rwlock: &'a RwLock<T>) -> (r: &'a T)
        requires
            self.holds(rwlock),
        ensures
            *r == rwlock.value(),
    {
        &rwlock.data
    }

    /// Gives the read lock of `rwlock`, which this guard holds, back.
    /// Returns the ticket of the task to wake: the first in line not woken
    /// yet, if the permits now cover what it asks for.
    pub fn unlock<T>(self, rwlock: &mut RwLock<T>) -> (wake: Option<u64>)
        requires
            old(rwlock).wf(),
            self.holds(old(rwlock)),
        ensures
            final(rwlock).wf(),
            final(rwlock).lock_view() == old(rwlock).lock_view().release(1).0,
            wake == old(rwlock).lock_view().release(1).1,
            final(rwlock).reader_tickets() == old(rwlock).reader_tickets().remove(self.ticket()),
            final(rwlock).writer() == old(rwlock).writer(),
            final(rwlock).reader_limit() == old(rwlock).reader_limit(),
            final(rwlock).instance() == old(rwlock).instance(),
            final(rwlock).value() == old(rwlock).value(),
    {
        proof {
            broadcast use vstd::multiset::group_multiset_axioms;

            lemma_steps_keep_asks(rwlock.semaphore@, 1, rwlock.max_readers as nat, 0, 1, 1, 0);
        }
        let wake = rwlock.semaphore.release(1);
        proof {
            broadcast use vstd::multiset::group_multiset_axioms;

            rwlock.readers@ = rwlock.readers@.remove(self.id);
        }
        wake
    }
}

impl WriteGuard {
    /// The ticket of the request that was granted this write lock.
    pub closed spec fn ticket(&self) -> u64 {
        self.id
    }

    /// The identity of the lock that granted this write lock.
    pub closed spec fn lock_instance(&self) -> int {
        self.lock@
    }

    /// This guard holds the write lock of `rwlock`.
    pub open spec fn holds<T>(&self, rwlock: &RwLock<T>) -> bool {
        self.lock_instance() == rwlock.instance() && rwlock.writer() == Some(self.ticket())
    }

    /// The ticket of the request that was granted this write lock.
    pub fn id(&self) -> (r: u64)
        ensures
            r == self.ticket(),
    {
        self.id
    }

    /// Reads the data of `rwlock`, whose write lock this guard holds.
    pub fn deref<'a, T>(&self, rwlock: &'a RwLock<T>) -> (r: &'a T)
        requires
            self.holds(rwlock),
        ensures
            *r == rwlock.value(),
    {
        &rwlock.data
    }

    /// Gives mutable access to the data of `rwlock`, whose write lock this
    /// guard holds.
    pub fn deref_mut<'a, T>(&self, rwlock: &'a mut RwLock<T>) -> (r: &'a mut T)
        requires
            self.holds(old(rwlock)),
        ensures
            *r == old(rwlock).value(),
            final(rwlock).value() == *final(r),
            final(rwlock).lock_view() == old(rwlock).lock_view(),
            final(rwlock).reader_limit() == old(rwlock).reader_limit(),
            final(rwlock).reader_tickets() == old(rwlock).reader_tickets(),
            final(rwlock).writer() == old(rwlock).writer(),
            final(rwlock).instance() == old(rwlock).instance(),
            old(rwlock).wf() ==> final(rwlock).wf(),
    {
        &mut rwlock.data
    }

    /// Gives the write lock of `rwlock`, which this guard holds, back: all
    /// `max_readers` permits return. Returns the ticket of the task to wake:
    /// the first in line not woken yet, if any.
    pub fn unlock<T>(self, rwlock: &mut RwLock<T>) -> (wake: Option<u64>)
        requires
            old(rwlock).wf(),
            self.holds(old(rwlock)),
        ensures
            final(rwlock).wf(),
            final(rwlock).lock_view() == old(rwlock).lock_view().release(
                old(rwlock).reader_limit() as nat,
            ).0,
            wake == old(rwlock).lock_view().release(old(rwlock).reader_limit() as nat).1,
            final(rwlock).writer() is None,
            final(rwlock).instance() == old(rwlock).instance(),
            final(rwlock).reader_tickets() == old(rwlock).reader_tickets(),
            final(rwlock).reader_limit() == old(rwlock).reader_limit(),
            final(rwlock).value() == old(rwlock).value(),
            old(rwlock).lock_view().queue.len() > 0 && !old(rwlock).lock_view().queue[0].woken ==> wake
                == Some(old(rwlock).lock_view().queue[0].id),
    {
        proof {
            lemma_steps_keep_asks(
                rwlock.semaphore@,
                1,
                rwlock.max_readers as nat,
                0,
                1,
                rwlock.max_readers as nat,
                0,
            );
            rwlock.lemma_exclusive_writer();
        }
        proof {
            if rwlock.semaphore@.queue.len() > 0 && !rwlock.semaphore@.queue[0].woken {
                assert(rwlock.semaphore@.queue[0].n == 1 || rwlock.semaphore@.queue[0].n
                    == rwlock.max_readers);
                lemma_release_wakes_unwoken_front(rwlock.semaphore@, rwlock.max_readers as nat);
            }
        }
        let wake = rwlock.semaphore.release(rwlock.max_readers);
        proof {
            rwlock.writer@ = None;
        }
        wake
    }
}

} // verus!
