use vstd::prelude::*;

use crate::semaphore::{
    lemma_release_wakes_unwoken_front,
    lemma_steps_keep_asks, Acquire, AcquireOutcome, Semaphore, SemaphoreView,
};

verus! {

/// What polling a lock request gives back.
pub enum LockOutcome<G> {
    /// The lock was taken and is held through the guard. If a ticket is
    /// given, that task was woken to try its luck with the permits left
    /// over.
    Locked(G, Option<u64>),
    /// The lock is not available yet; the task waits in line.
    Pending,
}

/// An async mutex: one semaphore permit, which a lock takes and an unlock
/// gives back, guards the data.
///
/// A lock is asked for with [`lock`](Self::lock) and the request is polled
/// with [`poll_lock`](Self::poll_lock); the [`Guard`] it yields gives access
/// to the data and gives the lock back with [`Guard::unlock`]. Only a guard
/// of this mutex whose ticket holds the lock may use it.
pub struct Mutex<T> {
    data: T,
    semaphore: Semaphore,
    holder: Ghost<Option<u64>>,
    instance: Ghost<int>,
}

/// The right to the data of a [`Mutex`], held from a granted lock until
/// [`unlock`](Self::unlock).
pub struct Guard {
    id: u64,
    lock: Ghost<int>,
}

impl<T> Mutex<T> {
    /// The permit and the lock account for each other: the single permit is
    /// either in the semaphore or with the holder of the lock; and every task
    /// in line asks for that one permit.
    pub closed spec fn wf(&self) -> bool {
        &&& self.semaphore@.wf()
        &&& self.semaphore@.permits + self.holders() == 1
        &&& self.semaphore@.asks_within(1, 1)
    }

    /// The protected data.
    pub closed spec fn value(&self) -> T {
        self.data
    }

    /// The state of the semaphore that guards the data.
    pub closed spec fn lock_view(&self) -> SemaphoreView {
        self.semaphore@
    }

    /// The identity of this mutex: fixed when it is made, kept by every
    /// step, and carried by the guards it grants. Nothing relates the
    /// identities of two mutexes made apart.
    pub closed spec fn instance(&self) -> int {
        self.instance@
    }

    /// The ticket of the request that holds the lock, if any.
    pub closed spec fn holder(&self) -> Option<u64> {
        self.holder@
    }

    /// How many locks are held.
    pub open spec fn holders(&self) -> nat {
        if self.holder() is Some {
            1
        } else {
            0
        }
    }

    /// The accounting of a well-formed mutex: its semaphore is well formed,
    /// the permit is either free or held, and every task in line asks for
    /// the one permit.
    pub proof fn lemma_accounting(&self)
        requires
            self.wf(),
        ensures
            self.lock_view().wf(),
            self.lock_view().permits + self.holders() == 1,
            self.lock_view().asks_within(1, 1),
    {
    }

    /// At most one lock is held at a time, and it is held exactly when the
    /// semaphore has no permit left.
    pub proof fn lemma_mutual_exclusion(&self)
        requires
            self.wf(),
        ensures
            self.holders() <= 1,
            self.holder() is Some <==> self.lock_view().permits == 0,
    {
    }

    /// Two guards that hold the lock of this mutex hold it with the same
    /// ticket: there is one holder at a time.
    pub proof fn lemma_one_holder(&self, a: &Guard, b: &Guard)
        requires
            a.holds(self),
            b.holds(self),
        ensures
            a.ticket() == b.ticket(),
    {
    }

    /// Creates a new [`Mutex`] with the given data.
    pub fn new(data: T) -> (m: Self)
        ensures
            m.wf(),
            m.value() == data,
            m.lock_view() == SemaphoreView::fresh(1),
            m.holder() is None,
    {
        Mutex {
            data,
            semaphore: Semaphore::new(1),
            holder: Ghost(None),
            instance: Ghost(vstd::pervasive::arbitrary()),
        }
    }

    /// Returns how many tickets the semaphore has handed out.
    pub fn tickets_issued(&self) -> (r: u64)
        ensures
            r == self.lock_view().issued,
    {
        self.semaphore.tickets_issued()
    }

    /// Asks for the lock: a request for the one permit.
    pub fn lock(&mut self) -> (acq: Acquire)
        requires
            old(self).wf(),
            old(self).lock_view().issued < u64::MAX,
        ensures
            final(self).wf(),
            final(self).lock_view() == old(self).lock_view().issue(),
            final(self).value() == old(self).value(),
            final(self).holder() == old(self).holder(),
            final(self).instance() == old(self).instance(),
            acq.ticket() == old(self).lock_view().issued,
            acq.amount() == 1,
            !acq.is_done(),
    {
        proof {
            lemma_steps_keep_asks(self.semaphore@, 1, 1, 0, 1, 0, 0);
        }
        self.semaphore.acquire(1)
    }

    /// Polls a lock request made by [`lock`](Self::lock) on this mutex and
    /// not served yet. While the lock is held, the request stays pending.
    pub fn poll_lock(&mut self, acq: &mut Acquire) -> (out: LockOutcome<Guard>)
        requires
            old(self).wf(),
            old(acq).amount() == 1,
            !old(acq).is_done(),
            old(acq).ticket() < old(self).lock_view().issued,
        ensures
            final(self).wf(),
            final(self).lock_view() == old(self).lock_view().poll(old(acq).ticket(), 1).0,
            final(self).value() == old(self).value(),
            final(self).instance() == old(self).instance(),
            final(acq).ticket() == old(acq).ticket(),
            final(acq).amount() == 1,
            final(acq).is_done() == (out is Locked),
            match out {
                LockOutcome::Locked(guard, wake) => {
                    &&& old(self).lock_view().poll(old(acq).ticket(), 1).1 == AcquireOutcome::Ready(
                        wake,
                    )
                    &&& old(self).holder() is None
                    &&& final(self).holder() == Some(old(acq).ticket())
                    &&& guard.ticket() == old(acq).ticket()
                    &&& guard.lock_instance() == old(self).instance()
                    &&& wake is None
                },
                LockOutcome::Pending => {
                    &&& old(self).lock_view().poll(old(acq).ticket(), 1).1 is Pending
                    &&& final(self).holder() == old(self).holder()
                },
            },
            old(self).holder() is Some ==> out is Pending,
    {
        proof {
            lemma_steps_keep_asks(self.semaphore@, 1, 1, acq.ticket(), 1, 0, 0);
        }
        match acq.poll(&mut self.semaphore) {
            AcquireOutcome::Ready(wake) => {
                proof {
                    self.holder@ = Some(acq.ticket());
                }
                LockOutcome::Locked(Guard { id: acq.id(), lock: Ghost(self.instance@) }, wake)
            },
            AcquireOutcome::Pending => LockOutcome::Pending,
        }
    }

    /// Gives up a lock request made by [`lock`](Self::lock) on this mutex
    /// before it was served. Returns the ticket of a task to wake, if the
    /// request had been woken: the wake-up passes on to the first task in line
    /// not woken yet.
    pub fn cancel_lock(&mut self, acq: Acquire) -> (wake: Option<u64>)
        requires
            old(self).wf(),
        ensures
            final(self).wf(),
            final(self).lock_view() == old(self).lock_view().cancel(acq.ticket()).0,
            wake == old(self).lock_view().cancel(acq.ticket()).1,
            final(self).holder() == old(self).holder(),
            final(self).value() == old(self).value(),
            final(self).instance() == old(self).instance(),
    {
        proof {
            lemma_steps_keep_asks(self.semaphore@, 1, 1, acq.ticket(), 1, 0, 0);
        }
        acq.cancel(&mut self.semaphore)
    }
}

impl Guard {
    /// The ticket of the request that was granted this lock.
    pub closed spec fn ticket(&self) -> u64 {
        self.id
    }

    /// The identity of the mutex that granted this lock.
    pub closed spec fn lock_instance(&self) -> int {
        self.lock@
    }

    /// This guard holds the lock of `mutex`.
    pub open spec fn holds<T>(&self, mutex: &Mutex<T>) -> bool {
        self.lock_instance() == mutex.instance() && mutex.holder() == Some(self.ticket())
    }

    /// The ticket of the request that was granted this lock.
    pub fn id(&self) -> (r: u64)
        ensures
            r == self.ticket(),
    {
        self.id
    }

    /// Reads the data of `mutex`, whose lock this guard holds.
    pub fn deref<'a, T>(&self, mutex: &'a Mutex<T>) -> (r: &'a T)
        requires
            self.holds(mutex),
        ensures
            *r == mutex.value(),
    {
        &mutex.data
    }

    /// Gives mutable access to the data of `mutex`, whose lock this guard holds.
    pub fn deref_mut<'a, T>(&self, mutex: &'a mut Mutex<T>) -> (r: &'a mut T)
        requires
            self.holds(old(mutex)),
        ensures
            *r == old(mutex).value(),
            final(mutex).value() == *final(r),
            final(mutex).lock_view() == old(mutex).lock_view(),
            final(mutex).holder() == old(mutex).holder(),
            final(mutex).instance() == old(mutex).instance(),
            old(mutex).wf() ==> final(mutex).wf(),
    {
        &mut mutex.data
    }

    /// Gives the lock of `mutex`, which this guard holds, back. Returns the
    /// ticket of the task to wake: the first in line not woken yet, if any.
    pub fn unlock<T>(self, mutex: &mut Mutex<T>) -> (wake: Option<u64>)
        requires
            old(mutex).wf(),
            self.holds(old(mutex)),
        ensures
            final(mutex).wf(),
            final(mutex).lock_view() == old(mutex).lock_view().release(1).0,
            wake == old(mutex).lock_view().release(1).1,
            final(mutex).holder() is None,
            final(mutex).instance() == old(mutex).instance(),
            final(mutex).value() == old(mutex).value(),
            old(mutex).lock_view().queue.len() > 0 && !old(mutex).lock_view().queue[0].woken ==> wake
                == Some(old(mutex).lock_view().queue[0].id),
    {
        proof {
            lemma_steps_keep_asks(mutex.semaphore@, 1, 1, 0, 1, 1, 0);
        }
        proof {
            if mutex.semaphore@.queue.len() > 0 && !mutex.semaphore@.queue[0].woken {
                lemma_release_wakes_unwoken_front(mutex.semaphore@, 1);
            }
        }
        let wake = mutex.semaphore.release(1);
        proof {
            mutex.holder@ = None;
        }
        wake
    }
}

} // verus!
