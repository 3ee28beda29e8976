use vstd::prelude::*;

use crate::semaphore::{
    lemma_release_for_all_grants_all, lemma_steps_keep_asks, lemma_steps_keep_wf, tickets,
    wake_chain, Acquire, AcquireOutcome, Semaphore, SemaphoreView,
};

verus! {

/// A condition variable.
///
/// Tasks wait until they are notified, and are not served otherwise. A
/// notification is never kept for a task that is not waiting yet. Each
/// waiting task asks a semaphore that starts empty for one permit, and a
/// notification releases one permit per waiting task it notifies.
pub struct Condvar {
    semaphore: Semaphore,
    num_waiters: usize,
}

/// A task's wait on a [`Condvar`], made by [`Condvar::wait`]. Nothing
/// happens until it is first polled; it is driven by [`poll`](Self::poll)
/// until it is ready, or given up with [`cancel`](Self::cancel).
pub struct Wait {
    request: Option<Acquire>,
}

impl Condvar {
    /// The semaphore started empty; every task in line asks for one permit;
    /// and each task in line is either waiting for a notification or has one
    /// waiting for it as a free permit.
    pub closed spec fn wf(&self) -> bool {
        &&& self.semaphore@.wf()
        &&& self.semaphore@.asks_within(1, 1)
        &&& self.semaphore@.initial == 0
        &&& self.semaphore@.queue.len() == self.num_waiters + self.semaphore@.permits
    }

    /// The state of the semaphore the waiting tasks queue on.
    pub closed spec fn lock_view(&self) -> SemaphoreView {
        self.semaphore@
    }

    /// The number of waiting tasks not notified yet.
    pub closed spec fn waiters(&self) -> nat {
        self.num_waiters as nat
    }

    /// The accounting of a well-formed condition variable: the tasks in line
    /// are those not notified yet and those whose notification waits for
    /// them as a free permit; and the permits released by notifications are
    /// the permits the woken tasks took, plus those still free, plus those
    /// that went away with tasks that gave up.
    pub proof fn lemma_accounting(&self)
        requires
            self.wf(),
        ensures
            self.lock_view().wf(),
            self.lock_view().asks_within(1, 1),
            self.lock_view().initial == 0,
            self.lock_view().queue.len() == self.waiters() + self.lock_view().permits,
            self.lock_view().released == self.lock_view().granted + self.lock_view().permits
                + self.lock_view().forgotten,
    {
    }

    /// No wait is served without a notification: the waits served never
    /// outnumber the notifications, and with nobody in line no permit is free.
    pub proof fn lemma_no_spurious_wakeup(&self)
        requires
            self.wf(),
        ensures
            self.lock_view().granted <= self.lock_view().released,
            self.lock_view().queue.len() == 0 ==> self.lock_view().permits == 0
                && self.waiters() == 0,
    {
    }

    /// When no notification is pending and no waiting task was woken, a
    /// notification of all the waiting tasks wakes the first; then, as each woken task is served and wakes
    /// the next, every waiting task is served, in the order in which they
    /// began to wait.
    pub proof fn lemma_notify_all_wakes_every_waiter(&self)
        requires
            self.wf(),
            self.lock_view().permits == 0,
            self.waiters() > 0,
            forall|i: int|
                0 <= i < self.lock_view().queue.len() ==> !(#[trigger] self.lock_view().queue[i]).woken,
        ensures
            self.lock_view().release(self.waiters()).1 == Some(self.lock_view().queue[0].id),
            wake_chain(
                self.lock_view().release(self.waiters()).0,
                self.lock_view().queue[0].id,
                self.waiters(),
            ) == tickets(self.lock_view().queue),
    {
        let s = self.semaphore@;
        assert forall|i: int| 0 <= i < s.queue.len() implies (#[trigger] s.queue[i]).n == 1 by {}
        lemma_release_for_all_grants_all(s);
    }

    /// Creates a new [`Condvar`].
    pub fn new() -> (c: Self)
        ensures
            c.wf(),
            c.lock_view() == SemaphoreView::fresh(0),
            c.waiters() == 0,
    {
        Condvar { semaphore: Semaphore::new(0), num_waiters: 0 }
    }

    /// Returns the number of waiting tasks not notified yet.
    pub fn num_waiters(&self) -> (r: usize)
        ensures
            r == self.waiters(),
    {
        self.num_waiters
    }

    /// Returns the number of notifications not yet taken by the woken tasks.
    pub fn remaining(&self) -> (r: usize)
        ensures
            r == self.lock_view().permits,
    {
        self.semaphore.remaining()
    }

    /// Returns how many tickets the semaphore has handed out.
    pub fn tickets_issued(&self) -> (r: u64)
        ensures
            r == self.lock_view().issued,
    {
        self.semaphore.tickets_issued()
    }

    /// Returns whether the task with ticket `id` waits in line.
    pub fn is_queued(&self, id: u64) -> (r: bool)
        ensures
            r == self.lock_view().queued(id),
    {
        self.semaphore.is_queued(id)
    }

    /// Makes a wait on this condition variable. It begins when first polled.
    pub fn wait(&self) -> (w: Wait)
        ensures
            !w.started(),
            w.wf(),
    {
        Wait { request: None }
    }

    /// Notifies a single task waiting on this condition variable: if a task
    /// waits without a notification, one permit is released for it.
    /// Returns the ticket of the task to wake, if any.
    pub fn notify_one(&mut self) -> (wake: Option<u64>)
        requires
            old(self).wf(),
        ensures
            final(self).wf(),
            old(self).waiters() > 0 ==> {
                &&& final(self).waiters() == old(self).waiters() - 1
                &&& final(self).lock_view() == old(self).lock_view().release(1).0
                &&& wake == old(self).lock_view().release(1).1
            },
            old(self).waiters() == 0 ==> {
                &&& final(self).waiters() == 0
                &&& final(self).lock_view() == old(self).lock_view()
                &&& wake is None
            },
    {
        if self.num_waiters > 0 {
            let line = self.semaphore.waiting();
            assert(line == self.semaphore@.queue.len());
            self.num_waiters = self.num_waiters - 1;
            proof {
                lemma_steps_keep_asks(self.semaphore@, 1, 1, 0, 1, 1, 0);
            }
            self.semaphore.release(1)
        } else {
            None
        }
    }

    /// Notifies all tasks waiting on this condition variable: one permit is
    /// released for each task waiting without a notification. Returns the
    /// ticket of the task to wake, if any; each task that then takes its
    /// permit wakes the next in line while permits are left.
    pub fn notify_all(&mut self) -> (wake: Option<u64>)
        requires
            old(self).wf(),
        ensures
            final(self).wf(),
            final(self).waiters() == 0,
            old(self).waiters() > 0 ==> {
                &&& final(self).lock_view() == old(self).lock_view().release(old(self).waiters()).0
                &&& wake == old(self).lock_view().release(old(self).waiters()).1
            },
            old(self).waiters() == 0 ==> {
                &&& final(self).lock_view() == old(self).lock_view()
                &&& wake is None
            },
    {
        if self.num_waiters > 0 {
            let line = self.semaphore.waiting();
            assert(line == self.semaphore@.queue.len());
            let total_waiters = self.num_waiters;
            self.num_waiters = 0;
            proof {
                lemma_steps_keep_asks(self.semaphore@, 1, 1, 0, 1, total_waiters as nat, 0);
            }
            self.semaphore.release(total_waiters)
        } else {
            None
        }
    }
}

impl Wait {
    /// The wait has asked for its permit.
    pub closed spec fn started(&self) -> bool {
        self.request is Some
    }

    /// The request for the permit, once the wait has begun.
    pub closed spec fn request(&self) -> Acquire {
        self.request->Some_0
    }

    /// The wait was served: it was woken by a notification.
    pub open spec fn finished(&self) -> bool {
        self.started() && self.request().is_done()
    }

    /// A begun wait asks for exactly one permit.
    pub closed spec fn wf(&self) -> bool {
        self.started() ==> self.request().amount() == 1
    }

    /// The ticket the wait uses once polled on `condvar`.
    pub open spec fn ticket_on(&self, condvar: &Condvar) -> u64 {
        if self.started() {
            self.request().ticket()
        } else {
            condvar.lock_view().issued as u64
        }
    }

    /// The semaphore of `condvar` once this wait has its ticket.
    pub open spec fn ticketed_on(&self, condvar: &Condvar) -> SemaphoreView {
        if self.started() {
            condvar.lock_view()
        } else {
            condvar.lock_view().issue()
        }
    }

    /// A poll of this wait on `condvar` begins (or begins again) the wait:
    /// it is not in line, so it counts as a new waiting task.
    pub open spec fn begins_on(&self, condvar: &Condvar) -> bool {
        !self.started() || !condvar.lock_view().queued(self.request().ticket())
    }

    /// The ticket of this wait, once it has begun.
    pub fn id(&self) -> (r: Option<u64>)
        ensures
            r == if self.started() {
                Some(self.request().ticket())
            } else {
                None
            },
    {
        match &self.request {
            Some(acq) => Some(acq.id()),
            None => None,
        }
    }

    /// Polls this wait on `condvar`, the condition variable that made it.
    /// A wait not in line begins: it counts as a task waiting for a
    /// notification and joins the line; it is never served by the poll that
    /// begins it. A wait in line is served once a notification reached it.
    pub fn poll(&mut self, condvar: &mut Condvar) -> (out: AcquireOutcome)
        requires
            old(condvar).wf(),
            old(self).wf(),
            !old(self).finished(),
            old(self).started() ==> old(self).request().ticket() < old(condvar).lock_view().issued,
            old(self).begins_on(old(condvar)) ==> old(condvar).waiters() < usize::MAX,
            !old(self).started() ==> old(condvar).lock_view().issued < u64::MAX,
        ensures
            final(condvar).wf(),
            final(self).wf(),
            final(self).started(),
            final(self).request().ticket() == old(self).ticket_on(old(condvar)),
            final(self).finished() == (out is Ready),
            final(condvar).lock_view() == old(self).ticketed_on(old(condvar)).poll(
                old(self).ticket_on(old(condvar)),
                1,
            ).0,
            out == old(self).ticketed_on(old(condvar)).poll(old(self).ticket_on(old(condvar)), 1).1,
            final(condvar).waiters() == if old(self).begins_on(old(condvar)) {
                old(condvar).waiters() + 1
            } else {
                old(condvar).waiters()
            },
            old(self).begins_on(old(condvar)) ==> out is Pending,
    {
        let mut request = match self.request.take() {
            Some(acq) => acq,
            None => {
                proof {
                    lemma_steps_keep_asks(condvar.semaphore@, 1, 1, 0, 1, 0, 0);
                }
                condvar.semaphore.acquire(1)
            },
        };
        if !condvar.semaphore.is_queued(request.id()) {
            condvar.num_waiters = condvar.num_waiters + 1;
        }
        proof {
            lemma_steps_keep_asks(condvar.semaphore@, 1, 1, request.ticket(), 1, 0, 0);
        }
        let out = request.poll(&mut condvar.semaphore);
        self.request = Some(request);
        out
    }

    /// Gives up this wait on `condvar`, the condition variable that made it.
    /// A wait in line leaves it and stops counting: if tasks wait without a
    /// notification, it counts as one of them; otherwise the notification
    /// that waited for it is taken away. Returns the ticket of a task to
    /// wake, if the wait had been woken: the wake-up passes on to the first
    /// task in line not woken yet.
    pub fn cancel(self, condvar: &mut Condvar) -> (wake: Option<u64>)
        requires
            old(condvar).wf(),
        ensures
            final(condvar).wf(),
            self.started() && old(condvar).lock_view().queued(self.request().ticket()) ==> {
                if old(condvar).waiters() > 0 {
                    &&& final(condvar).waiters() == old(condvar).waiters() - 1
                    &&& final(condvar).lock_view() == old(condvar).lock_view().cancel(
                        self.request().ticket(),
                    ).0
                    &&& wake == old(condvar).lock_view().cancel(self.request().ticket()).1
                } else {
                    &&& final(condvar).waiters() == 0
                    &&& final(condvar).lock_view() == old(condvar).lock_view().forget(1).cancel(
                        self.request().ticket(),
                    ).0
                    &&& wake == old(condvar).lock_view().forget(1).cancel(
                        self.request().ticket(),
                    ).1
                }
            },
            !(self.started() && old(condvar).lock_view().queued(self.request().ticket())) ==> {
                &&& final(condvar).waiters() == old(condvar).waiters()
                &&& final(condvar).lock_view() == old(condvar).lock_view()
                &&& wake is None
            },
    {
        match self.request {
            Some(acq) => {
                if condvar.semaphore.is_queued(acq.id()) {
                    if condvar.num_waiters > 0 {
                        condvar.num_waiters = condvar.num_waiters - 1;
                    } else {
                        condvar.semaphore.forget(1);
                    }
                    proof {
                        lemma_steps_keep_asks(condvar.semaphore@, 1, 1, acq.ticket(), 1, 0, 0);
                        let s = condvar.semaphore@;
                        lemma_steps_keep_wf(s, acq.ticket(), 1, 0, 0);
                    }
                    acq.cancel(&mut condvar.semaphore)
                } else {
                    None
                }
            },
            None => None,
        }
    }
}

} // verus!
