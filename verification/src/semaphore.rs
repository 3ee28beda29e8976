use vstd::prelude::*;

verus! {

/// A task in line on a [`Semaphore`]: the ticket of its request, the number
/// of permits it asks for, and whether it was woken to try again.
#[derive(Clone, Copy, Debug)]
pub struct Waiter {
    pub id: u64,
    pub n: usize,
    pub woken: bool,
}

/// What polling a request gives back.
#[derive(Clone, Copy, Debug)]
pub enum AcquireOutcome {
    /// The permits were taken. If a ticket is given, that task was woken to
    /// try its luck with the permits left over.
    Ready(Option<u64>),
    /// The permits are not available yet; the task waits in line.
    Pending,
}

/// The abstract state of a semaphore: the permits it holds, the line of
/// waiting tasks (first come first), how many tickets it has handed out, and
/// the history of its permits: how many it started with, and how many were
/// released, granted and forgotten since.
#[verifier::ext_equal]
pub ghost struct SemaphoreView {
    pub permits: nat,
    pub queue: Seq<Waiter>,
    pub issued: nat,
    pub initial: nat,
    pub released: nat,
    pub granted: nat,
    pub forgotten: nat,
}

/// `i` is the place of the first task in `queue` that was not woken.
pub open spec fn is_first_unwoken(queue: Seq<Waiter>, i: int) -> bool {
    &&& 0 <= i < queue.len()
    &&& !queue[i].woken
    &&& forall|j: int| 0 <= j < i ==> (#[trigger] queue[j]).woken
}

impl SemaphoreView {
    /// A semaphore just made with `permits` permits.
    pub open spec fn fresh(permits: nat) -> Self {
        SemaphoreView {
            permits,
            queue: Seq::empty(),
            issued: 0,
            initial: permits,
            released: 0,
            granted: 0,
            forgotten: 0,
        }
    }

    /// Every ticket in line was handed out by this semaphore, no ticket waits
    /// in line twice, and the permits are what the semaphore started with,
    /// plus those released, minus those granted and forgotten.
    pub open spec fn wf(self) -> bool {
        &&& self.permits <= usize::MAX
        &&& self.issued <= u64::MAX
        &&& forall|i: int| 0 <= i < self.queue.len() ==> (#[trigger] self.queue[i]).id < self.issued
        &&& forall|i: int, j: int|
            0 <= i < self.queue.len() && 0 <= j < self.queue.len() && i != j
                ==> #[trigger] self.queue[i].id != #[trigger] self.queue[j].id
        &&& self.permits + self.granted + self.forgotten == self.initial + self.released
    }

    /// Every task in line asks for `a` or for `b` permits.
    pub open spec fn asks_within(self, a: nat, b: nat) -> bool {
        forall|i: int|
            0 <= i < self.queue.len() ==> (#[trigger] self.queue[i]).n == a || self.queue[i].n == b
    }

    /// The task with ticket `id` waits in line.
    pub open spec fn queued(self, id: u64) -> bool {
        exists|i: int| 0 <= i < self.queue.len() && #[trigger] self.queue[i].id == id
    }

    /// The place in line of the task with ticket `id` (meaningful when it is queued).
    pub open spec fn position(self, id: u64) -> int {
        choose|i: int| 0 <= i < self.queue.len() && #[trigger] self.queue[i].id == id
    }

    /// Whether the task with ticket `id` was marked as woken (meaningful when
    /// it is queued).
    pub open spec fn woken_mark(self, id: u64) -> bool {
        self.queue[self.position(id)].woken
    }

    /// The place of the first task in line that was not woken, if any.
    pub open spec fn first_unwoken(self) -> Option<int> {
        if exists|i: int| is_first_unwoken(self.queue, i) {
            Some(choose|i: int| is_first_unwoken(self.queue, i))
        } else {
            None
        }
    }

    /// The line with the task at place `i` marked as woken, or not.
    pub open spec fn mark(self, i: int, woken: bool) -> Self {
        SemaphoreView { queue: self.queue.update(i, Waiter { woken, ..self.queue[i] }), ..self }
    }

    /// Wakes the first task in line that was not woken yet, if any.
    pub open spec fn wake_next(self) -> (Self, Option<u64>) {
        match self.first_unwoken() {
            Some(i) => (self.mark(i, true), Some(self.queue[i].id)),
            None => (self, None),
        }
    }

    /// Wakes the first task in line that was not woken yet, if the permits
    /// cover what it asks for.
    pub open spec fn wake_next_if_covered(self) -> (Self, Option<u64>) {
        match self.first_unwoken() {
            Some(i) => if self.queue[i].n <= self.permits {
                self.wake_next()
            } else {
                (self, None)
            },
            None => (self, None),
        }
    }

    /// Hands out the next ticket.
    pub open spec fn issue(self) -> Self {
        SemaphoreView { issued: self.issued + 1, ..self }
    }

    /// `n` permits come back; the first task in line not woken yet is woken
    /// if the permits now cover what it asks for.
    pub open spec fn release(self, n: nat) -> (Self, Option<u64>) {
        let s = SemaphoreView { permits: self.permits + n, released: self.released + n, ..self };
        s.wake_next_if_covered()
    }

    /// `n` permits are taken away for good.
    pub open spec fn forget(self, n: nat) -> Self {
        SemaphoreView { permits: (self.permits - n) as nat, forgotten: self.forgotten + n, ..self }
    }

    /// The task with ticket `id` asks for `n` permits.
    /// A task in line that was not woken keeps waiting. A woken task takes
    /// the permits if there are enough, and leaves the line; if permits are
    /// left over, the first task in line not woken yet is woken to try its
    /// luck. A woken task that finds too few permits waits again, keeping its
    /// place. A new request is served at once when nobody waits and there are
    /// enough permits; otherwise it joins the back of the line.
    pub open spec fn poll(self, id: u64, n: usize) -> (Self, AcquireOutcome) {
        if self.queued(id) {
            let p = self.position(id);
            if self.queue[p].woken && n <= self.permits {
                let t = SemaphoreView {
                    permits: (self.permits - n) as nat,
                    queue: self.queue.remove(p),
                    granted: self.granted + n as nat,
                    ..self
                };
                if t.permits > 0 {
                    (t.wake_next().0, AcquireOutcome::Ready(t.wake_next().1))
                } else {
                    (t, AcquireOutcome::Ready(None))
                }
            } else if self.queue[p].woken {
                (self.mark(p, false), AcquireOutcome::Pending)
            } else {
                (self, AcquireOutcome::Pending)
            }
        } else if self.queue.len() == 0 && n <= self.permits {
            (
                SemaphoreView {
                    permits: (self.permits - n) as nat,
                    granted: self.granted + n as nat,
                    ..self
                },
                AcquireOutcome::Ready(None),
            )
        } else {
            (
                SemaphoreView { queue: self.queue.push(Waiter { id, n, woken: false }), ..self },
                AcquireOutcome::Pending,
            )
        }
    }

    /// The task with ticket `id` gives up. If it waits in line, it leaves
    /// it; if it had been woken, the wake-up passes on to the first task in
    /// line not woken yet. Otherwise nothing happens.
    pub open spec fn cancel(self, id: u64) -> (Self, Option<u64>) {
        if self.queued(id) {
            let t = SemaphoreView { queue: self.queue.remove(self.position(id)), ..self };
            if self.queue[self.position(id)].woken {
                t.wake_next()
            } else {
                (t, None)
            }
        } else {
            (self, None)
        }
    }
}

/// Changing the permits or their history, handing out more tickets, or
/// marking tasks as woken or not keeps a semaphore well formed while its
/// permit history adds up; the same tickets wait in line.
proof fn lemma_same_tickets_wf(a: SemaphoreView, b: SemaphoreView)
    requires
        a.wf(),
        b.queue.len() == a.queue.len(),
        forall|i: int| 0 <= i < a.queue.len() ==> (#[trigger] b.queue[i]).id == a.queue[i].id,
        a.issued <= b.issued <= u64::MAX,
        b.permits <= usize::MAX,
        b.permits + b.granted + b.forgotten == b.initial + b.released,
    ensures
        b.wf(),
        forall|id: u64| b.queued(id) == a.queued(id),
{
    assert forall|i: int| 0 <= i < b.queue.len() implies (#[trigger] b.queue[i]).id < b.issued by {
        assert(a.queue[i].id < a.issued);
    }
    assert forall|i: int, j: int|
        0 <= i < b.queue.len() && 0 <= j < b.queue.len() && i != j implies #[trigger] b.queue[i].id
        != #[trigger] b.queue[j].id by {
        assert(a.queue[i].id != a.queue[j].id);
    }
    assert forall|id: u64| b.queued(id) == a.queued(id) by {
        if b.queued(id) {
            let k = choose|k: int| 0 <= k < b.queue.len() && #[trigger] b.queue[k].id == id;
            assert(a.queue[k].id == id);
        }
        if a.queued(id) {
            let k = choose|k: int| 0 <= k < a.queue.len() && #[trigger] a.queue[k].id == id;
            assert(b.queue[k].id == id);
        }
    }
}

/// The first task not woken is at a single place.
pub proof fn lemma_first_unwoken_unique(q: Seq<Waiter>, i: int, j: int)
    requires
        is_first_unwoken(q, i),
        is_first_unwoken(q, j),
    ensures
        i == j,
{
    if i < j {
        assert(q[i].woken);
    } else if j < i {
        assert(q[j].woken);
    }
}

/// The first task in line not woken yet is the one at place `i` when every
/// task before it was woken and it was not; there is none when every task
/// was woken.
pub proof fn lemma_first_unwoken_at(s: SemaphoreView, i: int)
    ensures
        is_first_unwoken(s.queue, i) ==> s.first_unwoken() == Some(i),
        (forall|j: int| 0 <= j < s.queue.len() ==> (#[trigger] s.queue[j]).woken)
            ==> s.first_unwoken() is None,
{
    if is_first_unwoken(s.queue, i) {
        lemma_first_unwoken_unique(s.queue, i, choose|j: int| is_first_unwoken(s.queue, j));
    }
    if forall|j: int| 0 <= j < s.queue.len() ==> (#[trigger] s.queue[j]).woken {
        if exists|j: int| is_first_unwoken(s.queue, j) {
            let j = choose|j: int| is_first_unwoken(s.queue, j);
            assert(s.queue[j].woken);
        }
    }
}

/// Marking a task as woken or not, or waking the next task, keeps the same
/// tickets in line, in the same places.
pub proof fn lemma_mark_keeps_tickets(s: SemaphoreView, i: int, woken: bool)
    requires
        0 <= i < s.queue.len(),
    ensures
        s.mark(i, woken).queue.len() == s.queue.len(),
        forall|k: int| 0 <= k < s.queue.len() ==> (#[trigger] s.mark(i, woken).queue[k]).id == s.queue[k].id,
        forall|id: u64| s.mark(i, woken).queued(id) == s.queued(id),
        s.wake_next().0.queue.len() == s.queue.len(),
        forall|id: u64| s.wake_next().0.queued(id) == s.queued(id),
{
    let t = s.mark(i, woken);
    assert forall|id: u64| t.queued(id) == s.queued(id) by {
        if t.queued(id) {
            let k = choose|k: int| 0 <= k < t.queue.len() && #[trigger] t.queue[k].id == id;
            assert(s.queue[k].id == id);
        }
        if s.queued(id) {
            let k = choose|k: int| 0 <= k < s.queue.len() && #[trigger] s.queue[k].id == id;
            assert(t.queue[k].id == id);
        }
    }
    if let Some(f) = s.first_unwoken() {
        let u = s.mark(f, true);
        assert forall|id: u64| u.queued(id) == s.queued(id) by {
            if u.queued(id) {
                let k = choose|k: int| 0 <= k < u.queue.len() && #[trigger] u.queue[k].id == id;
                assert(s.queue[k].id == id);
            }
            if s.queued(id) {
                let k = choose|k: int| 0 <= k < s.queue.len() && #[trigger] s.queue[k].id == id;
                assert(u.queue[k].id == id);
            }
        }
    }
}

/// Marking a task as woken or not, and waking the next task, keeps a
/// semaphore well formed with the same tickets in line.
pub proof fn lemma_mark_wf(s: SemaphoreView, i: int, woken: bool)
    requires
        s.wf(),
        0 <= i < s.queue.len(),
    ensures
        s.mark(i, woken).wf(),
        s.mark(i, woken).queue.len() == s.queue.len(),
        forall|k: int| 0 <= k < s.queue.len() ==> (#[trigger] s.mark(i, woken).queue[k]).id == s.queue[k].id,
        forall|id: u64| s.mark(i, woken).queued(id) == s.queued(id),
        s.wake_next().0.wf(),
        forall|id: u64| s.wake_next().0.queued(id) == s.queued(id),
        s.wake_next().0.queue.len() == s.queue.len(),
{
    lemma_same_tickets_wf(s, s.mark(i, woken));
    if let Some(f) = s.first_unwoken() {
        lemma_same_tickets_wf(s, s.mark(f, true));
    }
}

/// Removing a task from the line keeps a semaphore well formed; the removed
/// ticket no longer waits, and every other ticket keeps waiting.
pub proof fn lemma_remove_wf(s: SemaphoreView, p: int)
    requires
        s.wf(),
        0 <= p < s.queue.len(),
    ensures
        (SemaphoreView { queue: s.queue.remove(p), ..s }).wf(),
        !(SemaphoreView { queue: s.queue.remove(p), ..s }).queued(s.queue[p].id),
        forall|id: u64|
            s.queued(id) && id != s.queue[p].id ==> (SemaphoreView {
                queue: s.queue.remove(p),
                ..s
            }).queued(id),
{
    let t = SemaphoreView { queue: s.queue.remove(p), ..s };
    let q = t.queue;
    assert forall|k: int| 0 <= k < q.len() implies q[k] == s.queue[if k < p {
        k
    } else {
        k + 1
    }] by {}
    assert forall|k: int| 0 <= k < q.len() implies (#[trigger] q[k]).id < t.issued by {
        assert(q[k] == s.queue[if k < p {
            k
        } else {
            k + 1
        }]);
    }
    assert forall|a: int, b: int|
        0 <= a < q.len() && 0 <= b < q.len() && a != b implies #[trigger] q[a].id
        != #[trigger] q[b].id by {
        assert(q[a] == s.queue[if a < p {
            a
        } else {
            a + 1
        }]);
        assert(q[b] == s.queue[if b < p {
            b
        } else {
            b + 1
        }]);
    }
    if t.queued(s.queue[p].id) {
        let k = choose|k: int| 0 <= k < q.len() && #[trigger] q[k].id == s.queue[p].id;
        assert(q[k] == s.queue[if k < p {
            k
        } else {
            k + 1
        }]);
    }
    assert forall|id: u64| s.queued(id) && id != s.queue[p].id implies t.queued(id) by {
        let k = choose|k: int| 0 <= k < s.queue.len() && #[trigger] s.queue[k].id == id;
        if k < p {
            assert(q[k] == s.queue[k]);
        } else {
            assert(k != p);
            assert(q[k - 1] == s.queue[k]);
        }
    }
}

/// Adding a new ticket of this semaphore at the back of the line keeps it
/// well formed, and every ticket in line keeps waiting.
pub proof fn lemma_push_wf(s: SemaphoreView, w: Waiter)
    requires
        s.wf(),
        !s.queued(w.id),
        w.id < s.issued,
    ensures
        (SemaphoreView { queue: s.queue.push(w), ..s }).wf(),
        (SemaphoreView { queue: s.queue.push(w), ..s }).queued(w.id),
        forall|id: u64| s.queued(id) ==> (SemaphoreView { queue: s.queue.push(w), ..s }).queued(id),
{
    let t = SemaphoreView { queue: s.queue.push(w), ..s };
    let q = t.queue;
    assert forall|k: int| 0 <= k < q.len() implies (#[trigger] q[k]).id < t.issued by {
        if k < s.queue.len() {
            assert(q[k] == s.queue[k]);
        }
    }
    assert forall|a: int, b: int|
        0 <= a < q.len() && 0 <= b < q.len() && a != b implies #[trigger] q[a].id
        != #[trigger] q[b].id by {
        if a == q.len() - 1 {
            assert(q[b] == s.queue[b]);
        } else if b == q.len() - 1 {
            assert(q[a] == s.queue[a]);
        } else {
            assert(q[a] == s.queue[a]);
            assert(q[b] == s.queue[b]);
        }
    }
    assert(q[q.len() - 1].id == w.id);
    assert forall|id: u64| s.queued(id) implies t.queued(id) by {
        let k = choose|k: int| 0 <= k < s.queue.len() && #[trigger] s.queue[k].id == id;
        assert(q[k] == s.queue[k]);
    }
}

/// In a well-formed semaphore, the task at place `p` is found at `p`.
proof fn lemma_position(s: SemaphoreView, p: int)
    requires
        s.wf(),
        0 <= p < s.queue.len(),
    ensures
        s.queued(s.queue[p].id),
        s.position(s.queue[p].id) == p,
        s.woken_mark(s.queue[p].id) == s.queue[p].woken,
{
    let id = s.queue[p].id;
    assert(s.queued(id));
    let q = s.position(id);
    assert(s.queue[q].id == id);
}

/// The task with ticket `id`, when it waits in line, is at `position(id)`.
proof fn lemma_position_of(s: SemaphoreView, id: u64)
    requires
        s.queued(id),
    ensures
        0 <= s.position(id) < s.queue.len(),
        s.queue[s.position(id)].id == id,
{
}

/// Marking the task at place `i` changes the mark of that task alone; every
/// task keeps its place.
proof fn lemma_mark_marks(s: SemaphoreView, i: int, b: bool)
    requires
        s.wf(),
        0 <= i < s.queue.len(),
    ensures
        forall|j: u64|
            #![trigger s.mark(i, b).woken_mark(j)]
            s.queued(j) ==> {
                &&& s.mark(i, b).queued(j)
                &&& s.mark(i, b).position(j) == s.position(j)
                &&& s.mark(i, b).woken_mark(j) == if j == s.queue[i].id {
                    b
                } else {
                    s.woken_mark(j)
                }
            },
{
    let t = s.mark(i, b);
    lemma_mark_wf(s, i, b);
    assert forall|j: u64| #![trigger t.woken_mark(j)] s.queued(j) implies {
        &&& t.queued(j)
        &&& t.position(j) == s.position(j)
        &&& t.woken_mark(j) == if j == s.queue[i].id {
            b
        } else {
            s.woken_mark(j)
        }
    } by {
        let p = s.position(j);
        lemma_position_of(s, j);
        assert(t.queue[p].id == j);
        lemma_position(t, p);
        if j == s.queue[i].id {
            lemma_position(s, i);
        }
    }
}

/// Waking the next task marks that task alone, which waited in line not
/// woken; the permits and the places in line stay as they were.
proof fn lemma_wake_next_marks(s: SemaphoreView)
    requires
        s.wf(),
    ensures
        s.wake_next().0.wf(),
        s.wake_next().0.permits == s.permits,
        match s.wake_next().1 {
            Some(k) => match s.first_unwoken() {
                Some(f) => {
                    &&& 0 <= f < s.queue.len()
                    &&& s.queue[f].id == k
                    &&& s.queued(k)
                    &&& !s.woken_mark(k)
                    &&& s.wake_next().0.queued(k)
                    &&& s.wake_next().0.woken_mark(k)
                    &&& s.wake_next().0.queue[s.wake_next().0.position(k)].n == s.queue[f].n
                },
                None => false,
            },
            None => true,
        },
        forall|j: u64|
            #![trigger s.wake_next().0.woken_mark(j)]
            s.queued(j) ==> {
                &&& s.wake_next().0.queued(j)
                &&& s.wake_next().0.woken_mark(j) == (s.woken_mark(j) || s.wake_next().1 == Some(j))
            },
{
    if s.queue.len() > 0 {
        lemma_mark_wf(s, 0, true);
    }
    if let Some(f) = s.first_unwoken() {
        assert(is_first_unwoken(s.queue, f));
        lemma_position(s, f);
        lemma_mark_marks(s, f, true);
        let t = s.mark(f, true);
        let k = s.queue[f].id;
        assert(t.queue[f].id == k);
        lemma_position(t, f);
    }
}

/// Taking the task at place `p` out of the line leaves every other task in
/// line with its mark and what it asks for, and no task joins.
proof fn lemma_remove_marks(s: SemaphoreView, p: int)
    requires
        s.wf(),
        0 <= p < s.queue.len(),
    ensures
        forall|j: u64|
            #![trigger (SemaphoreView { queue: s.queue.remove(p), ..s }).queued(j)]
            (SemaphoreView { queue: s.queue.remove(p), ..s }).queued(j) <==> (s.queued(j) && j
                != s.queue[p].id),
        forall|j: u64|
            #![trigger (SemaphoreView { queue: s.queue.remove(p), ..s }).woken_mark(j)]
            s.queued(j) && j != s.queue[p].id ==> {
                &&& (SemaphoreView { queue: s.queue.remove(p), ..s }).woken_mark(j) == s.woken_mark(j)
                &&& (SemaphoreView { queue: s.queue.remove(p), ..s }).queue[(SemaphoreView {
                    queue: s.queue.remove(p),
                    ..s
                }).position(j)].n == s.queue[s.position(j)].n
            },
{
    let t = SemaphoreView { queue: s.queue.remove(p), ..s };
    lemma_remove_wf(s, p);
    assert forall|j: u64| #![trigger t.queued(j)] t.queued(j) <==> (s.queued(j) && j
        != s.queue[p].id) by {
        if t.queued(j) {
            let k = choose|k: int| 0 <= k < t.queue.len() && #[trigger] t.queue[k].id == j;
            if k < p {
                assert(t.queue[k] == s.queue[k]);
            } else {
                assert(t.queue[k] == s.queue[k + 1]);
            }
        }
    }
    assert forall|j: u64| #![trigger t.woken_mark(j)] s.queued(j) && j != s.queue[p].id implies {
        &&& t.woken_mark(j) == s.woken_mark(j)
        &&& t.queue[t.position(j)].n == s.queue[s.position(j)].n
    } by {
        let q = s.position(j);
        lemma_position_of(s, j);
        assert(q != p);
        let q2 = if q < p {
            q
        } else {
            q - 1
        };
        assert(t.queue[q2] == s.queue[q]);
        lemma_position(t, q2);
    }
}

/// A new task at the back of the line leaves every task already in line
/// with its mark.
proof fn lemma_push_marks(s: SemaphoreView, w: Waiter)
    requires
        s.wf(),
        !s.queued(w.id),
        w.id < s.issued,
    ensures
        forall|j: u64|
            #![trigger (SemaphoreView { queue: s.queue.push(w), ..s }).woken_mark(j)]
            s.queued(j) ==> (SemaphoreView { queue: s.queue.push(w), ..s }).queued(j) && (
            SemaphoreView { queue: s.queue.push(w), ..s }).woken_mark(j) == s.woken_mark(j),
{
    let t = SemaphoreView { queue: s.queue.push(w), ..s };
    lemma_push_wf(s, w);
    assert forall|j: u64| #![trigger t.woken_mark(j)] s.queued(j) implies t.queued(j)
        && t.woken_mark(j) == s.woken_mark(j) by {
        let q = s.position(j);
        lemma_position_of(s, j);
        assert(t.queue[q] == s.queue[q]);
        lemma_position(t, q);
    }
}

/// Every step keeps a semaphore well formed.
pub proof fn lemma_steps_keep_wf(s: SemaphoreView, id: u64, n: usize, m: nat, k: nat)
    requires
        s.wf(),
    ensures
        s.issued < u64::MAX ==> s.issue().wf(),
        s.permits + m <= usize::MAX ==> s.release(m).0.wf(),
        k <= s.permits ==> s.forget(k).wf(),
        id < s.issued ==> s.poll(id, n).0.wf(),
        s.cancel(id).0.wf(),
{
    if s.issued < u64::MAX {
        lemma_same_tickets_wf(s, s.issue());
    }
    if s.permits + m <= usize::MAX {
        let r = SemaphoreView { permits: s.permits + m, released: s.released + m, ..s };
        lemma_same_tickets_wf(s, r);
        if r.queue.len() > 0 {
            lemma_mark_wf(r, 0, true);
        }
    }
    if k <= s.permits {
        lemma_same_tickets_wf(s, s.forget(k));
    }
    if s.queued(id) {
        let p = s.position(id);
        lemma_remove_wf(s, p);
        let r = SemaphoreView { queue: s.queue.remove(p), ..s };
        if r.queue.len() > 0 {
            lemma_mark_wf(r, 0, true);
        }
        lemma_mark_wf(s, p, false);
        if s.queue[p].woken && n <= s.permits {
            let t = SemaphoreView {
                permits: (s.permits - n) as nat,
                queue: s.queue.remove(p),
                granted: s.granted + n as nat,
                ..s
            };
            lemma_same_tickets_wf(r, t);
            if t.queue.len() > 0 {
                lemma_mark_wf(t, 0, true);
            }
        }
    } else if s.queue.len() == 0 && n <= s.permits {
        lemma_same_tickets_wf(s, s.poll(id, n).0);
    } else if id < s.issued {
        lemma_push_wf(s, Waiter { id, n, woken: false });
    }
}

/// A task in line leaves it only through its own request: no step for
/// another ticket takes it out of the line.
pub proof fn lemma_line_keeps_others(
    s: SemaphoreView,
    other: u64,
    id: u64,
    n: usize,
    m: nat,
    k: nat,
)
    requires
        s.wf(),
        s.queued(other),
        other != id,
    ensures
        s.issue().queued(other),
        s.release(m).0.queued(other),
        s.forget(k).queued(other),
        id < s.issued ==> s.poll(id, n).0.queued(other),
        s.cancel(id).0.queued(other),
{
    let w = choose|i: int| 0 <= i < s.queue.len() && #[trigger] s.queue[i].id == other;
    assert(s.issue().queue[w].id == other);
    assert(s.forget(k).queue[w].id == other);
    let r = SemaphoreView { permits: s.permits + m, released: s.released + m, ..s };
    assert(r.queue[w].id == other);
    assert(r.queued(other));
    lemma_mark_keeps_tickets(r, w, true);
    assert(r.wake_next().0.queued(other));
    assert(s.release(m) == r.wake_next_if_covered());
    if s.queued(id) {
        let p = s.position(id);
        lemma_remove_wf(s, p);
        lemma_mark_keeps_tickets(s, p, false);
        let t = SemaphoreView { queue: s.queue.remove(p), ..s };
        assert(t.queued(other));
        if t.queue.len() > 0 {
            lemma_mark_keeps_tickets(t, 0, true);
        }
        let u = SemaphoreView {
            permits: (s.permits - n) as nat,
            queue: s.queue.remove(p),
            granted: s.granted + n as nat,
            ..s
        };
        let j = choose|j: int| 0 <= j < t.queue.len() && #[trigger] t.queue[j].id == other;
        assert(u.queue[j].id == other);
        lemma_mark_keeps_tickets(u, j, true);
    } else if !(s.queue.len() == 0 && n <= s.permits) && id < s.issued {
        lemma_push_wf(s, Waiter { id, n, woken: false });
    } else {
        assert(s.poll(id, n).0.queue[w].id == other);
    }
}

/// When every task in line asks for `a` or `b` permits, it stays so through
/// every step that adds no other request to the line.
pub proof fn lemma_steps_keep_asks(
    s: SemaphoreView,
    a: nat,
    b: nat,
    id: u64,
    n: usize,
    m: nat,
    k: nat,
)
    requires
        s.wf(),
        s.asks_within(a, b),
    ensures
        s.issue().asks_within(a, b),
        s.release(m).0.asks_within(a, b),
        s.forget(k).asks_within(a, b),
        s.cancel(id).0.asks_within(a, b),
        n == a || n == b ==> s.poll(id, n).0.asks_within(a, b),
{
    let r = SemaphoreView { permits: s.permits + m, released: s.released + m, ..s };
    if let Some(f) = r.first_unwoken() {
        let q = r.mark(f, true).queue;
        assert forall|i: int| 0 <= i < q.len() implies (#[trigger] q[i]).n == a || q[i].n == b by {
            assert(q[i].n == s.queue[i].n);
        }
    }
    if s.queued(id) {
        let p = s.position(id);
        let q = s.queue.remove(p);
        assert forall|i: int| 0 <= i < q.len() implies (#[trigger] q[i]).n == a || q[i].n == b by {
            if i < p {
                assert(q[i] == s.queue[i]);
            } else {
                assert(q[i] == s.queue[i + 1]);
            }
        }
        let t = SemaphoreView { queue: q, ..s };
        if let Some(f) = t.first_unwoken() {
            let q2 = t.mark(f, true).queue;
            assert forall|i: int| 0 <= i < q2.len() implies (#[trigger] q2[i]).n == a || q2[i].n
                == b by {
                assert(q2[i].n == q[i].n);
            }
        }
        let u = SemaphoreView {
            permits: (s.permits - n) as nat,
            queue: q,
            granted: s.granted + n as nat,
            ..s
        };
        if let Some(f) = u.first_unwoken() {
            let q2 = u.mark(f, true).queue;
            assert forall|i: int| 0 <= i < q2.len() implies (#[trigger] q2[i]).n == a || q2[i].n
                == b by {
                assert(q2[i].n == q[i].n);
            }
        }
        let q3 = s.mark(p, false).queue;
        assert forall|i: int| 0 <= i < q3.len() implies (#[trigger] q3[i]).n == a || q3[i].n
            == b by {
            assert(q3[i].n == s.queue[i].n);
        }
    } else if n == a || n == b {
        let q = s.queue.push(Waiter { id, n, woken: false });
        assert forall|i: int| 0 <= i < q.len() implies (#[trigger] q[i]).n == a || q[i].n == b by {
            if i < s.queue.len() {
                assert(q[i] == s.queue[i]);
            }
        }
    }
}

/// The permits are what the semaphore started with, plus those released,
/// minus those granted and forgotten; so no more permits were ever granted
/// than it started with and got back.
pub proof fn lemma_permit_history(s: SemaphoreView)
    requires
        s.wf(),
    ensures
        s.permits == s.initial + s.released - s.granted - s.forgotten,
        s.granted + s.forgotten <= s.initial + s.released,
{
}

/// Permits only move through grants, releases and forgetting: a grant of
/// `n` takes exactly `n`, a release of `n` gives back exactly `n`, and
/// waiting, joining the line, giving up and handing out tickets leave them
/// alone.
pub proof fn lemma_permit_accounting(s: SemaphoreView, id: u64, n: usize)
    ensures
        s.poll(id, n).1 is Ready ==> s.poll(id, n).0.permits == s.permits - n
            && s.poll(id, n).0.granted == s.granted + n,
        s.poll(id, n).1 is Pending ==> s.poll(id, n).0.permits == s.permits,
        s.release(n as nat).0.permits == s.permits + n,
        s.cancel(id).0.permits == s.permits,
        s.issue().permits == s.permits,
{
}

/// Requests are served in the order in which they joined the line: a new
/// request is served only when nobody waits, and otherwise joins the back; a
/// task in line is served only once it was woken, and a task not served
/// keeps its place.
pub proof fn lemma_served_in_line_order(s: SemaphoreView, id: u64, n: usize)
    requires
        s.wf(),
    ensures
        s.poll(id, n).1 is Ready ==> s.queue.len() == 0 || (s.queued(id) && s.queue[s.position(
            id,
        )].woken),
        !s.queued(id) && s.queue.len() > 0 ==> s.poll(id, n).1 is Pending && s.poll(id, n).0.queue
            == s.queue.push(Waiter { id, n, woken: false }),
        s.queued(id) && s.poll(id, n).1 is Pending ==> s.poll(id, n).0.queue.len()
            == s.queue.len() && forall|k: int|
            0 <= k < s.queue.len() ==> (#[trigger] s.poll(id, n).0.queue[k]).id == s.queue[k].id,
{
    if s.queued(id) {
        lemma_mark_wf(s, s.position(id), false);
    }
}

/// A release wakes at most one task: the first in line not woken yet, and
/// only when the permits cover what it asks for; the line keeps its order.
pub proof fn lemma_release_wakes_first_unwoken(s: SemaphoreView, n: nat)
    requires
        s.wf(),
    ensures
        s.release(n).0.permits == s.permits + n,
        s.release(n).0.queue.len() == s.queue.len(),
        match s.first_unwoken() {
            Some(i) => {
                &&& s.queue[i].n <= s.permits + n ==> s.release(n).1 == Some(s.queue[i].id)
                &&& s.permits + n < s.queue[i].n ==> s.release(n).1 is None
            },
            None => s.release(n).1 is None,
        },
{
    let r = SemaphoreView { permits: s.permits + n, released: s.released + n, ..s };
    assert(r.queue == s.queue);
    assert(r.first_unwoken() == s.first_unwoken());
}

/// When the task at the front of the line was not woken, a release that
/// covers what it asks for wakes it.
pub proof fn lemma_release_wakes_unwoken_front(s: SemaphoreView, n: nat)
    requires
        s.queue.len() > 0,
        !s.queue[0].woken,
        s.queue[0].n <= s.permits + n,
    ensures
        s.release(n).1 == Some(s.queue[0].id),
{
    let r = SemaphoreView { permits: s.permits + n, released: s.released + n, ..s };
    assert(is_first_unwoken(r.queue, 0));
    lemma_first_unwoken_unique(r.queue, 0, choose|i: int| is_first_unwoken(r.queue, i));
}

/// While the first task not woken asks for more permits than there are, a
/// release wakes nobody, even a later task whose need it would cover.
pub proof fn lemma_blocked_front_holds_the_line(s: SemaphoreView, n: nat, k: int)
    requires
        s.first_unwoken() matches Some(i) && i < k < s.queue.len() && s.permits + n
            < s.queue[i].n,
        s.queue[k].n <= s.permits + n,
    ensures
        s.release(n).1 is None,
{
    let r = SemaphoreView { permits: s.permits + n, released: s.released + n, ..s };
    assert(r.queue == s.queue);
    assert(r.first_unwoken() == s.first_unwoken());
}

/// A task in line that was not woken keeps waiting, and polling it changes
/// nothing, whatever the permits.
pub proof fn lemma_unwoken_request_waits(s: SemaphoreView, id: u64, n: usize)
    requires
        s.queued(id),
        !s.queue[s.position(id)].woken,
    ensures
        s.poll(id, n).0 == s,
        s.poll(id, n).1 is Pending,
{
}

/// A woken task in line is served when it polls and the permits cover its
/// request; otherwise it waits again at its place, no longer woken.
pub proof fn lemma_woken_request(s: SemaphoreView, id: u64, n: usize)
    requires
        s.wf(),
        s.queued(id),
        s.queue[s.position(id)].woken,
    ensures
        n <= s.permits ==> s.poll(id, n).1 is Ready && s.poll(id, n).0.queue.len() == s.queue.len()
            - 1,
        s.permits < n ==> s.poll(id, n).1 is Pending && s.poll(id, n).0 == s.mark(
            s.position(id),
            false,
        ),
{
    let p = s.position(id);
    if n <= s.permits {
        let t = SemaphoreView {
            permits: (s.permits - n) as nat,
            queue: s.queue.remove(p),
            granted: s.granted + n as nat,
            ..s
        };
        if t.queue.len() > 0 {
            lemma_remove_wf(s, p);
            lemma_same_tickets_wf(SemaphoreView { queue: s.queue.remove(p), ..s }, t);
            lemma_mark_wf(t, 0, true);
        }
    }
}

/// A request served at once from an empty line, then given back, leaves
/// the permits as they were.
pub proof fn lemma_release_undoes_grant(s: SemaphoreView, id: u64, n: usize)
    requires
        s.wf(),
        s.queue.len() == 0,
        n <= s.permits,
    ensures
        s.poll(id, n).1 is Ready,
        s.poll(id, n).0.release(n as nat).0.permits == s.permits,
{
}

/// A served task that leaves permits over wakes the first task in line not
/// woken yet, whatever that task asks for.
pub proof fn lemma_grant_wakes_next(s: SemaphoreView, id: u64, n: usize)
    requires
        s.wf(),
        s.queued(id),
        s.queue[s.position(id)].woken,
        n < s.permits,
    ensures
        s.poll(id, n).1 == AcquireOutcome::Ready(
            (SemaphoreView { queue: s.queue.remove(s.position(id)), ..s }).wake_next().1,
        ),
{
    let p = s.position(id);
    let t = SemaphoreView {
        permits: (s.permits - n) as nat,
        queue: s.queue.remove(p),
        granted: s.granted + n as nat,
        ..s
    };
    let r = SemaphoreView { queue: s.queue.remove(p), ..s };
    assert(t.queue == r.queue);
    assert(t.first_unwoken() == r.first_unwoken());
}

/// A task that was never woken gives up silently: it leaves the line and
/// nobody is woken.
pub proof fn lemma_unwoken_cancel_wakes_nobody(s: SemaphoreView, id: u64)
    requires
        s.wf(),
        s.queued(id),
        !s.queue[s.position(id)].woken,
    ensures
        s.cancel(id).1 is None,
        s.cancel(id).0.queue == s.queue.remove(s.position(id)),
        !s.cancel(id).0.queued(id),
{
    lemma_remove_wf(s, s.position(id));
}

/// A woken task that gives up passes its wake-up on to the first task in
/// line not woken yet, whatever that task asks for: the wake-up is not lost.
pub proof fn lemma_woken_cancel_passes_wake_on(s: SemaphoreView, id: u64)
    requires
        s.wf(),
        s.queued(id),
        s.queue[s.position(id)].woken,
    ensures
        s.cancel(id) == (SemaphoreView { queue: s.queue.remove(s.position(id)), ..s }).wake_next(),
        !s.cancel(id).0.queued(id),
{
    let p = s.position(id);
    lemma_remove_wf(s, p);
    let t = SemaphoreView { queue: s.queue.remove(p), ..s };
    if t.queue.len() > 0 {
        lemma_mark_wf(t, 0, true);
    }
}

/// When the front task was woken and the next was not: if the front gives
/// up, the next is woken, whatever it asks for; if the front is served with
/// permits left over, the next is woken, whatever it asks for.
pub proof fn lemma_woken_front_hands_on(s: SemaphoreView, n: usize)
    requires
        s.wf(),
        s.queue.len() >= 2,
        s.queue[0].woken,
        !s.queue[1].woken,
    ensures
        s.cancel(s.queue[0].id).1 == Some(s.queue[1].id),
        n < s.permits ==> s.poll(s.queue[0].id, n).1 == AcquireOutcome::Ready(
            Some(s.queue[1].id),
        ),
{
    let id = s.queue[0].id;
    assert(s.queued(id));
    let p = s.position(id);
    assert(p == 0);
    let t = SemaphoreView { queue: s.queue.remove(0), ..s };
    assert(t.queue[0] == s.queue[1]);
    assert(is_first_unwoken(t.queue, 0));
    lemma_first_unwoken_at(t, 0);
    let u = SemaphoreView {
        permits: (s.permits - n) as nat,
        queue: s.queue.remove(0),
        granted: s.granted + n as nat,
        ..s
    };
    assert(u.queue == t.queue);
    lemma_first_unwoken_at(u, 0);
}

/// Two states with the same line have the same tasks in it, at the same
/// places, with the same marks.
proof fn lemma_same_line(a: SemaphoreView, b: SemaphoreView)
    requires
        a.queue == b.queue,
    ensures
        forall|j: u64|
            #![trigger b.woken_mark(j)]
            #![trigger b.queued(j)]
            b.queued(j) == a.queued(j) && b.position(j) == a.position(j) && b.woken_mark(j)
                == a.woken_mark(j),
{
}

/// A release wakes the task it names: that task waited in line not woken,
/// and now waits marked woken, asking for no more permits than there are,
/// so that it is served when it next polls for no more than the permits.
/// No task leaves the line, and no other task's mark changes.
pub proof fn lemma_release_names_woken(s: SemaphoreView, m: nat)
    requires
        s.wf(),
        s.permits + m <= usize::MAX,
    ensures
        match s.release(m).1 {
            Some(k) => {
                &&& s.queued(k)
                &&& !s.woken_mark(k)
                &&& s.release(m).0.queued(k)
                &&& s.release(m).0.woken_mark(k)
                &&& s.release(m).0.queue[s.release(m).0.position(k)].n <= s.release(m).0.permits
                &&& forall|n: usize|
                    n <= s.release(m).0.permits ==> (#[trigger] s.release(m).0.poll(k, n)).1 is Ready
            },
            None => true,
        },
        forall|j: u64|
            #![trigger s.release(m).0.woken_mark(j)]
            #![trigger s.release(m).0.queued(j)]
            s.queued(j) ==> {
                &&& s.release(m).0.queued(j)
                &&& s.release(m).0.woken_mark(j) == (s.woken_mark(j) || s.release(m).1 == Some(j))
            },
{
    let r = SemaphoreView { permits: s.permits + m, released: s.released + m, ..s };
    lemma_steps_keep_wf(s, 0, 0, m, 0);
    let t = s.release(m).0;
    if let Some(k) = s.release(m).1 {
        assert({
            &&& s.queued(k)
            &&& !s.woken_mark(k)
            &&& t.queued(k)
            &&& t.woken_mark(k)
            &&& t.queue[t.position(k)].n <= t.permits
        }) by {
            lemma_same_tickets_wf(s, r);
            lemma_same_line(s, r);
            lemma_wake_next_marks(r);
        }
        assert forall|n: usize| n <= t.permits implies (#[trigger] t.poll(k, n)).1 is Ready by {
            lemma_woken_request(t, k, n);
        }
    }
    assert forall|j: u64|
        #![trigger s.release(m).0.woken_mark(j)]
        #![trigger s.release(m).0.queued(j)]
        s.queued(j) implies {
        &&& s.release(m).0.queued(j)
        &&& s.release(m).0.woken_mark(j) == (s.woken_mark(j) || s.release(m).1 == Some(j))
    } by {
        lemma_same_tickets_wf(s, r);
        lemma_same_line(s, r);
        lemma_wake_next_marks(r);
        lemma_line_keeps_others(s, j, if j == 0 { 1 } else { 0 }, 0, m, 0);
    }
}

/// A poll that names a task to wake has marked it woken: it is another task,
/// which waited in line not woken, and now waits marked woken, so that it is
/// served when it next polls for no more than the permits left. The marks of
/// the other tasks in line do not change otherwise: a poll that names nobody
/// wakes nobody.
pub proof fn lemma_poll_names_woken(s: SemaphoreView, id: u64, n: usize)
    requires
        s.wf(),
        id < s.issued,
    ensures
        match s.poll(id, n).1 {
            AcquireOutcome::Ready(Some(k)) => {
                &&& k != id
                &&& s.queued(k)
                &&& !s.woken_mark(k)
                &&& s.poll(id, n).0.queued(k)
                &&& s.poll(id, n).0.woken_mark(k)
                &&& forall|n2: usize|
                    n2 <= s.poll(id, n).0.permits ==> (#[trigger] s.poll(id, n).0.poll(k, n2)).1 is Ready
            },
            _ => true,
        },
        forall|j: u64|
            #![trigger s.poll(id, n).0.woken_mark(j)]
            #![trigger s.poll(id, n).0.queued(j)]
            s.queued(j) && j != id ==> {
                &&& s.poll(id, n).0.queued(j)
                &&& s.poll(id, n).0.woken_mark(j) == (s.woken_mark(j) || s.poll(id, n).1
                    == AcquireOutcome::Ready(Some(j)))
            },
{
    lemma_steps_keep_wf(s, id, n, 0, 0);
    let t = s.poll(id, n).0;
    if s.queued(id) {
        let p = s.position(id);
        lemma_position_of(s, id);
        lemma_remove_wf(s, p);
        lemma_remove_marks(s, p);
        lemma_mark_marks(s, p, false);
        let r = SemaphoreView { queue: s.queue.remove(p), ..s };
        if s.queue[p].woken && n <= s.permits {
            let u = SemaphoreView {
                permits: (s.permits - n) as nat,
                queue: s.queue.remove(p),
                granted: s.granted + n as nat,
                ..s
            };
            lemma_same_tickets_wf(r, u);
            lemma_same_line(r, u);
            lemma_wake_next_marks(u);
            assert forall|j: u64| #![trigger t.woken_mark(j)] s.queued(j) && j != id implies {
                &&& t.queued(j)
                &&& t.woken_mark(j) == (s.woken_mark(j) || s.poll(id, n).1 == AcquireOutcome::Ready(
                    Some(j),
                ))
            } by {
                assert(r.queued(j));
                assert(r.woken_mark(j) == s.woken_mark(j));
                assert(u.queued(j) && u.woken_mark(j) == r.woken_mark(j));
                if u.permits > 0 {
                    assert(t.woken_mark(j) == (u.woken_mark(j) || u.wake_next().1 == Some(j)));
                }
            }
            if let AcquireOutcome::Ready(Some(k)) = s.poll(id, n).1 {
                assert(u.queued(k));
                assert(r.queued(k));
                assert(s.woken_mark(k) == r.woken_mark(k));
            }
        } else {
            assert forall|j: u64| #![trigger t.woken_mark(j)] s.queued(j) && j != id implies {
                &&& t.queued(j)
                &&& t.woken_mark(j) == s.woken_mark(j)
            } by {
                assert(s.mark(p, false).woken_mark(j) == s.woken_mark(j));
            }
        }
    } else if !(s.queue.len() == 0 && n <= s.permits) {
        lemma_push_marks(s, Waiter { id, n, woken: false });
    }
    assert forall|j: u64|
        #![trigger s.poll(id, n).0.woken_mark(j)]
        #![trigger s.poll(id, n).0.queued(j)]
        s.queued(j) && j != id implies {
        &&& s.poll(id, n).0.queued(j)
        &&& s.poll(id, n).0.woken_mark(j) == (s.woken_mark(j) || s.poll(id, n).1
            == AcquireOutcome::Ready(Some(j)))
    } by {
        lemma_line_keeps_others(s, j, id, n, 0, 0);
    }
    if let AcquireOutcome::Ready(Some(k)) = s.poll(id, n).1 {
        assert forall|n2: usize| n2 <= t.permits implies (#[trigger] t.poll(k, n2)).1 is Ready by {
            lemma_woken_request(t, k, n2);
        }
    }
}

/// A task that gives up and names a task to wake has marked it woken: it is
/// another task, which waited in line not woken, and now waits marked woken,
/// so that it is served when it next polls for no more than the permits.
/// The marks of the other tasks in line do not change otherwise.
pub proof fn lemma_cancel_names_woken(s: SemaphoreView, id: u64)
    requires
        s.wf(),
    ensures
        match s.cancel(id).1 {
            Some(k) => {
                &&& k != id
                &&& s.queued(k)
                &&& !s.woken_mark(k)
                &&& s.cancel(id).0.queued(k)
                &&& s.cancel(id).0.woken_mark(k)
                &&& forall|n: usize|
                    n <= s.cancel(id).0.permits ==> (#[trigger] s.cancel(id).0.poll(k, n)).1 is Ready
            },
            None => true,
        },
        forall|j: u64|
            #![trigger s.cancel(id).0.woken_mark(j)]
            #![trigger s.cancel(id).0.queued(j)]
            s.queued(j) && j != id ==> {
                &&& s.cancel(id).0.queued(j)
                &&& s.cancel(id).0.woken_mark(j) == (s.woken_mark(j) || s.cancel(id).1 == Some(j))
            },
{
    lemma_steps_keep_wf(s, id, 0, 0, 0);
    let t = s.cancel(id).0;
    if s.queued(id) {
        let p = s.position(id);
        lemma_position_of(s, id);
        lemma_remove_wf(s, p);
        lemma_remove_marks(s, p);
        let r = SemaphoreView { queue: s.queue.remove(p), ..s };
        lemma_wake_next_marks(r);
        assert forall|j: u64| #![trigger t.woken_mark(j)] s.queued(j) && j != id implies {
            &&& t.queued(j)
            &&& t.woken_mark(j) == (s.woken_mark(j) || s.cancel(id).1 == Some(j))
        } by {
            assert(r.queued(j));
            assert(r.woken_mark(j) == s.woken_mark(j));
            if s.queue[p].woken {
                assert(t.woken_mark(j) == (r.woken_mark(j) || r.wake_next().1 == Some(j)));
            }
        }
        if let Some(k) = s.cancel(id).1 {
            assert(r.queued(k));
            assert(s.woken_mark(k) == r.woken_mark(k));
        }
    }
    assert forall|j: u64|
        #![trigger s.cancel(id).0.woken_mark(j)]
        #![trigger s.cancel(id).0.queued(j)]
        s.queued(j) && j != id implies {
        &&& s.cancel(id).0.queued(j)
        &&& s.cancel(id).0.woken_mark(j) == (s.woken_mark(j) || s.cancel(id).1 == Some(j))
    } by {
        lemma_line_keeps_others(s, j, id, 0, 0, 0);
    }
    if let Some(k) = s.cancel(id).1 {
        assert forall|n: usize| n <= t.permits implies (#[trigger] t.poll(k, n)).1 is Ready by {
            lemma_woken_request(t, k, n);
        }
    }
}

/// The tickets, in line order, of the tasks waiting in `queue`.
pub open spec fn tickets(queue: Seq<Waiter>) -> Seq<u64> {
    queue.map_values(|w: Waiter| w.id)
}

/// The tickets served when the task holding ticket `id`, just woken, polls
/// for one permit, and then each task it wakes polls for one permit in turn,
/// for at most `fuel` polls.
pub open spec fn wake_chain(s: SemaphoreView, id: u64, fuel: nat) -> Seq<u64>
    decreases fuel,
{
    if fuel == 0 {
        Seq::empty()
    } else {
        let (t, out) = s.poll(id, 1);
        match out {
            AcquireOutcome::Ready(Some(next)) => seq![id] + wake_chain(t, next, (fuel - 1) as nat),
            AcquireOutcome::Ready(None) => seq![id],
            AcquireOutcome::Pending => Seq::empty(),
        }
    }
}

/// When the first task in line was woken, the others were not, each asks
/// for one permit, and there are permits for all of them, the first, then
/// each task it wakes in turn, is served, in line order.
pub proof fn lemma_wake_chain_grants_all(s: SemaphoreView)
    requires
        s.wf(),
        s.queue.len() > 0,
        s.queue[0].woken,
        forall|i: int| 0 < i < s.queue.len() ==> !(#[trigger] s.queue[i]).woken,
        forall|i: int| 0 <= i < s.queue.len() ==> (#[trigger] s.queue[i]).n == 1,
        s.permits >= s.queue.len(),
    ensures
        wake_chain(s, s.queue[0].id, s.queue.len()) == tickets(s.queue),
    decreases s.queue.len(),
{
    let id = s.queue[0].id;
    assert(s.queued(id));
    assert(s.position(id) == 0);
    lemma_remove_wf(s, 0);
    let r = SemaphoreView { queue: s.queue.remove(0), ..s };
    assert(s.queue.remove(0) =~= s.queue.drop_first());
    let t = SemaphoreView {
        permits: (s.permits - 1) as nat,
        queue: s.queue.remove(0),
        granted: s.granted + 1,
        ..s
    };
    lemma_same_tickets_wf(r, t);
    assert(tickets(s.queue) =~= seq![id] + tickets(t.queue));
    if t.queue.len() == 0 {
        assert(tickets(t.queue) =~= Seq::<u64>::empty());
        assert(s.poll(id, 1).1 == AcquireOutcome::Ready(None));
        assert(wake_chain(s, id, s.queue.len()) == seq![id]);
        assert(seq![id] =~= seq![id] + Seq::<u64>::empty());
    } else {
        assert(t.queue[0] == s.queue[1]);
        assert(is_first_unwoken(t.queue, 0));
        lemma_first_unwoken_unique(t.queue, 0, choose|i: int| is_first_unwoken(t.queue, i));
        assert(t.first_unwoken() == Some(0int));
        let u = t.wake_next().0;
        let next = t.queue[0].id;
        assert(s.poll(id, 1) == (u, AcquireOutcome::Ready(Some(next))));
        lemma_mark_wf(t, 0, true);
        assert forall|i: int| 0 <= i < u.queue.len() implies (#[trigger] u.queue[i]).n == 1 by {
            assert(u.queue[i].n == s.queue[i + 1].n);
        }
        assert forall|i: int| 0 < i < u.queue.len() implies !(#[trigger] u.queue[i]).woken by {
            assert(u.queue[i] == s.queue[i + 1]);
        }
        lemma_wake_chain_grants_all(u);
        assert(tickets(u.queue) =~= tickets(t.queue));
        assert(wake_chain(s, id, s.queue.len()) == seq![id] + wake_chain(
            u,
            next,
            u.queue.len(),
        ));
    }
}

/// Releasing one permit for each task in line, when none was woken, each
/// asks for one and there were no permits, wakes the first; then, as each
/// woken task is served and wakes the next, every task in line is served,
/// in order.
pub proof fn lemma_release_for_all_grants_all(s: SemaphoreView)
    requires
        s.wf(),
        s.permits == 0,
        0 < s.queue.len() <= usize::MAX,
        forall|i: int| 0 <= i < s.queue.len() ==> (#[trigger] s.queue[i]).n == 1,
        forall|i: int| 0 <= i < s.queue.len() ==> !(#[trigger] s.queue[i]).woken,
    ensures
        s.release(s.queue.len()).1 == Some(s.queue[0].id),
        wake_chain(s.release(s.queue.len()).0, s.queue[0].id, s.queue.len()) == tickets(s.queue),
{
    let r = SemaphoreView { permits: s.queue.len(), released: s.released + s.queue.len(), ..s };
    assert(is_first_unwoken(r.queue, 0));
    lemma_first_unwoken_unique(r.queue, 0, choose|i: int| is_first_unwoken(r.queue, i));
    assert(r.first_unwoken() == Some(0int));
    lemma_steps_keep_wf(s, 0, 0, s.queue.len(), 0);
    let t = s.release(s.queue.len()).0;
    assert(t == r.mark(0, true));
    assert forall|i: int| 0 <= i < t.queue.len() implies (#[trigger] t.queue[i]).n == 1 by {
        assert(t.queue[i].n == s.queue[i].n);
    }
    assert forall|i: int| 0 < i < t.queue.len() implies !(#[trigger] t.queue[i]).woken by {
        assert(t.queue[i] == s.queue[i]);
    }
    lemma_wake_chain_grants_all(t);
    assert(tickets(t.queue) =~= tickets(s.queue));
}

/// A read waiting behind a writer is served after it: with no permits
/// free, a write request and then a read request in line, neither woken,
/// giving the permits back wakes the writer, which is served; when it gives
/// them back in turn, the reader is woken and served.
pub proof fn lemma_read_behind_writer_served_after_it(s: SemaphoreView, max: usize)
    requires
        s.wf(),
        max >= 1,
        s.permits == 0,
        s.queue.len() == 2,
        s.queue[0].n == max,
        s.queue[1].n == 1,
        !s.queue[0].woken,
        !s.queue[1].woken,
    ensures
        s.release(max as nat).1 == Some(s.queue[0].id),
        s.release(max as nat).0.poll(s.queue[0].id, max).1 == AcquireOutcome::Ready(None),
        s.release(max as nat).0.poll(s.queue[0].id, max).0.release(max as nat).1 == Some(
            s.queue[1].id,
        ),
        s.release(max as nat).0.poll(s.queue[0].id, max).0.release(max as nat).0.poll(
            s.queue[1].id,
            1,
        ).1 is Ready,
{
    let w = s.queue[0].id;
    let rd = s.queue[1].id;
    let r = SemaphoreView { permits: max as nat, released: s.released + max as nat, ..s };
    assert(is_first_unwoken(r.queue, 0));
    lemma_first_unwoken_unique(r.queue, 0, choose|i: int| is_first_unwoken(r.queue, i));
    lemma_steps_keep_wf(s, 0, 0, max as nat, 0);
    let s1 = s.release(max as nat).0;
    assert(s1 == r.mark(0, true));
    assert(s1.queue[0].id == w);
    assert(s1.queued(w));
    assert(s1.position(w) == 0) by {
        let p = s1.position(w);
        assert(s1.queue[p].id == w);
        assert(s1.queue[1].id == rd);
    }
    let s2 = s1.poll(w, max).0;
    assert(s1.queue.remove(0) =~= seq![s.queue[1]]);
    assert(s2.queue =~= seq![s.queue[1]]);
    lemma_steps_keep_wf(s1, w, max, 0, 0);
    let r2 = SemaphoreView { permits: s2.permits + max as nat, released: s2.released + max as nat, ..s2 };
    assert(is_first_unwoken(r2.queue, 0));
    lemma_first_unwoken_unique(r2.queue, 0, choose|i: int| is_first_unwoken(r2.queue, i));
    let s3 = s2.release(max as nat).0;
    assert(s3 == r2.mark(0, true));
    assert(s3.queue[0].id == rd);
    assert(s3.queued(rd));
    assert(s3.position(rd) == 0);
}

/// A type that distributes "permits" to tasks, in the order in which they
/// ask for them.
///
/// `n` permits are asked for through [`acquire`](Self::acquire) and the
/// [`Acquire`] request it returns; they are given back through
/// [`release`](Self::release).
///
/// The tasks that must wait form a line (a `Vec` of tickets and amounts);
/// the wakers that go with the tickets are kept by the caller.
pub struct Semaphore {
    count: usize,
    waiters: Vec<Waiter>,
    next_id: u64,
    initial: Ghost<nat>,
    released: Ghost<nat>,
    granted: Ghost<nat>,
    forgotten: Ghost<nat>,
}

impl View for Semaphore {
    type V = SemaphoreView;

    closed spec fn view(&self) -> SemaphoreView {
        SemaphoreView {
            permits: self.count as nat,
            queue: self.waiters@,
            issued: self.next_id as nat,
            initial: self.initial@,
            released: self.released@,
            granted: self.granted@,
            forgotten: self.forgotten@,
        }
    }
}

/// A request for permits from a [`Semaphore`], made by
/// [`Semaphore::acquire`]. It is driven by [`poll`](Self::poll) until it is
/// ready, or given up with [`cancel`](Self::cancel).
pub struct Acquire {
    id: u64,
    n: usize,
    done: bool,
}

impl Acquire {
    /// The ticket of this request.
    pub closed spec fn ticket(self) -> u64 {
        self.id
    }

    /// The number of permits asked for.
    pub closed spec fn amount(self) -> usize {
        self.n
    }

    /// The last poll of this request served it.
    pub closed spec fn is_done(self) -> bool {
        self.done
    }

    /// The ticket of this request.
    pub fn id(&self) -> (r: u64)
        ensures
            r == self.ticket(),
    {
        self.id
    }

    /// The number of permits asked for.
    pub fn permits(&self) -> (r: usize)
        ensures
            r == self.amount(),
    {
        self.n
    }

    /// Whether the last poll of this request served it.
    pub fn done(&self) -> (r: bool)
        ensures
            r == self.is_done(),
    {
        self.done
    }

    /// Tries to take the permits from `semaphore`, the semaphore that made
    /// this request.
    pub fn poll(&mut self, semaphore: &mut Semaphore) -> (out: AcquireOutcome)
        requires
            old(semaphore)@.wf(),
            old(self).ticket() < old(semaphore)@.issued,
        ensures
            final(semaphore)@ == old(semaphore)@.poll(old(self).ticket(), old(self).amount()).0,
            out == old(semaphore)@.poll(old(self).ticket(), old(self).amount()).1,
            final(semaphore)@.wf(),
            final(self).ticket() == old(self).ticket(),
            final(self).amount() == old(self).amount(),
            final(self).is_done() == (out is Ready),
    {
        proof {
            lemma_steps_keep_wf(semaphore@, self.id, self.n, 0, 0);
        }
        let ghost s0 = semaphore@;
        match semaphore.find(self.id) {
            Some(i) => {
                proof {
                    let p = s0.position(self.id);
                    assert(0 <= p < s0.queue.len() && s0.queue[p].id == self.id);
                    assert(p == i);
                }
                let w = semaphore.waiters[i];
                if w.woken && self.n <= semaphore.count {
                    semaphore.count = semaphore.count - self.n;
                    proof {
                        semaphore.granted@ = semaphore.granted@ + self.n as nat;
                    }
                    semaphore.waiters.remove(i);
                    self.done = true;
                    if semaphore.count > 0 {
                        AcquireOutcome::Ready(semaphore.wake_next())
                    } else {
                        AcquireOutcome::Ready(None)
                    }
                } else if w.woken {
                    semaphore.waiters.set(i, Waiter { woken: false, ..w });
                    proof {
                        assert(semaphore@.queue =~= s0.mark(i as int, false).queue);
                    }
                    self.done = false;
                    AcquireOutcome::Pending
                } else {
                    self.done = false;
                    AcquireOutcome::Pending
                }
            },
            None => {
                if semaphore.waiters.len() == 0 && self.n <= semaphore.count {
                    semaphore.count = semaphore.count - self.n;
                    proof {
                        semaphore.granted@ = semaphore.granted@ + self.n as nat;
                    }
                    self.done = true;
                    AcquireOutcome::Ready(None)
                } else {
                    semaphore.waiters.push(Waiter { id: self.id, n: self.n, woken: false });
                    self.done = false;
                    AcquireOutcome::Pending
                }
            },
        }
    }

    /// Gives up this request on `semaphore`, the semaphore that made it.
    /// Returns the ticket of a task to wake, if the request had been woken:
    /// the wake-up passes on to the first task in line not woken yet.
    pub fn cancel(self, semaphore: &mut Semaphore) -> (wake: Option<u64>)
        requires
            old(semaphore)@.wf(),
        ensures
            final(semaphore)@ == old(semaphore)@.cancel(self.ticket()).0,
            wake == old(semaphore)@.cancel(self.ticket()).1,
            final(semaphore)@.wf(),
    {
        proof {
            lemma_steps_keep_wf(semaphore@, self.id, self.n, 0, 0);
        }
        let ghost s0 = semaphore@;
        match semaphore.find(self.id) {
            Some(i) => {
                proof {
                    let p = s0.position(self.id);
                    assert(0 <= p < s0.queue.len() && s0.queue[p].id == self.id);
                    assert(p == i);
                }
                let w = semaphore.waiters.remove(i);
                if w.woken {
                    semaphore.wake_next()
                } else {
                    None
                }
            },
            None => None,
        }
    }
}

impl Semaphore {
    /// Creates a new [`Semaphore`] with the given initial number of permits.
    pub fn new(initial_count: usize) -> (s: Self)
        ensures
            s@ == SemaphoreView::fresh(initial_count as nat),
            s@.wf(),
    {
        Semaphore {
            count: initial_count,
            waiters: Vec::new(),
            next_id: 0,
            initial: Ghost(initial_count as nat),
            released: Ghost(0),
            granted: Ghost(0),
            forgotten: Ghost(0),
        }
    }

    /// Asks for `n` permits. The request does nothing until it is polled.
    /// These permits should be [`release`](Self::release)d later, or they
    /// will be permanently removed.
    pub fn acquire(&mut self, n: usize) -> (acq: Acquire)
        requires
            old(self)@.wf(),
            old(self)@.issued < u64::MAX,
        ensures
            final(self)@ == old(self)@.issue(),
            final(self)@.wf(),
            acq.ticket() == old(self)@.issued,
            acq.amount() == n,
            !acq.is_done(),
    {
        proof {
            lemma_steps_keep_wf(self@, 0, 0, 0, 0);
        }
        let id = self.next_id;
        self.next_id = self.next_id + 1;
        Acquire { id, n, done: false }
    }

    /// Releases `n` permits back to the semaphore. Returns the ticket of the
    /// task to wake: the first in line not woken yet, if the permits now
    /// cover what it asks for.
    pub fn release(&mut self, n: usize) -> (wake: Option<u64>)
        requires
            old(self)@.wf(),
            old(self)@.permits + n <= usize::MAX,
        ensures
            final(self)@ == old(self)@.release(n as nat).0,
            wake == old(self)@.release(n as nat).1,
            final(self)@.wf(),
    {
        proof {
            lemma_steps_keep_wf(self@, 0, 0, n as nat, 0);
        }
        self.count = self.count + n;
        proof {
            self.released@ = self.released@ + n as nat;
        }
        match self.first_unwoken() {
            Some(i) => {
                if self.waiters[i].n <= self.count {
                    self.wake_next()
                } else {
                    None
                }
            },
            None => None,
        }
    }

    /// Takes `n` of the remaining permits away for good. Nobody is woken.
    pub(crate) fn forget(&mut self, n: usize)
        requires
            old(self)@.wf(),
            n <= old(self)@.permits,
        ensures
            final(self)@ == old(self)@.forget(n as nat),
            final(self)@.wf(),
    {
        proof {
            lemma_steps_keep_wf(self@, 0, 0, 0, n as nat);
        }
        self.count = self.count - n;
        proof {
            self.forgotten@ = self.forgotten@ + n as nat;
        }
    }

    /// Returns the number of remaining permits.
    pub fn remaining(&self) -> (r: usize)
        ensures
            r == self@.permits,
    {
        self.count
    }

    /// Returns how many tickets this semaphore has handed out.
    pub fn tickets_issued(&self) -> (r: u64)
        ensures
            r == self@.issued,
    {
        self.next_id
    }

    /// Returns whether the task with ticket `id` waits in line.
    pub fn is_queued(&self, id: u64) -> (r: bool)
        ensures
            r == self@.queued(id),
    {
        self.find(id).is_some()
    }

    /// Returns the number of tasks waiting in line.
    pub fn waiting(&self) -> (r: usize)
        ensures
            r == self@.queue.len(),
    {
        self.waiters.len()
    }

    fn find(&self, id: u64) -> (r: Option<usize>)
        ensures
            match r {
                Some(i) => i < self@.queue.len() && self@.queue[i as int].id == id,
                None => !self@.queued(id),
            },
    {
        let mut i: usize = 0;
        while i < self.waiters.len()
            invariant
                i <= self.waiters.len(),
                forall|k: int| 0 <= k < i ==> self.waiters@[k].id != id,
            decreases self.waiters.len() - i,
        {
            if self.waiters[i].id == id {
                return Some(i);
            }
            i = i + 1;
        }
        None
    }

    fn first_unwoken(&self) -> (r: Option<usize>)
        ensures
            match r {
                Some(i) => self@.first_unwoken() == Some(i as int),
                None => self@.first_unwoken() is None,
            },
    {
        let mut i: usize = 0;
        while i < self.waiters.len()
            invariant
                i <= self.waiters.len(),
                forall|k: int| 0 <= k < i ==> (#[trigger] self.waiters@[k]).woken,
            decreases self.waiters.len() - i,
        {
            if !self.waiters[i].woken {
                proof {
                    let q = self@.queue;
                    assert(is_first_unwoken(q, i as int));
                    lemma_first_unwoken_unique(
                        q,
                        i as int,
                        choose|j: int| is_first_unwoken(q, j),
                    );
                }
                return Some(i);
            }
            i = i + 1;
        }
        proof {
            let q = self@.queue;
            assert(!exists|j: int| is_first_unwoken(q, j)) by {
                if exists|j: int| is_first_unwoken(q, j) {
                    let j = choose|j: int| is_first_unwoken(q, j);
                    assert(q[j].woken);
                }
            }
        }
        None
    }

    fn wake_next(&mut self) -> (wake: Option<u64>)
        requires
            old(self)@.wf(),
        ensures
            final(self)@ == old(self)@.wake_next().0,
            wake == old(self)@.wake_next().1,
    {
        match self.first_unwoken() {
            Some(i) => {
                let w = self.waiters[i];
                self.waiters.set(i, Waiter { woken: true, ..w });
                proof {
                    assert(self@.queue =~= old(self)@.mark(i as int, true).queue);
                }
                Some(w.id)
            },
            None => None,
        }
    }
}

} // verus!
