# no_std_async

Async synchronization primitives — `Semaphore`, `Mutex`, `RwLock`, `Condvar`
and `SwapLock` — whose logic is written as state machines with checked contracts.

- `src/` is the library. Each primitive is a state machine: a request
  (`Acquire`, `Wait`, `SyncOp`) is made, then polled; a poll either serves it
  or leaves the task waiting in line, and every step names the ticket of the
  task to wake, if any. The contracts describe each step over an abstract
  view of the semaphore (`SemaphoreView`: permits, the line of waiting tasks,
  tickets handed out, and the history of the permits), and the proof
  functions state the laws of the primitives: requests are served in the
  order in which they were made; a woken task that gives up passes its
  wake-up on; permits move only through grants, releases and forgetting;
  only the guard whose
  ticket holds a lock may use or release it; a mutex has at most one holder;
  a writer holds an `RwLock` alone; a `Condvar` wakes no task without a
  notification, and `notify_all` ends up serving every waiting task.
- The line of waiting tasks is a `Vec` of tickets, amounts and woken marks,
  so the library needs an allocator. An intrusive list of pinned nodes, as
  `pin_list` provides, is not used: its node type is reached through a trait
  with associated types and a `Pin`, neither of which the library's own
  declarations can name, and such a list holds nodes owned by the waiting
  futures rather than plain values.
- `app/` is the concurrent async layer: it keeps each state machine behind a
  `spin` lock, keeps the data in an `UnsafeCell`, stores the wakers of the
  waiting tasks by ticket, and wakes the tasks the state machines name.
- `tests/` drives the state machines through concrete scenarios.
