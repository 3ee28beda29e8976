//! Asynchronous synchronization primitives — a mutex, a reader-writer lock,
//! a semaphore, a condition variable and a swap lock — described as state
//! machines: each operation takes the state and an event and gives the next
//! state and the tasks to wake.

pub mod condvar;
pub mod mutex;
pub mod rwlock;
pub mod semaphore;
pub mod swap_lock;

pub use condvar::Condvar;
pub use mutex::Mutex;
pub use rwlock::RwLock;
pub use semaphore::Semaphore;
pub use swap_lock::SwapLock;
