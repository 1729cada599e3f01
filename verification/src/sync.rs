//! Intra-runtime synchronization, built on parking and waking.
//!
//! Wakers appear throughout as plain tokens (the index of the parked fiber,
//! or an opaque task tag): the primitives here decide *which* waiters a
//! signal or a message wakes, and hand those tokens back to the scheduler,
//! which alone appends fibers to the ready queue.

pub mod channel;
pub mod notify;
pub mod oneshot_channel;
pub mod oneshot_notify;
