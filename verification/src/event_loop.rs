//! The decision state of the task-based event loop.
//!
//! This runtime flavour multiplexes polled tasks instead of switched stacks:
//! tasks are opaque tags, woken tasks queue FIFO, notifications live in
//! keyed slots, and each in-flight syscall maps to a waiter slot through its
//! user data. The shell polls the tasks, talks to the kernel ring, and
//! consults this state machine for every routing decision - including
//! telling a cross-thread wake (a message carrying the loop's own identity)
//! apart from an ordinary completion.

use vstd::prelude::*;
use std::collections::VecDeque;
use crate::sync::oneshot_notify::NotifyState;

verus! {

/// How the dispatcher must treat one kernel completion.
pub enum CompletionKind {
    /// A message from a waker on another thread: the user data carries the
    /// task to re-queue.
    TaskWake,
    /// An ordinary completion: the user data names the syscall waiter.
    Syscall,
}

/// Tell a cross-thread wake apart from an ordinary completion: a wake
/// message carries the receiving event loop's identity as its result.
pub fn classify_completion(runtime_id: i32, result: i32) -> (k: CompletionKind)
    ensures
        result == runtime_id ==> k matches CompletionKind::TaskWake,
        result != runtime_id ==> k matches CompletionKind::Syscall,
{
    if result == runtime_id {
        CompletionKind::TaskWake
    } else {
        CompletionKind::Syscall
    }
}

/// Configuration of an event loop instance.
#[derive(Debug, Clone)]
pub struct Config {
    sq_size: usize,
}

impl Config {
    /// The number of submission-queue entries asked of the kernel.
    pub closed spec fn sq_size_spec(&self) -> int {
        self.sq_size as int
    }

    /// The number of submission-queue entries asked of the kernel.
    pub fn sq_size(&self) -> (n: usize)
        ensures
            n == self.sq_size_spec(),
    {
        self.sq_size
    }
}

impl Default for Config {
    /// The default submission queue holds 4096 entries.
    fn default() -> (c: Config)
        ensures
            c.sq_size_spec() == 4096,
    {
        Config { sq_size: 4096 }
    }
}

/// The decision state of one event loop.
pub struct EventLoop {
    ready_tasks: VecDeque<u64>,
    pending_notifies: Vec<NotifyState>,
    syscall_waiters: Vec<Option<u64>>,
}

/// Handle to notify the waiter of one notification slot.
pub struct Notifier {
    key: usize,
}

/// Handle to await one notification slot.
pub struct Waiter {
    key: usize,
}

impl Notifier {
    /// The slot this handle refers to.
    pub closed spec fn key(&self) -> int {
        self.key as int
    }
}

impl Waiter {
    /// The slot this handle refers to.
    pub closed spec fn key(&self) -> int {
        self.key as int
    }
}

impl EventLoop {
    /// Tasks scheduled to be polled, oldest first.
    pub closed spec fn ready_view(&self) -> Seq<u64> {
        self.ready_tasks@
    }

    /// The notification slots, in creation order.
    pub closed spec fn notifies_view(&self) -> Seq<NotifyState> {
        self.pending_notifies@
    }

    /// In-flight syscalls: slot index is the submission's user data, the
    /// entry the task awaiting it (`None` once completed or never used).
    pub closed spec fn waiters_view(&self) -> Seq<Option<u64>> {
        self.syscall_waiters@
    }

    /// A fresh event loop: nothing ready, no notifications, no syscalls.
    pub fn new() -> (el: EventLoop)
        ensures
            el.ready_view() == Seq::<u64>::empty(),
            el.notifies_view().len() == 0,
            el.waiters_view().len() == 0,
    {
        let el = EventLoop {
            ready_tasks: VecDeque::new(),
            pending_notifies: Vec::new(),
            syscall_waiters: Vec::new(),
        };
        proof {
            assert(el.ready_view() =~= Seq::<u64>::empty());
        }
        el
    }

    /// Queue a task to be polled, after every task already queued.
    pub fn schedule_task(&mut self, task: u64)
        ensures
            final(self).ready_view() == old(self).ready_view().push(task),
            final(self).notifies_view() == old(self).notifies_view(),
            final(self).waiters_view() == old(self).waiters_view(),
    {
        self.ready_tasks.push_back(task);
    }

    /// The next task to poll: the one queued earliest.
    pub fn next_task(&mut self) -> (t: Option<u64>)
        ensures
            final(self).notifies_view() == old(self).notifies_view(),
            final(self).waiters_view() == old(self).waiters_view(),
            old(self).ready_view().len() == 0 ==> (t is None && final(self).ready_view() == old(self).ready_view()),
            old(self).ready_view().len() > 0 ==> (t == Some(old(self).ready_view()[0]) && final(self).ready_view() == old(self).ready_view().drop_first()),
    {
        self.ready_tasks.pop_front()
    }

    /// Create a notification slot with its pair of handles.
    pub fn generate_notify(&mut self) -> (r: (Notifier, Waiter))
        ensures
            final(self).notifies_view() == old(self).notifies_view().push(
                NotifyState::NothingHappened,
            ),
            final(self).ready_view() == old(self).ready_view(),
            final(self).waiters_view() == old(self).waiters_view(),
            r.0.key() == old(self).notifies_view().len(),
            r.1.key() == old(self).notifies_view().len(),
    {
        let key = self.pending_notifies.len();
        self.pending_notifies.push(NotifyState::NothingHappened);
        (Notifier { key }, Waiter { key })
    }

    /// Mark a notification slot; a waiter already parked on it is woken by
    /// queueing its task.
    pub fn notify(&mut self, key: usize)
        requires
            (key as int) < old(self).notifies_view().len(),
        ensures
            final(self).notifies_view() == old(self).notifies_view().update(
                key as int,
                NotifyState::Notified,
            ),
            final(self).waiters_view() == old(self).waiters_view(),
            final(self).ready_view() == match old(self).notifies_view()[key as int] {
                NotifyState::Waiting(w) => old(self).ready_view().push(w),
                _ => old(self).ready_view(),
            },
    {
        match self.pending_notifies[key] {
            NotifyState::Waiting(w) => {
                self.ready_tasks.push_back(w);
            },
            _ => {},
        }
        self.pending_notifies[key] = NotifyState::Notified;
    }

    /// Poll a notification slot: true when it was already marked; otherwise
    /// the polling task's tag is left in the slot and the task suspends. A
    /// slot is polled by one task only, so a second poll before the wake
    /// (which would lose the first waker) stays outside the contract.
    pub fn poll_notify(&mut self, key: usize, waker: u64) -> (ready: bool)
        requires
            (key as int) < old(self).notifies_view().len(),
            !(old(self).notifies_view()[key as int] matches NotifyState::Waiting(_)),
        ensures
            final(self).ready_view() == old(self).ready_view(),
            final(self).waiters_view() == old(self).waiters_view(),
            old(self).notifies_view()[key as int] matches NotifyState::Notified ==> (ready
                && final(self).notifies_view() == old(self).notifies_view()),
            !(old(self).notifies_view()[key as int] matches NotifyState::Notified) ==> (!ready
                && final(self).notifies_view() == old(self).notifies_view().update(
                key as int,
                NotifyState::Waiting(waker),
            )),
    {
        match self.pending_notifies[key] {
            NotifyState::Notified => true,
            _ => {
                self.pending_notifies[key] = NotifyState::Waiting(waker);
                false
            },
        }
    }

    /// Register the task awaiting a syscall; the returned slot index is the
    /// user data carried on the submission.
    pub fn register_syscall(&mut self, task: u64) -> (key: usize)
        ensures
            final(self).waiters_view() == old(self).waiters_view().push(Some(task)),
            final(self).ready_view() == old(self).ready_view(),
            final(self).notifies_view() == old(self).notifies_view(),
            key as int == old(self).waiters_view().len(),
    {
        let key = self.syscall_waiters.len();
        self.syscall_waiters.push(Some(task));
        key
    }

    /// Route a syscall completion to the task that awaits it: the waiter
    /// slot empties and the task is queued. A completion whose user data
    /// names no awaiting task (one meant for another loop on this ring) is
    /// ignored.
    pub fn complete_syscall(&mut self, key: usize) -> (woken: Option<u64>)
        ensures
            final(self).notifies_view() == old(self).notifies_view(),
            (key as int >= old(self).waiters_view().len() || old(self).waiters_view()[
                key as int
            ] is None) ==> (woken is None && final(self).waiters_view() == old(self).waiters_view() && final(self).ready_view() == old(self).ready_view()),
            ((key as int) < old(self).waiters_view().len() && old(self).waiters_view()[
                key as int
            ] is Some) ==> {
                &&& woken == old(self).waiters_view()[key as int]
                &&& final(self).waiters_view() == old(self).waiters_view().update(
                    key as int,
                    None,
                )
                &&& final(self).ready_view() == old(self).ready_view().push(
                    old(self).waiters_view()[key as int].unwrap(),
                )
            },
    {
        if key >= self.syscall_waiters.len() {
            return None;
        }
        match self.syscall_waiters[key] {
            Some(t) => {
                self.syscall_waiters[key] = None;
                self.ready_tasks.push_back(t);
                Some(t)
            },
            None => None,
        }
    }
}

impl Notifier {
    /// Notify the waiter of this slot; a task already parked on it is woken
    /// by queueing it. Consumes the handle: the notification is single-use.
    pub fn notify(self, el: &mut EventLoop)
        requires
            0 <= self.key() < old(el).notifies_view().len(),
        ensures
            final(el).notifies_view() == old(el).notifies_view().update(
                self.key(),
                NotifyState::Notified,
            ),
            final(el).waiters_view() == old(el).waiters_view(),
            final(el).ready_view() == match old(el).notifies_view()[self.key()] {
                NotifyState::Waiting(w) => old(el).ready_view().push(w),
                _ => old(el).ready_view(),
            },
    {
        el.notify(self.key);
    }
}

impl Waiter {
    /// Poll this slot's notification: true when it already arrived;
    /// otherwise the polling task's tag is recorded and the task suspends.
    pub fn poll(&self, el: &mut EventLoop, waker: u64) -> (ready: bool)
        requires
            0 <= self.key() < old(el).notifies_view().len(),
            !(old(el).notifies_view()[self.key()] matches NotifyState::Waiting(_)),
        ensures
            final(el).ready_view() == old(el).ready_view(),
            final(el).waiters_view() == old(el).waiters_view(),
            old(el).notifies_view()[self.key()] matches NotifyState::Notified ==> (ready
                && final(el).notifies_view() == old(el).notifies_view()),
            !(old(el).notifies_view()[self.key()] matches NotifyState::Notified) ==> (!ready
                && final(el).notifies_view() == old(el).notifies_view().update(
                self.key(),
                NotifyState::Waiting(waker),
            )),
    {
        el.poll_notify(self.key, waker)
    }
}

} // verus!
