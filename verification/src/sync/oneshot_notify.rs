//! Single-use notification between two parties of one runtime.
//!
//! A notification is created as a pair of [`Notifier`] and [`Waiter`]
//! handles over a slot in a [`NotifyHub`]. Notifying marks the slot; a
//! waiter polling an unmarked slot leaves its waker behind and reports
//! pending, and the notifier that finds a waker hands it back to the caller
//! to be scheduled. By design the handles expose nothing about whether the
//! other side was used or dropped: dropping either handle leaves the slot
//! exactly as it was.

use vstd::prelude::*;

verus! {

/// The state machine of a single notification slot.
#[derive(Clone, Copy)]
pub enum NotifyState {
    /// Initial idle state.
    NothingHappened,
    /// Pending notification.
    Notified,
    /// A waiter parked on the slot; its waker token waits to be scheduled.
    Waiting(u64),
}

/// Owns the slots that notification handle pairs refer to.
pub struct NotifyHub {
    slots: Vec<NotifyState>,
}

impl NotifyHub {
    /// The slots, in creation order.
    pub closed spec fn slots_view(&self) -> Seq<NotifyState> {
        self.slots@
    }

    /// A hub with no slots yet.
    pub fn new() -> (hub: NotifyHub)
        ensures
            hub.slots_view().len() == 0,
    {
        NotifyHub { slots: Vec::new() }
    }
}

/// Handle to notify the waiter.
pub struct Notifier {
    key: usize,
}

/// Handle to await the notification.
pub struct Waiter {
    key: usize,
}

impl Notifier {
    /// The slot this handle refers to.
    pub closed spec fn key(&self) -> int {
        self.key as int
    }
}

impl Waiter {
    /// The slot this handle refers to.
    pub closed spec fn key(&self) -> int {
        self.key as int
    }
}

/// Create a pair of [`Notifier`] and [`Waiter`] handles representing a
/// single notification, over a fresh slot of the hub.
pub fn oneshot_notify(hub: &mut NotifyHub) -> (r: (Notifier, Waiter))
    ensures
        final(hub).slots_view() == old(hub).slots_view().push(NotifyState::NothingHappened),
        r.0.key() == old(hub).slots_view().len(),
        r.1.key() == old(hub).slots_view().len(),
{
    let key = hub.slots.len();
    hub.slots.push(NotifyState::NothingHappened);
    (Notifier { key }, Waiter { key })
}

impl Notifier {
    /// Notify the waiter: mark the slot, and hand back the waker of a waiter
    /// already parked on it, to be scheduled by the caller. Consumes the
    /// handle, since this is a single-use notification.
    pub fn notify(self, hub: &mut NotifyHub) -> (woken: Option<u64>)
        requires
            0 <= self.key() < old(hub).slots_view().len(),
            !(old(hub).slots_view()[self.key()] matches NotifyState::Notified),
        ensures
            final(hub).slots_view() == old(hub).slots_view().update(
                self.key(),
                NotifyState::Notified,
            ),
            woken == match old(hub).slots_view()[self.key()] {
                NotifyState::Waiting(w) => Some(w),
                _ => Option::<u64>::None,
            },
    {
        let mut woken: Option<u64> = None;
        match hub.slots[self.key] {
            NotifyState::Waiting(w) => {
                woken = Some(w);
            },
            _ => {},
        }
        hub.slots[self.key] = NotifyState::Notified;
        woken
    }
}

impl Waiter {
    /// Poll the notification: true when it already arrived; otherwise the
    /// waker token is left in the slot (replacing any earlier one) and the
    /// waiter should park until the notifier schedules it.
    pub fn poll(&self, hub: &mut NotifyHub, waker: u64) -> (ready: bool)
        requires
            0 <= self.key() < old(hub).slots_view().len(),
        ensures
            old(hub).slots_view()[self.key()] matches NotifyState::Notified ==> (ready
                && final(hub).slots_view() == old(hub).slots_view()),
            !(old(hub).slots_view()[self.key()] matches NotifyState::Notified) ==> (!ready
                && final(hub).slots_view() == old(hub).slots_view().update(
                self.key(),
                NotifyState::Waiting(waker),
            )),
    {
        match hub.slots[self.key] {
            NotifyState::Notified => true,
            _ => {
                hub.slots[self.key] = NotifyState::Waiting(waker);
                false
            },
        }
    }
}

} // verus!
