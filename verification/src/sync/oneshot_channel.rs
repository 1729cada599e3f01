//! Single-use channel: one message from a sender to a receiver.
//!
//! The pair of handles shares a slot in a [`ChannelHub`]. Sending stores the
//! message and closes the slot (the sender is consumed either way), firing
//! the slot's notification; the receiver polls, parks its waker while
//! nothing has happened, and once notified reads the message - or nothing,
//! when the sender closed without sending. Closing flows from sender to
//! receiver only.

use vstd::prelude::*;
use crate::sync::oneshot_notify::NotifyState;

verus! {

/// What a receiver's poll found.
pub enum RecvPoll<MSG> {
    /// Nothing has happened yet; the waker was recorded, park until then.
    Pending,
    /// The sender is done: the message, or `None` when it closed without
    /// sending one.
    Ready(Option<MSG>),
}

/// The shared state of one single-use channel.
pub struct ChannelSlot<MSG> {
    /// The message, once sent and until received.
    pub message: Option<MSG>,
    /// The sender has been used up (by sending or by closing).
    pub is_closed: bool,
    /// Notification state between sender and receiver.
    pub notify: NotifyState,
}

/// Owns the slots that channel handle pairs refer to.
pub struct ChannelHub<MSG> {
    slots: Vec<ChannelSlot<MSG>>,
}

impl<MSG> ChannelHub<MSG> {
    /// The slots, in creation order.
    pub closed spec fn slots_view(&self) -> Seq<ChannelSlot<MSG>> {
        self.slots@
    }

    /// A hub with no channels yet.
    pub fn new() -> (hub: ChannelHub<MSG>)
        ensures
            hub.slots_view().len() == 0,
    {
        ChannelHub { slots: Vec::new() }
    }
}

/// Handle to send the one message.
pub struct Sender<MSG> {
    key: usize,
    marker: core::marker::PhantomData<MSG>,
}

/// Handle to receive the one message.
pub struct Receiver<MSG> {
    key: usize,
    marker: core::marker::PhantomData<MSG>,
}

impl<MSG> Sender<MSG> {
    /// The slot this handle refers to.
    pub closed spec fn key(&self) -> int {
        self.key as int
    }
}

impl<MSG> Receiver<MSG> {
    /// The slot this handle refers to.
    pub closed spec fn key(&self) -> int {
        self.key as int
    }
}

/// Create a pair of sender and receiver over a fresh slot of the hub.
pub fn oneshot_channel<MSG>(hub: &mut ChannelHub<MSG>) -> (r: (Sender<MSG>, Receiver<MSG>))
    ensures
        final(hub).slots_view().len() == old(hub).slots_view().len() + 1,
        forall|k: int|
            0 <= k < old(hub).slots_view().len() ==> final(hub).slots_view()[k] == old(hub).slots_view()[k],
        final(hub).slots_view().last().message is None,
        !final(hub).slots_view().last().is_closed,
        final(hub).slots_view().last().notify matches NotifyState::NothingHappened,
        r.0.key() == old(hub).slots_view().len(),
        r.1.key() == old(hub).slots_view().len(),
{
    let key = hub.slots.len();
    hub.slots.push(
        ChannelSlot { message: None, is_closed: false, notify: NotifyState::NothingHappened },
    );
    (
        Sender { key, marker: core::marker::PhantomData },
        Receiver { key, marker: core::marker::PhantomData },
    )
}

impl<MSG> Sender<MSG> {
    /// Send the message. The sender is consumed, so the slot also closes,
    /// and a receiver already parked on it is handed back to be scheduled.
    /// Infallible: the one message always fits.
    pub fn send(self, hub: &mut ChannelHub<MSG>, message: MSG) -> (woken: Option<u64>)
        requires
            0 <= self.key() < old(hub).slots_view().len(),
            !old(hub).slots_view()[self.key()].is_closed,
            !(old(hub).slots_view()[self.key()].notify matches NotifyState::Notified),
        ensures
            final(hub).slots_view().len() == old(hub).slots_view().len(),
            forall|k: int|
                0 <= k < old(hub).slots_view().len() && k != self.key() ==> final(hub).slots_view()[k] == old(hub).slots_view()[k],
            final(hub).slots_view()[self.key()].message == Some(message),
            final(hub).slots_view()[self.key()].is_closed,
            final(hub).slots_view()[self.key()].notify matches NotifyState::Notified,
            woken == match old(hub).slots_view()[self.key()].notify {
                NotifyState::Waiting(w) => Some(w),
                _ => Option::<u64>::None,
            },
    {
        let mut woken: Option<u64> = None;
        if let NotifyState::Waiting(w) = hub.slots[self.key].notify {
            woken = Some(w);
        }
        hub.slots[self.key] = ChannelSlot {
            message: Some(message),
            is_closed: true,
            notify: NotifyState::Notified,
        };
        woken
    }

    /// Give the sender up without sending: the receiver will observe a
    /// closed, empty channel. A parked receiver is handed back to be
    /// scheduled.
    pub fn close(self, hub: &mut ChannelHub<MSG>) -> (woken: Option<u64>)
        requires
            0 <= self.key() < old(hub).slots_view().len(),
            !old(hub).slots_view()[self.key()].is_closed,
            !(old(hub).slots_view()[self.key()].notify matches NotifyState::Notified),
        ensures
            final(hub).slots_view().len() == old(hub).slots_view().len(),
            forall|k: int|
                0 <= k < old(hub).slots_view().len() && k != self.key() ==> final(hub).slots_view()[k] == old(hub).slots_view()[k],
            final(hub).slots_view()[self.key()].message == old(hub).slots_view()[
                self.key()
            ].message,
            final(hub).slots_view()[self.key()].is_closed,
            final(hub).slots_view()[self.key()].notify matches NotifyState::Notified,
            woken == match old(hub).slots_view()[self.key()].notify {
                NotifyState::Waiting(w) => Some(w),
                _ => Option::<u64>::None,
            },
    {
        let mut woken: Option<u64> = None;
        if let NotifyState::Waiting(w) = hub.slots[self.key].notify {
            woken = Some(w);
        }
        let slot = &mut hub.slots[self.key];
        slot.is_closed = true;
        slot.notify = NotifyState::Notified;
        woken
    }
}

impl<MSG> Receiver<MSG> {
    /// Poll for the message: while the sender has done nothing the waker is
    /// recorded and the receiver parks; after the sender finished, the
    /// message (or `None` for a channel closed without one) is taken.
    pub fn poll(&self, hub: &mut ChannelHub<MSG>, waker: u64) -> (r: RecvPoll<MSG>)
        requires
            0 <= self.key() < old(hub).slots_view().len(),
        ensures
            final(hub).slots_view().len() == old(hub).slots_view().len(),
            forall|k: int|
                0 <= k < old(hub).slots_view().len() && k != self.key() ==> final(hub).slots_view()[k] == old(hub).slots_view()[k],
            !(old(hub).slots_view()[self.key()].notify matches NotifyState::Notified) ==> {
                &&& r matches RecvPoll::Pending
                &&& final(hub).slots_view()[self.key()].notify == NotifyState::Waiting(waker)
                &&& final(hub).slots_view()[self.key()].message == old(hub).slots_view()[
                    self.key()
                ].message
                &&& final(hub).slots_view()[self.key()].is_closed == old(hub).slots_view()[
                    self.key()
                ].is_closed
            },
            (old(hub).slots_view()[self.key()].notify matches NotifyState::Notified) ==> {
                &&& (old(hub).slots_view()[self.key()].message matches Some(m) ==> (r
                    == RecvPoll::Ready(Some(m)) && final(hub).slots_view()[self.key()].message
                    is None && final(hub).slots_view()[self.key()].is_closed == old(hub).slots_view()[self.key()].is_closed && final(hub).slots_view()[
                    self.key()
                ].notify == old(hub).slots_view()[self.key()].notify))
                &&& ((old(hub).slots_view()[self.key()].message is None && old(hub).slots_view()[self.key()].is_closed) ==> (r matches RecvPoll::Ready(
                    m,
                ) && m is None && final(hub).slots_view()[self.key()].message is None
                    && final(hub).slots_view()[self.key()].is_closed && final(hub).slots_view()[self.key()].notify == old(hub).slots_view()[
                    self.key()
                ].notify))
                &&& ((old(hub).slots_view()[self.key()].message is None && !old(hub).slots_view()[self.key()].is_closed) ==> (r matches RecvPoll::Pending
                    && final(hub).slots_view()[self.key()].message is None
                    && final(hub).slots_view()[self.key()].is_closed == old(hub).slots_view()[self.key()].is_closed && final(hub).slots_view()[
                    self.key()
                ].notify == old(hub).slots_view()[self.key()].notify))
            },
    {
        let notified = match hub.slots[self.key].notify {
            NotifyState::Notified => true,
            _ => false,
        };
        if !notified {
            let slot = &mut hub.slots[self.key];
            slot.notify = NotifyState::Waiting(waker);
            return RecvPoll::Pending;
        }
        let slot = &mut hub.slots[self.key];
        let taken = slot.message.take();
        match taken {
            Some(m) => RecvPoll::Ready(Some(m)),
            None => {
                if hub.slots[self.key].is_closed {
                    RecvPoll::Ready(None)
                } else {
                    RecvPoll::Pending
                }
            },
        }
    }
}

} // verus!
