//! Unbounded multi-producer channel between fibers of one runtime.
//!
//! A channel cannot block a cancelled fiber: sending to an unbounded queue
//! never blocks at all, and a receive that would have to park while its
//! fiber is cancelled reports the cancellation instead of parking. Receivers
//! that do park leave their waker tokens behind, in arrival order; a send
//! hands the oldest one back to be scheduled, and closing hands back all of
//! them so everyone can observe the closure.

use vstd::prelude::*;
use std::collections::VecDeque;

verus! {

/// The error a send or receive reports once the other side has closed.
#[derive(Debug, PartialEq, Eq, Structural)]
pub struct ClosedError;

/// What one receive step decided.
pub enum RecvStep<T> {
    /// A message was dequeued.
    Got(T),
    /// The queue is empty and the channel has closed.
    Closed,
    /// The receiving fiber is cancelled and would otherwise have to park.
    Cancelled,
    /// The waker was recorded; park until a sender schedules it.
    Parked,
}

/// The shared state of one channel.
pub struct ChannelCore<T> {
    /// Messages in flight, oldest first.
    pub queue: VecDeque<T>,
    /// Wakers of parked receivers, oldest first.
    pub waiting_recv: VecDeque<u64>,
    /// Either side has closed the channel.
    pub is_closed: bool,
}

/// Owns the channels that sender and receiver handles refer to.
pub struct ChannelTable<T> {
    channels: Vec<ChannelCore<T>>,
}

/// Handle for sending; may be copied freely among fibers of the runtime.
pub struct Sender<T> {
    key: usize,
    marker: core::marker::PhantomData<T>,
}

/// Handle for receiving.
pub struct Receiver<T> {
    key: usize,
    marker: core::marker::PhantomData<T>,
}

impl<T> ChannelTable<T> {
    /// The channels, in creation order.
    pub closed spec fn channels_view(&self) -> Seq<ChannelCore<T>> {
        self.channels@
    }

    /// A table with no channels yet.
    pub fn new() -> (t: ChannelTable<T>)
        ensures
            t.channels_view().len() == 0,
    {
        ChannelTable { channels: Vec::new() }
    }
}

impl<T> Sender<T> {
    /// The channel this handle refers to.
    pub closed spec fn key(&self) -> int {
        self.key as int
    }
}

impl<T> Receiver<T> {
    /// The channel this handle refers to.
    pub closed spec fn key(&self) -> int {
        self.key as int
    }
}

/// The observable state of a channel is unchanged: same messages, same
/// parked receivers, same closure flag.
pub open spec fn unchanged_core<T>(post: ChannelCore<T>, pre: ChannelCore<T>) -> bool {
    &&& post.queue@ == pre.queue@
    &&& post.waiting_recv@ == pre.waiting_recv@
    &&& post.is_closed == pre.is_closed
}

/// Create an unbounded channel in the table, returning its two handles.
pub fn unbounded<T>(table: &mut ChannelTable<T>) -> (r: (Sender<T>, Receiver<T>))
    ensures
        final(table).channels_view().len() == old(table).channels_view().len() + 1,
        forall|k: int|
            0 <= k < old(table).channels_view().len() ==> final(table).channels_view()[k] == old(table).channels_view()[k],
        final(table).channels_view().last().queue@ == Seq::<T>::empty(),
        final(table).channels_view().last().waiting_recv@ == Seq::<u64>::empty(),
        !final(table).channels_view().last().is_closed,
        r.0.key() == old(table).channels_view().len(),
        r.1.key() == old(table).channels_view().len(),
{
    let key = table.channels.len();
    table.channels.push(
        ChannelCore { queue: VecDeque::new(), waiting_recv: VecDeque::new(), is_closed: false },
    );
    proof {
        assert(final(table).channels_view().last().queue@ =~= Seq::<T>::empty());
        assert(final(table).channels_view().last().waiting_recv@ =~= Seq::<u64>::empty());
    }
    (
        Sender { key, marker: core::marker::PhantomData },
        Receiver { key, marker: core::marker::PhantomData },
    )
}

impl<T> Sender<T> {
    /// Enqueue a message, or report the channel closed. On success the
    /// oldest parked receiver's waker comes back, to be scheduled. Sending
    /// never blocks, so a cancelled fiber may still send.
    pub fn send(&self, table: &mut ChannelTable<T>, data: T) -> (r: (
        Result<(), crate::Error<ClosedError>>,
        Option<u64>,
    ))
        requires
            0 <= self.key() < old(table).channels_view().len(),
        ensures
            final(table).channels_view().len() == old(table).channels_view().len(),
            forall|k: int|
                0 <= k < old(table).channels_view().len() && k != self.key() ==> final(table).channels_view()[k] == old(table).channels_view()[k],
            old(table).channels_view()[self.key()].is_closed ==> (r.0 == Result::<
                (),
                crate::Error<ClosedError>,
            >::Err(crate::Error::Original(ClosedError)) && r.1 is None && final(table).channels_view()[self.key()] == old(table).channels_view()[self.key()]),
            !old(table).channels_view()[self.key()].is_closed ==> {
                &&& r.0 == Result::<(), crate::Error<ClosedError>>::Ok(())
                &&& final(table).channels_view()[self.key()].queue@ == old(table).channels_view()[self.key()].queue@.push(data)
                &&& final(table).channels_view()[self.key()].is_closed == old(table).channels_view()[self.key()].is_closed
                &&& (old(table).channels_view()[self.key()].waiting_recv@.len() == 0 ==> (r.1
                    is None && final(table).channels_view()[self.key()].waiting_recv@ == old(table).channels_view()[self.key()].waiting_recv@))
                &&& (old(table).channels_view()[self.key()].waiting_recv@.len() > 0 ==> (r.1
                    == Some(old(table).channels_view()[self.key()].waiting_recv@[0]) && final(table).channels_view()[self.key()].waiting_recv@ == old(table).channels_view()[
                    self.key()
                ].waiting_recv@.drop_first()))
            },
    {
        let core = &mut table.channels[self.key];
        if core.is_closed {
            return (Err(crate::Error::Original(ClosedError)), None);
        }
        core.queue.push_back(data);
        let woken = core.waiting_recv.pop_front();
        (Ok(()), woken)
    }

    /// How many messages wait in the channel.
    pub fn len(&self, table: &ChannelTable<T>) -> (n: usize)
        requires
            0 <= self.key() < table.channels_view().len(),
        ensures
            n == table.channels_view()[self.key()].queue@.len(),
    {
        table.channels[self.key].queue.len()
    }

    /// Whether no message waits in the channel.
    pub fn is_empty(&self, table: &ChannelTable<T>) -> (b: bool)
        requires
            0 <= self.key() < table.channels_view().len(),
        ensures
            b == (table.channels_view()[self.key()].queue@.len() == 0),
    {
        self.len(table) == 0
    }

    /// Close the channel from the sending side, handing back every parked
    /// receiver's waker so all of them can observe the closure.
    pub fn close(&self, table: &mut ChannelTable<T>) -> (woken: Vec<u64>)
        requires
            0 <= self.key() < old(table).channels_view().len(),
        ensures
            final(table).channels_view().len() == old(table).channels_view().len(),
            forall|k: int|
                0 <= k < old(table).channels_view().len() && k != self.key() ==> final(table).channels_view()[k] == old(table).channels_view()[k],
            final(table).channels_view()[self.key()].is_closed,
            final(table).channels_view()[self.key()].queue@ == old(table).channels_view()[
                self.key()
            ].queue@,
            final(table).channels_view()[self.key()].waiting_recv@.len() == 0,
            woken@ == old(table).channels_view()[self.key()].waiting_recv@,
    {
        let core = &mut table.channels[self.key];
        core.is_closed = true;
        let mut woken: Vec<u64> = Vec::new();
        while core.waiting_recv.len() > 0
            invariant
                core.is_closed,
                core.queue@ == old(table).channels_view()[self.key()].queue@,
                woken@ + core.waiting_recv@ == old(table).channels_view()[
                    self.key()
                ].waiting_recv@,
            decreases core.waiting_recv@.len(),
        {
            match core.waiting_recv.pop_front() {
                Some(w) => {
                    woken.push(w);
                    proof {
                        assert(woken@ + core.waiting_recv@ =~= old(table).channels_view()[
                            self.key()
                        ].waiting_recv@);
                    }
                },
                None => {},
            }
        }
        proof {
            assert(woken@ =~= old(table).channels_view()[self.key()].waiting_recv@);
        }
        woken
    }

    /// Whether the channel has been closed.
    pub fn is_closed(&self, table: &ChannelTable<T>) -> (b: bool)
        requires
            0 <= self.key() < table.channels_view().len(),
        ensures
            b == table.channels_view()[self.key()].is_closed,
    {
        table.channels[self.key].is_closed
    }
}

impl<T> Receiver<T> {
    /// One step of receiving: dequeue a message if one waits; report the
    /// closure if the channel is closed and drained; report cancellation
    /// instead of parking when the receiving fiber is cancelled; otherwise
    /// record the waker and park. A message is never consumed on
    /// cancellation.
    pub fn recv_step(&self, table: &mut ChannelTable<T>, cancelled: bool, waker: u64) -> (r:
        RecvStep<T>)
        requires
            0 <= self.key() < old(table).channels_view().len(),
        ensures
            final(table).channels_view().len() == old(table).channels_view().len(),
            forall|k: int|
                0 <= k < old(table).channels_view().len() && k != self.key() ==> final(table).channels_view()[k] == old(table).channels_view()[k],
            old(table).channels_view()[self.key()].queue@.len() > 0 ==> (r == RecvStep::Got(
                old(table).channels_view()[self.key()].queue@[0],
            ) && final(table).channels_view()[self.key()].queue@ == old(table).channels_view()[
                self.key()
            ].queue@.drop_first() && final(table).channels_view()[self.key()].waiting_recv@
                == old(table).channels_view()[self.key()].waiting_recv@ && final(table).channels_view()[self.key()].is_closed == old(table).channels_view()[
                self.key()
            ].is_closed),
            (old(table).channels_view()[self.key()].queue@.len() == 0 && old(table).channels_view()[self.key()].is_closed) ==> (r matches RecvStep::Closed && unchanged_core(
                final(table).channels_view()[self.key()],
                old(table).channels_view()[self.key()],
            )),
            (old(table).channels_view()[self.key()].queue@.len() == 0 && !old(table).channels_view()[self.key()].is_closed && cancelled) ==> (r
                matches RecvStep::Cancelled && unchanged_core(
                final(table).channels_view()[self.key()],
                old(table).channels_view()[self.key()],
            )),
            (old(table).channels_view()[self.key()].queue@.len() == 0 && !old(table).channels_view()[self.key()].is_closed && !cancelled) ==> (r
                matches RecvStep::Parked && final(table).channels_view()[self.key()].queue@
                == old(table).channels_view()[self.key()].queue@ && final(table).channels_view()[self.key()].waiting_recv@ == old(table).channels_view()[
                self.key()
            ].waiting_recv@.push(waker) && final(table).channels_view()[self.key()].is_closed
                == old(table).channels_view()[self.key()].is_closed),
    {
        let core = &mut table.channels[self.key];
        if core.queue.len() > 0 {
            match core.queue.pop_front() {
                Some(m) => RecvStep::Got(m),
                None => RecvStep::Closed,
            }
        } else {
            if core.is_closed {
                RecvStep::Closed
            } else if cancelled {
                RecvStep::Cancelled
            } else {
                core.waiting_recv.push_back(waker);
                RecvStep::Parked
            }
        }
    }

    /// How many messages wait in the channel.
    pub fn len(&self, table: &ChannelTable<T>) -> (n: usize)
        requires
            0 <= self.key() < table.channels_view().len(),
        ensures
            n == table.channels_view()[self.key()].queue@.len(),
    {
        table.channels[self.key].queue.len()
    }

    /// Whether no message waits in the channel.
    pub fn is_empty(&self, table: &ChannelTable<T>) -> (b: bool)
        requires
            0 <= self.key() < table.channels_view().len(),
        ensures
            b == (table.channels_view()[self.key()].queue@.len() == 0),
    {
        self.len(table) == 0
    }

    /// Close the channel from the receiving side, handing back every parked
    /// receiver's waker so all of them can observe the closure. (With one
    /// non-clonable receiver no waker can actually be parked at this
    /// moment, but closing either side owes the same wake-up.)
    pub fn close(&self, table: &mut ChannelTable<T>) -> (woken: Vec<u64>)
        requires
            0 <= self.key() < old(table).channels_view().len(),
        ensures
            final(table).channels_view().len() == old(table).channels_view().len(),
            forall|k: int|
                0 <= k < old(table).channels_view().len() && k != self.key() ==> final(table).channels_view()[k] == old(table).channels_view()[k],
            final(table).channels_view()[self.key()].is_closed,
            final(table).channels_view()[self.key()].queue@ == old(table).channels_view()[
                self.key()
            ].queue@,
            final(table).channels_view()[self.key()].waiting_recv@.len() == 0,
            woken@ == old(table).channels_view()[self.key()].waiting_recv@,
    {
        let core = &mut table.channels[self.key];
        core.is_closed = true;
        let mut woken: Vec<u64> = Vec::new();
        while core.waiting_recv.len() > 0
            invariant
                core.is_closed,
                core.queue@ == old(table).channels_view()[self.key()].queue@,
                woken@ + core.waiting_recv@ == old(table).channels_view()[
                    self.key()
                ].waiting_recv@,
            decreases core.waiting_recv@.len(),
        {
            match core.waiting_recv.pop_front() {
                Some(w) => {
                    woken.push(w);
                    proof {
                        assert(woken@ + core.waiting_recv@ =~= old(table).channels_view()[
                            self.key()
                        ].waiting_recv@);
                    }
                },
                None => {},
            }
        }
        proof {
            assert(woken@ =~= old(table).channels_view()[self.key()].waiting_recv@);
        }
        woken
    }

    /// Whether the channel has been closed.
    pub fn is_closed(&self, table: &ChannelTable<T>) -> (b: bool)
        requires
            0 <= self.key() < table.channels_view().len(),
        ensures
            b == table.channels_view()[self.key()].is_closed,
    {
        table.channels[self.key].is_closed
    }
}

} // verus!
