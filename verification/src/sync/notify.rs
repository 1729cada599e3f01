//! Multi-use notification: an ordered collection of single-use waiters.
//!
//! `waiter` hands out a fresh [`oneshot_notify::Waiter`]; `notify_one`
//! releases the longest-waiting one (FIFO), `notify_all` releases them all.
//! Wakers of waiters that were already parked come back as tokens for the
//! scheduler.

use vstd::prelude::*;
use std::collections::VecDeque;
use crate::sync::oneshot_notify;
use crate::sync::oneshot_notify::NotifyHub;
use crate::sync::oneshot_notify::NotifyState;

verus! {

/// Holds the not-yet-used notifiers, oldest first.
pub struct Notify {
    hub: NotifyHub,
    pending: VecDeque<oneshot_notify::Notifier>,
}

impl Notify {
    /// The notification slots, in creation order.
    pub closed spec fn slots_view(&self) -> Seq<NotifyState> {
        self.hub.slots_view()
    }

    /// Slots of the waiters awaiting a signal, oldest first.
    pub closed spec fn pending_view(&self) -> Seq<oneshot_notify::Notifier> {
        self.pending@
    }

    /// Every pending notifier names a slot that has not been notified yet,
    /// and no slot is pending twice.
    pub open spec fn wf(&self) -> bool {
        &&& (forall|k: int|
            0 <= k < self.pending_view().len() ==> {
                &&& 0 <= (#[trigger] self.pending_view()[k]).key() < self.slots_view().len()
                &&& !(self.slots_view()[self.pending_view()[k].key()]
                    matches NotifyState::Notified)
            })
        &&& (forall|k1: int, k2: int|
            0 <= k1 < k2 < self.pending_view().len()
                ==> #[trigger] self.pending_view()[k1].key()
                != #[trigger] self.pending_view()[k2].key())
    }

    /// A notify with nobody waiting.
    pub fn new() -> (n: Notify)
        ensures
            n.wf(),
            n.pending_view().len() == 0,
            n.slots_view().len() == 0,
    {
        let n = Notify { hub: NotifyHub::new(), pending: VecDeque::new() };
        n
    }

    /// A fresh waiter, appended after every earlier one.
    pub fn waiter(&mut self) -> (w: oneshot_notify::Waiter)
        requires
            old(self).wf(),
        ensures
            final(self).wf(),
            final(self).slots_view() == old(self).slots_view().push(
                NotifyState::NothingHappened,
            ),
            final(self).pending_view().len() == old(self).pending_view().len() + 1,
            forall|k: int|
                0 <= k < old(self).pending_view().len() ==> final(self).pending_view()[k]
                    == old(self).pending_view()[k],
            final(self).pending_view().last().key() == old(self).slots_view().len(),
            w.key() == old(self).slots_view().len(),
    {
        let (notifier, waiter) = oneshot_notify::oneshot_notify(&mut self.hub);
        self.pending.push_back(notifier);
        proof {
            assert forall|k: int|
                0 <= k < self.pending_view().len() implies {
                    &&& 0 <= (#[trigger] self.pending_view()[k]).key() < self.slots_view().len()
                    &&& !(self.slots_view()[self.pending_view()[k].key()]
                        matches NotifyState::Notified)
                } by {
                if k < old(self).pending_view().len() {
                    assert(self.pending_view()[k] == old(self).pending_view()[k]);
                }
            }
            assert forall|k1: int, k2: int|
                0 <= k1 < k2 < self.pending_view().len() implies #[trigger] self.pending_view()[
                    k1
                ].key() != #[trigger] self.pending_view()[k2].key() by {
                if k2 == self.pending_view().len() - 1 {
                    assert(self.pending_view()[k1] == old(self).pending_view()[k1]);
                    assert(old(self).pending_view()[k1].key() < old(self).slots_view().len());
                } else {
                    assert(self.pending_view()[k1] == old(self).pending_view()[k1]);
                    assert(self.pending_view()[k2] == old(self).pending_view()[k2]);
                }
            }
        }
        waiter
    }

    /// Release the longest-waiting waiter, handing back its waker if it had
    /// already parked. Without waiters this does nothing.
    pub fn notify_one(&mut self) -> (woken: Option<u64>)
        requires
            old(self).wf(),
        ensures
            final(self).wf(),
            old(self).pending_view().len() == 0 ==> (woken is None && final(self).pending_view()
                == old(self).pending_view() && final(self).slots_view() == old(self).slots_view()),
            old(self).pending_view().len() > 0 ==> {
                &&& final(self).pending_view() == old(self).pending_view().drop_first()
                &&& final(self).slots_view() == old(self).slots_view().update(
                    old(self).pending_view()[0].key(),
                    NotifyState::Notified,
                )
                &&& woken == match old(self).slots_view()[old(self).pending_view()[0].key()] {
                    NotifyState::Waiting(w) => Some(w),
                    _ => Option::<u64>::None,
                }
            },
    {
        match self.pending.pop_front() {
            Some(notifier) => {
                let ghost popped = old(self).pending_view()[0];
                let woken = notifier.notify(&mut self.hub);
                proof {
                    assert forall|k: int|
                        0 <= k < self.pending_view().len() implies {
                            &&& 0 <= (#[trigger] self.pending_view()[k]).key()
                                < self.slots_view().len()
                            &&& !(self.slots_view()[self.pending_view()[k].key()]
                                matches NotifyState::Notified)
                        } by {
                        assert(self.pending_view()[k] == old(self).pending_view()[k + 1]);
                        assert(old(self).pending_view()[k + 1].key() != popped.key());
                    }
                    assert forall|k1: int, k2: int|
                        0 <= k1 < k2 < self.pending_view().len()
                            implies #[trigger] self.pending_view()[k1].key()
                            != #[trigger] self.pending_view()[k2].key() by {
                        assert(self.pending_view()[k1] == old(self).pending_view()[k1 + 1]);
                        assert(self.pending_view()[k2] == old(self).pending_view()[k2 + 1]);
                    }
                }
                woken
            },
            None => None,
        }
    }

    /// Release every waiter: each pending slot is notified, and the wakers
    /// of all waiters that had already parked come back to be scheduled.
    pub fn notify_all(&mut self) -> (woken: Vec<u64>)
        requires
            old(self).wf(),
        ensures
            final(self).wf(),
            final(self).pending_view().len() == 0,
            forall|k: int|
                0 <= k < old(self).pending_view().len() ==> final(self).slots_view()[
                    (#[trigger] old(self).pending_view()[k]).key()
                ] matches NotifyState::Notified,
            forall|k: int|
                0 <= k < old(self).pending_view().len() ==> (old(self).slots_view()[
                    (#[trigger] old(self).pending_view()[k]).key()
                ] matches NotifyState::Waiting(w) ==> woken@.contains(w)),
    {
        let mut woken: Vec<u64> = Vec::new();
        while self.pending.len() > 0
            invariant
                old(self).wf(),
                self.wf(),
                self.slots_view().len() == old(self).slots_view().len(),
                self.pending_view().len() <= old(self).pending_view().len(),
                self.pending_view() == old(self).pending_view().skip(
                    old(self).pending_view().len() - self.pending_view().len(),
                ),
                forall|k: int|
                    0 <= k < old(self).pending_view().len() - self.pending_view().len()
                        ==> self.slots_view()[
                        (#[trigger] old(self).pending_view()[k]).key()
                    ] matches NotifyState::Notified,
                forall|k: int|
                    old(self).pending_view().len() - self.pending_view().len() <= k < old(
                        self,
                    ).pending_view().len() ==> self.slots_view()[
                        (#[trigger] old(self).pending_view()[k]).key()
                    ] == old(self).slots_view()[old(self).pending_view()[k].key()],
                forall|k: int|
                    0 <= k < old(self).pending_view().len() - self.pending_view().len()
                        ==> (old(self).slots_view()[
                        (#[trigger] old(self).pending_view()[k]).key()
                    ] matches NotifyState::Waiting(w) ==> woken@.contains(w)),
            decreases self.pending_view().len(),
        {
            let ghost done = old(self).pending_view().len() - self.pending_view().len();
            let ghost before = *self;
            let ghost woken_before = woken@;
            match self.notify_one() {
                Some(w) => {
                    woken.push(w);
                },
                None => {},
            }
            proof {
                assert(before.pending_view() == old(self).pending_view().skip(done));
                assert(0 <= done && done + before.pending_view().len() == old(
                    self,
                ).pending_view().len());
                assert(before.pending_view()[0] == old(self).pending_view().skip(done)[0]);
                assert(old(self).pending_view().skip(done)[0] == old(self).pending_view()[
                    done
                ]);
                assert(self.pending_view() =~= old(self).pending_view().skip(done + 1)) by {
                    assert forall|x: int|
                        0 <= x < self.pending_view().len() implies self.pending_view()[x]
                        == old(self).pending_view()[done + 1 + x] by {
                        assert(self.pending_view()[x] == before.pending_view()[x + 1]);
                        assert(before.pending_view()[x + 1] == old(self).pending_view().skip(
                            done,
                        )[x + 1]);
                    }
                }
                assert(before.pending_view().len() > 0);
                assert(self.slots_view() == before.slots_view().update(
                    before.pending_view()[0].key(),
                    NotifyState::Notified,
                ));
                assert forall|k: int|
                    0 <= k < done + 1 implies self.slots_view()[
                    (#[trigger] old(self).pending_view()[k]).key()
                ] matches NotifyState::Notified by {
                    if k < done {
                        assert(old(self).pending_view()[k].key() != old(self).pending_view()[
                            done
                        ].key());
                        assert(0 <= old(self).pending_view()[k].key() < old(
                            self,
                        ).slots_view().len());
                        assert(before.slots_view().len() == old(self).slots_view().len());
                        assert(before.slots_view()[old(self).pending_view()[k].key()]
                            matches NotifyState::Notified);
                    } else {
                        assert(before.pending_view()[0].key() == old(self).pending_view()[
                            done
                        ].key());
                        assert(0 <= before.pending_view()[0].key()
                            < before.slots_view().len());
                        assert(self.slots_view()[before.pending_view()[0].key()]
                            matches NotifyState::Notified);
                    }
                }
                assert forall|k: int|
                    0 <= k < done + 1 implies (old(self).slots_view()[
                    (#[trigger] old(self).pending_view()[k]).key()
                ] matches NotifyState::Waiting(w) ==> woken@.contains(w)) by {
                    match old(self).slots_view()[old(self).pending_view()[k].key()] {
                        NotifyState::Waiting(w) => {
                            if k < done {
                                assert(woken_before.contains(w));
                                let i0 = choose|i0: int|
                                    0 <= i0 < woken_before.len() && woken_before[i0] == w;
                                assert(woken@[i0] == w);
                                assert(woken@.contains(w));
                            } else {
                                assert(before.slots_view()[before.pending_view()[0].key()]
                                    == old(self).slots_view()[old(self).pending_view()[
                                    done
                                ].key()]);
                                assert(woken@.last() == w);
                                assert(woken@.contains(w));
                            }
                        },
                        _ => {},
                    }
                }
                assert forall|k: int|
                    done + 1 <= k < old(self).pending_view().len() implies self.slots_view()[
                    (#[trigger] old(self).pending_view()[k]).key()
                ] == old(self).slots_view()[old(self).pending_view()[k].key()] by {
                    assert(old(self).pending_view()[k].key() != old(self).pending_view()[
                        done
                    ].key()) by {
                        assert(old(self).pending_view()[done] == before.pending_view()[0]);
                    }
                    assert(0 <= old(self).pending_view()[k].key() < old(
                        self,
                    ).slots_view().len());
                    assert(before.slots_view().len() == old(self).slots_view().len());
                    assert(before.slots_view()[old(self).pending_view()[k].key()] == old(
                        self,
                    ).slots_view()[old(self).pending_view()[k].key()]);
                }
            }
        }
        woken
    }

    /// Poll one of this notify's waiters: true when it was released;
    /// otherwise its waker token is recorded and the caller should park.
    pub fn poll(&mut self, waiter: &oneshot_notify::Waiter, waker: u64) -> (ready: bool)
        requires
            old(self).wf(),
            0 <= waiter.key() < old(self).slots_view().len(),
        ensures
            final(self).wf(),
            final(self).pending_view() == old(self).pending_view(),
            ready == (old(self).slots_view()[waiter.key()] matches NotifyState::Notified),
    {
        let ready = waiter.poll(&mut self.hub, waker);
        proof {
            if !(old(self).slots_view()[waiter.key()] matches NotifyState::Notified) {
                assert forall|k: int|
                    0 <= k < self.pending_view().len() implies {
                        &&& 0 <= (#[trigger] self.pending_view()[k]).key()
                            < self.slots_view().len()
                        &&& !(self.slots_view()[self.pending_view()[k].key()]
                            matches NotifyState::Notified)
                    } by {
                    assert(!(old(self).slots_view()[old(self).pending_view()[k].key()]
                        matches NotifyState::Notified));
                }
            }
        }
        ready
    }
}

} // verus!
