//! The fiber scheduler and the bookkeeping of the syscall bridge.
//!
//! A fiber is a unit of cooperative concurrency. The [`Runtime`] here is the
//! complete decision state of one scheduler instance: the fiber table with
//! parent/child structure, join-handle state and cancellation flags, the FIFO
//! ready queue, the running fiber, and the pool of reusable stacks. Every
//! scheduling decision of the runtime - what `spawn`, `yield_now`, `park`,
//! `cancel`, joining and the completion dispatcher do to this state - is a
//! verified operation of this module.
//!
//! What is *not* here is the machinery those decisions drive: allocating and
//! switching the actual stacks, and submitting entries to the kernel ring.
//! An unverified shell owns that machinery, keyed by the fiber indices and
//! user-data tags this module hands out, and consults this state machine at
//! every step.

use vstd::prelude::*;
use std::collections::VecDeque;

verus! {

/// The user-data tag reserved for asynchronous-cancel submissions; the
/// completion carrying it is discarded by the dispatcher.
pub const CANCEL_USER_DATA: u64 = u64::MAX;

/// The operating system's "operation cancelled" error number.
pub const ECANCELED: i32 = 125;

/// What a fiber's join handle is doing.
pub enum JoinHandleState {
    /// No fiber has tried to join yet.
    Unused,
    /// The fiber with this index parked awaiting the target's completion.
    Waiting(usize),
    /// The handle was dropped; nobody will read the output.
    Dropped,
}

/// Per-fiber state: tree structure, join state, pending syscall result and
/// flags. The stack region and saved continuation that belong to the fiber
/// live in the unverified shell, keyed by the fiber's index; `has_stack`
/// records whether they are still attached.
pub struct FiberState {
    /// The spawning fiber, `None` for the root.
    pub parent: Option<usize>,
    /// Live children, each element distinct.
    pub children: Vec<usize>,
    /// State of the one join handle for this fiber.
    pub join_handle: JoinHandleState,
    /// Result of the in-flight syscall, once its completion arrived.
    pub syscall_result: Option<i32>,
    /// The fiber's closure has returned or panicked.
    pub is_completed: bool,
    /// The fiber was cancelled (advisory; observed at suspension points).
    pub is_cancelled: bool,
    /// The closure ended by panicking.
    pub panicked: bool,
    /// The fiber still owns its stack region.
    pub has_stack: bool,
    /// Distance from the root of the spawn tree; used to reason about
    /// descendants.
    pub depth: Ghost<nat>,
}

/// The complete decision state of one runtime instance.
pub struct Runtime {
    fibers: Vec<Option<FiberState>>,
    ready: VecDeque<usize>,
    running: Option<usize>,
    stack_pool: usize,
}

/// Handle for joining or cancelling a fiber.
pub struct JoinHandle {
    fiber: usize,
}

/// Handle for scheduling a parked fiber: a single-use token bound to it.
pub struct Waker {
    fiber: usize,
}

/// First phase of joining: what the joiner must do next.
pub enum JoinPoll {
    /// The target already completed; read its output.
    Output,
    /// The joiner is cancelled and the target is not: give up with a
    /// cancellation error.
    Cancelled,
    /// A waiter was installed; park until the target completes or the joiner
    /// is cancelled.
    Park,
}

/// Second phase of joining, after the joiner was woken.
pub enum JoinWake {
    /// The target completed; read its output.
    Output,
    /// The joiner was cancelled while the target was not: give up with a
    /// cancellation error.
    Cancelled,
    /// Joiner and target are both cancelled: park once more until the target
    /// completes.
    ParkUntilCompletion,
}

/// What the running fiber must do when it wakes from a syscall park.
pub enum SyscallWake {
    /// The completion arrived; this is its raw result, consumed from the
    /// fiber's slot.
    Done(i32),
    /// No result yet and the fiber is cancelled: submit an asynchronous
    /// cancel for the in-flight operation carrying this user data, then
    /// park again until its completion arrives.
    CancelInFlight(u64),
}

impl Waker {
    /// The fiber this token is bound to.
    pub closed spec fn fiber(&self) -> int {
        self.fiber as int
    }
}

impl JoinHandle {
    /// The fiber this handle refers to.
    pub closed spec fn fiber(&self) -> int {
        self.fiber as int
    }
}

impl Runtime {
    /// The fiber table: a slot per index, `None` where a fiber was removed.
    pub closed spec fn fibers_view(&self) -> Seq<Option<FiberState>> {
        self.fibers@
    }

    /// The ready queue, head first.
    pub closed spec fn ready_q(&self) -> Seq<usize> {
        self.ready@
    }

    /// The running fiber, if any.
    pub closed spec fn running_fiber(&self) -> Option<usize> {
        self.running
    }

    /// How many reusable stacks the pool holds.
    pub closed spec fn pool(&self) -> int {
        self.stack_pool as int
    }

    /// Index `i` names an existing fiber.
    pub open spec fn live(&self, i: int) -> bool {
        0 <= i < self.fibers_view().len() && self.fibers_view()[i] is Some
    }

    /// The fiber at index `i`.
    pub open spec fn fiber(&self, i: int) -> FiberState
        recommends
            self.live(i),
    {
        self.fibers_view()[i].unwrap()
    }

    /// Well-formedness of the whole scheduler state:
    /// - the running index and every ready-queue entry name live fibers;
    /// - the ready queue holds no duplicates;
    /// - every child list names live fibers whose parent pointer returns to
    ///   the owner, each one spawn-tree level below the owner, and is free
    ///   of duplicates (a fiber that has detached from its parent keeps its
    ///   parent index, but is no longer listed there);
    /// - a completed fiber whose stack was reclaimed has no children left.
    pub open spec fn wf(&self) -> bool {
        &&& (self.running_fiber() matches Some(r) ==> self.live(r as int))
        &&& (forall|k: int|
            0 <= k < self.ready_q().len() ==> self.live(#[trigger] self.ready_q()[k] as int))
        &&& (forall|k1: int, k2: int|
            0 <= k1 < k2 < self.ready_q().len() ==> self.ready_q()[k1] != self.ready_q()[k2])
        &&& (forall|i: int, k: int|
            self.live(i) && 0 <= k < self.fiber(i).children@.len() ==> {
                let c = #[trigger] self.fiber(i).children@[k] as int;
                &&& self.live(c)
                &&& self.fiber(c).parent == Some(i as usize)
            })
        &&& (forall|i: int, k1: int, k2: int|
            self.live(i) && 0 <= k1 < k2 < self.fiber(i).children@.len()
                ==> #[trigger] self.fiber(i).children@[k1]
                != #[trigger] self.fiber(i).children@[k2])
        &&& (forall|i: int, k: int|
            self.live(i) && 0 <= k < self.fiber(i).children@.len() ==> self.fiber(
                (#[trigger] self.fiber(i).children@[k]) as int,
            ).depth@ == self.fiber(i).depth@ + 1)
        &&& (forall|i: int|
            #[trigger] self.live(i) && self.fiber(i).is_completed && !self.fiber(i).has_stack
                ==> self.fiber(i).children@.len() == 0)
    }

    /// A fresh runtime: no fibers, nothing ready, nothing running, an empty
    /// stack pool.
    pub fn new() -> (rt: Runtime)
        ensures
            rt.wf(),
            rt.fibers_view().len() == 0,
            rt.ready_q() == Seq::<usize>::empty(),
            rt.running_fiber() is None,
            rt.pool() == 0,
    {
        let rt = Runtime {
            fibers: Vec::new(),
            ready: VecDeque::new(),
            running: None,
            stack_pool: 0,
        };
        proof {
            assert(rt.ready_q() =~= Seq::<usize>::empty());
        }
        rt
    }

    /// Create a fiber slot: reuse a pooled stack if one is available (the
    /// shell otherwise allocates a fresh one), pick the lowest free index or
    /// grow the table, and initialize the fiber's state. The new fiber
    /// starts with the given cancellation flag, no parent, no children, an
    /// unused join handle, and its stack attached.
    pub fn create_fiber(&mut self, is_cancelled: bool) -> (i: usize)
        requires
            old(self).wf(),
        ensures
            final(self).wf(),
            !old(self).live(i as int),
            i as int <= old(self).fibers_view().len(),
            final(self).live(i as int),
            final(self).fiber(i as int).parent is None,
            final(self).fiber(i as int).children@.len() == 0,
            final(self).fiber(i as int).join_handle matches JoinHandleState::Unused,
            final(self).fiber(i as int).syscall_result is None,
            !final(self).fiber(i as int).is_completed,
            final(self).fiber(i as int).is_cancelled == is_cancelled,
            !final(self).fiber(i as int).panicked,
            final(self).fiber(i as int).has_stack,
            final(self).fiber(i as int).depth@ == 0,
            final(self).fibers_view().len() == if i as int == old(self).fibers_view().len() {
                old(self).fibers_view().len() + 1
            } else {
                old(self).fibers_view().len()
            },
            forall|j: int|
                0 <= j < old(self).fibers_view().len() && j != i as int
                    ==> final(self).fibers_view()[j] == old(self).fibers_view()[j],
            final(self).ready_q() == old(self).ready_q(),
            final(self).running_fiber() == old(self).running_fiber(),
            final(self).pool() == if old(self).pool() > 0 {
                old(self).pool() - 1
            } else {
                old(self).pool()
            },
    {
        if self.stack_pool > 0 {
            // Reuse a pooled stack region instead of mapping a new one.
            self.stack_pool = self.stack_pool - 1;
        }

        let state = FiberState {
            parent: None,
            children: Vec::new(),
            join_handle: JoinHandleState::Unused,
            syscall_result: None,
            is_completed: false,
            is_cancelled,
            panicked: false,
            has_stack: true,
            depth: Ghost(0),
        };

        let i = find_free_slot(&self.fibers);
        if i == self.fibers.len() {
            self.fibers.push(Some(state));
        } else {
            self.fibers[i] = Some(state);
        }

        proof {
            lemma_wf_after_slot_change(*old(self), *self, i as int);
        }
        i
    }

    /// How many stacks the pool holds right now.
    pub fn stack_pool_len(&self) -> (n: usize)
        ensures
            n as int == self.pool(),
    {
        self.stack_pool
    }

    /// The containment boundary for propagating cancellation: the root fiber.
    pub fn nearest_contained(&self, _fiber: usize) -> (r: usize)
        ensures
            r == 0,
    {
        0
    }

    /// Set the cancelled flag on `root` and on every fiber of its attached
    /// subtree, scheduling each newly cancelled fiber other than the running
    /// one so it can observe the flag. A fiber that already carries the flag
    /// - cancelled earlier, or completed, which pre-sets it - is not
    /// re-scheduled, but the walk still descends below it: a completed
    /// fiber waiting for its children must not hide them from cancellation.
    pub fn cancel(&mut self, root: usize)
        requires
            old(self).wf(),
            old(self).live(root as int),
            old(self).running_fiber() is Some,
        ensures
            final(self).wf(),
            cancel_spec(*old(self), *final(self), root as int),
        decreases old(self).max_depth() + 1 - old(self).fiber(root as int).depth@, 0int,
    {
        let ghost entry = *self;
        proof {
            lemma_live_depth_le_max(entry, root as int);
        }

        let already = self.fibers[root].as_ref().unwrap().is_cancelled;
        if !already && root != self.running.unwrap() {
            let waker = Waker { fiber: root };
            waker.schedule(self);
        }

        let ghost scheduled = *self;
        if let Some(f) = &mut self.fibers[root] {
            f.is_cancelled = true;
        }
        proof {
            assert(self.fibers_view() =~= scheduled.fibers_view().update(
                root as int,
                Some(FiberState { is_cancelled: true, ..scheduled.fiber(root as int) }),
            ));
            lemma_wf_after_cancel_flag(scheduled, *self, root as int);
            lemma_cancel_step_refl(*self);
            lemma_max_depth_same(entry, *self);
        }

        let children = clone_indices(&self.fibers[root].as_ref().unwrap().children);
        let ghost after_flag = *self;

        self.cancel_children(&children, 0, Ghost((entry.fiber(root as int).depth@ + 1) as nat));

        proof {
            lemma_cancel_compose(entry, scheduled, after_flag, after_flag, root);
            lemma_cancel_compose(entry, scheduled, after_flag, *self, root);

            let fin = *self;
            // Everything in the root's attached subtree ends up flagged.
            assert forall|i: int| in_subtree(entry, root as int, i) implies final_cancelled(
                fin,
                i,
            ) by {
                if i != root as int {
                    lemma_subtree_through_child(entry, root as int, i);
                    let k = choose|k: int|
                        0 <= k < entry.fiber(root as int).children@.len() && in_subtree(
                            entry,
                            (#[trigger] entry.fiber(root as int).children@[k]) as int,
                            i,
                        );
                    let c = entry.fiber(root as int).children@[k] as int;
                    assert(children@[k] == entry.fiber(root as int).children@[k]);
                    lemma_in_subtree_step(entry, after_flag, c, i);
                    assert(final_cancelled(fin, i));
                }
            }
            // Only fibers of that subtree got flagged.
            assert forall|i: int|
                entry.live(i) && !entry.fiber(i).is_cancelled && #[trigger] fin.fiber(
                    i,
                ).is_cancelled implies in_subtree(entry, root as int, i) by {
                if i != root as int {
                    assert(!after_flag.fiber(i).is_cancelled);
                    let k = choose|k: int|
                        0 <= k < children@.len() && in_subtree(
                            after_flag,
                            #[trigger] children@[k] as int,
                            i,
                        );
                    lemma_in_subtree_unstep(entry, after_flag, children@[k] as int, i);
                    let c = children@[k] as int;
                    assert(c != root as int);
                    lemma_subtree_extend(entry, root as int, c, i);
                }
            }
            assert(cancel_spec(entry, fin, root as int));
        }
    }

    /// Cancel every fiber named in `children[from..]`: live fibers that all
    /// sit at spawn-tree level `level`.
    fn cancel_children(&mut self, children: &Vec<usize>, from: usize, level: Ghost<nat>)
        requires
            old(self).wf(),
            old(self).running_fiber() is Some,
            from <= children@.len(),
            forall|j: int|
                from <= j < children@.len() ==> old(self).live(#[trigger] children@[j] as int)
                    && old(self).fiber(children@[j] as int).depth@ == level@,
        ensures
            final(self).wf(),
            cancel_step(*old(self), *final(self)),
            forall|j: int, i: int|
                from <= j < children@.len() && #[trigger] in_subtree(
                    *old(self),
                    children@[j] as int,
                    i,
                ) ==> final_cancelled(*final(self), i),
            forall|i: int|
                old(self).live(i) && !old(self).fiber(i).is_cancelled && #[trigger] final(self).fiber(i).is_cancelled ==> exists|j: int|
                    from <= j < children@.len() && in_subtree(
                        *old(self),
                        #[trigger] children@[j] as int,
                        i,
                    ),
        decreases old(self).max_depth() + 1 - level@, children@.len() - from + 1,
    {
        proof {
            lemma_cancel_step_refl(*self);
        }
        if from == children.len() {
            return;
        }
        let c = children[from];
        let ghost entry = *self;
        proof {
            lemma_live_depth_le_max(entry, c as int);
        }
        self.cancel(c);
        let ghost mid = *self;
        proof {
            lemma_max_depth_same(entry, mid);
        }
        self.cancel_children(children, from + 1, level);
        proof {
            lemma_cancel_step_trans(entry, mid, *self);

            // Everything in a handled sibling's subtree ends up flagged.
            assert forall|j: int, i: int|
                from <= j < children@.len() && #[trigger] in_subtree(
                    entry,
                    children@[j] as int,
                    i,
                ) implies final_cancelled(*self, i) by {
                if j == from {
                    assert(final_cancelled(mid, i));
                } else {
                    lemma_in_subtree_step(entry, mid, children@[j] as int, i);
                    assert(final_cancelled(*self, i));
                }
            }

            // Anything newly flagged lies in a handled sibling's subtree.
            assert forall|i: int|
                entry.live(i) && !entry.fiber(i).is_cancelled && #[trigger] self.fiber(
                    i,
                ).is_cancelled implies exists|j: int|
                from <= j < children@.len() && in_subtree(
                    entry,
                    #[trigger] children@[j] as int,
                    i,
                ) by {
                if mid.fiber(i).is_cancelled {
                    assert(in_subtree(entry, c as int, i));
                    assert(children@[from as int] == c);
                } else {
                    let j = choose|j: int|
                        from + 1 <= j < children@.len() && in_subtree(
                            mid,
                            #[trigger] children@[j] as int,
                            i,
                        );
                    lemma_in_subtree_unstep(entry, mid, children@[j] as int, i);
                }
            }
        }
    }

    /// The deepest spawn-tree level any live fiber sits at; cancellation
    /// descends the tree one level per step, so this bounds its walk.
    pub closed spec fn max_depth(&self) -> nat {
        max_depth_in(self.fibers_view(), self.fibers_view().len() as int)
    }

}

/// How a single `cancel` call may change the state: the table keeps its
/// shape, every per-fiber field but the cancelled flag is untouched, the
/// flag only ever turns on, and the ready queue is only appended to, each
/// appended entry being a fiber the call newly cancelled - and never the
/// running fiber, which needs no waking to observe its own flag.
pub open spec fn cancel_step(pre: Runtime, post: Runtime) -> bool {
    &&& post.fibers_view().len() == pre.fibers_view().len()
    &&& (forall|i: int| post.live(i) <==> pre.live(i))
    &&& (forall|i: int|
        #[trigger] pre.live(i) ==> {
            &&& post.fiber(i).parent == pre.fiber(i).parent
            &&& post.fiber(i).children == pre.fiber(i).children
            &&& post.fiber(i).join_handle == pre.fiber(i).join_handle
            &&& post.fiber(i).syscall_result == pre.fiber(i).syscall_result
            &&& post.fiber(i).is_completed == pre.fiber(i).is_completed
            &&& post.fiber(i).panicked == pre.fiber(i).panicked
            &&& post.fiber(i).has_stack == pre.fiber(i).has_stack
            &&& post.fiber(i).depth == pre.fiber(i).depth
            &&& (pre.fiber(i).is_cancelled ==> post.fiber(i).is_cancelled)
        })
    &&& post.running_fiber() == pre.running_fiber()
    &&& post.pool() == pre.pool()
    &&& pre.ready_q().is_prefix_of(post.ready_q())
    &&& (forall|k: int|
        pre.ready_q().len() <= k < post.ready_q().len() ==> {
            let f = #[trigger] post.ready_q()[k] as int;
            &&& pre.live(f)
            &&& !pre.fiber(f).is_cancelled
            &&& post.fiber(f).is_cancelled
            &&& pre.running_fiber() != Some(post.ready_q()[k])
        })
}

/// Full contract of `cancel`: a [`cancel_step`] that flags the root and,
/// in both directions, exactly the root's attached subtree - every fiber
/// of the subtree carries the flag afterwards, and nothing outside the
/// subtree is newly flagged.
pub open spec fn cancel_spec(pre: Runtime, post: Runtime, root: int) -> bool {
    &&& cancel_step(pre, post)
    &&& post.fiber(root).is_cancelled
    &&& (forall|i: int| in_subtree(pre, root, i) ==> final_cancelled(post, i))
    &&& (forall|i: int|
        pre.live(i) && !pre.fiber(i).is_cancelled && #[trigger] post.fiber(i).is_cancelled
            ==> in_subtree(pre, root, i))
}

/// In `post`, fiber `i` carries the cancelled flag.
pub open spec fn final_cancelled(post: Runtime, i: int) -> bool {
    post.live(i) && post.fiber(i).is_cancelled
}

/// Fiber `i` belongs to the subtree rooted at `root`: it is the root
/// itself, or it is still attached, through a chain of parent links, to
/// the root. (A fiber that has already detached from its parent has left
/// the tree; its parent index remains only as a record.)
pub open spec fn in_subtree(s: Runtime, root: int, i: int) -> bool
    decreases s.fiber(i).depth@,
{
    if i == root {
        true
    } else if s.live(i) {
        match s.fiber(i).parent {
            Some(p) => {
                &&& s.live(p as int)
                &&& s.fiber(p as int).children@.contains(i as usize)
                &&& s.fiber(p as int).depth@ < s.fiber(i).depth@
                &&& in_subtree(s, root, p as int)
            },
            None => false,
        }
    } else {
        false
    }
}

/// The fiber table is a vector, so indices of live fibers fit in `usize`.
proof fn proof_fibers_len_bound(s: Runtime)
    ensures
        s.fibers_view().len() <= usize::MAX,
{
    vstd::std_specs::vec::axiom_spec_len(&s.fibers);
}

/// Subtree membership is untouched by a cancellation step: only flags and
/// the ready queue move, never the tree structure.
proof fn lemma_in_subtree_step(pre: Runtime, post: Runtime, root: int, i: int)
    requires
        cancel_step(pre, post),
        in_subtree(pre, root, i),
    ensures
        in_subtree(post, root, i),
    decreases pre.fiber(i).depth@,
{
    if i != root {
        let p = pre.fiber(i).parent.unwrap() as int;
        assert(pre.live(i));
        assert(post.fiber(i).parent == pre.fiber(i).parent);
        assert(post.fiber(p).children == pre.fiber(p).children);
        assert(post.fiber(p).depth == pre.fiber(p).depth);
        assert(post.fiber(i).depth == pre.fiber(i).depth);
        lemma_in_subtree_step(pre, post, root, p);
    }
}

/// The same, read backwards across the step.
proof fn lemma_in_subtree_unstep(pre: Runtime, post: Runtime, root: int, i: int)
    requires
        cancel_step(pre, post),
        in_subtree(post, root, i),
    ensures
        in_subtree(pre, root, i),
    decreases post.fiber(i).depth@,
{
    if i != root {
        let p = post.fiber(i).parent.unwrap() as int;
        assert(pre.live(i));
        assert(post.fiber(i).parent == pre.fiber(i).parent);
        assert(post.fiber(p).children == pre.fiber(p).children);
        assert(post.fiber(p).depth == pre.fiber(p).depth);
        assert(post.fiber(i).depth == pre.fiber(i).depth);
        lemma_in_subtree_unstep(pre, post, root, p);
    }
}

/// A member of an attached child's subtree belongs to the parent's subtree.
proof fn lemma_subtree_extend(s: Runtime, above: int, c: int, i: int)
    requires
        in_subtree(s, c, i),
        s.live(c),
        s.live(above),
        s.fiber(c).parent == Some(above as usize),
        s.fiber(above).children@.contains(c as usize),
        s.fiber(above).depth@ < s.fiber(c).depth@,
        above != c,
    ensures
        in_subtree(s, above, i),
    decreases s.fiber(i).depth@,
{
    proof_fibers_len_bound(s);
    if i == c {
        assert(in_subtree(s, above, above));
        assert(in_subtree(s, above, c));
    } else {
        let p = s.fiber(i).parent.unwrap() as int;
        lemma_subtree_extend(s, above, c, p);
        assert(in_subtree(s, above, i));
    }
}

/// A strict subtree member is reached through one of the root's direct
/// children, and its chain below that child is a chain of the child's own
/// subtree.
proof fn lemma_subtree_through_child(s: Runtime, root: int, i: int)
    requires
        in_subtree(s, root, i),
        i != root,
        s.live(root),
    ensures
        exists|k: int|
            0 <= k < s.fiber(root).children@.len() && in_subtree(
                s,
                (#[trigger] s.fiber(root).children@[k]) as int,
                i,
            ),
    decreases s.fiber(i).depth@,
{
    proof_fibers_len_bound(s);
    let p = s.fiber(i).parent.unwrap() as int;
    if p == root {
        let k = choose|k: int|
            0 <= k < s.fiber(root).children@.len() && s.fiber(root).children@[k] == (
            i as usize);
        assert((s.fiber(root).children@[k] as int) == i);
        assert(in_subtree(s, s.fiber(root).children@[k] as int, i));
    } else {
        lemma_subtree_through_child(s, root, p);
        let k = choose|k: int|
            0 <= k < s.fiber(root).children@.len() && in_subtree(
                s,
                (#[trigger] s.fiber(root).children@[k]) as int,
                p,
            );
        let c = s.fiber(root).children@[k] as int;
        assert(in_subtree(s, c, p));
        assert(in_subtree(s, c, i));
    }
}

spec fn max_depth_in(fibers: Seq<Option<FiberState>>, n: int) -> nat
    decreases n,
{
    if n <= 0 {
        0
    } else {
        let rest = max_depth_in(fibers, n - 1);
        match fibers[n - 1] {
            Some(f) => if f.depth@ > rest {
                f.depth@
            } else {
                rest
            },
            None => rest,
        }
    }
}

proof fn lemma_live_depth_le_max_in(fibers: Seq<Option<FiberState>>, n: int, i: int)
    requires
        0 <= i < n,
        fibers[i] is Some,
    ensures
        fibers[i].unwrap().depth@ <= max_depth_in(fibers, n),
    decreases n,
{
    if i < n - 1 {
        lemma_live_depth_le_max_in(fibers, n - 1, i);
    }
}

/// A live fiber's level never exceeds the deepest level.
proof fn lemma_live_depth_le_max(s: Runtime, i: int)
    requires
        s.live(i),
    ensures
        s.fiber(i).depth@ <= s.max_depth(),
{
    lemma_live_depth_le_max_in(s.fibers_view(), s.fibers_view().len() as int, i);
}

proof fn lemma_max_depth_same_in(
    f1: Seq<Option<FiberState>>,
    f2: Seq<Option<FiberState>>,
    n: int,
)
    requires
        forall|j: int|
            0 <= j < n ==> ((#[trigger] f2[j]) is Some == f1[j] is Some && (f1[j] is Some
                ==> f2[j].unwrap().depth == f1[j].unwrap().depth)),
    ensures
        max_depth_in(f2, n) == max_depth_in(f1, n),
    decreases n,
{
    if n > 0 {
        lemma_max_depth_same_in(f1, f2, n - 1);
    }
}

/// Flag changes leave every fiber's level - and so the deepest level -
/// alone.
proof fn lemma_max_depth_same(pre: Runtime, post: Runtime)
    requires
        post.fibers_view().len() == pre.fibers_view().len(),
        forall|i: int| post.live(i) <==> pre.live(i),
        forall|i: int| #[trigger] pre.live(i) ==> post.fiber(i).depth == pre.fiber(i).depth,
    ensures
        post.max_depth() == pre.max_depth(),
{
    assert forall|j: int|
        0 <= j < pre.fibers_view().len() implies ((#[trigger] post.fibers_view()[j]) is Some
        == pre.fibers_view()[j] is Some && (pre.fibers_view()[j] is Some
        ==> post.fibers_view()[j].unwrap().depth == pre.fibers_view()[j].unwrap().depth)) by {
        assert(post.live(j) == pre.live(j));
        if pre.live(j) {
            assert(post.fiber(j).depth == pre.fiber(j).depth);
        }
    }
    lemma_max_depth_same_in(
        pre.fibers_view(),
        post.fibers_view(),
        pre.fibers_view().len() as int,
    );
}

/// `cancel_step` is reflexive: doing nothing is an allowed cancellation step.
proof fn lemma_cancel_step_refl(s: Runtime)
    ensures
        cancel_step(s, s),
{
    assert(s.ready_q().subrange(0, s.ready_q().len() as int) =~= s.ready_q());
}

/// `cancel_step` composes.
proof fn lemma_cancel_step_trans(a: Runtime, b: Runtime, c: Runtime)
    requires
        cancel_step(a, b),
        cancel_step(b, c),
    ensures
        cancel_step(a, c),
{
    let qa = a.ready_q();
    let qb = b.ready_q();
    let qc = c.ready_q();
    assert(qa =~= qc.subrange(0, qa.len() as int)) by {
        assert forall|i: int| 0 <= i < qa.len() implies qa[i] == qc[i] by {
            assert(qa[i] == qb.subrange(0, qa.len() as int)[i]);
            assert(qb[i] == qc.subrange(0, qb.len() as int)[i]);
        }
    }
    assert forall|k: int| qa.len() <= k < qc.len() implies {
        let f = #[trigger] qc[k] as int;
        &&& a.live(f)
        &&& !a.fiber(f).is_cancelled
        &&& c.fiber(f).is_cancelled
        &&& a.running_fiber() != Some(qc[k])
    } by {
        let f = qc[k] as int;
        if k < qb.len() {
            assert(qb[k] == qc.subrange(0, qb.len() as int)[k]);
            assert(b.live(f));
        } else {
            assert(b.live(f));
            assert(b.running_fiber() != Some(qc[k]));
        }
    }
}

/// Stitch `cancel`'s scheduling and flagging phases into one step whose
/// root ends up flagged.
proof fn lemma_cancel_compose(
    entry: Runtime,
    scheduled: Runtime,
    after_flag: Runtime,
    end: Runtime,
    root: usize,
)
    requires
        entry.wf(),
        entry.live(root as int),
        scheduled.fibers_view() == entry.fibers_view(),
        scheduled.running_fiber() == entry.running_fiber(),
        scheduled.pool() == entry.pool(),
        scheduled.ready_q() == if entry.fiber(root as int).is_cancelled || entry.ready_q().contains(root) || Some(root) == entry.running_fiber() {
            entry.ready_q()
        } else {
            entry.ready_q().push(root)
        },
        after_flag.fibers_view() == scheduled.fibers_view().update(
            root as int,
            Some(FiberState { is_cancelled: true, ..scheduled.fiber(root as int) }),
        ),
        after_flag.ready_q() == scheduled.ready_q(),
        after_flag.running_fiber() == scheduled.running_fiber(),
        after_flag.pool() == scheduled.pool(),
        cancel_step(after_flag, end),
    ensures
        cancel_step(entry, end),
        end.fiber(root as int).is_cancelled,
{
    assert(entry.ready_q().is_prefix_of(after_flag.ready_q())) by {
        if !(entry.fiber(root as int).is_cancelled || entry.ready_q().contains(root) || Some(
            root,
        ) == entry.running_fiber()) {
            assert(entry.ready_q().push(root).subrange(
                0,
                entry.ready_q().len() as int,
            ) =~= entry.ready_q());
        } else {
            assert(entry.ready_q().subrange(0, entry.ready_q().len() as int)
                =~= entry.ready_q());
        }
    }
    assert forall|i: int| entry.live(i) == after_flag.live(i) by {
        if 0 <= i < entry.fibers_view().len() && i != root as int {
            assert(after_flag.fibers_view()[i] == entry.fibers_view()[i]);
        }
    }
    assert forall|i: int| #[trigger] entry.live(i) implies {
        &&& after_flag.fiber(i).parent == entry.fiber(i).parent
        &&& after_flag.fiber(i).children == entry.fiber(i).children
        &&& after_flag.fiber(i).join_handle == entry.fiber(i).join_handle
        &&& after_flag.fiber(i).syscall_result == entry.fiber(i).syscall_result
        &&& after_flag.fiber(i).is_completed == entry.fiber(i).is_completed
        &&& after_flag.fiber(i).panicked == entry.fiber(i).panicked
        &&& after_flag.fiber(i).has_stack == entry.fiber(i).has_stack
        &&& after_flag.fiber(i).depth == entry.fiber(i).depth
        &&& (entry.fiber(i).is_cancelled ==> after_flag.fiber(i).is_cancelled)
    } by {
        if 0 <= i < entry.fibers_view().len() && i != root as int {
            assert(after_flag.fibers_view()[i] == entry.fibers_view()[i]);
        }
    }
    assert forall|k: int|
        entry.ready_q().len() <= k < after_flag.ready_q().len() implies {
            let f = #[trigger] after_flag.ready_q()[k] as int;
            &&& entry.live(f)
            &&& !entry.fiber(f).is_cancelled
            &&& after_flag.fiber(f).is_cancelled
            &&& entry.running_fiber() != Some(after_flag.ready_q()[k])
        } by {
        if after_flag.ready_q().len() > entry.ready_q().len() {
            assert(after_flag.ready_q() == entry.ready_q().push(root));
            assert(after_flag.ready_q().len() == entry.ready_q().len() + 1);
            assert(k == entry.ready_q().len() as int);
            assert(after_flag.ready_q()[k] == root);
            assert(after_flag.fibers_view()[root as int] == Some(
                FiberState { is_cancelled: true, ..scheduled.fiber(root as int) },
            ));
        }
    }
    assert(cancel_step(entry, after_flag));
    lemma_cancel_step_trans(entry, after_flag, end);
    assert(after_flag.fiber(root as int).is_cancelled);
    assert(end.fiber(root as int).is_cancelled);
}

/// Changing one table slot keeps well-formedness when the new fiber is fresh
/// and detached: no parent, no children, and nothing points at it.
proof fn lemma_wf_after_slot_change(pre: Runtime, post: Runtime, i: int)
    requires
        pre.wf(),
        0 <= i <= pre.fibers_view().len(),
        !pre.live(i),
        post.fibers_view().len() == if i == pre.fibers_view().len() {
            pre.fibers_view().len() + 1
        } else {
            pre.fibers_view().len()
        },
        post.live(i),
        post.fiber(i).parent is None,
        post.fiber(i).children@.len() == 0,
        !post.fiber(i).is_completed,
        forall|j: int|
            0 <= j < pre.fibers_view().len() && j != i ==> post.fibers_view()[j]
                == pre.fibers_view()[j],
        post.ready_q() == pre.ready_q(),
        post.running_fiber() == pre.running_fiber(),
    ensures
        post.wf(),
{
    assert forall|j: int| post.live(j) && j != i implies pre.live(j)
        && post.fiber(j) == pre.fiber(j) by {}
    assert forall|k: int| 0 <= k < post.ready_q().len() implies post.live(
        #[trigger] post.ready_q()[k] as int,
    ) by {
        assert(pre.live(pre.ready_q()[k] as int));
    }
    assert forall|j: int, k: int|
        post.live(j) && 0 <= k < post.fiber(j).children@.len() implies {
            let c = #[trigger] post.fiber(j).children@[k] as int;
            &&& post.live(c)
            &&& post.fiber(c).parent == Some(j as usize)
        } by {
        if j != i {
            assert(pre.live(pre.fiber(j).children@[k] as int));
        }
    }
}

/// Setting only the cancelled flag of one fiber keeps well-formedness.
proof fn lemma_wf_after_cancel_flag(pre: Runtime, post: Runtime, i: int)
    requires
        pre.wf(),
        pre.live(i),
        post.fibers_view() == pre.fibers_view().update(
            i,
            Some(FiberState { is_cancelled: true, ..pre.fiber(i) }),
        ),
        post.ready_q() == pre.ready_q(),
        post.running_fiber() == pre.running_fiber(),
    ensures
        post.wf(),
{
    assert(forall|j: int| post.live(j) <==> pre.live(j));
}

/// The lowest free index of the fiber table, or its length when full.
fn find_free_slot(v: &Vec<Option<FiberState>>) -> (i: usize)
    ensures
        i as int <= v@.len(),
        i as int == v@.len() || v@[i as int] is None,
{
    let mut i: usize = 0;
    while i < v.len()
        invariant
            i <= v@.len(),
        decreases v@.len() - i,
    {
        if v[i].is_none() {
            return i;
        }
        i = i + 1;
    }
    i
}

/// The position of `x` in the list.
fn index_of(v: &Vec<usize>, x: usize) -> (k: usize)
    requires
        v@.contains(x),
    ensures
        k < v@.len(),
        v@[k as int] == x,
{
    let mut k: usize = 0;
    while k < v.len()
        invariant
            k <= v@.len(),
            v@.contains(x),
            forall|j: int| 0 <= j < k ==> v@[j] != x,
        decreases v@.len() - k,
    {
        if v[k] == x {
            return k;
        }
        k = k + 1;
    }
    proof {
        let w = choose|w: int| 0 <= w < v@.len() && v@[w] == x;
        assert(v@[w] != x);
    }
    0
}

/// Copy a list of fiber indices.
fn clone_indices(v: &Vec<usize>) -> (r: Vec<usize>)
    ensures
        r@ == v@,
{
    let mut r: Vec<usize> = Vec::new();
    let mut i: usize = 0;
    while i < v.len()
        invariant
            i <= v@.len(),
            r@ == v@.subrange(0, i as int),
        decreases v@.len() - i,
    {
        let x = v[i];
        r.push(x);
        proof {
            assert(r@ =~= v@.subrange(0, i + 1));
        }
        i = i + 1;
    }
    proof {
        assert(r@ =~= v@);
    }
    r
}

/// Appending one live, not-yet-queued fiber to the ready queue keeps
/// well-formedness.
proof fn lemma_wf_after_ready_push(pre: Runtime, post: Runtime, f: usize)
    requires
        pre.wf(),
        pre.live(f as int),
        !pre.ready_q().contains(f),
        post.fibers_view() == pre.fibers_view(),
        post.running_fiber() == pre.running_fiber(),
        post.ready_q() == pre.ready_q().push(f),
    ensures
        post.wf(),
{
    assert forall|k: int| 0 <= k < post.ready_q().len() implies post.live(
        #[trigger] post.ready_q()[k] as int,
    ) by {
        if k < pre.ready_q().len() {
            assert(post.ready_q()[k] == pre.ready_q()[k]);
            assert(pre.live(pre.ready_q()[k] as int));
        } else {
            assert(post.ready_q().len() == pre.ready_q().len() + 1);
            assert(k == pre.ready_q().len() as int);
            assert(post.ready_q()[k] == f);
        }
    }
    assert forall|k1: int, k2: int|
        0 <= k1 < k2 < post.ready_q().len() implies post.ready_q()[k1] != post.ready_q()[k2] by {
        if k2 == post.ready_q().len() - 1 {
            assert(post.ready_q()[k1] == pre.ready_q()[k1]);
        }
    }
    lemma_wf_fiber_clauses(pre, post);
}

/// The fiber-table clauses of `wf` depend only on the fiber table.
proof fn lemma_wf_fiber_clauses(pre: Runtime, post: Runtime)
    requires
        pre.wf(),
        post.fibers_view() == pre.fibers_view(),
    ensures
        forall|i: int, k: int|
            post.live(i) && 0 <= k < post.fiber(i).children@.len() ==> {
                let c = #[trigger] post.fiber(i).children@[k] as int;
                &&& post.live(c)
                &&& post.fiber(c).parent == Some(i as usize)
            },
        forall|i: int, k1: int, k2: int|
            post.live(i) && 0 <= k1 < k2 < post.fiber(i).children@.len()
                ==> #[trigger] post.fiber(i).children@[k1]
                != #[trigger] post.fiber(i).children@[k2],
        forall|i: int|
            #[trigger] post.live(i) && post.fiber(i).is_completed && !post.fiber(i).has_stack
                ==> post.fiber(i).children@.len() == 0,
        forall|i: int, k: int|
            post.live(i) && 0 <= k < post.fiber(i).children@.len() ==> post.fiber(
                (#[trigger] post.fiber(i).children@[k]) as int,
            ).depth@ == post.fiber(i).depth@ + 1,
{
    assert forall|i: int, k: int|
        post.live(i) && 0 <= k < post.fiber(i).children@.len() implies post.fiber(
            (#[trigger] post.fiber(i).children@[k]) as int,
        ).depth@ == post.fiber(i).depth@ + 1 by {
        assert(pre.live(i));
        assert(pre.fiber((pre.fiber(i).children@[k]) as int).depth@ == pre.fiber(i).depth@
            + 1);
    }
    assert forall|i: int, k: int|
        post.live(i) && 0 <= k < post.fiber(i).children@.len() implies {
            let c = #[trigger] post.fiber(i).children@[k] as int;
            &&& post.live(c)
            &&& post.fiber(c).parent == Some(i as usize)
        } by {
        assert(pre.live(i));
        assert(pre.fiber(i).children@[k] == post.fiber(i).children@[k]);
    }
    assert forall|i: int, k1: int, k2: int|
        post.live(i) && 0 <= k1 < k2 < post.fiber(i).children@.len() implies #[trigger] post.fiber(
            i,
        ).children@[k1] != #[trigger] post.fiber(i).children@[k2] by {
        assert(pre.live(i));
        assert(pre.fiber(i).children@[k1] != pre.fiber(i).children@[k2]);
    }
    assert forall|i: int|
        #[trigger] post.live(i) && post.fiber(i).is_completed && !post.fiber(i).has_stack
            implies post.fiber(i).children@.len() == 0 by {
        assert(pre.live(i));
    }
}

impl Waker {
    /// Wake up the parked fiber to be run at some point: append it to the
    /// ready queue unless it is already queued. Idempotent.
    pub fn schedule(self, rt: &mut Runtime)
        requires
            old(rt).wf(),
            old(rt).live(self.fiber()),
        ensures
            final(rt).wf(),
            final(rt).fibers_view() == old(rt).fibers_view(),
            final(rt).running_fiber() == old(rt).running_fiber(),
            final(rt).pool() == old(rt).pool(),
            final(rt).ready_q() == if old(rt).ready_q().contains(self.fiber() as usize) {
                old(rt).ready_q()
            } else {
                old(rt).ready_q().push(self.fiber() as usize)
            },
    {
        let mut k: usize = 0;
        let n = rt.ready.len();
        while k < n
            invariant
                *rt == *old(rt),
                old(rt).wf(),
                old(rt).live(self.fiber()),
                n == rt.ready_q().len(),
                k <= n,
                forall|j: int| 0 <= j < k ==> rt.ready_q()[j] != self.fiber,
            decreases n - k,
        {
            if rt.ready[k] == self.fiber {
                proof {
                    assert(old(rt).ready_q().contains(self.fiber as usize));
                }
                return;
            }
            k = k + 1;
        }
        proof {
            assert(!old(rt).ready_q().contains(self.fiber as usize));
        }
        rt.ready.push_back(self.fiber);
        proof {
            lemma_wf_after_ready_push(*old(rt), *rt, self.fiber);
        }
    }
}

/// The state change `Waker::schedule` and `yield_now` perform: fiber `f` is
/// appended to the ready queue unless already queued; nothing else moves.
pub open spec fn scheduled_spec(pre: Runtime, post: Runtime, f: int) -> bool {
    &&& post.fibers_view() == pre.fibers_view()
    &&& post.running_fiber() == pre.running_fiber()
    &&& post.pool() == pre.pool()
    &&& post.ready_q() == if pre.ready_q().contains(f as usize) {
        pre.ready_q()
    } else {
        pre.ready_q().push(f as usize)
    }
}

/// Create the root fiber of a fresh runtime and make it the running one.
pub fn start(rt: &mut Runtime) -> (root: usize)
    requires
        old(rt).wf(),
        old(rt).running_fiber() is None,
    ensures
        final(rt).wf(),
        !old(rt).live(root as int),
        root as int <= old(rt).fibers_view().len(),
        final(rt).live(root as int),
        final(rt).running_fiber() == Some(root),
        final(rt).fiber(root as int).parent is None,
        final(rt).fiber(root as int).children@.len() == 0,
        !final(rt).fiber(root as int).is_completed,
        !final(rt).fiber(root as int).is_cancelled,
        final(rt).fiber(root as int).has_stack,
        final(rt).ready_q() == old(rt).ready_q(),
        final(rt).pool() == if old(rt).pool() > 0 {
            old(rt).pool() - 1
        } else {
            old(rt).pool()
        },
        forall|j: int|
            0 <= j < old(rt).fibers_view().len() && j != root as int
                ==> final(rt).fibers_view()[j] == old(rt).fibers_view()[j],
{
    let root = rt.create_fiber(false);
    let ghost created = *rt;
    rt.running = Some(root);
    proof {
        lemma_wf_set_running(created, *rt, root);
    }
    root
}

/// Pointing `running` at a live fiber keeps well-formedness.
proof fn lemma_wf_set_running(pre: Runtime, post: Runtime, r: usize)
    requires
        pre.wf(),
        pre.live(r as int),
        post.fibers_view() == pre.fibers_view(),
        post.ready_q() == pre.ready_q(),
        post.running_fiber() == Some(r),
    ensures
        post.wf(),
{
    assert forall|k: int| 0 <= k < post.ready_q().len() implies post.live(
        #[trigger] post.ready_q()[k] as int,
    ) by {
        assert(pre.live(pre.ready_q()[k] as int));
    }
    assert forall|k1: int, k2: int|
        0 <= k1 < k2 < post.ready_q().len() implies post.ready_q()[k1] != post.ready_q()[k2] by {
        assert(pre.ready_q()[k1] != pre.ready_q()[k2]);
    }
    lemma_wf_fiber_clauses(pre, post);
}

/// Spawn a child of the running fiber: the child inherits the parent's
/// cancelled flag, is linked into the tree, and is appended to the ready
/// queue. Returns the handle for joining or cancelling it.
pub fn spawn(rt: &mut Runtime) -> (h: JoinHandle)
    requires
        old(rt).wf(),
        old(rt).running_fiber() is Some,
        !old(rt).fiber(old(rt).running_fiber().unwrap() as int).is_completed,
    ensures
        final(rt).wf(),
        !old(rt).live(h.fiber()),
        final(rt).live(h.fiber()),
        final(rt).running_fiber() == old(rt).running_fiber(),
        final(rt).fiber(h.fiber()).parent == old(rt).running_fiber(),
        final(rt).fiber(h.fiber()).children@.len() == 0,
        final(rt).fiber(h.fiber()).join_handle matches JoinHandleState::Unused,
        final(rt).fiber(h.fiber()).syscall_result is None,
        !final(rt).fiber(h.fiber()).is_completed,
        final(rt).fiber(h.fiber()).is_cancelled == old(rt).fiber(
            old(rt).running_fiber().unwrap() as int,
        ).is_cancelled,
        final(rt).fiber(h.fiber()).has_stack,
        final(rt).ready_q() == old(rt).ready_q().push(h.fiber() as usize),
        final(rt).fiber(old(rt).running_fiber().unwrap() as int).children@ == old(rt).fiber(
            old(rt).running_fiber().unwrap() as int,
        ).children@.push(h.fiber() as usize),
        final(rt).fiber(old(rt).running_fiber().unwrap() as int).parent == old(rt).fiber(
            old(rt).running_fiber().unwrap() as int,
        ).parent,
        final(rt).fiber(old(rt).running_fiber().unwrap() as int).join_handle == old(rt).fiber(
            old(rt).running_fiber().unwrap() as int,
        ).join_handle,
        final(rt).fiber(old(rt).running_fiber().unwrap() as int).syscall_result == old(
            rt,
        ).fiber(old(rt).running_fiber().unwrap() as int).syscall_result,
        final(rt).fiber(old(rt).running_fiber().unwrap() as int).is_completed == old(rt).fiber(
            old(rt).running_fiber().unwrap() as int,
        ).is_completed,
        final(rt).fiber(old(rt).running_fiber().unwrap() as int).is_cancelled == old(rt).fiber(
            old(rt).running_fiber().unwrap() as int,
        ).is_cancelled,
        final(rt).fiber(old(rt).running_fiber().unwrap() as int).panicked == old(rt).fiber(
            old(rt).running_fiber().unwrap() as int,
        ).panicked,
        final(rt).fiber(old(rt).running_fiber().unwrap() as int).has_stack == old(rt).fiber(
            old(rt).running_fiber().unwrap() as int,
        ).has_stack,
        final(rt).fiber(old(rt).running_fiber().unwrap() as int).depth == old(rt).fiber(
            old(rt).running_fiber().unwrap() as int,
        ).depth,
        final(rt).pool() == if old(rt).pool() > 0 {
            old(rt).pool() - 1
        } else {
            old(rt).pool()
        },
        forall|j: int|
            old(rt).live(j) && j != h.fiber() && j != old(rt).running_fiber().unwrap() as int
                ==> final(rt).fibers_view()[j] == old(rt).fibers_view()[j],
{
    let p = rt.running.unwrap();
    let inherit = rt.fibers[p].as_ref().unwrap().is_cancelled;
    let ghost parent_depth = rt.fiber(p as int).depth@;
    let c = rt.create_fiber(inherit);
    let ghost created = *rt;
    rt.ready.push_back(c);
    if let Some(cf) = &mut rt.fibers[c] {
        cf.parent = Some(p);
        cf.depth = Ghost(parent_depth + 1);
    }
    if let Some(pf) = &mut rt.fibers[p] {
        pf.children.push(c);
    }
    proof {
        lemma_wf_after_spawn_link(created, *rt, p, c);
    }
    JoinHandle { fiber: c }
}

/// Linking a fresh, detached fiber as a child of the running fiber and
/// queueing it keeps well-formedness.
proof fn lemma_wf_after_spawn_link(pre: Runtime, post: Runtime, p: usize, c: usize)
    requires
        pre.wf(),
        pre.running_fiber() == Some(p),
        pre.live(c as int),
        c != p,
        pre.fiber(c as int).parent is None,
        pre.fiber(c as int).children@.len() == 0,
        !pre.fiber(c as int).is_completed,
        !pre.fiber(p as int).is_completed,
        forall|i: int, k: int|
            pre.live(i) && 0 <= k < pre.fiber(i).children@.len()
                ==> #[trigger] pre.fiber(i).children@[k] != c,
        !pre.ready_q().contains(c),
        post.ready_q() == pre.ready_q().push(c),
        post.running_fiber() == pre.running_fiber(),
        post.fiber(c as int).depth@ == pre.fiber(p as int).depth@ + 1,
        post.fibers_view() == pre.fibers_view().update(
            c as int,
            Some(
                FiberState {
                    parent: Some(p),
                    depth: post.fiber(c as int).depth,
                    ..pre.fiber(c as int)
                },
            ),
        ).update(
            p as int,
            Some(
                FiberState {
                    children: post.fiber(p as int).children,
                    ..pre.fiber(p as int)
                },
            ),
        ),
        post.fiber(p as int).children@ == pre.fiber(p as int).children@.push(c),
    ensures
        post.wf(),
{
    assert forall|k: int| 0 <= k < post.ready_q().len() implies post.live(
        #[trigger] post.ready_q()[k] as int,
    ) by {
        if k < pre.ready_q().len() {
            assert(post.ready_q()[k] == pre.ready_q()[k]);
            assert(pre.live(pre.ready_q()[k] as int));
        } else {
            assert(post.ready_q()[k] == c);
        }
    }
    assert forall|k1: int, k2: int|
        0 <= k1 < k2 < post.ready_q().len() implies post.ready_q()[k1] != post.ready_q()[k2] by {
        if k2 == post.ready_q().len() - 1 {
            assert(post.ready_q()[k1] == pre.ready_q()[k1]);
            assert(pre.live(pre.ready_q()[k1] as int));
        }
    }
    assert forall|i: int, k: int|
        post.live(i) && 0 <= k < post.fiber(i).children@.len() implies {
            let ch = #[trigger] post.fiber(i).children@[k] as int;
            &&& post.live(ch)
            &&& post.fiber(ch).parent == Some(i as usize)
        } by {
        if i == p as int {
            if k < pre.fiber(i).children@.len() {
                assert(pre.fiber(i).children@[k] != c);
                assert(pre.live(pre.fiber(i).children@[k] as int));
            } else {
                assert(post.fiber(i).children@[k] == c);
            }
        } else if i != c as int {
            assert(pre.live(i));
            assert(pre.fiber(i).children@[k] != c);
            assert(pre.live(pre.fiber(i).children@[k] as int));
        }
    }
    assert forall|i: int, k1: int, k2: int|
        post.live(i) && 0 <= k1 < k2 < post.fiber(i).children@.len() implies #[trigger] post.fiber(
            i,
        ).children@[k1] != #[trigger] post.fiber(i).children@[k2] by {
        if i == p as int {
            if k2 == post.fiber(i).children@.len() - 1 {
                assert(post.fiber(i).children@[k1] == pre.fiber(i).children@[k1]);
                assert(pre.fiber(i).children@[k1] != c);
            } else {
                assert(pre.fiber(i).children@[k1] != pre.fiber(i).children@[k2]);
            }
        } else if i != c as int {
            assert(pre.live(i));
            assert(pre.fiber(i).children@[k1] != pre.fiber(i).children@[k2]);
        }
    }
    assert forall|i: int|
        #[trigger] post.live(i) && post.fiber(i).is_completed && !post.fiber(i).has_stack
            implies post.fiber(i).children@.len() == 0 by {
        if i != c as int && i != p as int {
            assert(pre.live(i));
        }
    }
    assert forall|i: int, k: int|
        post.live(i) && 0 <= k < post.fiber(i).children@.len() implies post.fiber(
            (#[trigger] post.fiber(i).children@[k]) as int,
        ).depth@ == post.fiber(i).depth@ + 1 by {
        if i == p as int {
            if k < pre.fiber(i).children@.len() {
                assert(pre.fiber(i).children@[k] != c);
                assert(pre.fiber((pre.fiber(i).children@[k]) as int).depth@ == pre.fiber(
                    i,
                ).depth@ + 1);
            } else {
                assert(post.fiber(i).children@[k] == c);
            }
        } else if i != c as int {
            assert(pre.live(i));
            assert(pre.fiber(i).children@[k] != c);
            assert(pre.fiber((pre.fiber(i).children@[k]) as int).depth@ == pre.fiber(
                i,
            ).depth@ + 1);
        }
    }
}

/// The waker for the running fiber, handed to a park's schedule function.
pub fn park_waker(rt: &Runtime) -> (w: Waker)
    requires
        rt.running_fiber() is Some,
    ensures
        w.fiber() == rt.running_fiber().unwrap() as int,
{
    Waker { fiber: rt.running.unwrap() }
}

/// Reschedule the running fiber; the shell then switches to the next ready
/// one, after which the fiber continues as if nothing happened.
pub fn yield_now(rt: &mut Runtime)
    requires
        old(rt).wf(),
        old(rt).running_fiber() is Some,
    ensures
        final(rt).wf(),
        scheduled_spec(*old(rt), *final(rt), old(rt).running_fiber().unwrap() as int),
{
    let waker = park_waker(rt);
    waker.schedule(rt);
}

/// Parking with a schedule function that immediately schedules the received
/// waker changes the state exactly as `yield_now` does: the two post-states
/// agree in every component.
pub proof fn lemma_park_self_schedule_is_yield(s: Runtime, s1: Runtime, s2: Runtime)
    requires
        s.running_fiber() is Some,
        scheduled_spec(s, s1, s.running_fiber().unwrap() as int),
        scheduled_spec(s, s2, s.running_fiber().unwrap() as int),
    ensures
        s1.fibers_view() == s2.fibers_view(),
        s1.ready_q() == s2.ready_q(),
        s1.running_fiber() == s2.running_fiber(),
        s1.pool() == s2.pool(),
{
}

/// Whether the running fiber has been cancelled.
pub fn is_cancelled(rt: &Runtime) -> (b: bool)
    requires
        rt.wf(),
        rt.running_fiber() is Some,
    ensures
        b == rt.fiber(rt.running_fiber().unwrap() as int).is_cancelled,
{
    let r = rt.running.unwrap();
    rt.fibers[r].as_ref().unwrap().is_cancelled
}

/// Cancel the running fiber (and so its subtree).
pub fn cancel(rt: &mut Runtime)
    requires
        old(rt).wf(),
        old(rt).running_fiber() is Some,
    ensures
        final(rt).wf(),
        cancel_spec(*old(rt), *final(rt), old(rt).running_fiber().unwrap() as int),
{
    let r = rt.running.unwrap();
    rt.cancel(r);
}

/// Cancel from the nearest containment boundary: the root fiber.
pub fn cancel_propagating(rt: &mut Runtime)
    requires
        old(rt).wf(),
        old(rt).running_fiber() is Some,
        old(rt).live(0),
    ensures
        final(rt).wf(),
        cancel_spec(*old(rt), *final(rt), 0),
{
    let r = rt.running.unwrap();
    let boundary = rt.nearest_contained(r);
    rt.cancel(boundary);
}

/// Cancelling is idempotent: a second `cancel` of the same fiber finds the
/// whole subtree already flagged, so it flags nothing new and schedules
/// nobody - every observable component of the state stays as the first run
/// left it.
pub proof fn lemma_cancel_idempotent(s0: Runtime, s1: Runtime, s2: Runtime, root: int)
    requires
        s0.live(root),
        cancel_spec(s0, s1, root),
        cancel_spec(s1, s2, root),
    ensures
        s2.fibers_view() == s1.fibers_view(),
        s2.ready_q() == s1.ready_q(),
        s2.running_fiber() == s1.running_fiber(),
        s2.pool() == s1.pool(),
{
    assert forall|i: int| #[trigger] s1.live(i) implies s2.fiber(i).is_cancelled == s1.fiber(
        i,
    ).is_cancelled by {
        if !s1.fiber(i).is_cancelled && s2.fiber(i).is_cancelled {
            assert(in_subtree(s1, root, i));
            lemma_in_subtree_unstep(s0, s1, root, i);
            assert(final_cancelled(s1, i));
        }
    }
    assert forall|i: int|
        0 <= i < s1.fibers_view().len() implies #[trigger] s2.fibers_view()[i]
        == s1.fibers_view()[i] by {
        assert(s2.live(i) == s1.live(i));
        if s1.live(i) {
            assert(s2.fiber(i).is_cancelled == s1.fiber(i).is_cancelled);
            assert(s2.fibers_view()[i] == Some(s2.fiber(i)));
            assert(s1.fibers_view()[i] == Some(s1.fiber(i)));
            assert(s2.fiber(i) == FiberState {
                parent: s1.fiber(i).parent,
                children: s1.fiber(i).children,
                join_handle: s1.fiber(i).join_handle,
                syscall_result: s1.fiber(i).syscall_result,
                is_completed: s1.fiber(i).is_completed,
                is_cancelled: s1.fiber(i).is_cancelled,
                panicked: s1.fiber(i).panicked,
                has_stack: s1.fiber(i).has_stack,
                depth: s1.fiber(i).depth,
            });
            assert(s1.fiber(i) == FiberState {
                parent: s1.fiber(i).parent,
                children: s1.fiber(i).children,
                join_handle: s1.fiber(i).join_handle,
                syscall_result: s1.fiber(i).syscall_result,
                is_completed: s1.fiber(i).is_completed,
                is_cancelled: s1.fiber(i).is_cancelled,
                panicked: s1.fiber(i).panicked,
                has_stack: s1.fiber(i).has_stack,
                depth: s1.fiber(i).depth,
            });
        }
    }
    assert(s2.fibers_view() =~= s1.fibers_view());
    assert(s2.ready_q().len() == s1.ready_q().len()) by {
        if s2.ready_q().len() > s1.ready_q().len() {
            let f = s2.ready_q()[s1.ready_q().len() as int] as int;
            assert(s1.live(f) && !s1.fiber(f).is_cancelled && s2.fiber(f).is_cancelled);
        }
    }
    assert(s2.ready_q() =~= s1.ready_q()) by {
        assert forall|k: int| 0 <= k < s1.ready_q().len() implies s2.ready_q()[k]
            == s1.ready_q()[k] by {
            assert(s1.ready_q()[k] == s2.ready_q().subrange(0, s1.ready_q().len() as int)[k]);
        }
    }
}

/// Ready-queue FIFO: when fiber `a` sits ahead of fiber `b`, one pop either
/// returns `a`, or returns neither of the two and keeps `a` ahead of `b`.
/// `b` is never returned while `a` waits, so `a` always leaves the queue
/// first.
pub proof fn lemma_ready_fifo(pre: Runtime, post: Runtime, i: int, j: int)
    requires
        pre.wf(),
        0 <= i < j < pre.ready_q().len(),
        post.ready_q() == pre.ready_q().drop_first(),
    ensures
        pre.ready_q()[0] != pre.ready_q()[j],
        i == 0 ==> pre.ready_q()[0] == pre.ready_q()[i],
        i > 0 ==> {
            &&& post.ready_q()[i - 1] == pre.ready_q()[i]
            &&& post.ready_q()[j - 1] == pre.ready_q()[j]
            &&& 0 <= i - 1 < j - 1 < post.ready_q().len()
        },
{
}

impl JoinHandle {
    /// A handle for the given fiber.
    pub fn new(fiber: usize) -> (h: JoinHandle)
        ensures
            h.fiber() == fiber as int,
    {
        JoinHandle { fiber }
    }

    /// First phase of joining the target fiber from the running one: read
    /// the output if the target already completed; give up if the joiner is
    /// cancelled while the target is not; otherwise install the joiner as
    /// the target's waiter, to be woken on the target's completion, and
    /// park.
    pub fn join(&self, rt: &mut Runtime) -> (r: JoinPoll)
        requires
            old(rt).wf(),
            old(rt).live(self.fiber()),
            old(rt).running_fiber() is Some,
            old(rt).fiber(self.fiber()).join_handle matches JoinHandleState::Unused,
        ensures
            final(rt).wf(),
            old(rt).fiber(self.fiber()).is_completed ==> (r matches JoinPoll::Output
                && *final(rt) == *old(rt)),
            (!old(rt).fiber(self.fiber()).is_completed && old(rt).fiber(
                old(rt).running_fiber().unwrap() as int,
            ).is_cancelled && !old(rt).fiber(self.fiber()).is_cancelled) ==> (r
                matches JoinPoll::Cancelled && *final(rt) == *old(rt)),
            (!old(rt).fiber(self.fiber()).is_completed && !(old(rt).fiber(
                old(rt).running_fiber().unwrap() as int,
            ).is_cancelled && !old(rt).fiber(self.fiber()).is_cancelled)) ==> (r
                matches JoinPoll::Park && final(rt).fibers_view() == old(rt).fibers_view().update(
                self.fiber(),
                Some(
                    FiberState {
                        join_handle: JoinHandleState::Waiting(
                            old(rt).running_fiber().unwrap(),
                        ),
                        ..old(rt).fiber(self.fiber())
                    },
                ),
            ) && final(rt).ready_q() == old(rt).ready_q() && final(rt).running_fiber() == old(rt).running_fiber() && final(rt).pool() == old(rt).pool()),
    {
        if rt.fibers[self.fiber].as_ref().unwrap().is_completed {
            return JoinPoll::Output;
        }
        if is_cancelled(rt) && !rt.fibers[self.fiber].as_ref().unwrap().is_cancelled {
            return JoinPoll::Cancelled;
        }
        let joiner = rt.running.unwrap();
        if let Some(f) = &mut rt.fibers[self.fiber] {
            f.join_handle = JoinHandleState::Waiting(joiner);
        }
        proof {
            lemma_wf_fiber_clauses_update_join(
                *old(rt),
                *rt,
                self.fiber(),
                JoinHandleState::Waiting(old(rt).running_fiber().unwrap()),
            );
        }
        JoinPoll::Park
    }

    /// Second phase of joining, after the joiner was woken: the target has
    /// completed, or the joiner was cancelled while parked. In the latter
    /// case the join gives up - unless the target is itself cancelled, in
    /// which case the joiner parks once more and waits for the target's
    /// completion.
    pub fn join_wake(&self, rt: &Runtime) -> (r: JoinWake)
        requires
            rt.wf(),
            rt.live(self.fiber()),
            rt.running_fiber() is Some,
            rt.fiber(self.fiber()).is_completed || rt.fiber(
                rt.running_fiber().unwrap() as int,
            ).is_cancelled,
        ensures
            rt.fiber(self.fiber()).is_completed ==> r matches JoinWake::Output,
            (!rt.fiber(self.fiber()).is_completed && !rt.fiber(self.fiber()).is_cancelled)
                ==> r matches JoinWake::Cancelled,
            (!rt.fiber(self.fiber()).is_completed && rt.fiber(self.fiber()).is_cancelled)
                ==> r matches JoinWake::ParkUntilCompletion,
    {
        if rt.fibers[self.fiber].as_ref().unwrap().is_completed {
            return JoinWake::Output;
        }
        if !rt.fibers[self.fiber].as_ref().unwrap().is_cancelled {
            return JoinWake::Cancelled;
        }
        JoinWake::ParkUntilCompletion
    }

    /// Cancel the target fiber (and so its subtree); the handle may still be
    /// joined afterwards.
    pub fn cancel(&self, rt: &mut Runtime)
        requires
            old(rt).wf(),
            old(rt).live(self.fiber()),
            old(rt).running_fiber() is Some,
        ensures
            final(rt).wf(),
            cancel_spec(*old(rt), *final(rt), self.fiber()),
    {
        rt.cancel(self.fiber);
    }

    /// Cancel from the containment boundary above the target: the root.
    pub fn cancel_propagating(&self, rt: &mut Runtime)
        requires
            old(rt).wf(),
            old(rt).live(0),
            old(rt).running_fiber() is Some,
        ensures
            final(rt).wf(),
            cancel_spec(*old(rt), *final(rt), 0),
    {
        let boundary = rt.nearest_contained(self.fiber);
        rt.cancel(boundary);
    }

    /// Drop the handle. If the target has already completed - by then it has
    /// no children left and has detached from its parent - its stack returns
    /// to the pool and its table slot is removed; otherwise the handle is
    /// only marked dropped and the target's own exit will reclaim both.
    pub fn drop_handle(self, rt: &mut Runtime)
        requires
            old(rt).wf(),
            old(rt).live(self.fiber()),
            !(old(rt).fiber(self.fiber()).join_handle matches JoinHandleState::Dropped),
            old(rt).running_fiber() != Some(self.fiber() as usize),
            old(rt).pool() < usize::MAX as int,
            old(rt).fiber(self.fiber()).is_completed ==> {
                &&& old(rt).fiber(self.fiber()).children@.len() == 0
                &&& old(rt).fiber(self.fiber()).has_stack
                &&& !old(rt).ready_q().contains(self.fiber() as usize)
                &&& (old(rt).fiber(self.fiber()).parent matches Some(p) ==> !old(rt).fiber(
                    p as int,
                ).children@.contains(self.fiber() as usize))
            },
        ensures
            final(rt).wf(),
            final(rt).ready_q() == old(rt).ready_q(),
            final(rt).running_fiber() == old(rt).running_fiber(),
            old(rt).fiber(self.fiber()).is_completed ==> {
                &&& final(rt).fibers_view() == old(rt).fibers_view().update(
                    self.fiber(),
                    None,
                )
                &&& final(rt).pool() == old(rt).pool() + 1
            },
            !old(rt).fiber(self.fiber()).is_completed ==> {
                &&& final(rt).fibers_view() == old(rt).fibers_view().update(
                    self.fiber(),
                    Some(
                        FiberState {
                            join_handle: JoinHandleState::Dropped,
                            ..old(rt).fiber(self.fiber())
                        },
                    ),
                )
                &&& final(rt).pool() == old(rt).pool()
            },
    {
        let completed = rt.fibers[self.fiber].as_ref().unwrap().is_completed;
        if completed {
            rt.stack_pool = rt.stack_pool + 1;
            rt.fibers[self.fiber] = None;
            proof {
                lemma_wf_after_removal(*old(rt), *rt, self.fiber as usize);
            }
        } else {
            if let Some(f) = &mut rt.fibers[self.fiber] {
                f.join_handle = JoinHandleState::Dropped;
            }
            proof {
                lemma_wf_fiber_clauses_update_join(
                    *old(rt),
                    *rt,
                    self.fiber(),
                    JoinHandleState::Dropped,
                );
            }
        }
    }
}

/// Changing only the join-handle state of one fiber keeps well-formedness.
proof fn lemma_wf_fiber_clauses_update_join(
    pre: Runtime,
    post: Runtime,
    i: int,
    jh: JoinHandleState,
)
    requires
        pre.wf(),
        pre.live(i),
        post.ready_q() == pre.ready_q(),
        post.running_fiber() == pre.running_fiber(),
        post.fibers_view() == pre.fibers_view().update(
            i,
            Some(FiberState { join_handle: jh, ..pre.fiber(i) }),
        ),
    ensures
        post.wf(),
{
    assert forall|j: int| post.live(j) == pre.live(j) by {
        if 0 <= j < pre.fibers_view().len() && j != i {
            assert(post.fibers_view()[j] == pre.fibers_view()[j]);
        }
    }
    assert forall|j: int| #[trigger] post.live(j) implies {
        &&& post.fiber(j).parent == pre.fiber(j).parent
        &&& post.fiber(j).children == pre.fiber(j).children
        &&& post.fiber(j).is_completed == pre.fiber(j).is_completed
        &&& post.fiber(j).has_stack == pre.fiber(j).has_stack
    } by {
        if j != i {
            assert(post.fibers_view()[j] == pre.fibers_view()[j]);
        }
    }
    assert forall|k: int| 0 <= k < post.ready_q().len() implies post.live(
        #[trigger] post.ready_q()[k] as int,
    ) by {
        assert(pre.live(pre.ready_q()[k] as int));
    }
    assert forall|j: int, k: int|
        post.live(j) && 0 <= k < post.fiber(j).children@.len() implies {
            let c = #[trigger] post.fiber(j).children@[k] as int;
            &&& post.live(c)
            &&& post.fiber(c).parent == Some(j as usize)
        } by {
        assert(pre.live(j));
        assert(pre.fiber(j).children@[k] == post.fiber(j).children@[k]);
        assert(pre.live(pre.fiber(j).children@[k] as int));
    }
    assert forall|j: int, k1: int, k2: int|
        post.live(j) && 0 <= k1 < k2 < post.fiber(j).children@.len() implies #[trigger] post.fiber(
            j,
        ).children@[k1] != #[trigger] post.fiber(j).children@[k2] by {
        assert(pre.live(j));
        assert(pre.fiber(j).children@[k1] != pre.fiber(j).children@[k2]);
    }
    assert forall|j: int|
        #[trigger] post.live(j) && post.fiber(j).is_completed && !post.fiber(j).has_stack
            implies post.fiber(j).children@.len() == 0 by {
        assert(pre.live(j));
    }
}

/// Removing a completed, detached, unqueued fiber keeps well-formedness.
proof fn lemma_wf_after_removal(pre: Runtime, post: Runtime, f: usize)
    requires
        pre.wf(),
        pre.live(f as int),
        pre.fiber(f as int).children@.len() == 0,
        !pre.ready_q().contains(f),
        pre.running_fiber() != Some(f),
        pre.fiber(f as int).parent matches Some(p) ==> !pre.fiber(p as int).children@.contains(
            f,
        ),
        post.fibers_view() == pre.fibers_view().update(f as int, None),
        post.ready_q() == pre.ready_q(),
        post.running_fiber() == pre.running_fiber(),
    ensures
        post.wf(),
{
    assert forall|j: int| post.live(j) implies pre.live(j) && j != f as int
        && post.fiber(j) == pre.fiber(j) by {
        if 0 <= j < pre.fibers_view().len() && j != f as int {
            assert(post.fibers_view()[j] == pre.fibers_view()[j]);
        }
    }
    assert forall|k: int| 0 <= k < post.ready_q().len() implies post.live(
        #[trigger] post.ready_q()[k] as int,
    ) by {
        assert(pre.live(pre.ready_q()[k] as int));
        assert(pre.ready_q()[k] != f);
    }
    assert forall|j: int, k: int|
        post.live(j) && 0 <= k < post.fiber(j).children@.len() implies {
            let c = #[trigger] post.fiber(j).children@[k] as int;
            &&& post.live(c)
            &&& post.fiber(c).parent == Some(j as usize)
        } by {
        assert(pre.live(j));
        let c = pre.fiber(j).children@[k] as int;
        assert(pre.live(c));
        assert(pre.fiber(c).parent == Some(j as usize));
        if c == f as int {
            vstd::std_specs::vec::axiom_spec_len(&pre.fibers);
            assert(pre.fibers_view().len() <= usize::MAX);
            assert(pre.fiber(f as int).parent == Some(j as usize));
            assert((j as usize) as int == j);
            assert(!pre.fiber(j).children@.contains(f));
            assert(pre.fiber(j).children@[k] == f);
            assert(false);
        }
    }
    assert forall|j: int, k1: int, k2: int|
        post.live(j) && 0 <= k1 < k2 < post.fiber(j).children@.len() implies #[trigger] post.fiber(
            j,
        ).children@[k1] != #[trigger] post.fiber(j).children@[k2] by {
        assert(pre.live(j));
        assert(pre.fiber(j).children@[k1] != pre.fiber(j).children@[k2]);
    }
    assert forall|j: int|
        #[trigger] post.live(j) && post.fiber(j).is_completed && !post.fiber(j).has_stack
            implies post.fiber(j).children@.len() == 0 by {
        assert(pre.live(j));
    }
}

impl Runtime {
    /// Remove a fiber's table slot and return its stack to the pool. This is
    /// the only operation that removes a slot, and it demands the full end of
    /// the fiber's lifecycle: the fiber has completed *and* its join handle
    /// has been dropped, its children are gone, it has detached from its
    /// parent, and nothing schedules or runs it any more. A removed slot is
    /// no longer live, and this operation accepts only a live one - so a
    /// fiber's slot is removed exactly once.
    pub fn remove_slot(&mut self, f: usize)
        requires
            old(self).wf(),
            old(self).live(f as int),
            old(self).fiber(f as int).is_completed,
            old(self).fiber(f as int).join_handle matches JoinHandleState::Dropped,
            old(self).fiber(f as int).children@.len() == 0,
            old(self).fiber(f as int).has_stack,
            old(self).fiber(f as int).parent matches Some(p) ==> !old(self).fiber(
                p as int,
            ).children@.contains(f),
            !old(self).ready_q().contains(f),
            old(self).running_fiber() != Some(f),
            old(self).pool() < usize::MAX as int,
        ensures
            final(self).wf(),
            !final(self).live(f as int),
            final(self).fibers_view() == old(self).fibers_view().update(f as int, None),
            final(self).ready_q() == old(self).ready_q(),
            final(self).running_fiber() == old(self).running_fiber(),
            final(self).pool() == old(self).pool() + 1,
    {
        self.stack_pool = self.stack_pool + 1;
        self.fibers[f] = None;
        proof {
            lemma_wf_after_removal(*old(self), *self, f);
        }
    }

    /// Mark the running fiber completed as its closure returns or panics.
    /// The cancelled flag is set along with it, so that no later cancellation
    /// tries to schedule the fiber while it winds down.
    pub fn fiber_return(&mut self, panicked: bool)
        requires
            old(self).wf(),
            old(self).running_fiber() is Some,
            !old(self).fiber(old(self).running_fiber().unwrap() as int).is_completed,
            old(self).fiber(old(self).running_fiber().unwrap() as int).has_stack,
        ensures
            final(self).wf(),
            final(self).fibers_view() == old(self).fibers_view().update(
                old(self).running_fiber().unwrap() as int,
                Some(
                    FiberState {
                        is_completed: true,
                        is_cancelled: true,
                        panicked,
                        ..old(self).fiber(old(self).running_fiber().unwrap() as int)
                    },
                ),
            ),
            final(self).ready_q() == old(self).ready_q(),
            final(self).running_fiber() == old(self).running_fiber(),
            final(self).pool() == old(self).pool(),
    {
        let r = self.running.unwrap();
        if let Some(f) = &mut self.fibers[r] {
            f.is_completed = true;
            f.is_cancelled = true;
            f.panicked = panicked;
        }
        proof {
            assert(self.fibers_view() =~= old(self).fibers_view().update(
                r as int,
                Some(
                    FiberState {
                        is_completed: true,
                        is_cancelled: true,
                        panicked,
                        ..old(self).fiber(r as int)
                    },
                ),
            ));
            lemma_wf_update_fiber(
                *old(self),
                *self,
                r as int,
                FiberState {
                    is_completed: true,
                    is_cancelled: true,
                    panicked,
                    ..old(self).fiber(r as int)
                },
            );
        }
    }

    /// Whether the running fiber still has live children to wait for.
    pub fn has_live_children(&self) -> (b: bool)
        requires
            self.wf(),
            self.running_fiber() is Some,
        ensures
            b == (self.fiber(self.running_fiber().unwrap() as int).children@.len() > 0),
    {
        let r = self.running.unwrap();
        self.fibers[r].as_ref().unwrap().children.len() > 0
    }

    /// After the running fiber completed and its children are gone: wake the
    /// fiber joining it, if one is parked on the handle; when nobody will
    /// ever read the output of a panicked fiber, escalate instead by
    /// cancelling from the containment boundary, so the panic is not lost.
    pub fn wake_joiner_or_escalate(&mut self)
        requires
            old(self).wf(),
            old(self).running_fiber() is Some,
            old(self).fiber(old(self).running_fiber().unwrap() as int).is_completed,
            old(self).live(0),
            old(self).fiber(old(self).running_fiber().unwrap() as int).join_handle
                matches JoinHandleState::Waiting(w) ==> old(self).live(w as int),
        ensures
            final(self).wf(),
            old(self).fiber(old(self).running_fiber().unwrap() as int).join_handle
                matches JoinHandleState::Waiting(w) ==> {
                &&& final(self).fibers_view() == old(self).fibers_view().update(
                    old(self).running_fiber().unwrap() as int,
                    Some(
                        FiberState {
                            join_handle: JoinHandleState::Unused,
                            ..old(self).fiber(old(self).running_fiber().unwrap() as int)
                        },
                    ),
                )
                &&& final(self).ready_q() == if old(self).ready_q().contains(w) {
                    old(self).ready_q()
                } else {
                    old(self).ready_q().push(w)
                }
                &&& final(self).running_fiber() == old(self).running_fiber()
                &&& final(self).pool() == old(self).pool()
            },
            !(old(self).fiber(old(self).running_fiber().unwrap() as int).join_handle
                matches JoinHandleState::Waiting(_)) ==> {
                &&& (old(self).fiber(old(self).running_fiber().unwrap() as int).panicked
                    ==> cancel_spec(*old(self), *final(self), 0))
                &&& (!old(self).fiber(old(self).running_fiber().unwrap() as int).panicked
                    ==> *final(self) == *old(self))
            },
    {
        let r = self.running.unwrap();
        let mut waiting: Option<usize> = None;
        match &self.fibers[r].as_ref().unwrap().join_handle {
            JoinHandleState::Waiting(w) => {
                waiting = Some(*w);
            },
            _ => {},
        }
        if let Some(w) = waiting {
            if let Some(f) = &mut self.fibers[r] {
                f.join_handle = JoinHandleState::Unused;
            }
            proof {
                lemma_wf_fiber_clauses_update_join(
                    *old(self),
                    *self,
                    r as int,
                    JoinHandleState::Unused,
                );
            }
            let waker = Waker { fiber: w };
            waker.schedule(self);
        } else if self.fibers[r].as_ref().unwrap().panicked {
            let boundary = self.nearest_contained(r);
            self.cancel(boundary);
        }
    }

    /// Remove the running fiber from its parent's child list; when the
    /// parent has completed and this was its last child, schedule the parent
    /// so it can finish winding down.
    pub fn detach_from_parent(&mut self)
        requires
            old(self).wf(),
            old(self).running_fiber() is Some,
            old(self).fiber(old(self).running_fiber().unwrap() as int).parent is Some,
            old(self).fiber(old(self).running_fiber().unwrap() as int).parent
                != old(self).running_fiber(),
            old(self).live(
                old(self).fiber(old(self).running_fiber().unwrap() as int).parent.unwrap() as int,
            ),
            old(self).fiber(
                old(self).fiber(old(self).running_fiber().unwrap() as int).parent.unwrap() as int,
            ).children@.contains(old(self).running_fiber().unwrap()),
        ensures
            final(self).wf(),
            final(self).running_fiber() == old(self).running_fiber(),
            final(self).pool() == old(self).pool(),
            detach_spec(
                *old(self),
                *final(self),
                old(self).running_fiber().unwrap(),
                old(self).fiber(old(self).running_fiber().unwrap() as int).parent.unwrap(),
            ),
    {
        let r = self.running.unwrap();
        let p = self.fibers[r].as_ref().unwrap().parent.unwrap();
        let k = index_of(&self.fibers[p].as_ref().unwrap().children, r);
        if let Some(pf) = &mut self.fibers[p] {
            pf.children.swap_remove(k);
        }
        let ghost detached = *self;
        proof {
            lemma_wf_after_detach(*old(self), *self, p, r, k as int);
        }

        let parent_done = self.fibers[p].as_ref().unwrap().is_completed && self.fibers[
            p
        ].as_ref().unwrap().children.len() == 0;
        if parent_done {
            let waker = Waker { fiber: p };
            waker.schedule(self);
        }
        proof {
            assert(detach_spec(*old(self), *self, r, p));
        }
    }

    /// Final step of a non-root fiber's wind-down, as control leaves its
    /// stack: when the join handle is already dropped, the stack returns to
    /// the pool and the table slot is removed; either way no fiber is
    /// running afterwards.
    pub fn fiber_exit(&mut self)
        requires
            old(self).wf(),
            old(self).running_fiber() is Some,
            old(self).fiber(old(self).running_fiber().unwrap() as int).is_completed,
            old(self).fiber(old(self).running_fiber().unwrap() as int).children@.len() == 0,
            old(self).fiber(old(self).running_fiber().unwrap() as int).has_stack,
            old(self).fiber(old(self).running_fiber().unwrap() as int).parent
                matches Some(p) ==> !old(self).fiber(p as int).children@.contains(
                old(self).running_fiber().unwrap(),
            ),
            !old(self).ready_q().contains(old(self).running_fiber().unwrap()),
            old(self).pool() < usize::MAX as int,
        ensures
            final(self).wf(),
            final(self).running_fiber() is None,
            final(self).ready_q() == old(self).ready_q(),
            old(self).fiber(old(self).running_fiber().unwrap() as int).join_handle
                matches JoinHandleState::Dropped ==> {
                &&& final(self).fibers_view() == old(self).fibers_view().update(
                    old(self).running_fiber().unwrap() as int,
                    None,
                )
                &&& final(self).pool() == old(self).pool() + 1
            },
            !(old(self).fiber(old(self).running_fiber().unwrap() as int).join_handle
                matches JoinHandleState::Dropped) ==> {
                &&& final(self).fibers_view() == old(self).fibers_view()
                &&& final(self).pool() == old(self).pool()
            },
    {
        let r = self.running.unwrap();
        let dropped = match &self.fibers[r].as_ref().unwrap().join_handle {
            JoinHandleState::Dropped => true,
            _ => false,
        };
        self.running = None;
        proof {
            lemma_wf_clear_running(*old(self), *self);
        }
        if dropped {
            self.remove_slot(r);
        }
    }

    /// Final step of the root fiber's wind-down: its stack returns to the
    /// pool, while its slot stays so the output can still be read; control
    /// returns to the thread that started the runtime.
    pub fn root_exit(&mut self)
        requires
            old(self).wf(),
            old(self).running_fiber() is Some,
            old(self).fiber(old(self).running_fiber().unwrap() as int).is_completed,
            old(self).fiber(old(self).running_fiber().unwrap() as int).children@.len() == 0,
            old(self).fiber(old(self).running_fiber().unwrap() as int).has_stack,
            old(self).pool() < usize::MAX as int,
        ensures
            final(self).wf(),
            final(self).running_fiber() is None,
            final(self).ready_q() == old(self).ready_q(),
            final(self).pool() == old(self).pool() + 1,
            final(self).fibers_view() == old(self).fibers_view().update(
                old(self).running_fiber().unwrap() as int,
                Some(
                    FiberState {
                        has_stack: false,
                        ..old(self).fiber(old(self).running_fiber().unwrap() as int)
                    },
                ),
            ),
    {
        let r = self.running.unwrap();
        self.stack_pool = self.stack_pool + 1;
        if let Some(f) = &mut self.fibers[r] {
            f.has_stack = false;
        }
        proof {
            assert(self.fibers_view() =~= old(self).fibers_view().update(
                r as int,
                Some(FiberState { has_stack: false, ..old(self).fiber(r as int) }),
            ));
            lemma_wf_update_fiber(
                *old(self),
                *self,
                r as int,
                FiberState { has_stack: false, ..old(self).fiber(r as int) },
            );
        }
        let ghost mid = *self;
        self.running = None;
        proof {
            lemma_wf_clear_running(mid, *self);
        }
    }

    /// Begin a syscall on behalf of the running fiber: refuse right away
    /// when the fiber is already cancelled, otherwise tag the submission
    /// with the fiber's index as its user data. The state does not change;
    /// the shell submits the entry and parks the fiber.
    pub fn syscall_begin(&self) -> (r: Option<u64>)
        requires
            self.wf(),
            self.running_fiber() is Some,
            self.fiber(self.running_fiber().unwrap() as int).is_cancelled || self.fiber(
                self.running_fiber().unwrap() as int,
            ).syscall_result is None,
        ensures
            r == if self.fiber(self.running_fiber().unwrap() as int).is_cancelled {
                None
            } else {
                Some(self.running_fiber().unwrap() as u64)
            },
    {
        let rr = self.running.unwrap();
        if self.fibers[rr].as_ref().unwrap().is_cancelled {
            return None;
        }
        Some(rr as u64)
    }

    /// Take the syscall result deposited for the running fiber, if the
    /// completion dispatcher has delivered one.
    pub fn take_syscall_result(&mut self) -> (r: Option<i32>)
        requires
            old(self).wf(),
            old(self).running_fiber() is Some,
        ensures
            final(self).wf(),
            r == old(self).fiber(old(self).running_fiber().unwrap() as int).syscall_result,
            final(self).fibers_view() == old(self).fibers_view().update(
                old(self).running_fiber().unwrap() as int,
                Some(
                    FiberState {
                        syscall_result: None,
                        ..old(self).fiber(old(self).running_fiber().unwrap() as int)
                    },
                ),
            ),
            final(self).ready_q() == old(self).ready_q(),
            final(self).running_fiber() == old(self).running_fiber(),
            final(self).pool() == old(self).pool(),
    {
        let rr = self.running.unwrap();
        let mut r: Option<i32> = None;
        if let Some(f) = &mut self.fibers[rr] {
            r = f.syscall_result;
            f.syscall_result = None;
        }
        proof {
            assert(self.fibers_view() =~= old(self).fibers_view().update(
                rr as int,
                Some(
                    FiberState {
                        syscall_result: None,
                        ..old(self).fiber(rr as int)
                    },
                ),
            ));
            lemma_wf_update_fiber(
                *old(self),
                *self,
                rr as int,
                FiberState { syscall_result: None, ..old(self).fiber(rr as int) },
            );
        }
        r
    }

    /// The step after a syscall park ends (spec for the bridge's resume):
    /// a deposited result is consumed and classified by the caller; woken
    /// with no result, the fiber can only have been woken by cancellation,
    /// so it must ask the kernel to cancel the in-flight operation - still
    /// tagged with its own index - and park once more for the eventual
    /// completion.
    pub fn syscall_after_park(&mut self) -> (r: SyscallWake)
        requires
            old(self).wf(),
            old(self).running_fiber() is Some,
            old(self).fiber(old(self).running_fiber().unwrap() as int).syscall_result is Some
                || old(self).fiber(old(self).running_fiber().unwrap() as int).is_cancelled,
        ensures
            final(self).wf(),
            final(self).ready_q() == old(self).ready_q(),
            final(self).running_fiber() == old(self).running_fiber(),
            final(self).pool() == old(self).pool(),
            old(self).fiber(old(self).running_fiber().unwrap() as int).syscall_result
                matches Some(v) ==> (r == SyscallWake::Done(v) && final(self).fibers_view()
                == old(self).fibers_view().update(
                old(self).running_fiber().unwrap() as int,
                Some(
                    FiberState {
                        syscall_result: None,
                        ..old(self).fiber(old(self).running_fiber().unwrap() as int)
                    },
                ),
            )),
            old(self).fiber(old(self).running_fiber().unwrap() as int).syscall_result
                is None ==> (r == SyscallWake::CancelInFlight(
                old(self).running_fiber().unwrap() as u64,
            ) && final(self).fibers_view() == old(self).fibers_view()),
    {
        let rr = self.running.unwrap();
        let pending = self.fibers[rr].as_ref().unwrap().syscall_result.is_some();
        if !pending {
            return SyscallWake::CancelInFlight(rr as u64);
        }
        match self.take_syscall_result() {
            Some(v) => SyscallWake::Done(v),
            None => SyscallWake::CancelInFlight(rr as u64),
        }
    }

    /// Deliver one kernel completion: a completion tagged with the cancel
    /// sentinel is discarded; any other identifies the awaiting fiber by its
    /// user data, which receives the result and is scheduled.
    pub fn deliver_completion(&mut self, user_data: u64, result: i32)
        requires
            old(self).wf(),
            user_data == CANCEL_USER_DATA || (user_data < old(self).fibers_view().len()
                && old(self).live(user_data as int) && old(self).fiber(
                user_data as int,
            ).syscall_result is None),
        ensures
            final(self).wf(),
            user_data == CANCEL_USER_DATA ==> *final(self) == *old(self),
            user_data != CANCEL_USER_DATA ==> {
                &&& final(self).fibers_view() == old(self).fibers_view().update(
                    user_data as int,
                    Some(
                        FiberState {
                            syscall_result: Some(result),
                            ..old(self).fiber(user_data as int)
                        },
                    ),
                )
                &&& final(self).ready_q() == if old(self).ready_q().contains(
                    user_data as usize,
                ) {
                    old(self).ready_q()
                } else {
                    old(self).ready_q().push(user_data as usize)
                }
                &&& final(self).running_fiber() == old(self).running_fiber()
                &&& final(self).pool() == old(self).pool()
            },
    {
        if user_data == CANCEL_USER_DATA {
            return;
        }
        let f = user_data as usize;
        proof {
            vstd::std_specs::vec::axiom_spec_len(&self.fibers);
            assert(f as int == user_data as int);
        }
        if let Some(fs) = &mut self.fibers[f] {
            fs.syscall_result = Some(result);
        }
        proof {
            assert(self.fibers_view() =~= old(self).fibers_view().update(
                f as int,
                Some(
                    FiberState {
                        syscall_result: Some(result),
                        ..old(self).fiber(f as int)
                    },
                ),
            ));
            lemma_wf_update_fiber(
                *old(self),
                *self,
                f as int,
                FiberState { syscall_result: Some(result), ..old(self).fiber(f as int) },
            );
        }
        let waker = Waker { fiber: f };
        waker.schedule(self);
    }

    /// Pop the next ready fiber and make it the running one; `None` when the
    /// queue is empty and the shell must wait on the kernel instead.
    pub fn pop_next(&mut self) -> (r: Option<usize>)
        requires
            old(self).wf(),
        ensures
            final(self).wf(),
            final(self).fibers_view() == old(self).fibers_view(),
            final(self).pool() == old(self).pool(),
            old(self).ready_q().len() == 0 ==> r is None && final(self).ready_q() == old(self).ready_q() && final(self).running_fiber() == old(self).running_fiber(),
            old(self).ready_q().len() > 0 ==> {
                &&& r == Some(old(self).ready_q()[0])
                &&& final(self).ready_q() == old(self).ready_q().drop_first()
                &&& final(self).running_fiber() == Some(old(self).ready_q()[0])
            },
    {
        match self.ready.pop_front() {
            Some(f) => {
                self.running = Some(f);
                proof {
                    assert(old(self).live(old(self).ready_q()[0] as int));
                    assert(self.live(f as int));
                    assert forall|k: int| 0 <= k < self.ready_q().len() implies self.live(
                        #[trigger] self.ready_q()[k] as int,
                    ) by {
                        assert(self.ready_q()[k] == old(self).ready_q()[k + 1]);
                        assert(old(self).live(old(self).ready_q()[k + 1] as int));
                    }
                    assert forall|k1: int, k2: int|
                        0 <= k1 < k2 < self.ready_q().len() implies self.ready_q()[k1]
                        != self.ready_q()[k2] by {
                        assert(old(self).ready_q()[k1 + 1] != old(self).ready_q()[k2 + 1]);
                    }
                    lemma_wf_fiber_clauses(*old(self), *self);
                }
                Some(f)
            },
            None => {
                proof {
                    lemma_wf_same_views(*old(self), *self);
                }
                None
            },
        }
    }
}

/// The effect of detaching fiber `r` from its parent `p`: `r` leaves the
/// parent's child list (and nothing else in the table moves), and when the
/// parent had completed and `r` was its last child, the parent is scheduled.
pub open spec fn detach_spec(pre: Runtime, post: Runtime, r: usize, p: usize) -> bool {
    &&& post.fiber(p as int).children@.len() == pre.fiber(p as int).children@.len() - 1
    &&& (forall|x: usize|
        post.fiber(p as int).children@.contains(x) <==> (pre.fiber(
            p as int,
        ).children@.contains(x) && x != r))
    &&& (forall|j: int|
        pre.live(j) && j != p as int ==> post.fibers_view()[j] == pre.fibers_view()[j])
    &&& (forall|j: int| post.live(j) <==> pre.live(j))
    &&& post.fiber(p as int).parent == pre.fiber(p as int).parent
    &&& post.fiber(p as int).join_handle == pre.fiber(p as int).join_handle
    &&& post.fiber(p as int).syscall_result == pre.fiber(p as int).syscall_result
    &&& post.fiber(p as int).is_completed == pre.fiber(p as int).is_completed
    &&& post.fiber(p as int).is_cancelled == pre.fiber(p as int).is_cancelled
    &&& post.fiber(p as int).panicked == pre.fiber(p as int).panicked
    &&& post.fiber(p as int).has_stack == pre.fiber(p as int).has_stack
    &&& post.fiber(p as int).depth == pre.fiber(p as int).depth
    &&& post.ready_q() == if pre.fiber(p as int).is_completed && pre.fiber(
        p as int,
    ).children@.len() == 1 && !pre.ready_q().contains(p) {
        pre.ready_q().push(p)
    } else {
        pre.ready_q()
    }
}

/// Well-formedness survives replacing one fiber's bookkeeping fields, as
/// long as its tree links stay put and a completed, stackless fiber stays
/// childless.
proof fn lemma_wf_update_fiber(pre: Runtime, post: Runtime, i: int, f: FiberState)
    requires
        pre.wf(),
        pre.live(i),
        f.children == pre.fiber(i).children,
        f.parent == pre.fiber(i).parent,
        f.depth == pre.fiber(i).depth,
        f.is_completed && !f.has_stack ==> f.children@.len() == 0,
        post.fibers_view() == pre.fibers_view().update(i, Some(f)),
        post.ready_q() == pre.ready_q(),
        post.running_fiber() == pre.running_fiber(),
    ensures
        post.wf(),
{
    assert forall|j: int| post.live(j) == pre.live(j) by {
        if 0 <= j < pre.fibers_view().len() && j != i {
            assert(post.fibers_view()[j] == pre.fibers_view()[j]);
        }
    }
    assert forall|k: int| 0 <= k < post.ready_q().len() implies post.live(
        #[trigger] post.ready_q()[k] as int,
    ) by {
        assert(pre.live(pre.ready_q()[k] as int));
    }
    assert forall|k1: int, k2: int|
        0 <= k1 < k2 < post.ready_q().len() implies post.ready_q()[k1] != post.ready_q()[k2] by {
        assert(pre.ready_q()[k1] != pre.ready_q()[k2]);
    }
    assert forall|j: int, k: int|
        post.live(j) && 0 <= k < post.fiber(j).children@.len() implies {
            let c = #[trigger] post.fiber(j).children@[k] as int;
            &&& post.live(c)
            &&& post.fiber(c).parent == Some(j as usize)
        } by {
        assert(pre.live(j));
        if j != i {
            assert(post.fiber(j) == pre.fiber(j));
        }
        assert(pre.fiber(j).children@[k] == post.fiber(j).children@[k]);
        assert(pre.live(pre.fiber(j).children@[k] as int));
    }
    assert forall|j: int, k1: int, k2: int|
        post.live(j) && 0 <= k1 < k2 < post.fiber(j).children@.len() implies #[trigger] post.fiber(
            j,
        ).children@[k1] != #[trigger] post.fiber(j).children@[k2] by {
        assert(pre.live(j));
        assert(pre.fiber(j).children@[k1] != pre.fiber(j).children@[k2]);
    }
    assert forall|j: int|
        #[trigger] post.live(j) && post.fiber(j).is_completed && !post.fiber(j).has_stack
            implies post.fiber(j).children@.len() == 0 by {
        assert(pre.live(j));
    }
}

/// Two states with the same views are equally well-formed.
proof fn lemma_wf_same_views(pre: Runtime, post: Runtime)
    requires
        pre.wf(),
        post.fibers_view() == pre.fibers_view(),
        post.ready_q() == pre.ready_q(),
        post.running_fiber() == pre.running_fiber(),
    ensures
        post.wf(),
{
    assert forall|k: int| 0 <= k < post.ready_q().len() implies post.live(
        #[trigger] post.ready_q()[k] as int,
    ) by {
        assert(pre.live(pre.ready_q()[k] as int));
    }
    assert forall|k1: int, k2: int|
        0 <= k1 < k2 < post.ready_q().len() implies post.ready_q()[k1] != post.ready_q()[k2] by {
        assert(pre.ready_q()[k1] != pre.ready_q()[k2]);
    }
    lemma_wf_fiber_clauses(pre, post);
}

/// Clearing the running fiber keeps well-formedness.
proof fn lemma_wf_clear_running(pre: Runtime, post: Runtime)
    requires
        pre.wf(),
        post.fibers_view() == pre.fibers_view(),
        post.ready_q() == pre.ready_q(),
        post.running_fiber() is None,
    ensures
        post.wf(),
{
    assert forall|k: int| 0 <= k < post.ready_q().len() implies post.live(
        #[trigger] post.ready_q()[k] as int,
    ) by {
        assert(pre.live(pre.ready_q()[k] as int));
    }
    assert forall|k1: int, k2: int|
        0 <= k1 < k2 < post.ready_q().len() implies post.ready_q()[k1] != post.ready_q()[k2] by {
        assert(pre.ready_q()[k1] != pre.ready_q()[k2]);
    }
    lemma_wf_fiber_clauses(pre, post);
}

/// Removing one occurrence of `r` from `p`'s child list (by swapping in the
/// last entry) keeps well-formedness, and yields exactly the old set of
/// children minus `r`.
proof fn lemma_wf_after_detach(pre: Runtime, post: Runtime, p: usize, r: usize, k: int)
    requires
        pre.wf(),
        pre.live(p as int),
        0 <= k < pre.fiber(p as int).children@.len(),
        pre.fiber(p as int).children@[k] == r,
        post.fibers_view() == pre.fibers_view().update(
            p as int,
            Some(
                FiberState {
                    children: post.fiber(p as int).children,
                    ..pre.fiber(p as int)
                },
            ),
        ),
        post.fiber(p as int).children@ == pre.fiber(p as int).children@.update(
            k,
            pre.fiber(p as int).children@.last(),
        ).drop_last(),
        post.ready_q() == pre.ready_q(),
        post.running_fiber() == pre.running_fiber(),
    ensures
        post.wf(),
        post.fiber(p as int).children@.len() == pre.fiber(p as int).children@.len() - 1,
        forall|x: usize|
            post.fiber(p as int).children@.contains(x) <==> (pre.fiber(
                p as int,
            ).children@.contains(x) && x != r),
{
    let pc = pre.fiber(p as int).children@;
    let qc = post.fiber(p as int).children@;
    assert forall|j: int| post.live(j) == pre.live(j) by {
        if 0 <= j < pre.fibers_view().len() && j != p as int {
            assert(post.fibers_view()[j] == pre.fibers_view()[j]);
        }
    }
    assert forall|k1: int, k2: int|
        post.live(p as int) && 0 <= k1 < k2 < qc.len() implies qc[k1] != qc[k2] by {
        let v1 = if k1 == k {
            pc.len() - 1
        } else {
            k1
        };
        let v2 = if k2 == k {
            pc.len() - 1
        } else {
            k2
        };
        assert(qc[k1] == pc[v1]);
        assert(qc[k2] == pc[v2]);
    }
    assert forall|k1: int, k2: int|
        0 <= k1 < k2 < post.ready_q().len() implies post.ready_q()[k1] != post.ready_q()[k2] by {
        assert(pre.ready_q()[k1] != pre.ready_q()[k2]);
    }
    assert forall|kk: int| 0 <= kk < post.ready_q().len() implies post.live(
        #[trigger] post.ready_q()[kk] as int,
    ) by {
        assert(pre.live(pre.ready_q()[kk] as int));
    }
    assert forall|j: int, kk: int|
        post.live(j) && 0 <= kk < post.fiber(j).children@.len() implies {
            let c = #[trigger] post.fiber(j).children@[kk] as int;
            &&& post.live(c)
            &&& post.fiber(c).parent == Some(j as usize)
        } by {
        assert(pre.live(j));
        if j == p as int {
            if kk == k {
                assert(qc[kk] == pc[pc.len() - 1]);
                assert(pre.live(pc[pc.len() - 1] as int));
            } else {
                assert(qc[kk] == pc[kk]);
                assert(pre.live(pc[kk] as int));
            }
        } else {
            assert(post.fiber(j) == pre.fiber(j));
            assert(pre.live(pre.fiber(j).children@[kk] as int));
        }
    }
    assert forall|j: int|
        #[trigger] post.live(j) && post.fiber(j).is_completed && !post.fiber(j).has_stack
            implies post.fiber(j).children@.len() == 0 by {
        assert(pre.live(j));
        if j == p as int {
            assert(pre.fiber(j).children@.len() == 0);
        }
    }
    assert forall|x: usize|
        qc.contains(x) <==> (pc.contains(x) && x != r) by {
        if qc.contains(x) {
            let w = choose|w: int| 0 <= w < qc.len() && qc[w] == x;
            let v: int = if w == k {
                pc.len() - 1
            } else {
                w
            };
            assert(pc[v] == x);
            if x == r {
                assert(pc[v] == pc[k]);
                assert(v != k);
                assert(false);
            }
            assert(pc.contains(x));
        }
        if pc.contains(x) && x != r {
            let v = choose|v: int| 0 <= v < pc.len() && pc[v] == x;
            assert(v != k);
            if v == pc.len() - 1 {
                assert(qc[k] == x);
                assert(qc.contains(x));
            } else {
                assert(qc[v] == x);
                assert(qc.contains(x));
            }
        }
    }
}

/// A completed fiber surrenders its stack only once its children are gone:
/// in every well-formed state, a completed fiber whose stack has been
/// reclaimed has an empty child set.
pub proof fn lemma_no_children_at_stack_reclaim(rt: Runtime, i: int)
    requires
        rt.wf(),
        rt.live(i),
        rt.fiber(i).is_completed,
        !rt.fiber(i).has_stack,
    ensures
        rt.fiber(i).children@.len() == 0,
{
}

/// Classify a raw kernel completion result: a non-negative value is the
/// successful count, the cancellation error number reports the operation
/// cancelled, and any other negative value is the negated OS error number.
pub fn read_syscall_result(result: i32) -> (r: Result<u32, crate::Error<i32>>)
    requires
        result > i32::MIN,
    ensures
        result >= 0 ==> r == Result::<u32, crate::Error<i32>>::Ok(result as u32),
        result < 0 && result == -ECANCELED ==> r == Result::<u32, crate::Error<i32>>::Err(
            crate::Error::Cancelled,
        ),
        result < 0 && result != -ECANCELED ==> r == Result::<u32, crate::Error<i32>>::Err(
            crate::Error::Original(-result as i32),
        ),
{
    if result >= 0 {
        Ok(result as u32)
    } else {
        if -result == ECANCELED {
            return Err(crate::Error::Cancelled);
        }
        Err(crate::Error::Original(-result))
    }
}

impl Runtime {
    /// Whether index `i` names an existing fiber.
    pub fn fiber_exists(&self, i: usize) -> (b: bool)
        ensures
            b == self.live(i as int),
    {
        i < self.fibers.len() && self.fibers[i].is_some()
    }

    /// Whether the fiber's closure has returned or panicked.
    pub fn fiber_is_completed(&self, i: usize) -> (b: bool)
        requires
            self.live(i as int),
        ensures
            b == self.fiber(i as int).is_completed,
    {
        self.fibers[i].as_ref().unwrap().is_completed
    }

    /// Whether the fiber carries the cancelled flag.
    pub fn fiber_is_cancelled(&self, i: usize) -> (b: bool)
        requires
            self.live(i as int),
        ensures
            b == self.fiber(i as int).is_cancelled,
    {
        self.fibers[i].as_ref().unwrap().is_cancelled
    }

    /// How many live children the fiber has.
    pub fn fiber_child_count(&self, i: usize) -> (n: usize)
        requires
            self.live(i as int),
        ensures
            n == self.fiber(i as int).children@.len(),
    {
        self.fibers[i].as_ref().unwrap().children.len()
    }

    /// The fiber that spawned this one, `None` for the root.
    pub fn fiber_parent(&self, i: usize) -> (p: Option<usize>)
        requires
            self.live(i as int),
        ensures
            p == self.fiber(i as int).parent,
    {
        self.fibers[i].as_ref().unwrap().parent
    }

    /// Whether a syscall result is already deposited for the fiber.
    pub fn fiber_has_pending_result(&self, i: usize) -> (b: bool)
        requires
            self.live(i as int),
        ensures
            b == (self.fiber(i as int).syscall_result is Some),
    {
        self.fibers[i].as_ref().unwrap().syscall_result.is_some()
    }

    /// Whether the fiber still owns its stack region.
    pub fn fiber_has_stack(&self, i: usize) -> (b: bool)
        requires
            self.live(i as int),
        ensures
            b == self.fiber(i as int).has_stack,
    {
        self.fibers[i].as_ref().unwrap().has_stack
    }

    /// How many fibers wait in the ready queue.
    pub fn ready_len(&self) -> (n: usize)
        ensures
            n == self.ready_q().len(),
    {
        self.ready.len()
    }

    /// The currently running fiber, if any.
    pub fn running_index(&self) -> (r: Option<usize>)
        ensures
            r == self.running_fiber(),
    {
        self.running
    }
}

impl JoinHandle {
    /// The index of the fiber this handle refers to.
    pub fn fiber_index(&self) -> (i: usize)
        ensures
            i as int == self.fiber(),
    {
        self.fiber
    }
}

} // verus!
