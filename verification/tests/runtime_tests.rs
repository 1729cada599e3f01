use uringy::Error;
use uringy::runtime::ECANCELED;
use uringy::runtime::JoinPoll;
use uringy::runtime::JoinWake;
use uringy::runtime::Runtime;
use uringy::runtime::cancel;
use uringy::runtime::cancel_propagating;
use uringy::runtime::is_cancelled;
use uringy::runtime::read_syscall_result;
use uringy::runtime::spawn;
use uringy::runtime::start;
use uringy::runtime::yield_now;
use uringy::runtime::SyscallWake;

/// Run the currently running fiber through a clean completion, the way its
/// trampoline would: mark it returned, wake a joiner or escalate a panic,
/// detach from the parent, and leave its stack.
fn complete_running_child(rt: &mut Runtime, panicked: bool) {
    rt.fiber_return(panicked);
    assert!(!rt.has_live_children());
    rt.wake_joiner_or_escalate();
    rt.detach_from_parent();
    rt.fiber_exit();
}

#[test]
fn returns_output() {
    let mut rt = Runtime::new();
    let root = start(&mut rt);

    // The root's closure returns; its output sits in the stack-top cell.
    rt.fiber_return(false);
    assert!(!rt.has_live_children());
    rt.wake_joiner_or_escalate();
    rt.root_exit();

    assert!(rt.fiber_is_completed(root));
    assert!(!rt.fiber_has_stack(root));
    assert_eq!(rt.stack_pool_len(), 1);
}

#[test]
fn works_several_times() {
    for _ in 0..2 {
        let mut rt = Runtime::new();
        let root = start(&mut rt);
        rt.fiber_return(false);
        rt.wake_joiner_or_escalate();
        rt.root_exit();
        assert!(rt.fiber_is_completed(root));
    }
}

#[test]
fn initially_not_cancelled() {
    let mut rt = Runtime::new();
    start(&mut rt);

    assert!(!is_cancelled(&rt));
}

#[test]
fn cancelled_after_cancelling_self() {
    let mut rt = Runtime::new();
    start(&mut rt);

    cancel(&mut rt);

    // The running fiber observes its own flag; it is never queued for it.
    assert!(is_cancelled(&rt));
    assert_eq!(rt.ready_len(), 0);
}

#[test]
fn returns_child_output() {
    let mut rt = Runtime::new();
    start(&mut rt);
    let handle = spawn(&mut rt);
    let child = handle.fiber_index();

    // Joining before the child ran installs the root as the waiter.
    assert!(matches!(handle.join(&mut rt), JoinPoll::Park));

    // The child runs to completion and wakes the joiner.
    assert_eq!(rt.pop_next(), Some(child));
    complete_running_child(&mut rt, false);

    // The root resumes and reads the output.
    assert_eq!(rt.pop_next(), Some(0));
    assert!(matches!(handle.join_wake(&rt), JoinWake::Output));

    handle.drop_handle(&mut rt);
    assert!(!rt.fiber_exists(child));
}

#[test]
fn returns_non_child_output() {
    let mut rt = Runtime::new();
    start(&mut rt);
    let other = spawn(&mut rt);
    let handle = spawn(&mut rt);

    assert!(matches!(handle.join(&mut rt), JoinPoll::Park));

    // The first child completes with nobody joining yet.
    assert_eq!(rt.pop_next(), Some(other.fiber_index()));
    complete_running_child(&mut rt, false);

    // The second child joins the already-completed first one directly.
    assert_eq!(rt.pop_next(), Some(handle.fiber_index()));
    assert!(matches!(other.join(&mut rt), JoinPoll::Output));
    other.drop_handle(&mut rt);
    complete_running_child(&mut rt, false);

    assert_eq!(rt.pop_next(), Some(0));
    assert!(matches!(handle.join_wake(&rt), JoinWake::Output));
    handle.drop_handle(&mut rt);
}

#[test]
fn returns_already_completed_output() {
    let mut rt = Runtime::new();
    start(&mut rt);
    let handle = spawn(&mut rt);
    yield_now(&mut rt);

    assert_eq!(rt.pop_next(), Some(handle.fiber_index()));
    complete_running_child(&mut rt, false);

    assert_eq!(rt.pop_next(), Some(0));
    assert!(matches!(handle.join(&mut rt), JoinPoll::Output));
    handle.drop_handle(&mut rt);
}

#[test]
fn mod_catches_panic() {
    let mut rt = Runtime::new();
    start(&mut rt);
    let handle = spawn(&mut rt);

    assert!(matches!(handle.join(&mut rt), JoinPoll::Park));
    assert_eq!(rt.pop_next(), Some(handle.fiber_index()));

    // The child's closure panics; the trampoline captures it and completes.
    complete_running_child(&mut rt, true);

    // The joiner reads the captured panic; nobody is cancelled.
    assert_eq!(rt.pop_next(), Some(0));
    assert!(matches!(handle.join_wake(&rt), JoinWake::Output));
    assert!(!is_cancelled(&rt));
    handle.drop_handle(&mut rt);
}

#[test]
fn mod_waits_for_dropped_child() {
    let mut rt = Runtime::new();
    let root = start(&mut rt);
    let handle = spawn(&mut rt);
    let child = handle.fiber_index();

    handle.drop_handle(&mut rt);

    // The root completes but still has a live child: it parks.
    rt.fiber_return(false);
    assert!(rt.has_live_children());

    // The child runs; detaching from the completed parent schedules it.
    assert_eq!(rt.pop_next(), Some(child));
    rt.fiber_return(false);
    rt.wake_joiner_or_escalate();
    rt.detach_from_parent();
    assert_eq!(rt.ready_len(), 1);
    rt.fiber_exit();

    // The dropped child's slot and stack are reclaimed by its own exit.
    assert!(!rt.fiber_exists(child));
    assert_eq!(rt.stack_pool_len(), 1);

    assert_eq!(rt.pop_next(), Some(root));
    rt.wake_joiner_or_escalate();
    rt.root_exit();
    assert_eq!(rt.stack_pool_len(), 2);
}

#[test]
fn mod_waits_for_forgotten_child() {
    let mut rt = Runtime::new();
    let root = start(&mut rt);
    let handle = spawn(&mut rt);
    let child = handle.fiber_index();

    // The handle is forgotten: never dropped, never joined.
    std::mem::forget(handle);

    rt.fiber_return(false);
    assert!(rt.has_live_children());

    assert_eq!(rt.pop_next(), Some(child));
    rt.fiber_return(false);
    rt.wake_joiner_or_escalate();
    rt.detach_from_parent();
    rt.fiber_exit();

    // Nobody can reclaim the forgotten child's slot or stack.
    assert!(rt.fiber_exists(child));
    assert_eq!(rt.stack_pool_len(), 0);

    assert_eq!(rt.pop_next(), Some(root));
}

#[test]
fn child_initially_not_cancelled() {
    let mut rt = Runtime::new();
    start(&mut rt);
    let handle = spawn(&mut rt);

    assert!(!rt.fiber_is_cancelled(handle.fiber_index()));
}

#[test]
fn child_starts_cancelled_if_parent_cancelled() {
    let mut rt = Runtime::new();
    start(&mut rt);
    cancel(&mut rt);

    let handle = spawn(&mut rt);

    assert!(rt.fiber_is_cancelled(handle.fiber_index()));
}

#[test]
fn child_cancelled_after_cancelling_self() {
    let mut rt = Runtime::new();
    start(&mut rt);
    let handle = spawn(&mut rt);

    assert_eq!(rt.pop_next(), Some(handle.fiber_index()));
    cancel(&mut rt);

    assert!(rt.fiber_is_cancelled(handle.fiber_index()));
    assert!(!rt.fiber_is_cancelled(0));
}

#[test]
fn parent_propagates_cancel_to_children() {
    let mut rt = Runtime::new();
    start(&mut rt);
    let handle = spawn(&mut rt);

    cancel(&mut rt);

    assert!(rt.fiber_is_cancelled(0));
    assert!(rt.fiber_is_cancelled(handle.fiber_index()));
}

#[test]
fn child_cancelled_after_cancelling_handle() {
    let mut rt = Runtime::new();
    start(&mut rt);
    let handle = spawn(&mut rt);

    handle.cancel(&mut rt);

    assert!(rt.fiber_is_cancelled(handle.fiber_index()));
    assert!(!is_cancelled(&rt));
}

#[test]
fn cancelled_after_child_cancel_propagating_self() {
    let mut rt = Runtime::new();
    start(&mut rt);
    let handle = spawn(&mut rt);

    assert_eq!(rt.pop_next(), Some(handle.fiber_index()));
    cancel_propagating(&mut rt);

    assert!(rt.fiber_is_cancelled(0));
    assert!(rt.fiber_is_cancelled(handle.fiber_index()));
}

#[test]
fn cancelled_after_cancel_propagating_handle() {
    let mut rt = Runtime::new();
    start(&mut rt);
    let handle = spawn(&mut rt);

    handle.cancel_propagating(&mut rt);

    assert!(rt.fiber_is_cancelled(0));
    assert!(rt.fiber_is_cancelled(handle.fiber_index()));
}

#[test]
fn cancelled_after_dropped_child_panic() {
    let mut rt = Runtime::new();
    start(&mut rt);
    let handle = spawn(&mut rt);
    let child = handle.fiber_index();
    handle.drop_handle(&mut rt);

    yield_now(&mut rt);
    assert_eq!(rt.pop_next(), Some(child));

    // The dropped child panics: with nobody to read the output, the panic
    // escalates by cancelling from the containment boundary (the root).
    complete_running_child(&mut rt, true);

    assert!(rt.fiber_is_cancelled(0));
}

#[test]
fn to_same_fiber() {
    let mut rt = Runtime::new();
    let root = start(&mut rt);

    yield_now(&mut rt);

    assert_eq!(rt.pop_next(), Some(root));
}

#[test]
fn to_other_fiber() {
    let mut rt = Runtime::new();
    let root = start(&mut rt);
    let handle = spawn(&mut rt);

    // Yielding runs the earlier-spawned sibling strictly first.
    yield_now(&mut rt);

    assert_eq!(rt.pop_next(), Some(handle.fiber_index()));
    complete_running_child(&mut rt, false);
    assert_eq!(rt.pop_next(), Some(root));
}

#[test]
fn tries_to_stop_active_syscall() {
    let mut rt = Runtime::new();
    let root = start(&mut rt);
    let handle = spawn(&mut rt);
    let child = handle.fiber_index();
    yield_now(&mut rt);

    // The child starts a sleep: submit tagged with its index, then park.
    assert_eq!(rt.pop_next(), Some(child));
    let user_data = rt.syscall_begin().unwrap();
    assert_eq!(user_data, child as u64);

    // Back on the root: cancel the sleeping child.
    assert_eq!(rt.pop_next(), Some(root));
    handle.cancel(&mut rt);

    // The child wakes with no result and finds itself cancelled: the
    // decision is to submit an asynchronous cancel for the in-flight
    // operation and park again.
    assert_eq!(rt.pop_next(), Some(child));
    assert!(is_cancelled(&rt));
    assert!(matches!(rt.syscall_after_park(), SyscallWake::CancelInFlight(ud) if ud == user_data));

    // The kernel delivers the cancellation outcome.
    rt.deliver_completion(user_data, -ECANCELED);
    assert_eq!(rt.pop_next(), Some(child));
    let raw = match rt.syscall_after_park() {
        SyscallWake::Done(raw) => raw,
        SyscallWake::CancelInFlight(_) => panic!("the result was delivered"),
    };
    assert_eq!(read_syscall_result(raw), Err(Error::Cancelled));
}

#[test]
fn immediately_fails_new_syscall() {
    let mut rt = Runtime::new();
    start(&mut rt);
    cancel(&mut rt);

    // A cancelled fiber's syscall is refused before submission.
    assert_eq!(rt.syscall_begin(), None);
}

#[test]
fn nop_syscall_completion() {
    let mut rt = Runtime::new();
    let root = start(&mut rt);

    let user_data = rt.syscall_begin().unwrap();
    rt.deliver_completion(user_data, 0);

    assert_eq!(rt.pop_next(), Some(root));
    let raw = rt.take_syscall_result().unwrap();
    assert_eq!(read_syscall_result(raw), Ok(0));
}

#[test]
fn cancel_completion_with_sentinel_is_discarded() {
    let mut rt = Runtime::new();
    start(&mut rt);

    rt.deliver_completion(uringy::runtime::CANCEL_USER_DATA, -ECANCELED);

    assert_eq!(rt.ready_len(), 0);
}

#[test]
fn syscall_results_classify_errors() {
    assert_eq!(read_syscall_result(17), Ok(17));
    assert_eq!(read_syscall_result(-ECANCELED), Err(Error::Cancelled));
    assert_eq!(read_syscall_result(-2), Err(Error::Original(2)));
}

#[test]
fn joined_child_reuses_stack() {
    let mut rt = Runtime::new();
    start(&mut rt);

    let first = spawn(&mut rt);
    assert_eq!(rt.stack_pool_len(), 0);
    assert!(matches!(first.join(&mut rt), JoinPoll::Park));
    assert_eq!(rt.pop_next(), Some(first.fiber_index()));
    let first_index = first.fiber_index();
    complete_running_child(&mut rt, false);
    assert_eq!(rt.pop_next(), Some(0));
    first.drop_handle(&mut rt);
    assert_eq!(rt.stack_pool_len(), 1);

    // The next spawn takes the pooled stack and the freed slot.
    let second = spawn(&mut rt);
    assert_eq!(rt.stack_pool_len(), 0);
    assert_eq!(second.fiber_index(), first_index);
}

#[test]
fn cancelling_twice_changes_nothing_more() {
    let mut rt = Runtime::new();
    start(&mut rt);
    let handle = spawn(&mut rt);

    handle.cancel(&mut rt);
    let ready_after_first = rt.ready_len();
    handle.cancel(&mut rt);

    assert!(rt.fiber_is_cancelled(handle.fiber_index()));
    assert_eq!(rt.ready_len(), ready_after_first);
}

#[test]
fn join_reports_cancelled_joiner() {
    let mut rt = Runtime::new();
    start(&mut rt);
    let a = spawn(&mut rt);
    let b = spawn(&mut rt);

    // Only the first sibling's subtree is cancelled.
    a.cancel(&mut rt);

    // That sibling runs and tries to join the other, uncancelled one:
    // instead of waiting it gives up with a cancellation right away.
    assert_eq!(rt.pop_next(), Some(a.fiber_index()));
    assert!(matches!(b.join(&mut rt), JoinPoll::Cancelled));
}

#[test]
fn cancel_reaches_grandchildren() {
    let mut rt = Runtime::new();
    start(&mut rt);
    let child = spawn(&mut rt);

    // The child runs and spawns its own child, then cancels from the
    // containment boundary: the whole tree is cancelled, down to the
    // grandchild.
    assert_eq!(rt.pop_next(), Some(child.fiber_index()));
    let grandchild = spawn(&mut rt);
    cancel_propagating(&mut rt);

    assert!(rt.fiber_is_cancelled(0));
    assert!(rt.fiber_is_cancelled(child.fiber_index()));
    assert!(rt.fiber_is_cancelled(grandchild.fiber_index()));
}

#[test]
fn park_with_self_schedule_equals_yield() {
    // Driving one runtime through `yield_now` and a second through
    // `park`'s waker handed straight back to `schedule` leaves the two in
    // identical observable states.
    let mut yielded = Runtime::new();
    start(&mut yielded);
    spawn(&mut yielded);
    yield_now(&mut yielded);

    let mut parked = Runtime::new();
    start(&mut parked);
    spawn(&mut parked);
    let waker = uringy::runtime::park_waker(&parked);
    waker.schedule(&mut parked);

    assert_eq!(yielded.ready_len(), parked.ready_len());
    assert_eq!(yielded.running_index(), parked.running_index());
    loop {
        let a = yielded.pop_next();
        let b = parked.pop_next();
        assert_eq!(a, b);
        if a.is_none() {
            break;
        }
    }
}

#[test]
fn cancel_reaches_children_hidden_behind_a_completed_parent() {
    let mut rt = Runtime::new();
    start(&mut rt);
    let child = spawn(&mut rt);
    yield_now(&mut rt);

    // The child runs, spawns its own child, and completes; completion
    // pre-sets its cancelled flag while it parks waiting for the
    // grandchild.
    assert_eq!(rt.pop_next(), Some(child.fiber_index()));
    let grandchild = spawn(&mut rt);
    rt.fiber_return(false);
    assert!(rt.has_live_children());
    assert!(rt.fiber_is_cancelled(child.fiber_index()));

    // Cancelling the root must still reach the grandchild below the
    // completed (and therefore already-flagged) parent.
    assert_eq!(rt.pop_next(), Some(0));
    cancel(&mut rt);

    assert!(rt.fiber_is_cancelled(0));
    assert!(rt.fiber_is_cancelled(grandchild.fiber_index()));
}
