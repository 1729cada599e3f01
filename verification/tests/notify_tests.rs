use uringy::sync::notify::Notify;
use uringy::sync::oneshot_channel::ChannelHub;
use uringy::sync::oneshot_channel::RecvPoll;
use uringy::sync::oneshot_channel::oneshot_channel;
use uringy::sync::oneshot_notify::NotifyHub;
use uringy::sync::oneshot_notify::oneshot_notify;

#[test]
fn oneshot_notify_pending_initially() {
    let mut hub = NotifyHub::new();
    let (_notifier, waiter) = oneshot_notify(&mut hub);

    assert!(!waiter.poll(&mut hub, 0));
}

#[test]
fn ready_after_notify() {
    let mut hub = NotifyHub::new();
    let (notifier, waiter) = oneshot_notify(&mut hub);

    notifier.notify(&mut hub);

    assert!(waiter.poll(&mut hub, 0));
}

#[test]
fn pending_after_notifier_drop() {
    let mut hub = NotifyHub::new();
    let (notifier, waiter) = oneshot_notify(&mut hub);

    // The waiter is unaware of this.
    drop(notifier);

    assert!(!waiter.poll(&mut hub, 0));
}

#[test]
fn oneshot_notify_unaware_of_dropped_waiter() {
    let mut hub = NotifyHub::new();
    let (notifier, waiter) = oneshot_notify(&mut hub);

    drop(waiter);

    // Shouldn't panic.
    notifier.notify(&mut hub);
}

#[test]
fn notify_wakes_the_parked_waiter() {
    let mut hub = NotifyHub::new();
    let (notifier, waiter) = oneshot_notify(&mut hub);

    assert!(!waiter.poll(&mut hub, 42));
    let woken = notifier.notify(&mut hub);

    assert_eq!(woken, Some(42));
    assert!(waiter.poll(&mut hub, 42));
}

#[test]
fn notify_pending_initially() {
    let mut notify = Notify::new();
    let waiter = notify.waiter();

    assert!(!notify.poll(&waiter, 0));
}

#[test]
fn pending_if_created_after_notify() {
    let mut notify = Notify::new();

    notify.notify_one();
    notify.notify_all();

    let waiter = notify.waiter();
    assert!(!notify.poll(&waiter, 0));
}

#[test]
fn ready_after_notify_one() {
    let mut notify = Notify::new();
    let waiter1 = notify.waiter();
    let waiter2 = notify.waiter();

    notify.notify_one();

    assert!(notify.poll(&waiter1, 0));
    assert!(!notify.poll(&waiter2, 0));
}

#[test]
fn ready_after_notify_all() {
    let mut notify = Notify::new();
    let waiter1 = notify.waiter();
    let waiter2 = notify.waiter();

    notify.notify_all();

    assert!(notify.poll(&waiter1, 0));
    assert!(notify.poll(&waiter2, 0));
}

#[test]
fn notify_unaware_of_dropped_waiter() {
    let mut notify = Notify::new();
    let waiter1 = notify.waiter();
    let waiter2 = notify.waiter();

    // The first waiter is dropped without ever parking; notify_one still
    // uses up its slot, not the second waiter's.
    drop(waiter1);
    notify.notify_one();

    assert!(!notify.poll(&waiter2, 0));
}

#[test]
fn receives_nothing_when_channel_closed() {
    let mut hub = ChannelHub::<()>::new();
    let (sender, receiver) = oneshot_channel(&mut hub);

    sender.close(&mut hub);
    let message = receiver.poll(&mut hub, 0);

    assert!(matches!(message, RecvPoll::Ready(None)));
}

#[test]
fn waits_to_receive() {
    let mut hub = ChannelHub::new();
    let (sender, receiver) = oneshot_channel(&mut hub);

    let initially = receiver.poll(&mut hub, 3);
    let woken = sender.send(&mut hub, 1);
    let eventually = receiver.poll(&mut hub, 3);

    assert!(matches!(initially, RecvPoll::Pending));
    assert_eq!(woken, Some(3));
    assert!(matches!(eventually, RecvPoll::Ready(Some(1))));
}
